//! The sandbox layout, and the command line that sets it up with bubblewrap.

use crate::launch::FailureKind;
use crate::sys::{errnos, open_flags};
use crate::text;
use crate::text::{chars_of, same, signed_decimal};
use vstd::prelude::*;
use vstd::string::*;

verus! {

/// Where bubblewrap is installed.
pub const BWRAP: &'static str = "/usr/bin/bwrap";

/// What to say of a stream path that contains a NUL.
pub const NUL_PATH: &'static str = "path contains NUL";

/// How `/proc` appears inside the sandbox.
///
/// procfs lists the tasks of the PID namespace it was mounted in, so binding
/// the host `/proc` shows every host PID and command line to the sandbox, even
/// though the sandbox has its own PID namespace. A fresh procfs (bwrap
/// `--proc`) shows only the sandbox's tree. The kernel refuses to mount one
/// when the existing `/proc` has locked submounts, such as the masked
/// `/proc/*` paths Docker adds (the `mount_too_revealing` check).
#[derive(Debug, Clone, Copy, PartialEq, Eq, Structural)]
pub enum ProcMode {
    /// Mount a fresh procfs if a probe says the kernel allows it; otherwise
    /// bind the host `/proc` read-only and print a warning. Host PIDs stay
    /// hidden on bare metal and VMs, and hardened containers still work.
    Auto,
    /// Always mount a fresh procfs. bwrap fails if the kernel refuses.
    Fresh,
    /// Always bind the host `/proc` read-only and skip the probe. For
    /// masked-procfs containers, at the cost of showing host PIDs.
    Bind,
}

impl Default for ProcMode {
    fn default() -> (r: Self)
        ensures
            r == ProcMode::Auto,
    {
        ProcMode::Auto
    }
}

/// The sandbox layout and where the payload's standard streams point.
#[derive(Debug, Clone)]
pub struct SandboxSpec {
    /// Work dir, mounted at /box. `None` skips bwrap and runs the command
    /// directly on the host, which is only for trusted code.
    pub box_dir: Option<String>,
    pub writable: bool,
    /// Extra mounts as (src, dst, writable).
    pub extra_binds: Vec<(String, String, bool)>,
    /// A prepared cgroup directory to create run cgroups in. Takes precedence
    /// over TALLYRUN_CGROUP_DIR and the automatic setup in `cgroup::setup`.
    pub cgroup_dir: Option<String>,
    /// Load the `seccomp` denylist. bwrap installs it, so runs without a box
    /// never get a filter.
    pub seccomp: bool,
    pub proc_mode: ProcMode,
    pub stdin: String,
    pub stdout: String,
    pub stderr: String,
}

impl Default for SandboxSpec {
    fn default() -> (r: Self)
        ensures
            r.box_dir is None,
            !r.writable,
            r.extra_binds@.len() == 0,
            r.cgroup_dir is None,
            r.seccomp,
            r.proc_mode == ProcMode::Auto,
            r.stdin@ == "/dev/null"@,
            r.stdout@ == "/dev/null"@,
            r.stderr@ == "/dev/stderr"@,
    {
        SandboxSpec {
            box_dir: None,
            writable: false,
            extra_binds: Vec::new(),
            cgroup_dir: None,
            seccomp: true,
            proc_mode: ProcMode::Auto,
            stdin: "/dev/null".to_owned(),
            // The result goes to standard output, so the payload's output is
            // discarded unless the caller names a file.
            stdout: "/dev/null".to_owned(),
            stderr: "/dev/stderr".to_owned(),
        }
    }
}

/// The flag that binds a directory.
pub open spec fn bind_flag(writable: bool) -> Seq<char> {
    if writable {
        "--bind"@
    } else {
        "--ro-bind"@
    }
}

/// The arguments that lay out the sandbox's root.
pub open spec fn root_args() -> Seq<Seq<char>> {
    seq![
        BWRAP@,
        "--unshare-all"@,
        "--die-with-parent"@,
        "--ro-bind"@,
        "/usr"@,
        "/usr"@,
        "--symlink"@,
        "usr/lib"@,
        "/lib"@,
        "--symlink"@,
        "usr/lib64"@,
        "/lib64"@,
        "--symlink"@,
        "usr/bin"@,
        "/bin"@,
    ]
}

/// The arguments for `/proc`.
pub open spec fn proc_args(fresh_proc: bool) -> Seq<Seq<char>> {
    if fresh_proc {
        seq!["--proc"@, "/proc"@]
    } else {
        seq!["--ro-bind"@, "/proc"@, "/proc"@]
    }
}

/// The arguments for the devices.
pub open spec fn device_args() -> Seq<Seq<char>> {
    seq![
        "--dev-bind"@,
        "/dev/null"@,
        "/dev/null"@,
        "--dev-bind"@,
        "/dev/zero"@,
        "/dev/zero"@,
        "--dev-bind"@,
        "/dev/urandom"@,
        "/dev/urandom"@,
        "--dev-bind"@,
        "/dev/random"@,
        "/dev/random"@,
    ]
}

/// The arguments that load the filter from `fd`.
pub open spec fn seccomp_args(fd: Option<i32>) -> Seq<Seq<char>> {
    match fd {
        Some(n) => seq!["--seccomp"@, text::int_text(n as int)],
        None => seq![],
    }
}

/// The arguments that bind the work dir at /box.
pub open spec fn box_args(box_dir: Seq<char>, writable: bool) -> Seq<Seq<char>> {
    seq![bind_flag(writable), box_dir, "/box"@]
}

/// The arguments for the extra mounts, three each, in order.
pub open spec fn bind_args(binds: Seq<(String, String, bool)>) -> Seq<Seq<char>>
    decreases binds.len(),
{
    if binds.len() == 0 {
        seq![]
    } else {
        bind_args(binds.drop_last()) + seq![
            bind_flag(binds.last().2),
            binds.last().0@,
            binds.last().1@,
        ]
    }
}

/// The arguments for the working directory and the environment, up to the
/// payload.
pub open spec fn env_args() -> Seq<Seq<char>> {
    seq![
        "--tmpfs"@,
        "/tmp"@,
        "--chdir"@,
        "/box"@,
        "--clearenv"@,
        "--setenv"@,
        "PATH"@,
        "/usr/local/bin:/usr/bin:/bin"@,
        "--setenv"@,
        "HOME"@,
        "/tmp"@,
        "--setenv"@,
        "PYTHONPYCACHEPREFIX"@,
        "/tmp/pycache"@,
        "--setenv"@,
        "PYTHONHASHSEED"@,
        "0"@,
        "--setenv"@,
        "TMPDIR"@,
        "/tmp"@,
        "--"@,
    ]
}

/// What precedes the payload on bwrap's command line.
pub open spec fn wrapper_args(
    box_dir: Seq<char>,
    writable: bool,
    binds: Seq<(String, String, bool)>,
    seccomp_fd: Option<i32>,
    fresh_proc: bool,
) -> Seq<Seq<char>> {
    root_args() + proc_args(fresh_proc) + device_args() + seccomp_args(seccomp_fd) + box_args(
        box_dir,
        writable,
    ) + bind_args(binds) + env_args()
}

/// The command line to execute.
pub open spec fn command(
    argv: Seq<Seq<char>>,
    spec: SandboxSpec,
    seccomp_fd: Option<i32>,
    fresh_proc: bool,
) -> Seq<Seq<char>> {
    match spec.box_dir {
        None => argv,
        Some(dir) => wrapper_args(
            dir@,
            spec.writable,
            spec.extra_binds@,
            seccomp_fd,
            fresh_proc,
        ) + argv,
    }
}

/// Appends `items` to `cmd`.
fn push_all(cmd: &mut Vec<String>, items: &[&str])
    ensures
        text::texts(final(cmd)@) == text::texts(old(cmd)@) + text::str_texts(items@),
{
    let mut i: usize = 0;
    assert(text::texts(cmd@) + text::str_texts(items@.take(0)) =~= text::texts(cmd@));
    while i < items.len()
        invariant
            i <= items@.len(),
            text::texts(cmd@) == text::texts(old(cmd)@) + text::str_texts(items@.take(i as int)),
        decreases items@.len() - i,
    {
        let item = items[i].to_owned();
        let ghost before = cmd@;
        cmd.push(item);
        i = i + 1;
        assert(text::texts(cmd@) =~= text::texts(before).push(item@));
        assert(text::str_texts(items@.take(i as int)) =~= text::str_texts(items@.take(i - 1)).push(
            items@[i - 1]@,
        ));
        assert(text::texts(cmd@) =~= text::texts(old(cmd)@) + text::str_texts(
            items@.take(i as int),
        ));
    }
    assert(items@.take(i as int) =~= items@);
}

/// The flag that binds a directory.
fn flag_text(writable: bool) -> (r: &'static str)
    ensures
        r@ == bind_flag(writable),
{
    if writable {
        "--bind"
    } else {
        "--ro-bind"
    }
}

/// Appends the arguments for the extra mounts to `cmd`.
fn push_binds(cmd: &mut Vec<String>, binds: &Vec<(String, String, bool)>)
    ensures
        text::texts(final(cmd)@) == text::texts(old(cmd)@) + bind_args(binds@),
{
    let mut i: usize = 0;
    assert(text::texts(cmd@) + bind_args(binds@.take(0)) =~= text::texts(cmd@));
    while i < binds.len()
        invariant
            i <= binds@.len(),
            text::texts(cmd@) == text::texts(old(cmd)@) + bind_args(binds@.take(i as int)),
        decreases binds@.len() - i,
    {
        let bind = &binds[i];
        let ghost before = text::texts(cmd@);
        push_all(cmd, &[flag_text(bind.2), bind.0.as_str(), bind.1.as_str()]);
        i = i + 1;
        proof {
            let taken = binds@.take(i as int);
            assert(taken.drop_last() =~= binds@.take(i - 1));
            assert(text::texts(cmd@) =~= before + seq![
                bind_flag(taken.last().2),
                taken.last().0@,
                taken.last().1@,
            ]);
            assert(text::texts(cmd@) =~= text::texts(old(cmd)@) + bind_args(taken));
        }
    }
    assert(binds@.take(i as int) =~= binds@);
}

/// The argv to exec: wrapped in bwrap when there is a box, unchanged
/// otherwise. `seccomp_fd` is a memfd with the compiled filter, passed as
/// `--seccomp FD`. bwrap installs it last, so it applies to the payload and
/// not to bwrap's own setup. `fresh_proc` chooses between `--proc` and a
/// read-only bind of the host `/proc` (see `ProcMode`).
pub fn build_command(
    argv: &[String],
    spec: &SandboxSpec,
    seccomp_fd: Option<i32>,
    fresh_proc: bool,
) -> (r: Vec<String>)
    ensures
        text::texts(r@) == command(text::texts(argv@), *spec, seccomp_fd, fresh_proc),
{
    let mut cmd: Vec<String> = Vec::new();
    assert(text::texts(cmd@) =~= Seq::<Seq<char>>::empty());
    if let Some(dir) = &spec.box_dir {
        push_all(
            &mut cmd,
            &[
                BWRAP,
                "--unshare-all",
                "--die-with-parent",
                "--ro-bind",
                "/usr",
                "/usr",
                "--symlink",
                "usr/lib",
                "/lib",
                "--symlink",
                "usr/lib64",
                "/lib64",
                "--symlink",
                "usr/bin",
                "/bin",
            ],
        );
        let ghost so_far = root_args();
        assert(text::texts(cmd@) =~= so_far);
        if fresh_proc {
            push_all(&mut cmd, &["--proc", "/proc"]);
        } else {
            push_all(&mut cmd, &["--ro-bind", "/proc", "/proc"]);
        }
        proof {
            so_far = so_far + proc_args(fresh_proc);
        }
        assert(text::texts(cmd@) =~= so_far);
        push_all(
            &mut cmd,
            &[
                "--dev-bind",
                "/dev/null",
                "/dev/null",
                "--dev-bind",
                "/dev/zero",
                "/dev/zero",
                "--dev-bind",
                "/dev/urandom",
                "/dev/urandom",
                "--dev-bind",
                "/dev/random",
                "/dev/random",
            ],
        );
        proof {
            so_far = so_far + device_args();
        }
        assert(text::texts(cmd@) =~= so_far);
        if let Some(fd) = seccomp_fd {
            let number = signed_decimal(fd as i64);
            push_all(&mut cmd, &["--seccomp", number.as_str()]);
        }
        proof {
            so_far = so_far + seccomp_args(seccomp_fd);
        }
        assert(text::texts(cmd@) =~= so_far);
        push_all(&mut cmd, &[flag_text(spec.writable), dir.as_str(), "/box"]);
        proof {
            so_far = so_far + box_args(dir@, spec.writable);
        }
        assert(text::texts(cmd@) =~= so_far);
        push_binds(&mut cmd, &spec.extra_binds);
        push_all(
            &mut cmd,
            &[
                "--tmpfs",
                "/tmp",
                "--chdir",
                "/box",
                "--clearenv",
                "--setenv",
                "PATH",
                "/usr/local/bin:/usr/bin:/bin",
                "--setenv",
                "HOME",
                "/tmp",
                "--setenv",
                "PYTHONPYCACHEPREFIX",
                "/tmp/pycache",
                // Hash randomization is the largest source of run-to-run
                // instruction variance in Python. Pinning it gives up
                // hash-DoS protection, as fixed-seed judges do.
                "--setenv",
                "PYTHONHASHSEED",
                "0",
                "--setenv",
                "TMPDIR",
                "/tmp",
                "--",
            ],
        );
        proof {
            so_far = so_far + bind_args(spec.extra_binds@) + env_args();
        }
        assert(text::texts(cmd@) =~= so_far);
    }
    let ghost front = text::texts(cmd@);
    let mut i: usize = 0;
    while i < argv.len()
        invariant
            i <= argv@.len(),
            text::texts(cmd@) == front + text::texts(argv@).take(i as int),
        decreases argv@.len() - i,
    {
        let ghost before = cmd@;
        cmd.push(argv[i].clone());
        i = i + 1;
        assert(text::texts(cmd@) =~= text::texts(before).push(argv@[i - 1]@));
        assert(text::texts(argv@).take(i as int) =~= text::texts(argv@).take(i - 1).push(
            argv@[i - 1]@,
        ));
        assert(text::texts(cmd@) =~= front + text::texts(argv@).take(i as int));
    }
    assert(text::texts(argv@).take(i as int) =~= text::texts(argv@));
    assert(text::texts(cmd@) =~= command(text::texts(argv@), *spec, seccomp_fd, fresh_proc));
    cmd
}

/// With a box, bwrap is executed, and the payload's own command line stands
/// whole behind the last `--`.
pub proof fn law_payload_follows_separator(
    argv: Seq<Seq<char>>,
    spec: SandboxSpec,
    seccomp_fd: Option<i32>,
    fresh_proc: bool,
)
    requires
        spec.box_dir is Some,
    ensures
        ({
            let cmd = command(argv, spec, seccomp_fd, fresh_proc);
            let at = cmd.len() - argv.len();
            &&& at > 0
            &&& cmd[0] == BWRAP@
            &&& cmd[at - 1] == "--"@
            &&& cmd.skip(at) == argv
        }),
{
    let cmd = command(argv, spec, seccomp_fd, fresh_proc);
    let front = wrapper_args(
        spec.box_dir->0@,
        spec.writable,
        spec.extra_binds@,
        seccomp_fd,
        fresh_proc,
    );
    assert(front.last() == env_args().last());
    assert(cmd[front.len() - 1] == front.last());
    assert(cmd[0] == root_args()[0]);
    assert(cmd.skip(front.len() as int) =~= argv);
}

/// Whether `part` stands in `all`, in one piece, from `at` on.
pub open spec fn stands_at(all: Seq<Seq<char>>, at: int, part: Seq<Seq<char>>) -> bool {
    &&& 0 <= at
    &&& at + part.len() <= all.len()
    &&& all.subrange(at, at + part.len()) == part
}

/// With a box, the work dir is bound at /box, read-only unless it was made
/// writable; `/proc` is mounted as chosen; and the filter's descriptor, where
/// there is one, is handed to bwrap: all of it before the payload.
pub proof fn law_sandbox_layout(
    argv: Seq<Seq<char>>,
    spec: SandboxSpec,
    seccomp_fd: Option<i32>,
    fresh_proc: bool,
) -> (at: (int, int, int))
    requires
        spec.box_dir is Some,
    ensures
        ({
            let cmd = command(argv, spec, seccomp_fd, fresh_proc);
            let end = cmd.len() - argv.len();
            &&& at.0 + 3 < end && stands_at(cmd, at.0, box_args(spec.box_dir->0@, spec.writable))
            &&& at.1 + 3 < end && stands_at(cmd, at.1, proc_args(fresh_proc))
            &&& at.2 + 2 < end && stands_at(cmd, at.2, seccomp_args(seccomp_fd))
        }),
{
    let cmd = command(argv, spec, seccomp_fd, fresh_proc);
    let p = root_args().len() as int;
    let d = p + proc_args(fresh_proc).len() + device_args().len();
    let b = d + seccomp_args(seccomp_fd).len();
    assert(cmd.subrange(p, p + proc_args(fresh_proc).len()) =~= proc_args(fresh_proc));
    assert(cmd.subrange(d, d + seccomp_args(seccomp_fd).len()) =~= seccomp_args(seccomp_fd));
    assert(cmd.subrange(b, b + 3) =~= box_args(spec.box_dir->0@, spec.writable));
    (b, p, d)
}

/// Every extra mount is on the command line, in its own mode.
pub proof fn law_extra_mount_is_bound(
    argv: Seq<Seq<char>>,
    spec: SandboxSpec,
    seccomp_fd: Option<i32>,
    fresh_proc: bool,
    i: int,
) -> (at: int)
    requires
        spec.box_dir is Some,
        0 <= i < spec.extra_binds@.len(),
    ensures
        ({
            let bind = spec.extra_binds@[i];
            let cmd = command(argv, spec, seccomp_fd, fresh_proc);
            &&& at + 3 < cmd.len() - argv.len()
            &&& stands_at(cmd, at, seq![bind_flag(bind.2), bind.0@, bind.1@])
        }),
{
    let cmd = command(argv, spec, seccomp_fd, fresh_proc);
    let binds = spec.extra_binds@;
    let b = root_args().len() + proc_args(fresh_proc).len() + device_args().len() + seccomp_args(
        seccomp_fd,
    ).len() + 3;
    let part = seq![bind_flag(binds[i].2), binds[i].0@, binds[i].1@];
    lemma_bind_args(binds, i);
    assert(cmd.subrange(b + 3 * i, b + 3 * i + 3) =~= bind_args(binds).subrange(3 * i, 3 * i + 3));
    b + 3 * i
}

proof fn lemma_bind_args(binds: Seq<(String, String, bool)>, i: int)
    requires
        0 <= i < binds.len(),
    ensures
        bind_args(binds).len() == 3 * binds.len(),
        bind_args(binds).subrange(3 * i, 3 * i + 3) == seq![
            bind_flag(binds[i].2),
            binds[i].0@,
            binds[i].1@,
        ],
    decreases binds.len(),
{
    reveal_with_fuel(bind_args, 2);
    let front = binds.drop_last();
    if front.len() > 0 {
        lemma_bind_args(front, if i < front.len() { i } else { 0 });
    }
    let part = seq![bind_flag(binds[i].2), binds[i].0@, binds[i].1@];
    if i < front.len() {
        assert(bind_args(binds).subrange(3 * i, 3 * i + 3) =~= bind_args(front).subrange(
            3 * i,
            3 * i + 3,
        ));
    } else {
        assert(bind_args(binds).subrange(3 * i, 3 * i + 3) =~= part);
    }
}

/// No argument that is the same for every sandbox is `--seccomp` or `--proc`.
proof fn lemma_fixed_args()
    ensures
        forall|i: int|
            0 <= i < root_args().len() ==> #[trigger] root_args()[i] != "--seccomp"@
                && root_args()[i] != "--proc"@,
        forall|i: int|
            0 <= i < device_args().len() ==> #[trigger] device_args()[i] != "--seccomp"@
                && device_args()[i] != "--proc"@,
        forall|i: int|
            0 <= i < env_args().len() ==> #[trigger] env_args()[i] != "--seccomp"@
                && env_args()[i] != "--proc"@,
        forall|i: int|
            0 <= i < proc_args(false).len() ==> #[trigger] proc_args(false)[i] != "--seccomp"@
                && proc_args(false)[i] != "--proc"@,
        forall|i: int|
            0 <= i < proc_args(true).len() ==> #[trigger] proc_args(true)[i] != "--seccomp"@,
        "/box"@ != "--seccomp"@,
        "/box"@ != "--proc"@,
        forall|w: bool|
            #[trigger] bind_flag(w) != "--seccomp"@ && bind_flag(w) != "--proc"@,
        "--seccomp"@ != "--proc"@,
{
    reveal_strlit("--seccomp");
    reveal_strlit("--proc");
    reveal_strlit("/usr/bin/bwrap");
    reveal_strlit("--unshare-all");
    reveal_strlit("--die-with-parent");
    reveal_strlit("--ro-bind");
    reveal_strlit("--bind");
    reveal_strlit("/usr");
    reveal_strlit("--symlink");
    reveal_strlit("usr/lib");
    reveal_strlit("/lib");
    reveal_strlit("usr/lib64");
    reveal_strlit("/lib64");
    reveal_strlit("usr/bin");
    reveal_strlit("/bin");
    reveal_strlit("/proc");
    reveal_strlit("--dev-bind");
    reveal_strlit("/dev/null");
    reveal_strlit("/dev/zero");
    reveal_strlit("/dev/urandom");
    reveal_strlit("/dev/random");
    reveal_strlit("/box");
    reveal_strlit("--tmpfs");
    reveal_strlit("/tmp");
    reveal_strlit("--chdir");
    reveal_strlit("--clearenv");
    reveal_strlit("--setenv");
    reveal_strlit("PATH");
    reveal_strlit("/usr/local/bin:/usr/bin:/bin");
    reveal_strlit("HOME");
    reveal_strlit("PYTHONPYCACHEPREFIX");
    reveal_strlit("/tmp/pycache");
    reveal_strlit("PYTHONHASHSEED");
    reveal_strlit("0");
    reveal_strlit("TMPDIR");
    reveal_strlit("--");
    assert("--ro-bind"@[2] != "--seccomp"@[2]);
    assert("--symlink"@[3] != "--seccomp"@[3]);
    assert("/dev/null"@[0] != "--seccomp"@[0]);
    assert("/dev/zero"@[0] != "--seccomp"@[0]);
    assert("usr/lib64"@[0] != "--seccomp"@[0]);
    assert("--bind"@[2] != "--proc"@[2]);
    assert("/lib64"@[0] != "--proc"@[0]);
    assert("TMPDIR"@[0] != "--proc"@[0]);
    assert forall|i: int| 0 <= i < env_args().len() implies #[trigger] env_args()[i]
        != "--seccomp"@ && env_args()[i] != "--proc"@ by {
        assert(env_args().len() == 21);
        assert(env_args()[i].len() != 9);
        assert(env_args()[i].len() != 6 || i == 18);
    }
}

/// Whether one of the extra mounts mentions `arg` as a path.
pub open spec fn mounts_mention(binds: Seq<(String, String, bool)>, arg: Seq<char>) -> bool {
    exists|i: int| 0 <= i < binds.len() && ((#[trigger] binds[i]).0@ == arg || binds[i].1@ == arg)
}

proof fn lemma_bind_args_avoid(binds: Seq<(String, String, bool)>, arg: Seq<char>)
    requires
        !mounts_mention(binds, arg),
        bind_flag(true) != arg,
        bind_flag(false) != arg,
    ensures
        forall|i: int| 0 <= i < bind_args(binds).len() ==> #[trigger] bind_args(binds)[i] != arg,
    decreases binds.len(),
{
    if binds.len() > 0 {
        let front = binds.drop_last();
        assert(binds[binds.len() - 1] == binds.last());
        assert(!mounts_mention(front, arg)) by {
            if mounts_mention(front, arg) {
                let i = choose|i: int|
                    0 <= i < front.len() && ((#[trigger] front[i]).0@ == arg || front[i].1@ == arg);
                assert(binds[i] == front[i]);
            }
        }
        lemma_bind_args_avoid(front, arg);
        assert forall|i: int| 0 <= i < bind_args(binds).len() implies #[trigger] bind_args(binds)[i]
            != arg by {
            if i < bind_args(front).len() {
                assert(bind_args(binds)[i] == bind_args(front)[i]);
            }
        }
    }
}

/// Without a filter, bwrap is not told to load one: `--seccomp` stands before
/// the payload only where a path of the caller's is spelled that way.
pub proof fn law_no_filter_no_argument(
    argv: Seq<Seq<char>>,
    spec: SandboxSpec,
    fresh_proc: bool,
    i: int,
)
    requires
        spec.box_dir is Some,
        spec.box_dir->0@ != "--seccomp"@,
        !mounts_mention(spec.extra_binds@, "--seccomp"@),
        0 <= i < command(argv, spec, None, fresh_proc).len() - argv.len(),
    ensures
        command(argv, spec, None, fresh_proc)[i] != "--seccomp"@,
{
    lemma_fixed_args();
    assert(bind_flag(true) != "--seccomp"@ && bind_flag(false) != "--seccomp"@);
    lemma_bind_args_avoid(spec.extra_binds@, "--seccomp"@);
    lemma_wrapper_avoids(spec, None, fresh_proc, "--seccomp"@);
}

/// With a bound `/proc`, bwrap is not told to mount a fresh one: `--proc`
/// stands before the payload only where a path of the caller's is spelled
/// that way.
pub proof fn law_bound_proc_is_not_mounted(
    argv: Seq<Seq<char>>,
    spec: SandboxSpec,
    seccomp_fd: Option<i32>,
    i: int,
)
    requires
        spec.box_dir is Some,
        spec.box_dir->0@ != "--proc"@,
        !mounts_mention(spec.extra_binds@, "--proc"@),
        0 <= i < command(argv, spec, seccomp_fd, false).len() - argv.len(),
    ensures
        command(argv, spec, seccomp_fd, false)[i] != "--proc"@,
{
    lemma_fixed_args();
    assert(bind_flag(true) != "--proc"@ && bind_flag(false) != "--proc"@);
    lemma_bind_args_avoid(spec.extra_binds@, "--proc"@);
    if let Some(fd) = seccomp_fd {
        let n = fd as int;
        let magnitude = (if n < 0 { -n } else { n }) as nat;
        text::law_decimal_reads_back(magnitude);
        reveal_strlit("--proc");
        assert(text::is_digit(text::digits(magnitude)[0]));
        if n < 0 {
            assert(text::int_text(n)[1] == text::digits(magnitude)[0]);
        }
        assert(text::int_text(n) != "--proc"@);
    }
    lemma_wrapper_avoids(spec, seccomp_fd, false, "--proc"@);
}

proof fn lemma_wrapper_avoids(
    spec: SandboxSpec,
    seccomp_fd: Option<i32>,
    fresh_proc: bool,
    arg: Seq<char>,
)
    requires
        spec.box_dir is Some,
        spec.box_dir->0@ != arg,
        "/box"@ != arg,
        forall|w: bool| #[trigger] bind_flag(w) != arg,
        forall|i: int| 0 <= i < root_args().len() ==> #[trigger] root_args()[i] != arg,
        forall|i: int|
            0 <= i < proc_args(fresh_proc).len() ==> #[trigger] proc_args(fresh_proc)[i] != arg,
        forall|i: int| 0 <= i < device_args().len() ==> #[trigger] device_args()[i] != arg,
        forall|i: int|
            0 <= i < seccomp_args(seccomp_fd).len() ==> #[trigger] seccomp_args(seccomp_fd)[i]
                != arg,
        forall|i: int|
            0 <= i < bind_args(spec.extra_binds@).len() ==> #[trigger] bind_args(
                spec.extra_binds@,
            )[i] != arg,
        forall|i: int| 0 <= i < env_args().len() ==> #[trigger] env_args()[i] != arg,
    ensures
        ({
            let w = wrapper_args(
                spec.box_dir->0@,
                spec.writable,
                spec.extra_binds@,
                seccomp_fd,
                fresh_proc,
            );
            forall|i: int| 0 <= i < w.len() ==> #[trigger] w[i] != arg
        }),
{
    let w = wrapper_args(
        spec.box_dir->0@,
        spec.writable,
        spec.extra_binds@,
        seccomp_fd,
        fresh_proc,
    );
    let a = root_args();
    let b = a + proc_args(fresh_proc);
    let c = b + device_args();
    let d = c + seccomp_args(seccomp_fd);
    let e = d + box_args(spec.box_dir->0@, spec.writable);
    let f = e + bind_args(spec.extra_binds@);
    assert forall|i: int| 0 <= i < w.len() implies #[trigger] w[i] != arg by {
        if i < a.len() {
            assert(w[i] == root_args()[i]);
        } else if i < b.len() {
            assert(w[i] == proc_args(fresh_proc)[i - a.len()]);
        } else if i < c.len() {
            assert(w[i] == device_args()[i - b.len()]);
        } else if i < d.len() {
            assert(w[i] == seccomp_args(seccomp_fd)[i - c.len()]);
        } else if i < e.len() {
            assert(w[i] == box_args(spec.box_dir->0@, spec.writable)[i - d.len()]);
            assert(bind_flag(spec.writable) != arg);
        } else if i < f.len() {
            assert(w[i] == bind_args(spec.extra_binds@)[i - e.len()]);
        } else {
            assert(w[i] == env_args()[i - f.len()]);
        }
    }
}

/// What to do about a stream path.
#[derive(Debug, Clone, Copy, PartialEq, Eq, Structural)]
pub enum StreamPlan {
    /// Use the standard descriptor that the path names.
    Reuse,
    /// Open the path with these flags and this mode; the descriptor is ours to
    /// close.
    Open { flags: i32, mode: u32 },
    /// Refuse the path, which contains a NUL.
    Nul,
}

/// The path that names the standard descriptor `std_fd`.
pub open spec fn std_path(std_fd: i32) -> Seq<char> {
    if std_fd == 0 {
        "/dev/stdin"@
    } else if std_fd == 1 {
        "/dev/stdout"@
    } else if std_fd == 2 {
        "/dev/stderr"@
    } else {
        Seq::empty()
    }
}

/// Whether `s` contains a NUL, which no C string can hold.
pub open spec fn has_nul(s: Seq<char>) -> bool {
    exists|i: int| 0 <= i < s.len() && #[trigger] s[i] == '\0'
}

/// O_WRONLY, O_CREAT, O_TRUNC and O_NOFOLLOW.
pub open spec fn write_flags() -> i32 {
    ((0x1i32 | 0x40) | 0x200) | 0x2_0000
}

/// O_RDONLY and O_NOFOLLOW.
pub open spec fn read_flags() -> i32 {
    0i32 | 0x2_0000
}

/// The plan for `path`.
pub open spec fn stream_plan(path: Seq<char>, std_fd: i32, write: bool) -> StreamPlan {
    if path == std_path(std_fd) {
        StreamPlan::Reuse
    } else if has_nul(path) {
        StreamPlan::Nul
    } else if write {
        StreamPlan::Open { flags: write_flags(), mode: 0o644 }
    } else {
        StreamPlan::Open { flags: read_flags(), mode: 0 }
    }
}

/// Whether `s` contains a NUL.
pub fn contains_nul(s: &str) -> (r: bool)
    ensures
        r == has_nul(s@),
{
    let c = chars_of(s);
    let mut i: usize = 0;
    while i < c.len()
        invariant
            i <= c@.len(),
            c@ == s@,
            forall|j: int| 0 <= j < i ==> s@[j] != '\0',
        decreases c@.len() - i,
    {
        if c[i] == '\0' {
            assert(s@[i as int] == '\0');
            return true;
        }
        i = i + 1;
    }
    false
}

/// Whether one of `args` contains a NUL.
pub open spec fn any_nul(args: Seq<Seq<char>>) -> bool {
    exists|i: int| 0 <= i < args.len() && has_nul(#[trigger] args[i])
}

/// Whether one of the arguments contains a NUL, so that no process can be
/// started with them.
pub fn args_contain_nul(args: &Vec<String>) -> (r: bool)
    ensures
        r == any_nul(text::texts(args@)),
{
    let mut i: usize = 0;
    while i < args.len()
        invariant
            i <= args@.len(),
            forall|j: int| 0 <= j < i ==> !has_nul(#[trigger] text::texts(args@)[j]),
        decreases args@.len() - i,
    {
        assert(text::texts(args@)[i as int] == args@[i as int]@);
        if contains_nul(args[i].as_str()) {
            return true;
        }
        i = i + 1;
    }
    false
}

/// How to get the descriptor for a stream. `/dev/stdin`, `/dev/stdout` and
/// `/dev/stderr` reuse descriptor 0, 1 or 2 instead of being opened, since
/// O_TRUNC would truncate whatever file the caller redirected that stream to.
///
/// O_NOFOLLOW because these paths are usually in the box, where an earlier
/// writable run (a compile step) could have left a symlink. The open runs on
/// the host as the calling user, so following the link would truncate any file
/// that user can write, or feed any file it can read to the payload's stdin.
pub fn resolve_fd(path: &str, std_fd: i32, write: bool) -> (r: StreamPlan)
    ensures
        r == stream_plan(path@, std_fd, write),
{
    proof {
        reveal_strlit("");
        assert(""@ =~= Seq::<char>::empty());
    }
    let std_text: &str = match std_fd {
        0 => "/dev/stdin",
        1 => "/dev/stdout",
        2 => "/dev/stderr",
        _ => "",
    };
    if same(path, std_text) {
        return StreamPlan::Reuse;
    }
    if contains_nul(path) {
        return StreamPlan::Nul;
    }
    let f: [i32; 5] = open_flags();
    if write {
        StreamPlan::Open { flags: f[1] | f[2] | f[3] | f[4], mode: 0o644 }
    } else {
        StreamPlan::Open { flags: f[0] | f[4], mode: 0 }
    }
}

/// A stream path never makes the host follow a symlink.
pub proof fn law_symlinks_are_not_followed(path: Seq<char>, std_fd: i32, write: bool)
    ensures
        stream_plan(path, std_fd, write) matches StreamPlan::Open { flags, .. } ==> flags & 0x2_0000
            == 0x2_0000,
{
    let w = write_flags();
    let r = read_flags();
    assert(w & 0x2_0000 == 0x2_0000) by (bit_vector)
        requires
            w == ((0x1i32 | 0x40) | 0x200) | 0x2_0000,
    ;
    assert(r & 0x2_0000 == 0x2_0000) by (bit_vector)
        requires
            r == 0i32 | 0x2_0000,
    ;
}

/// What to say when a stream path is a symlink.
pub open spec fn symlink_message(path: Seq<char>) -> Seq<char> {
    path
        + ": stream path is a symlink, refused (it could redirect the stream to any file the host user can reach)"@
}

/// What to say when opening a stream failed with `errno`, where the system's
/// own words do not tell the whole story: ELOOP means that the path is a
/// symlink, which was refused.
pub fn open_failure(path: &str, errno: Option<i32>) -> (r: Option<String>)
    ensures
        r is Some == (errno == Some(40i32)),
        r matches Some(m) ==> m@ == symlink_message(path@),
{
    let e: [i32; 4] = errnos();
    match errno {
        Some(n) => if n == e[2] {
            let mut m = path.to_owned();
            m.append(
                ": stream path is a symlink, refused (it could redirect the stream to any file the host user can reach)",
            );
            Some(m)
        } else {
            None
        },
        None => None,
    }
}

/// What sort of error it is that a stream cannot be had: a path that contains a
/// NUL, and a symlink, are the caller's; anything else is as the system says.
pub open spec fn stream_kind(plan: StreamPlan, errno: Option<i32>) -> FailureKind {
    if plan is Nul || errno == Some(40i32) {
        FailureKind::InvalidInput
    } else {
        FailureKind::AsReported
    }
}

/// What sort of error it is that a stream with this plan cannot be had, where
/// opening it failed with `errno`, if it got that far.
pub fn open_failure_kind(plan: StreamPlan, errno: Option<i32>) -> (r: FailureKind)
    ensures
        r == stream_kind(plan, errno),
{
    let e: [i32; 4] = errnos();
    match (plan, errno) {
        (StreamPlan::Nul, _) => FailureKind::InvalidInput,
        (_, Some(n)) => if n == e[2] {
            FailureKind::InvalidInput
        } else {
            FailureKind::AsReported
        },
        _ => FailureKind::AsReported,
    }
}

/// Whether the payload's output or errors would go to standard output, where
/// a line of theirs could pass for the result. Only the literal `/dev/stdout`
/// needs checking: other spellings such as `/dev/fd/1` are symlinks, which
/// O_NOFOLLOW already refuses.
pub open spec fn takes_stdout(spec: SandboxSpec) -> bool {
    spec.stdout@ == "/dev/stdout"@ || spec.stderr@ == "/dev/stdout"@
}

/// Whether the payload's output or errors would go to standard output.
pub fn stdout_taken(spec: &SandboxSpec) -> (r: bool)
    ensures
        r == takes_stdout(*spec),
{
    same(spec.stdout.as_str(), "/dev/stdout") || same(spec.stderr.as_str(), "/dev/stdout")
}

/// Without a box the payload's command line is executed as it is: whatever else the
/// layout says, nothing is put before it.
pub proof fn law_no_box_no_wrapper(
    argv: Seq<Seq<char>>,
    spec: SandboxSpec,
    seccomp_fd: Option<i32>,
    fresh_proc: bool,
)
    requires
        spec.box_dir is None,
    ensures
        command(argv, spec, seccomp_fd, fresh_proc) == argv,
{
}

/// With a box, bwrap comes first, with every namespace of its own and an end that
/// follows its parent's; then /usr read-only, with the links to it; /proc, fresh or
/// bound read-only; and four devices.
#[verifier::spinoff_prover]
#[verifier::rlimit(60)]
pub proof fn law_root_is_laid_out(
    argv: Seq<Seq<char>>,
    spec: SandboxSpec,
    seccomp_fd: Option<i32>,
    fresh_proc: bool,
)
    requires
        spec.box_dir is Some,
    ensures
        ({
            let cmd = command(argv, spec, seccomp_fd, fresh_proc);
            let p: int = if fresh_proc { 17 } else { 18 };
            &&& stands_at(
                cmd,
                0,
                seq!["/usr/bin/bwrap"@, "--unshare-all"@, "--die-with-parent"@],
            )
            &&& stands_at(cmd, 3, seq!["--ro-bind"@, "/usr"@, "/usr"@])
            &&& stands_at(cmd, 6, seq!["--symlink"@, "usr/lib"@, "/lib"@])
            &&& stands_at(cmd, 9, seq!["--symlink"@, "usr/lib64"@, "/lib64"@])
            &&& stands_at(cmd, 12, seq!["--symlink"@, "usr/bin"@, "/bin"@])
            &&& fresh_proc ==> stands_at(cmd, 15, seq!["--proc"@, "/proc"@])
            &&& !fresh_proc ==> stands_at(cmd, 15, seq!["--ro-bind"@, "/proc"@, "/proc"@])
            &&& stands_at(cmd, p, seq!["--dev-bind"@, "/dev/null"@, "/dev/null"@])
            &&& stands_at(cmd, p + 3, seq!["--dev-bind"@, "/dev/zero"@, "/dev/zero"@])
            &&& stands_at(cmd, p + 6, seq!["--dev-bind"@, "/dev/urandom"@, "/dev/urandom"@])
            &&& stands_at(cmd, p + 9, seq!["--dev-bind"@, "/dev/random"@, "/dev/random"@])
        }),
{
    let cmd = command(argv, spec, seccomp_fd, fresh_proc);
    lemma_parts_in_place(argv, spec, seccomp_fd, fresh_proc);
    lemma_root_pieces(cmd);
    lemma_proc_piece(cmd, fresh_proc);
    lemma_device_pieces(cmd, if fresh_proc { 17 } else { 18 });
}

/// Behind the devices stands the filter, where there is one, and then the work dir,
/// bound at /box, read-only unless it is writable.
#[verifier::spinoff_prover]
#[verifier::rlimit(60)]
pub proof fn law_box_is_bound(
    argv: Seq<Seq<char>>,
    spec: SandboxSpec,
    seccomp_fd: Option<i32>,
    fresh_proc: bool,
)
    requires
        spec.box_dir is Some,
    ensures
        ({
            let cmd = command(argv, spec, seccomp_fd, fresh_proc);
            let p: int = if fresh_proc { 17 } else { 18 };
            let b: int = p + 12 + (if seccomp_fd is Some { 2int } else { 0 });
            &&& seccomp_fd matches Some(fd) ==> stands_at(
                cmd,
                p + 12,
                seq!["--seccomp"@, text::int_text(fd as int)],
            )
            &&& spec.writable ==> stands_at(
                cmd,
                b,
                seq!["--bind"@, spec.box_dir->0@, "/box"@],
            )
            &&& !spec.writable ==> stands_at(
                cmd,
                b,
                seq!["--ro-bind"@, spec.box_dir->0@, "/box"@],
            )
        }),
{
    let cmd = command(argv, spec, seccomp_fd, fresh_proc);
    let p: int = if fresh_proc { 17 } else { 18 };
    let b: int = p + 12 + (if seccomp_fd is Some { 2int } else { 0 });
    lemma_parts_in_place(argv, spec, seccomp_fd, fresh_proc);
    lemma_filter_piece(cmd, p + 12, seccomp_fd);
    lemma_box_piece(cmd, b, spec.box_dir->0@, spec.writable);
}

proof fn lemma_proc_piece(cmd: Seq<Seq<char>>, fresh_proc: bool)
    requires
        stands_at(cmd, 15, proc_args(fresh_proc)),
    ensures
        fresh_proc ==> stands_at(cmd, 15, seq!["--proc"@, "/proc"@]),
        !fresh_proc ==> stands_at(cmd, 15, seq!["--ro-bind"@, "/proc"@, "/proc"@]),
{
}

proof fn lemma_filter_piece(cmd: Seq<Seq<char>>, at: int, fd: Option<i32>)
    requires
        stands_at(cmd, at, seccomp_args(fd)),
    ensures
        fd matches Some(n) ==> stands_at(cmd, at, seq!["--seccomp"@, text::int_text(n as int)]),
{
}

proof fn lemma_box_piece(cmd: Seq<Seq<char>>, at: int, dir: Seq<char>, writable: bool)
    requires
        stands_at(cmd, at, box_args(dir, writable)),
    ensures
        writable ==> stands_at(cmd, at, seq!["--bind"@, dir, "/box"@]),
        !writable ==> stands_at(cmd, at, seq!["--ro-bind"@, dir, "/box"@]),
{
}

/// Behind the work dir and the extra mounts stand a /tmp in memory and, from /box, an
/// environment of five variables; then comes the payload, and nothing else.
#[verifier::spinoff_prover]
#[verifier::rlimit(60)]
pub proof fn law_environment_is_fixed(
    argv: Seq<Seq<char>>,
    spec: SandboxSpec,
    seccomp_fd: Option<i32>,
    fresh_proc: bool,
)
    requires
        spec.box_dir is Some,
    ensures
        ({
            let cmd = command(argv, spec, seccomp_fd, fresh_proc);
            let n = spec.extra_binds@.len();
            let b: int = (if fresh_proc { 29int } else { 30 }) + (if seccomp_fd is Some {
                2int
            } else {
                0
            });
            let e: int = b + 3 + 3 * n;
            &&& stands_at(cmd, e, seq!["--tmpfs"@, "/tmp"@, "--chdir"@, "/box"@, "--clearenv"@])
            &&& stands_at(
                cmd,
                e + 5,
                seq!["--setenv"@, "PATH"@, "/usr/local/bin:/usr/bin:/bin"@],
            )
            &&& stands_at(cmd, e + 8, seq!["--setenv"@, "HOME"@, "/tmp"@])
            &&& stands_at(
                cmd,
                e + 11,
                seq!["--setenv"@, "PYTHONPYCACHEPREFIX"@, "/tmp/pycache"@],
            )
            &&& stands_at(cmd, e + 14, seq!["--setenv"@, "PYTHONHASHSEED"@, "0"@])
            &&& stands_at(cmd, e + 17, seq!["--setenv"@, "TMPDIR"@, "/tmp"@])
            &&& stands_at(cmd, e + 20, seq!["--"@] + argv)
            &&& cmd.len() == e + 21 + argv.len()
        }),
{
    let cmd = command(argv, spec, seccomp_fd, fresh_proc);
    let b: int = (if fresh_proc { 29int } else { 30 }) + (if seccomp_fd is Some { 2int } else { 0 });
    lemma_parts_in_place(argv, spec, seccomp_fd, fresh_proc);
    lemma_env_pieces(cmd, b + 3 + 3 * spec.extra_binds@.len());
}

/// Where the parts of the command line stand.
#[verifier::spinoff_prover]
#[verifier::rlimit(60)]
proof fn lemma_parts_in_place(
    argv: Seq<Seq<char>>,
    spec: SandboxSpec,
    seccomp_fd: Option<i32>,
    fresh_proc: bool,
)
    requires
        spec.box_dir is Some,
    ensures
        ({
            let cmd = command(argv, spec, seccomp_fd, fresh_proc);
            let p: int = if fresh_proc { 17 } else { 18 };
            let b: int = p + 12 + (if seccomp_fd is Some { 2int } else { 0 });
            let e: int = b + 3 + 3 * spec.extra_binds@.len();
            &&& stands_at(cmd, 0, root_args())
            &&& stands_at(cmd, 15, proc_args(fresh_proc))
            &&& stands_at(cmd, p, device_args())
            &&& stands_at(cmd, p + 12, seccomp_args(seccomp_fd))
            &&& stands_at(cmd, b, box_args(spec.box_dir->0@, spec.writable))
            &&& stands_at(cmd, e, env_args())
            &&& stands_at(cmd, e + 20, seq!["--"@] + argv)
            &&& cmd.len() == e + 21 + argv.len()
        }),
{
    let cmd = command(argv, spec, seccomp_fd, fresh_proc);
    let binds = spec.extra_binds@;
    if binds.len() > 0 {
        lemma_bind_args(binds, 0);
    }
    assert(bind_args(binds).len() == 3 * binds.len());
    let p: int = if fresh_proc { 17 } else { 18 };
    let b: int = p + 12 + (if seccomp_fd is Some { 2int } else { 0 });
    let e: int = b + 3 + 3 * binds.len();
    let front = root_args() + proc_args(fresh_proc) + device_args() + seccomp_args(seccomp_fd)
        + box_args(spec.box_dir->0@, spec.writable) + bind_args(binds);
    assert(front.len() == e);
    assert(cmd =~= front + env_args() + argv);
    assert(cmd.subrange(0, 15) =~= root_args());
    assert(cmd.subrange(15, p) =~= proc_args(fresh_proc));
    assert(cmd.subrange(p, p + 12) =~= device_args());
    assert(cmd.subrange(p + 12, b) =~= seccomp_args(seccomp_fd));
    assert(cmd.subrange(b, b + 3) =~= box_args(spec.box_dir->0@, spec.writable));
    assert(cmd.subrange(e, e + 21) =~= env_args());
    assert(env_args()[20] == "--"@);
    assert(cmd.subrange(e + 20, e + 21 + argv.len()) =~= seq!["--"@] + argv);
}

proof fn lemma_root_pieces(cmd: Seq<Seq<char>>)
    requires
        stands_at(cmd, 0, root_args()),
    ensures
        stands_at(cmd, 0, seq!["/usr/bin/bwrap"@, "--unshare-all"@, "--die-with-parent"@]),
        stands_at(cmd, 3, seq!["--ro-bind"@, "/usr"@, "/usr"@]),
        stands_at(cmd, 6, seq!["--symlink"@, "usr/lib"@, "/lib"@]),
        stands_at(cmd, 9, seq!["--symlink"@, "usr/lib64"@, "/lib64"@]),
        stands_at(cmd, 12, seq!["--symlink"@, "usr/bin"@, "/bin"@]),
{
    let r = root_args();
    lemma_inside(cmd, 0, r, 0, seq!["/usr/bin/bwrap"@, "--unshare-all"@, "--die-with-parent"@]);
    lemma_inside(cmd, 0, r, 3, seq!["--ro-bind"@, "/usr"@, "/usr"@]);
    lemma_inside(cmd, 0, r, 6, seq!["--symlink"@, "usr/lib"@, "/lib"@]);
    lemma_inside(cmd, 0, r, 9, seq!["--symlink"@, "usr/lib64"@, "/lib64"@]);
    lemma_inside(cmd, 0, r, 12, seq!["--symlink"@, "usr/bin"@, "/bin"@]);
}

proof fn lemma_device_pieces(cmd: Seq<Seq<char>>, p: int)
    requires
        stands_at(cmd, p, device_args()),
    ensures
        stands_at(cmd, p, seq!["--dev-bind"@, "/dev/null"@, "/dev/null"@]),
        stands_at(cmd, p + 3, seq!["--dev-bind"@, "/dev/zero"@, "/dev/zero"@]),
        stands_at(cmd, p + 6, seq!["--dev-bind"@, "/dev/urandom"@, "/dev/urandom"@]),
        stands_at(cmd, p + 9, seq!["--dev-bind"@, "/dev/random"@, "/dev/random"@]),
{
    let d = device_args();
    lemma_inside(cmd, p, d, 0, seq!["--dev-bind"@, "/dev/null"@, "/dev/null"@]);
    lemma_inside(cmd, p, d, 3, seq!["--dev-bind"@, "/dev/zero"@, "/dev/zero"@]);
    lemma_inside(cmd, p, d, 6, seq!["--dev-bind"@, "/dev/urandom"@, "/dev/urandom"@]);
    lemma_inside(cmd, p, d, 9, seq!["--dev-bind"@, "/dev/random"@, "/dev/random"@]);
}

proof fn lemma_env_pieces(cmd: Seq<Seq<char>>, e: int)
    requires
        stands_at(cmd, e, env_args()),
    ensures
        stands_at(cmd, e, seq!["--tmpfs"@, "/tmp"@, "--chdir"@, "/box"@, "--clearenv"@]),
        stands_at(cmd, e + 5, seq!["--setenv"@, "PATH"@, "/usr/local/bin:/usr/bin:/bin"@]),
        stands_at(cmd, e + 8, seq!["--setenv"@, "HOME"@, "/tmp"@]),
        stands_at(cmd, e + 11, seq!["--setenv"@, "PYTHONPYCACHEPREFIX"@, "/tmp/pycache"@]),
        stands_at(cmd, e + 14, seq!["--setenv"@, "PYTHONHASHSEED"@, "0"@]),
        stands_at(cmd, e + 17, seq!["--setenv"@, "TMPDIR"@, "/tmp"@]),
{
    let v = env_args();
    lemma_inside(cmd, e, v, 0, seq!["--tmpfs"@, "/tmp"@, "--chdir"@, "/box"@, "--clearenv"@]);
    lemma_inside(cmd, e, v, 5, seq!["--setenv"@, "PATH"@, "/usr/local/bin:/usr/bin:/bin"@]);
    lemma_inside(cmd, e, v, 8, seq!["--setenv"@, "HOME"@, "/tmp"@]);
    lemma_inside(cmd, e, v, 11, seq!["--setenv"@, "PYTHONPYCACHEPREFIX"@, "/tmp/pycache"@]);
    lemma_inside(cmd, e, v, 14, seq!["--setenv"@, "PYTHONHASHSEED"@, "0"@]);
    lemma_inside(cmd, e, v, 17, seq!["--setenv"@, "TMPDIR"@, "/tmp"@]);
}

/// What stands in a part of a sequence stands in the whole.
proof fn lemma_inside(
    all: Seq<Seq<char>>,
    at: int,
    part: Seq<Seq<char>>,
    k: int,
    piece: Seq<Seq<char>>,
)
    requires
        stands_at(all, at, part),
        0 <= k,
        k + piece.len() <= part.len(),
        forall|i: int| 0 <= i < piece.len() ==> part[k + i] == #[trigger] piece[i],
    ensures
        stands_at(all, at + k, piece),
{
    let s = all.subrange(at, at + part.len());
    assert forall|i: int| 0 <= i < piece.len() implies all[at + k + i] == #[trigger] piece[i] by {
        assert(s[k + i] == part[k + i]);
    }
    assert(all.subrange(at + k, at + k + piece.len()) =~= piece);
}

/// The extra mounts stand behind the work dir in their order, the i-th from the
/// place `3 * i` on: `--bind` for a writable one, else `--ro-bind`, with the path
/// outside before the path inside.
#[verifier::spinoff_prover]
#[verifier::rlimit(60)]
pub proof fn law_extra_mounts_in_order(
    argv: Seq<Seq<char>>,
    spec: SandboxSpec,
    seccomp_fd: Option<i32>,
    fresh_proc: bool,
    i: int,
)
    requires
        spec.box_dir is Some,
        0 <= i < spec.extra_binds@.len(),
    ensures
        ({
            let cmd = command(argv, spec, seccomp_fd, fresh_proc);
            let bind = spec.extra_binds@[i];
            let b: int = (if fresh_proc { 29int } else { 30 }) + (if seccomp_fd is Some {
                2int
            } else {
                0
            });
            &&& bind.2 ==> stands_at(cmd, b + 3 + 3 * i, seq!["--bind"@, bind.0@, bind.1@])
            &&& !bind.2 ==> stands_at(cmd, b + 3 + 3 * i, seq!["--ro-bind"@, bind.0@, bind.1@])
        }),
{
    let cmd = command(argv, spec, seccomp_fd, fresh_proc);
    let binds = spec.extra_binds@;
    let b: int = (if fresh_proc { 29int } else { 30 }) + (if seccomp_fd is Some { 2int } else { 0 });
    lemma_bind_args(binds, i);
    assert(cmd.subrange(b + 3 + 3 * i, b + 3 + 3 * i + 3) =~= bind_args(binds).subrange(
        3 * i,
        3 * i + 3,
    ));
}

/// A stream takes the standard descriptor only where its path is that one's own
/// name; a path with a NUL is refused; any other is opened, for writing with
/// creation, truncation and mode 0644, for reading with neither, and in no case
/// through a link.
pub proof fn law_streams_go_where_they_point(path: Seq<char>, std_fd: i32, write: bool)
    requires
        0 <= std_fd <= 2,
    ensures
        ({
            let plan = stream_plan(path, std_fd, write);
            let own = (std_fd == 0 && path == "/dev/stdin"@) || (std_fd == 1 && path
                == "/dev/stdout"@) || (std_fd == 2 && path == "/dev/stderr"@);
            &&& plan is Reuse <==> own
            &&& plan is Nul <==> path.contains('\0')
            &&& plan is Open <==> !own && !path.contains('\0')
            &&& plan is Open && write ==> plan == (StreamPlan::Open {
                flags: 0x2_0241,
                mode: 420,
            })
            &&& plan is Open && !write ==> plan == (StreamPlan::Open { flags: 0x2_0000, mode: 0 })
        }),
{
    assert(((0x1i32 | 0x40) | 0x200) | 0x2_0000 == 0x2_0241) by (bit_vector);
    assert(0i32 | 0x2_0000 == 0x2_0000) by (bit_vector);
    reveal_strlit("/dev/stdin");
    reveal_strlit("/dev/stdout");
    reveal_strlit("/dev/stderr");
    assert(has_nul(path) <==> path.contains('\0'));
}

/// Neither output nor errors may go to standard output under its own name.
pub proof fn law_standard_output_is_not_shared(spec: SandboxSpec)
    ensures
        spec.stdout@ == "/dev/stdout"@ ==> takes_stdout(spec),
        spec.stderr@ == "/dev/stdout"@ ==> takes_stdout(spec),
        takes_stdout(spec) ==> stream_plan(spec.stdout@, 1, true) is Reuse || spec.stderr@
            == "/dev/stdout"@,
{
}

/// A path with a NUL, and a link, are the caller's fault; an argument with a NUL
/// anywhere is found.
pub proof fn law_unusable_texts_are_found(
    plan: StreamPlan,
    errno: Option<i32>,
    args: Seq<Seq<char>>,
)
    ensures
        stream_kind(plan, errno) == FailureKind::InvalidInput <==> plan is Nul || errno == Some(
            40i32,
        ),
        stream_kind(plan, errno) != FailureKind::Unsupported,
        any_nul(args) <==> exists|i: int|
            0 <= i < args.len() && (#[trigger] args[i]).contains('\0'),
{
    if any_nul(args) {
        let i = choose|i: int| 0 <= i < args.len() && has_nul(#[trigger] args[i]);
        assert(args[i].contains('\0'));
    }
    if exists|i: int| 0 <= i < args.len() && (#[trigger] args[i]).contains('\0') {
        let i = choose|i: int| 0 <= i < args.len() && (#[trigger] args[i]).contains('\0');
        let j = choose|j: int| 0 <= j < args[i].len() && args[i][j] == '\0';
        assert(args[i][j] == '\0');
        assert(has_nul(args[i]));
    }
}

/// A refused link is named, and then explained.
pub proof fn law_refused_links_are_named(path: Seq<char>, other: Seq<char>)
    ensures
        symlink_message(path).take(path.len() as int) == path,
        symlink_message(path).skip(path.len() as int) == symlink_message(other).skip(
            other.len() as int,
        ),
        symlink_message(path).skip(path.len() as int)
            == ": stream path is a symlink, refused (it could redirect the stream to any file the host user can reach)"@,
{
    let m =
        ": stream path is a symlink, refused (it could redirect the stream to any file the host user can reach)"@;
    assert((path + m).take(path.len() as int) =~= path);
    assert((path + m).skip(path.len() as int) =~= m);
    assert((other + m).skip(other.len() as int) =~= m);
}

} // verus!
