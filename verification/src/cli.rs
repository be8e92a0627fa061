//! The command line: what `tallyrun run [OPTIONS] -- <command...>` asks for,
//! and what it exits with.

use crate::limits::Limits;
use crate::report::RunResult;
use crate::sandbox::{ProcMode, SandboxSpec};
use crate::text;
use crate::text::{chars_of, parse_unsigned, same, split};
use vstd::prelude::*;
use vstd::string::*;

verus! {

/// What `--version` prints.
pub const VERSION: &'static str = "tallyrun 0.4.0";

/// What is printed below a usage error.
pub const USAGE: &'static str = "usage: tallyrun run [OPTIONS] -- <command...>";

/// What `--help` prints.
pub const HELP: &'static str = "usage: tallyrun run [OPTIONS] -- <command...>

Runs one command isolated, measures its instruction count, enforces limits, and
prints one JSON line of results to stdout.

OPTIONS:
  --box <dir>          work dir bind-mounted at /box (enables bwrap isolation)
  --writable           bind the box read-write (compile step)
  --bind SRC:DST[:rw]  extra mount layered on /usr (repeatable)
  --stdin <path>       program stdin             (default /dev/null)
  --stdout <path>      program stdout            (default /dev/null)
  --stderr <path>      program stderr            (default inherited stderr)
  --wall-ms <N>        wall-clock safety timeout (default 10000)
  --insn-limit <N>     kill once retired instructions exceed N
  --cpu-s <N>          CPU budget in seconds, for the whole tree with a cgroup,
                       and RLIMIT_CPU for each process (default 10)
  --mem-kb <N>         memory limit: cgroup memory.max at 1.25x (real RSS, whole
                       subtree), or RLIMIT_AS without a cgroup
  --pin-cpu <N>        pin the run to one CPU with the cgroup cpuset
  --cgroup-dir <dir>   prepared cgroup dir for per-run children (else
                       $TALLYRUN_CGROUP_DIR, else the automatic setup)
  --require-insn       error out (exit 3) if perf can't count instructions,
                       instead of degrading to time-based measurement
  --require-cgroup     error out (exit 3) without full cgroup accounting
  --extra-counters     also count cache, TLB and branch misses
  --no-seccomp         run without the seccomp filter
  --proc-bind          bind the host /proc read-only
  --proc-fresh         mount a fresh /proc, or fail
  --no-isolate         run without bwrap (measurement only; trusted code)
  --help               print this
  --version            print the version";

/// What is said when a run is not isolated.
pub const HOST_WARNING: &'static str = "tallyrun: WARNING: --no-isolate: the command runs directly on the host, with no sandbox around it";

/// The exit status after a usage error.
pub const EXIT_USAGE: i32 = 2;

/// The exit status when the sandbox itself failed.
pub const EXIT_SETUP: i32 = 3;

/// The exit status after a run: the command's own, or 1 if a signal ended it.
pub fn exit_status(result: &RunResult) -> (r: i32)
    ensures
        r == match result.exit_code {
            Some(code) => code,
            None => 1i32,
        },
{
    match result.exit_code {
        Some(code) => code,
        None => 1,
    }
}

/// An option without a value.
#[derive(Debug, Clone, Copy, PartialEq, Eq, Structural)]
pub enum Flag {
    Writable,
    RequireInsn,
    RequireCgroup,
    ExtraCounters,
    NoSeccomp,
    ProcBind,
    ProcFresh,
    NoIsolate,
}

/// An option with a value.
#[derive(Debug, Clone, Copy, PartialEq, Eq, Structural)]
pub enum Setting {
    BoxDir,
    Bind,
    CgroupDir,
    Stdin,
    Stdout,
    Stderr,
    WallMs,
    InsnLimit,
    CpuS,
    MemKb,
    PinCpu,
}

/// What an argument in front of the command is.
#[derive(Debug, Clone, Copy, PartialEq, Eq, Structural)]
pub enum Word {
    Flag(Flag),
    Setting(Setting),
    Help,
    Version,
    /// The command follows.
    Separator,
    Unknown,
}

/// What an argument in front of the command is.
pub open spec fn word_of(a: Seq<char>) -> Word {
    if a == "--"@ {
        Word::Separator
    } else if a == "--help"@ {
        Word::Help
    } else if a == "--version"@ {
        Word::Version
    } else if a == "--writable"@ {
        Word::Flag(Flag::Writable)
    } else if a == "--require-insn"@ {
        Word::Flag(Flag::RequireInsn)
    } else if a == "--require-cgroup"@ {
        Word::Flag(Flag::RequireCgroup)
    } else if a == "--extra-counters"@ {
        Word::Flag(Flag::ExtraCounters)
    } else if a == "--no-seccomp"@ {
        Word::Flag(Flag::NoSeccomp)
    } else if a == "--proc-bind"@ {
        Word::Flag(Flag::ProcBind)
    } else if a == "--proc-fresh"@ {
        Word::Flag(Flag::ProcFresh)
    } else if a == "--no-isolate"@ {
        Word::Flag(Flag::NoIsolate)
    } else if a == "--box"@ {
        Word::Setting(Setting::BoxDir)
    } else if a == "--bind"@ {
        Word::Setting(Setting::Bind)
    } else if a == "--cgroup-dir"@ {
        Word::Setting(Setting::CgroupDir)
    } else if a == "--stdin"@ {
        Word::Setting(Setting::Stdin)
    } else if a == "--stdout"@ {
        Word::Setting(Setting::Stdout)
    } else if a == "--stderr"@ {
        Word::Setting(Setting::Stderr)
    } else if a == "--wall-ms"@ {
        Word::Setting(Setting::WallMs)
    } else if a == "--insn-limit"@ {
        Word::Setting(Setting::InsnLimit)
    } else if a == "--cpu-s"@ {
        Word::Setting(Setting::CpuS)
    } else if a == "--mem-kb"@ {
        Word::Setting(Setting::MemKb)
    } else if a == "--pin-cpu"@ {
        Word::Setting(Setting::PinCpu)
    } else {
        Word::Unknown
    }
}

/// What an argument in front of the command is.
fn word(a: &str) -> (r: Word)
    ensures
        r == word_of(a@),
{
    if same(a, "--") {
        Word::Separator
    } else if same(a, "--help") {
        Word::Help
    } else if same(a, "--version") {
        Word::Version
    } else if same(a, "--writable") {
        Word::Flag(Flag::Writable)
    } else if same(a, "--require-insn") {
        Word::Flag(Flag::RequireInsn)
    } else if same(a, "--require-cgroup") {
        Word::Flag(Flag::RequireCgroup)
    } else if same(a, "--extra-counters") {
        Word::Flag(Flag::ExtraCounters)
    } else if same(a, "--no-seccomp") {
        Word::Flag(Flag::NoSeccomp)
    } else if same(a, "--proc-bind") {
        Word::Flag(Flag::ProcBind)
    } else if same(a, "--proc-fresh") {
        Word::Flag(Flag::ProcFresh)
    } else if same(a, "--no-isolate") {
        Word::Flag(Flag::NoIsolate)
    } else if same(a, "--box") {
        Word::Setting(Setting::BoxDir)
    } else if same(a, "--bind") {
        Word::Setting(Setting::Bind)
    } else if same(a, "--cgroup-dir") {
        Word::Setting(Setting::CgroupDir)
    } else if same(a, "--stdin") {
        Word::Setting(Setting::Stdin)
    } else if same(a, "--stdout") {
        Word::Setting(Setting::Stdout)
    } else if same(a, "--stderr") {
        Word::Setting(Setting::Stderr)
    } else if same(a, "--wall-ms") {
        Word::Setting(Setting::WallMs)
    } else if same(a, "--insn-limit") {
        Word::Setting(Setting::InsnLimit)
    } else if same(a, "--cpu-s") {
        Word::Setting(Setting::CpuS)
    } else if same(a, "--mem-kb") {
        Word::Setting(Setting::MemKb)
    } else if same(a, "--pin-cpu") {
        Word::Setting(Setting::PinCpu)
    } else {
        Word::Unknown
    }
}

/// What a run was asked to be.
#[verifier::ext_equal]
pub struct Wishes {
    pub box_dir: Option<Seq<char>>,
    pub writable: bool,
    pub extra_binds: Seq<(Seq<char>, Seq<char>, bool)>,
    pub cgroup_dir: Option<Seq<char>>,
    pub seccomp: bool,
    pub proc_mode: ProcMode,
    pub stdin: Seq<char>,
    pub stdout: Seq<char>,
    pub stderr: Seq<char>,
    pub limits: Limits,
    pub isolate: bool,
}

/// A text that may be missing.
pub open spec fn opt_view(s: Option<String>) -> Option<Seq<char>> {
    match s {
        Some(t) => Some(t@),
        None => None,
    }
}

/// The mounts, as texts.
pub open spec fn bind_views(binds: Seq<(String, String, bool)>) -> Seq<
    (Seq<char>, Seq<char>, bool),
> {
    binds.map_values(|b: (String, String, bool)| (b.0@, b.1@, b.2))
}

/// A run to be made.
#[derive(Debug, Clone)]
pub struct Invocation {
    pub argv: Vec<String>,
    pub spec: SandboxSpec,
    pub limits: Limits,
    /// Whether the run is isolated, as it is unless that was switched off.
    pub isolate: bool,
}

impl Invocation {
    /// What the run was asked to be.
    pub open spec fn wishes(self) -> Wishes {
        Wishes {
            box_dir: opt_view(self.spec.box_dir),
            writable: self.spec.writable,
            extra_binds: bind_views(self.spec.extra_binds@),
            cgroup_dir: opt_view(self.spec.cgroup_dir),
            seccomp: self.spec.seccomp,
            proc_mode: self.spec.proc_mode,
            stdin: self.spec.stdin@,
            stdout: self.spec.stdout@,
            stderr: self.spec.stderr@,
            limits: self.limits,
            isolate: self.isolate,
        }
    }
}

/// What is asked for.
#[derive(Debug, Clone)]
pub enum Request {
    Help,
    Version,
    Run(Invocation),
}

/// What a command line comes to.
pub enum Outcome {
    Help,
    Version,
    Run { wishes: Wishes, argv: Seq<Seq<char>> },
    /// A usage error.
    Wrong(Seq<char>),
}

/// What a run is asked to be without options.
pub open spec fn default_wishes() -> Wishes {
    Wishes {
        box_dir: None,
        writable: false,
        extra_binds: Seq::empty(),
        cgroup_dir: None,
        seccomp: true,
        proc_mode: ProcMode::Auto,
        stdin: "/dev/null"@,
        stdout: "/dev/null"@,
        stderr: "/dev/stderr"@,
        limits: Limits {
            wall_ms: 10_000,
            insn_limit: None,
            cpu_seconds: 10,
            mem_kb: None,
            max_procs: 4096,
            max_output_bytes: 8388608,
            max_open_files: 64,
            pin_cpu: None,
            require_insn: false,
            require_cgroup: false,
            extra_counters: false,
        },
        isolate: true,
    }
}

/// The wishes with a flag.
pub open spec fn with_flag(w: Wishes, f: Flag) -> Wishes {
    match f {
        Flag::Writable => Wishes { writable: true, ..w },
        Flag::RequireInsn => Wishes { limits: Limits { require_insn: true, ..w.limits }, ..w },
        Flag::RequireCgroup => Wishes { limits: Limits { require_cgroup: true, ..w.limits }, ..w },
        Flag::ExtraCounters => Wishes { limits: Limits { extra_counters: true, ..w.limits }, ..w },
        Flag::NoSeccomp => Wishes { seccomp: false, ..w },
        Flag::ProcBind => Wishes { proc_mode: ProcMode::Bind, ..w },
        Flag::ProcFresh => Wishes { proc_mode: ProcMode::Fresh, ..w },
        Flag::NoIsolate => Wishes { isolate: false, ..w },
    }
}

/// The mount that `SRC:DST`, `SRC:DST:ro` or `SRC:DST:rw` asks for.
pub open spec fn bind_of(s: Seq<char>) -> Option<(Seq<char>, Seq<char>, bool)> {
    let parts = text::split_on(s, ':');
    if parts.len() == 2 || (parts.len() == 3 && parts[2] == "ro"@) {
        Some((parts[0], parts[1], false))
    } else if parts.len() == 3 && parts[2] == "rw"@ {
        Some((parts[0], parts[1], true))
    } else {
        None
    }
}

/// The limits with a number set, where it is one that the limit can be.
pub open spec fn with_number(l: Limits, s: Setting, v: Seq<char>) -> Option<Limits> {
    let max: nat = if s == Setting::PinCpu {
        u32::MAX as nat
    } else {
        u64::MAX as nat
    };
    match text::unsigned_up_to(v, max) {
        Some(n) => Some(
            match s {
                Setting::WallMs => Limits { wall_ms: n as u64, ..l },
                Setting::InsnLimit => Limits { insn_limit: Some(n as u64), ..l },
                Setting::CpuS => Limits { cpu_seconds: n as u64, ..l },
                Setting::MemKb => Limits { mem_kb: Some(n as u64), ..l },
                Setting::PinCpu => Limits { pin_cpu: Some(n as u32), ..l },
                _ => l,
            },
        ),
        None => None,
    }
}

/// The wishes with a setting, or what is wrong with its value. `name` is the
/// option as it was given.
pub open spec fn with_setting(w: Wishes, name: Seq<char>, s: Setting, v: Seq<char>) -> Result<
    Wishes,
    Seq<char>,
> {
    match s {
        Setting::BoxDir => Ok(Wishes { box_dir: Some(v), ..w }),
        Setting::Bind => match bind_of(v) {
            Some(b) => Ok(Wishes { extra_binds: w.extra_binds.push(b), ..w }),
            None => Err("--bind wants SRC:DST or SRC:DST:rw"@),
        },
        Setting::CgroupDir => Ok(Wishes { cgroup_dir: Some(v), ..w }),
        Setting::Stdin => Ok(Wishes { stdin: v, ..w }),
        Setting::Stdout => Ok(Wishes { stdout: v, ..w }),
        Setting::Stderr => Ok(Wishes { stderr: v, ..w }),
        _ => match with_number(w.limits, s, v) {
            Some(limits) => Ok(Wishes { limits, ..w }),
            None => Err(name + " not an integer"@),
        },
    }
}

/// What a command comes to, when all options were read.
pub open spec fn concluded(w: Wishes, argv: Seq<Seq<char>>) -> Outcome {
    if argv.len() == 0 {
        Outcome::Wrong("no command given (put it after --)"@)
    } else if !w.isolate {
        Outcome::Run { wishes: Wishes { box_dir: None, ..w }, argv }
    } else if w.box_dir is None {
        Outcome::Wrong(
            "isolation needs --box <dir> (or pass --no-isolate for trusted code)"@,
        )
    } else {
        Outcome::Run { wishes: w, argv }
    }
}

/// What the arguments `args` come to, after options that asked for `w`.
pub open spec fn read_on(w: Wishes, args: Seq<Seq<char>>) -> Outcome
    decreases args.len(),
{
    if args.len() == 0 {
        concluded(w, args)
    } else {
        let rest = args.skip(1);
        match word_of(args[0]) {
            Word::Separator => concluded(w, rest),
            Word::Help => Outcome::Help,
            Word::Version => Outcome::Version,
            Word::Flag(f) => read_on(with_flag(w, f), rest),
            Word::Setting(s) => if rest.len() == 0 {
                Outcome::Wrong(args[0] + " needs a value"@)
            } else {
                match with_setting(w, args[0], s, rest[0]) {
                    Ok(w) => read_on(w, args.skip(2)),
                    Err(m) => Outcome::Wrong(m),
                }
            },
            Word::Unknown => Outcome::Wrong("unknown option "@ + args[0]),
        }
    }
}

/// What the arguments come to. The word `run` in front of them may be left out.
pub open spec fn outcome(args: Seq<Seq<char>>) -> Outcome {
    if args.len() > 0 && args[0] == "run"@ {
        read_on(default_wishes(), args.skip(1))
    } else {
        read_on(default_wishes(), args)
    }
}

/// Whether `r` is what a command line comes to.
pub open spec fn is_outcome(r: Result<Request, String>, o: Outcome) -> bool {
    match o {
        Outcome::Help => r == Ok::<Request, String>(Request::Help),
        Outcome::Version => r == Ok::<Request, String>(Request::Version),
        Outcome::Run { wishes, argv } => r matches Ok(Request::Run(i)) && i.wishes() == wishes
            && text::texts(i.argv@) == argv,
        Outcome::Wrong(m) => r matches Err(e) && e@ == m,
    }
}

impl Invocation {
    /// A run without options.
    fn plain() -> (r: Invocation)
        ensures
            r.wishes() == default_wishes(),
            r.argv@.len() == 0,
    {
        let r = Invocation {
            argv: Vec::new(),
            spec: SandboxSpec::default(),
            limits: Limits::default(),
            isolate: true,
        };
        assert(bind_views(r.spec.extra_binds@) =~= Seq::empty());
        assert(r.wishes() =~= default_wishes());
        r
    }

    fn set_flag(&mut self, f: Flag)
        ensures
            final(self).wishes() == with_flag(old(self).wishes(), f),
            final(self).argv == old(self).argv,
    {
        match f {
            Flag::Writable => {
                self.spec.writable = true;
            },
            Flag::RequireInsn => {
                self.limits.require_insn = true;
            },
            Flag::RequireCgroup => {
                self.limits.require_cgroup = true;
            },
            Flag::ExtraCounters => {
                self.limits.extra_counters = true;
            },
            Flag::NoSeccomp => {
                self.spec.seccomp = false;
            },
            Flag::ProcBind => {
                self.spec.proc_mode = ProcMode::Bind;
            },
            Flag::ProcFresh => {
                self.spec.proc_mode = ProcMode::Fresh;
            },
            Flag::NoIsolate => {
                self.isolate = false;
            },
        }
    }

    fn set_number(&mut self, s: Setting, v: &str) -> (r: bool)
        ensures
            match with_number(old(self).limits, s, v@) {
                Some(limits) => r && *final(self) == (Invocation { limits, ..*old(self) }),
                None => !r && *final(self) == *old(self),
            },
    {
        let chars = chars_of(v);
        let max: u64 = match s {
            Setting::PinCpu => u32::MAX as u64,
            _ => u64::MAX,
        };
        match parse_unsigned(chars.as_slice(), max) {
            Some(n) => {
                match s {
                    Setting::WallMs => {
                        self.limits.wall_ms = n;
                    },
                    Setting::InsnLimit => {
                        self.limits.insn_limit = Some(n);
                    },
                    Setting::CpuS => {
                        self.limits.cpu_seconds = n;
                    },
                    Setting::MemKb => {
                        self.limits.mem_kb = Some(n);
                    },
                    Setting::PinCpu => {
                        self.limits.pin_cpu = Some(n as u32);
                    },
                    _ => {},
                }
                true
            },
            None => false,
        }
    }

    fn set_bind(&mut self, v: &str) -> (r: bool)
        ensures
            final(self).argv == old(self).argv,
            match bind_of(v@) {
                Some(b) => {
                    &&& r
                    &&& final(self).wishes() == Wishes {
                        extra_binds: old(self).wishes().extra_binds.push(b),
                        ..old(self).wishes()
                    }
                },
                None => !r && *final(self) == *old(self),
            },
    {
        let parts = split(v, ':');
        let n: usize = parts.len();
        if n != 2 && n != 3 {
            return false;
        }
        assert(text::texts(parts@)[0] == parts@[0]@);
        assert(text::texts(parts@)[1] == parts@[1]@);
        let mut writable = false;
        if n == 3 {
            assert(text::texts(parts@)[2] == parts@[2]@);
            writable = same(parts[2].as_str(), "rw");
            if !writable && !same(parts[2].as_str(), "ro") {
                return false;
            }
            proof {
                reveal_strlit("ro");
                reveal_strlit("rw");
                assert("ro"@[1] != "rw"@[1]);
            }
        }
        let bind = (parts[0].as_str().to_owned(), parts[1].as_str().to_owned(), writable);
        let ghost before = self.spec.extra_binds@;
        self.spec.extra_binds.push(bind);
        assert(bind_views(self.spec.extra_binds@) =~= bind_views(before).push(
            (bind.0@, bind.1@, bind.2),
        ));
        true
    }

    fn set(&mut self, name: &str, s: Setting, v: &str) -> (r: Result<(), String>)
        ensures
            final(self).argv == old(self).argv,
            match with_setting(old(self).wishes(), name@, s, v@) {
                Ok(w) => r is Ok && final(self).wishes() == w,
                Err(m) => r matches Err(e) && e@ == m,
            },
    {
        match s {
            Setting::BoxDir => {
                self.spec.box_dir = Some(v.to_owned());
            },
            Setting::Bind => {
                if !self.set_bind(v) {
                    return Err("--bind wants SRC:DST or SRC:DST:rw".to_owned());
                }
            },
            Setting::CgroupDir => {
                self.spec.cgroup_dir = Some(v.to_owned());
            },
            Setting::Stdin => {
                self.spec.stdin = v.to_owned();
            },
            Setting::Stdout => {
                self.spec.stdout = v.to_owned();
            },
            Setting::Stderr => {
                self.spec.stderr = v.to_owned();
            },
            _ => {
                if !self.set_number(s, v) {
                    let mut m = name.to_owned();
                    m.append(" not an integer");
                    return Err(m);
                }
            },
        }
        Ok(())
    }

    fn conclude(self) -> (r: Result<Request, String>)
        ensures
            is_outcome(r, concluded(self.wishes(), text::texts(self.argv@))),
    {
        let mut i = self;
        if i.argv.len() == 0 {
            return Err("no command given (put it after --)".to_owned());
        }
        if !i.isolate {
            i.spec.box_dir = None;
        } else if i.spec.box_dir.is_none() {
            return Err(
                "isolation needs --box <dir> (or pass --no-isolate for trusted code)".to_owned(),
            );
        }
        Ok(Request::Run(i))
    }
}

/// The arguments from the `from`th on.
fn tail(args: &Vec<String>, from: usize) -> (r: Vec<String>)
    requires
        from <= args@.len(),
    ensures
        text::texts(r@) == text::texts(args@).skip(from as int),
{
    let mut r: Vec<String> = Vec::new();
    let mut i: usize = from;
    while i < args.len()
        invariant
            from <= i <= args@.len(),
            r@.len() == i - from,
            forall|j: int| 0 <= j < r@.len() ==> (#[trigger] r@[j])@ == args@[from + j]@,
        decreases args@.len() - i,
    {
        r.push(args[i].as_str().to_owned());
        i = i + 1;
    }
    assert(text::texts(r@) =~= text::texts(args@).skip(from as int));
    r
}

/// Reads the arguments behind the program's name: what is asked for, or what is
/// wrong with them.
pub fn parse(args: &Vec<String>) -> (r: Result<Request, String>)
    ensures
        is_outcome(r, outcome(text::texts(args@))),
{
    let mut got = Invocation::plain();
    let mut i: usize = 0;
    let ghost all = text::texts(args@);
    assert(all.skip(0) =~= all);
    if args.len() > 0 {
        assert(all[0] == args@[0]@);
        if same(args[0].as_str(), "run") {
            i = 1;
        }
    }
    while i < args.len()
        invariant
            i <= args@.len(),
            all == text::texts(args@),
            got.argv@.len() == 0,
            outcome(all) == read_on(got.wishes(), all.skip(i as int)),
        decreases args@.len() - i,
    {
        let a = args[i].as_str();
        let ghost left = all.skip(i as int);
        assert(left[0] == a@);
        assert(left.skip(1) =~= all.skip(i + 1));
        match word(a) {
            Word::Separator => {
                got.argv = tail(args, i + 1);
                return got.conclude();
            },
            Word::Help => {
                return Ok(Request::Help);
            },
            Word::Version => {
                return Ok(Request::Version);
            },
            Word::Flag(f) => {
                got.set_flag(f);
                i = i + 1;
            },
            Word::Setting(s) => {
                if i + 1 == args.len() {
                    let mut m = a.to_owned();
                    m.append(" needs a value");
                    return Err(m);
                }
                assert(left.skip(1)[0] == args@[i + 1]@);
                assert(left.skip(2) =~= all.skip(i + 2));
                match got.set(a, s, args[i + 1].as_str()) {
                    Ok(()) => {},
                    Err(m) => {
                        return Err(m);
                    },
                }
                i = i + 2;
            },
            Word::Unknown => {
                let mut m = "unknown option ".to_owned();
                m.append(a);
                return Err(m);
            },
        }
    }
    assert(all.skip(i as int) =~= Seq::empty());
    assert(text::texts(got.argv@) =~= Seq::empty());
    got.conclude()
}

/// Whether a word stands among the arguments.
pub open spec fn given(args: Seq<Seq<char>>, word: Seq<char>) -> bool {
    exists|i: int| 0 <= i < args.len() && #[trigger] args[i] == word
}

/// Whether the command `argv` follows a `--` at `at`, and what `wishes` asks for
/// beyond `w` is asked for in front of it.
pub open spec fn asked_at(
    args: Seq<Seq<char>>,
    at: int,
    w: Wishes,
    wishes: Wishes,
    argv: Seq<Seq<char>>,
) -> bool {
    &&& 0 <= at < args.len()
    &&& args[at] == "--"@
    &&& argv == args.skip(at + 1)
    &&& !wishes.isolate ==> !w.isolate || given(args.take(at), "--no-isolate"@)
    &&& !wishes.seccomp ==> !w.seccomp || given(args.take(at), "--no-seccomp"@)
    &&& wishes.writable ==> w.writable || given(args.take(at), "--writable"@)
}

proof fn lemma_given_later(args: Seq<Seq<char>>, n: int, at: int, word: Seq<char>)
    requires
        0 <= n <= n + at <= args.len(),
        given(args.skip(n).take(at), word),
    ensures
        given(args.take(n + at), word),
{
    let i = choose|i: int|
        0 <= i < args.skip(n).take(at).len() && #[trigger] args.skip(n).take(at)[i] == word;
    assert(args.take(n + at)[n + i] == word);
}

/// What the arguments from the `n`th on ask for, all of them ask for.
proof fn lemma_asked_later(
    args: Seq<Seq<char>>,
    n: int,
    at: int,
    w: Wishes,
    wishes: Wishes,
    argv: Seq<Seq<char>>,
)
    requires
        0 <= n <= args.len(),
        asked_at(args.skip(n), at, w, wishes, argv),
    ensures
        asked_at(args, n + at, w, wishes, argv),
{
    assert(args.skip(n).skip(at + 1) =~= args.skip(n + at + 1));
    if given(args.skip(n).take(at), "--no-isolate"@) {
        lemma_given_later(args, n, at, "--no-isolate"@);
    }
    if given(args.skip(n).take(at), "--no-seccomp"@) {
        lemma_given_later(args, n, at, "--no-seccomp"@);
    }
    if given(args.skip(n).take(at), "--writable"@) {
        lemma_given_later(args, n, at, "--writable"@);
    }
}

proof fn lemma_read_on(w: Wishes, args: Seq<Seq<char>>)
    ensures
        read_on(w, args) matches Outcome::Run { wishes, argv } ==> {
            &&& argv.len() > 0
            &&& wishes.isolate <==> wishes.box_dir is Some
            &&& exists|at: int| #[trigger] asked_at(args, at, w, wishes, argv)
        },
    decreases args.len(),
{
    if args.len() > 0 && read_on(w, args) is Run {
        let wishes = read_on(w, args)->wishes;
        let argv = read_on(w, args)->argv;
        match word_of(args[0]) {
            Word::Flag(f) => {
                let next = with_flag(w, f);
                lemma_read_on(next, args.skip(1));
                let at = choose|at: int| #[trigger]
                    asked_at(args.skip(1), at, next, wishes, argv);
                lemma_asked_later(args, 1, at, next, wishes, argv);
                assert(args.take(1 + at)[0] == args[0]);
                assert(asked_at(args, 1 + at, w, wishes, argv));
            },
            Word::Setting(s) => {
                let next = with_setting(w, args[0], s, args.skip(1)[0])->Ok_0;
                lemma_read_on(next, args.skip(2));
                let at = choose|at: int| #[trigger]
                    asked_at(args.skip(2), at, next, wishes, argv);
                lemma_asked_later(args, 2, at, next, wishes, argv);
                assert(asked_at(args, 2 + at, w, wishes, argv));
            },
            _ => {
                assert(asked_at(args, 0, w, wishes, argv));
            },
        }
    }
}

/// The command is what follows a `--`, word for word, and is never empty. A run
/// that is not isolated, not filtered, or may write to its box was asked for in
/// so many words in front of it; and exactly an isolated one has a box.
pub proof fn law_safe_unless_asked(args: Seq<Seq<char>>)
    ensures
        outcome(args) matches Outcome::Run { wishes, argv } ==> {
            &&& argv.len() > 0
            &&& wishes.isolate <==> wishes.box_dir is Some
            &&& exists|at: int| #[trigger] asked_at(args, at, default_wishes(), wishes, argv)
        },
{
    if args.len() > 0 && args[0] == "run"@ {
        lemma_read_on(default_wishes(), args.skip(1));
        if outcome(args) is Run {
            let wishes = outcome(args)->wishes;
            let argv = outcome(args)->argv;
            let at = choose|at: int| #[trigger]
                asked_at(args.skip(1), at, default_wishes(), wishes, argv);
            lemma_asked_later(args, 1, at, default_wishes(), wishes, argv);
        }
    } else {
        lemma_read_on(default_wishes(), args);
    }
}

/// An option as it is spelled on the command line: its name, and its value where
/// it takes one.
pub type Spelled = (Seq<char>, Option<Seq<char>>);

/// Whether `name` is an option that takes no value.
pub open spec fn is_flag_name(name: Seq<char>) -> bool {
    ||| name == "--writable"@
    ||| name == "--require-insn"@
    ||| name == "--require-cgroup"@
    ||| name == "--extra-counters"@
    ||| name == "--no-seccomp"@
    ||| name == "--proc-bind"@
    ||| name == "--proc-fresh"@
    ||| name == "--no-isolate"@
}

/// Whether `name` is an option whose value is taken as it is.
pub open spec fn is_text_name(name: Seq<char>) -> bool {
    ||| name == "--box"@
    ||| name == "--cgroup-dir"@
    ||| name == "--stdin"@
    ||| name == "--stdout"@
    ||| name == "--stderr"@
}

/// Whether `name` is an option whose value is a number.
pub open spec fn is_number_name(name: Seq<char>) -> bool {
    ||| name == "--wall-ms"@
    ||| name == "--insn-limit"@
    ||| name == "--cpu-s"@
    ||| name == "--mem-kb"@
    ||| name == "--pin-cpu"@
}

/// The largest number that the option `name` takes.
pub open spec fn largest(name: Seq<char>) -> nat {
    if name == "--pin-cpu"@ {
        0xffff_ffff
    } else {
        0xffff_ffff_ffff_ffff
    }
}

/// Whether `v` is a number of at most `max`: digits, after an optional plus sign.
pub open spec fn writes_number(v: Seq<char>, max: nat) -> bool {
    text::unsigned_value(v) matches Some(n) && n <= max
}

/// Whether `o` is an option that can be read.
pub open spec fn is_option(o: Spelled) -> bool {
    ||| is_flag_name(o.0) && o.1 is None
    ||| is_text_name(o.0) && o.1 is Some
    ||| is_number_name(o.0) && (o.1 matches Some(v) && writes_number(v, largest(o.0)))
    ||| o.0 == "--bind"@ && (o.1 matches Some(v) && is_mount(v))
}

/// Whether `v` spells a mount: two or three parts between colons, the third `ro`
/// or `rw`.
pub open spec fn is_mount(v: Seq<char>) -> bool {
    exists|src: Seq<char>, dst: Seq<char>, end: Seq<char>|
        #[trigger] mount_text(src, dst, end) == v && !src.contains(':') && !dst.contains(':') && (
        end == ""@ || end == ":ro"@ || end == ":rw"@)
}

/// How a mount is spelled.
pub open spec fn mount_text(src: Seq<char>, dst: Seq<char>, end: Seq<char>) -> Seq<char> {
    src + seq![':'] + dst + end
}

/// Options, one after the other, as the command line has them.
pub open spec fn spelled(opts: Seq<Spelled>) -> Seq<Seq<char>>
    decreases opts.len(),
{
    if opts.len() == 0 {
        Seq::empty()
    } else {
        let o = opts.last();
        spelled(opts.drop_last()) + match o.1 {
            Some(v) => seq![o.0, v],
            None => seq![o.0],
        }
    }
}

/// Whether the option `name` is given.
pub open spec fn is_given(opts: Seq<Spelled>, name: Seq<char>) -> bool
    decreases opts.len(),
{
    opts.len() > 0 && (opts.last().0 == name || is_given(opts.drop_last(), name))
}

/// The value of the last option `name`, or `default` where there is none.
pub open spec fn last_value(
    opts: Seq<Spelled>,
    name: Seq<char>,
    default: Option<Seq<char>>,
) -> Option<Seq<char>>
    decreases opts.len(),
{
    if opts.len() == 0 {
        default
    } else if opts.last().0 == name {
        opts.last().1
    } else {
        last_value(opts.drop_last(), name, default)
    }
}

/// The number that the last option `name` gives, or `default` where there is
/// none.
pub open spec fn last_number(opts: Seq<Spelled>, name: Seq<char>, default: Option<nat>) -> Option<nat> {
    match last_value(opts, name, None) {
        Some(v) => text::unsigned_value(v),
        None => default,
    }
}

/// The mounts that are asked for, in order.
pub open spec fn mounts(opts: Seq<Spelled>) -> Seq<Seq<char>>
    decreases opts.len(),
{
    if opts.len() == 0 {
        Seq::empty()
    } else if opts.last().0 == "--bind"@ {
        mounts(opts.drop_last()).push(opts.last().1->0)
    } else {
        mounts(opts.drop_last())
    }
}

/// Which kind of /proc the last option about it asks for.
pub open spec fn last_proc(opts: Seq<Spelled>) -> ProcMode
    decreases opts.len(),
{
    if opts.len() == 0 {
        ProcMode::Auto
    } else if opts.last().0 == "--proc-bind"@ {
        ProcMode::Bind
    } else if opts.last().0 == "--proc-fresh"@ {
        ProcMode::Fresh
    } else {
        last_proc(opts.drop_last())
    }
}

/// What every name is read as.
proof fn lemma_names()
    ensures
        word_of("--"@) == Word::Separator,
        word_of("--help"@) == Word::Help,
        word_of("--version"@) == Word::Version,
        word_of("--writable"@) == Word::Flag(Flag::Writable),
        word_of("--require-insn"@) == Word::Flag(Flag::RequireInsn),
        word_of("--require-cgroup"@) == Word::Flag(Flag::RequireCgroup),
        word_of("--extra-counters"@) == Word::Flag(Flag::ExtraCounters),
        word_of("--no-seccomp"@) == Word::Flag(Flag::NoSeccomp),
        word_of("--proc-bind"@) == Word::Flag(Flag::ProcBind),
        word_of("--proc-fresh"@) == Word::Flag(Flag::ProcFresh),
        word_of("--no-isolate"@) == Word::Flag(Flag::NoIsolate),
        word_of("--box"@) == Word::Setting(Setting::BoxDir),
        word_of("--bind"@) == Word::Setting(Setting::Bind),
        word_of("--cgroup-dir"@) == Word::Setting(Setting::CgroupDir),
        word_of("--stdin"@) == Word::Setting(Setting::Stdin),
        word_of("--stdout"@) == Word::Setting(Setting::Stdout),
        word_of("--stderr"@) == Word::Setting(Setting::Stderr),
        word_of("--wall-ms"@) == Word::Setting(Setting::WallMs),
        word_of("--insn-limit"@) == Word::Setting(Setting::InsnLimit),
        word_of("--cpu-s"@) == Word::Setting(Setting::CpuS),
        word_of("--mem-kb"@) == Word::Setting(Setting::MemKb),
        word_of("--pin-cpu"@) == Word::Setting(Setting::PinCpu),
        word_of("run"@) == Word::Unknown,
{
    reveal_strlit("--");
    reveal_strlit("--help");
    reveal_strlit("--version");
    reveal_strlit("--writable");
    reveal_strlit("--require-insn");
    reveal_strlit("--require-cgroup");
    reveal_strlit("--extra-counters");
    reveal_strlit("--no-seccomp");
    reveal_strlit("--proc-bind");
    reveal_strlit("--proc-fresh");
    reveal_strlit("--no-isolate");
    reveal_strlit("--box");
    reveal_strlit("--bind");
    reveal_strlit("--cgroup-dir");
    reveal_strlit("--stdin");
    reveal_strlit("--stdout");
    reveal_strlit("--stderr");
    reveal_strlit("--wall-ms");
    reveal_strlit("--insn-limit");
    reveal_strlit("--cpu-s");
    reveal_strlit("--mem-kb");
    reveal_strlit("--pin-cpu");
    reveal_strlit("run");
    assert("--"@.len() == 2);
    assert("--help"@.len() == 6);
    assert("--version"@.len() == 9);
    assert("--writable"@.len() == 10);
    assert("--require-insn"@.len() == 14);
    assert("--require-cgroup"@.len() == 16);
    assert("--extra-counters"@.len() == 16);
    assert("--no-seccomp"@.len() == 12);
    assert("--proc-bind"@.len() == 11);
    assert("--proc-fresh"@.len() == 12);
    assert("--no-isolate"@.len() == 12);
    assert("--box"@.len() == 5);
    assert("--bind"@.len() == 6);
    assert("--cgroup-dir"@.len() == 12);
    assert("--stdin"@.len() == 7);
    assert("--stdout"@.len() == 8);
    assert("--stderr"@.len() == 8);
    assert("--wall-ms"@.len() == 9);
    assert("--insn-limit"@.len() == 12);
    assert("--cpu-s"@.len() == 7);
    assert("--mem-kb"@.len() == 8);
    assert("--pin-cpu"@.len() == 9);
    assert("run"@.len() == 3);
    assert("--help"@[2] != "--bind"@[2]);
    assert("--version"@[2] != "--wall-ms"@[2]);
    assert("--version"@[2] != "--pin-cpu"@[2]);
    assert("--require-cgroup"@[2] != "--extra-counters"@[2]);
    assert("--no-seccomp"@[2] != "--proc-fresh"@[2]);
    assert("--no-seccomp"@[5] != "--no-isolate"@[5]);
    assert("--no-seccomp"@[2] != "--cgroup-dir"@[2]);
    assert("--no-seccomp"@[2] != "--insn-limit"@[2]);
    assert("--proc-fresh"@[2] != "--no-isolate"@[2]);
    assert("--proc-fresh"@[2] != "--cgroup-dir"@[2]);
    assert("--proc-fresh"@[2] != "--insn-limit"@[2]);
    assert("--no-isolate"@[2] != "--cgroup-dir"@[2]);
    assert("--no-isolate"@[2] != "--insn-limit"@[2]);
    assert("--cgroup-dir"@[2] != "--insn-limit"@[2]);
    assert("--stdin"@[2] != "--cpu-s"@[2]);
    assert("--stdout"@[5] != "--stderr"@[5]);
    assert("--stdout"@[2] != "--mem-kb"@[2]);
    assert("--stderr"@[2] != "--mem-kb"@[2]);
    assert("--wall-ms"@[2] != "--pin-cpu"@[2]);
}

/// What the options in front of `o` asked for, with `o`.
spec fn applied(w: Wishes, o: Spelled) -> Wishes {
    match word_of(o.0) {
        Word::Flag(f) => with_flag(w, f),
        Word::Setting(s) => with_setting(w, o.0, s, o.1->0)->Ok_0,
        _ => w,
    }
}

spec fn applied_all(w: Wishes, opts: Seq<Spelled>) -> Wishes
    decreases opts.len(),
{
    if opts.len() == 0 {
        w
    } else {
        applied(applied_all(w, opts.drop_last()), opts.last())
    }
}

/// How an option stands on the command line.
spec fn tokens(o: Spelled) -> Seq<Seq<char>> {
    match o.1 {
        Some(v) => seq![o.0, v],
        None => seq![o.0],
    }
}

/// A mount comes apart as it was spelled.
pub proof fn law_mounts_are_read(src: Seq<char>, dst: Seq<char>)
    requires
        !src.contains(':'),
        !dst.contains(':'),
    ensures
        bind_of(mount_text(src, dst, ""@)) == Some((src, dst, false)),
        bind_of(mount_text(src, dst, ":ro"@)) == Some((src, dst, false)),
        bind_of(mount_text(src, dst, ":rw"@)) == Some((src, dst, true)),
{
    reveal_strlit("");
    reveal_strlit(":ro");
    reveal_strlit(":rw");
    reveal_strlit("ro");
    reveal_strlit("rw");
    assert("ro"@[1] != "rw"@[1]);
    let two = seq![src, dst];
    text::law_split_reads_back(two, ':');
    assert(two.drop_first() =~= seq![dst]);
    assert(text::glued(seq![dst], ':') =~= dst);
    assert(text::glued(two, ':') =~= mount_text(src, dst, ""@));
    lemma_three_parts(src, dst, "ro"@);
    lemma_three_parts(src, dst, "rw"@);
    assert(":ro"@ =~= seq![':'] + "ro"@);
    assert(":rw"@ =~= seq![':'] + "rw"@);
}

proof fn lemma_three_parts(src: Seq<char>, dst: Seq<char>, mode: Seq<char>)
    requires
        !src.contains(':'),
        !dst.contains(':'),
        !mode.contains(':'),
    ensures
        text::split_on(mount_text(src, dst, seq![':'] + mode), ':') == seq![src, dst, mode],
{
    let three = seq![src, dst, mode];
    text::law_split_reads_back(three, ':');
    let two = three.drop_first();
    assert(two =~= seq![dst, mode]);
    assert(two.drop_first() =~= seq![mode]);
    assert(text::glued(seq![mode], ':') =~= mode);
    assert(text::glued(two, ':') =~= dst + seq![':'] + mode);
    assert(text::glued(three, ':') =~= mount_text(src, dst, seq![':'] + mode));
}

/// Whether the mount `b` is what `v` spells.
pub open spec fn is_spelled(b: (Seq<char>, Seq<char>, bool), v: Seq<char>) -> bool {
    &&& !b.0.contains(':')
    &&& !b.1.contains(':')
    &&& if b.2 {
        v == mount_text(b.0, b.1, ":rw"@)
    } else {
        v == mount_text(b.0, b.1, ""@) || v == mount_text(b.0, b.1, ":ro"@)
    }
}

proof fn lemma_mount(v: Seq<char>)
    ensures
        is_mount(v) ==> (bind_of(v) matches Some(b) && is_spelled(b, v)),
        bind_of(v) is Some ==> is_mount(v),
{
    if is_mount(v) {
        let (src, dst, end) = choose|src: Seq<char>, dst: Seq<char>, end: Seq<char>|
            #[trigger] mount_text(src, dst, end) == v && !src.contains(':') && !dst.contains(':')
                && (end == ""@ || end == ":ro"@ || end == ":rw"@);
        law_mounts_are_read(src, dst);
    }
    if bind_of(v) is Some {
        reveal_strlit("");
        reveal_strlit(":ro");
        reveal_strlit(":rw");
        reveal_strlit("ro");
        reveal_strlit("rw");
        assert(":ro"@ =~= seq![':'] + "ro"@);
        assert(":rw"@ =~= seq![':'] + "rw"@);
        text::law_parts_make_the_text(v, ':');
        reveal_with_fuel(text::glued, 4);
        let p = text::split_on(v, ':');
        if p.len() == 2 {
            assert(p.drop_first() =~= seq![p[1]]);
            assert(v =~= mount_text(p[0], p[1], ""@));
        } else {
            let q = p.drop_first();
            assert(q.drop_first() =~= seq![p[2]]);
            assert(q[0] == p[1]);
            assert(v =~= mount_text(p[0], p[1], seq![':'] + p[2]));
        }
    }
}

/// Whether `w` is what `opts` ask for, whether the run is isolated or not.
pub open spec fn as_asked(w: Wishes, opts: Seq<Spelled>) -> bool {
    &&& w.writable == is_given(opts, "--writable"@)
    &&& w.seccomp == !is_given(opts, "--no-seccomp"@)
    &&& w.isolate == !is_given(opts, "--no-isolate"@)
    &&& w.proc_mode == last_proc(opts)
    &&& w.cgroup_dir == last_value(opts, "--cgroup-dir"@, None)
    &&& Some(w.stdin) == last_value(opts, "--stdin"@, Some("/dev/null"@))
    &&& Some(w.stdout) == last_value(opts, "--stdout"@, Some("/dev/null"@))
    &&& Some(w.stderr) == last_value(opts, "--stderr"@, Some("/dev/stderr"@))
    &&& w.extra_binds.len() == mounts(opts).len()
    &&& forall|i: int|
        0 <= i < mounts(opts).len() ==> is_spelled(#[trigger] w.extra_binds[i], mounts(opts)[i])
}

/// Whether `l` are the limits that `opts` ask for.
pub open spec fn limits_as_asked(l: Limits, opts: Seq<Spelled>) -> bool {
    &&& Some(l.wall_ms as nat) == last_number(opts, "--wall-ms"@, Some(10_000))
    &&& Some(l.cpu_seconds as nat) == last_number(opts, "--cpu-s"@, Some(10))
    &&& opt_nat(l.insn_limit) == last_number(opts, "--insn-limit"@, None)
    &&& opt_nat(l.mem_kb) == last_number(opts, "--mem-kb"@, None)
    &&& (match l.pin_cpu {
        Some(n) => Some(n as nat),
        None => None,
    }) == last_number(opts, "--pin-cpu"@, None)
    &&& l.require_insn == is_given(opts, "--require-insn"@)
    &&& l.require_cgroup == is_given(opts, "--require-cgroup"@)
    &&& l.extra_counters == is_given(opts, "--extra-counters"@)
    &&& l.max_procs == 4096
    &&& l.max_output_bytes == 8 * 1024 * 1024
    &&& l.max_open_files == 64
}

/// A number that may be missing.
pub open spec fn opt_nat(v: Option<u64>) -> Option<nat> {
    match v {
        Some(n) => Some(n as nat),
        None => None,
    }
}

proof fn lemma_one_option(w: Wishes, before: Seq<Spelled>, o: Spelled)
    requires
        is_option(o),
        as_asked(w, before),
        limits_as_asked(w.limits, before),
        w.box_dir == last_value(before, "--box"@, None),
    ensures
        ({
            let opts = before.push(o);
            let n = applied(w, o);
            &&& as_asked(n, opts)
            &&& limits_as_asked(n.limits, opts)
            &&& n.box_dir == last_value(opts, "--box"@, None)
        }),
{
    let opts = before.push(o);
    lemma_names();
    assert(opts.drop_last() =~= before);
    assert(opts.last() == o);
    let n = applied(w, o);
    if o.0 == "--bind"@ {
        let v = o.1->0;
        lemma_mount(v);
        assert(n.extra_binds == w.extra_binds.push(bind_of(v)->0));
        assert forall|i: int| 0 <= i < mounts(opts).len() implies is_spelled(
            #[trigger] n.extra_binds[i],
            mounts(opts)[i],
        ) by {
            if i < w.extra_binds.len() {
                assert(n.extra_binds[i] == w.extra_binds[i]);
            }
        }
    } else {
        assert(n.extra_binds == w.extra_binds);
        assert(mounts(opts) == mounts(before));
    }
}

proof fn lemma_all_options(opts: Seq<Spelled>)
    requires
        forall|i: int| 0 <= i < opts.len() ==> is_option(#[trigger] opts[i]),
    ensures
        ({
            let w = applied_all(default_wishes(), opts);
            &&& as_asked(w, opts)
            &&& limits_as_asked(w.limits, opts)
            &&& w.box_dir == last_value(opts, "--box"@, None)
        }),
    decreases opts.len(),
{
    if opts.len() > 0 {
        let before = opts.drop_last();
        assert forall|i: int| 0 <= i < before.len() implies is_option(#[trigger] before[i]) by {
            assert(before[i] == opts[i]);
        }
        lemma_all_options(before);
        assert(opts[opts.len() - 1] == opts.last());
        lemma_one_option(applied_all(default_wishes(), before), before, opts.last());
        assert(before.push(opts.last()) =~= opts);
    }
}

proof fn lemma_read_one(w: Wishes, o: Spelled, tail: Seq<Seq<char>>)
    requires
        is_option(o),
    ensures
        read_on(w, tokens(o) + tail) == read_on(applied(w, o), tail),
{
    lemma_names();
    let args = tokens(o) + tail;
    assert(args[0] == o.0);
    if o.1 is Some {
        assert(args.skip(1)[0] == o.1->0);
        assert(args.skip(2) =~= tail);
        if o.0 == "--bind"@ {
            lemma_mount(o.1->0);
        }
    } else {
        assert(args.skip(1) =~= tail);
    }
}

proof fn lemma_read_all(w: Wishes, opts: Seq<Spelled>, tail: Seq<Seq<char>>)
    requires
        forall|i: int| 0 <= i < opts.len() ==> is_option(#[trigger] opts[i]),
    ensures
        read_on(w, spelled(opts) + tail) == read_on(applied_all(w, opts), tail),
    decreases opts.len(),
{
    if opts.len() == 0 {
        assert(spelled(opts) + tail =~= tail);
    } else {
        let before = opts.drop_last();
        let o = opts.last();
        assert(opts[opts.len() - 1] == o);
        assert forall|i: int| 0 <= i < before.len() implies is_option(#[trigger] before[i]) by {
            assert(before[i] == opts[i]);
        }
        assert(spelled(opts) + tail =~= spelled(before) + (tokens(o) + tail));
        lemma_read_all(w, before, tokens(o) + tail);
        lemma_read_one(applied_all(w, before), o, tail);
    }
}

/// The first word of options is not `run`.
proof fn lemma_first_word(opts: Seq<Spelled>, tail: Seq<Seq<char>>)
    requires
        forall|i: int| 0 <= i < opts.len() ==> is_option(#[trigger] opts[i]),
        opts.len() > 0 || (tail.len() > 0 ==> tail[0] != "run"@),
    ensures
        outcome(spelled(opts) + tail) == read_on(default_wishes(), spelled(opts) + tail),
        outcome(seq!["run"@] + spelled(opts) + tail) == read_on(
            default_wishes(),
            spelled(opts) + tail,
        ),
    decreases opts.len(),
{
    let args = spelled(opts) + tail;
    let long = seq!["run"@] + spelled(opts) + tail;
    assert(long.skip(1) =~= args);
    if opts.len() == 0 {
        assert(args =~= tail);
    } else {
        lemma_first_option(opts);
        assert(args[0] == spelled(opts)[0]);
    }
}

proof fn lemma_first_option(opts: Seq<Spelled>)
    requires
        opts.len() > 0,
        forall|i: int| 0 <= i < opts.len() ==> is_option(#[trigger] opts[i]),
    ensures
        spelled(opts).len() > 0,
        spelled(opts)[0] != "run"@,
    decreases opts.len(),
{
    let before = opts.drop_last();
    assert(opts[opts.len() - 1] == opts.last());
    lemma_names();
    if before.len() > 0 {
        assert forall|i: int| 0 <= i < before.len() implies is_option(#[trigger] before[i]) by {
            assert(before[i] == opts[i]);
        }
        lemma_first_option(before);
        assert(spelled(opts)[0] == spelled(before)[0]);
    } else {
        assert(spelled(before) =~= Seq::empty());
        assert(spelled(opts)[0] == opts.last().0);
    }
}

/// What an option in front of the command asks for is what the run gets,
/// isolated or not: of each setting the last one given, or the default where
/// there is none; and the command is what follows the `--`. Without isolation
/// there is no box, and with it there must be one. Nothing else stands in the
/// way of the run.
pub proof fn law_options_are_honoured(opts: Seq<Spelled>, cmd: Seq<Seq<char>>)
    requires
        forall|i: int| 0 <= i < opts.len() ==> is_option(#[trigger] opts[i]),
    ensures
        ({
            let o = outcome(spelled(opts) + seq!["--"@] + cmd);
            let asked_box = last_value(opts, "--box"@, None);
            let isolated = !is_given(opts, "--no-isolate"@);
            &&& outcome(seq!["run"@] + spelled(opts) + seq!["--"@] + cmd) == o
            &&& o is Run <==> cmd.len() > 0 && (isolated ==> asked_box is Some)
            &&& o is Run || o is Wrong
            &&& cmd.len() == 0 ==> o == Outcome::Wrong("no command given (put it after --)"@)
            &&& cmd.len() > 0 && isolated && asked_box is None ==> o == Outcome::Wrong(
                "isolation needs --box <dir> (or pass --no-isolate for trusted code)"@,
            )
            &&& o matches Outcome::Run { wishes, argv } ==> {
                &&& argv == cmd
                &&& as_asked(wishes, opts)
                &&& limits_as_asked(wishes.limits, opts)
                &&& wishes.box_dir == (if isolated {
                    asked_box
                } else {
                    None
                })
            }
        }),
{
    let tail = seq!["--"@] + cmd;
    lemma_names();
    assert(spelled(opts) + seq!["--"@] + cmd =~= spelled(opts) + tail);
    assert(seq!["run"@] + spelled(opts) + seq!["--"@] + cmd =~= seq!["run"@] + spelled(opts)
        + tail);
    assert(tail[0] == "--"@);
    lemma_first_word(opts, tail);
    lemma_read_all(default_wishes(), opts, tail);
    lemma_all_options(opts);
    assert(tail.skip(1) =~= cmd);
    let w = applied_all(default_wishes(), opts);
    if cmd.len() > 0 && !w.isolate {
        let n = Wishes { box_dir: None, ..w };
        assert(as_asked(outcome(spelled(opts) + tail)->wishes, opts)) by {
            assert(outcome(spelled(opts) + tail)->wishes == n);
        }
    }
}

/// What cannot be read is refused, wherever it stands among the options: a word
/// that is no option, an option without its value, a number or a mount that is
/// none, and a command line without a command. The refusal says what is wrong.
pub proof fn law_mistakes_are_refused(
    opts: Seq<Spelled>,
    x: Seq<char>,
    v: Seq<char>,
    rest: Seq<Seq<char>>,
)
    requires
        forall|i: int| 0 <= i < opts.len() ==> is_option(#[trigger] opts[i]),
        opts.len() > 0 || x != "run"@,
    ensures
        ({
            let takes_value = is_text_name(x) || is_number_name(x) || x == "--bind"@;
            let known = takes_value || is_flag_name(x) || x == "--"@ || x == "--help"@ || x
                == "--version"@;
            &&& !known ==> outcome(spelled(opts) + (seq![x] + rest)) == Outcome::Wrong(
                "unknown option "@ + x,
            )
            &&& takes_value ==> outcome(spelled(opts) + seq![x]) == Outcome::Wrong(
                x + " needs a value"@,
            )
            &&& is_number_name(x) && !writes_number(v, largest(x)) ==> outcome(
                spelled(opts) + (seq![x, v] + rest),
            ) == Outcome::Wrong(x + " not an integer"@)
            &&& x == "--bind"@ && !is_mount(v) ==> outcome(
                spelled(opts) + (seq![x, v] + rest),
            ) == Outcome::Wrong("--bind wants SRC:DST or SRC:DST:rw"@)
            &&& outcome(spelled(opts)) == Outcome::Wrong("no command given (put it after --)"@)
        }),
{
    lemma_names();
    let w = applied_all(default_wishes(), opts);
    let a = seq![x] + rest;
    assert(a[0] == x);
    lemma_first_word(opts, a);
    lemma_read_all(default_wishes(), opts, a);
    let b = seq![x];
    assert(b[0] == x);
    lemma_first_word(opts, b);
    lemma_read_all(default_wishes(), opts, b);
    let c = seq![x, v] + rest;
    assert(c[0] == x && c.skip(1)[0] == v);
    lemma_first_word(opts, c);
    lemma_read_all(default_wishes(), opts, c);
    lemma_mount(v);
    let e = Seq::<Seq<char>>::empty();
    assert(spelled(opts) + e =~= spelled(opts));
    lemma_first_word(opts, e);
    lemma_read_all(default_wishes(), opts, e);
    assert(b.skip(1).len() == 0);
}

/// Help and the version are given wherever they are asked for among the options.
pub proof fn law_help_is_given(opts: Seq<Spelled>, rest: Seq<Seq<char>>)
    requires
        forall|i: int| 0 <= i < opts.len() ==> is_option(#[trigger] opts[i]),
    ensures
        outcome(spelled(opts) + (seq!["--help"@] + rest)) == Outcome::Help,
        outcome(spelled(opts) + (seq!["--version"@] + rest)) == Outcome::Version,
{
    lemma_names();
    let a = seq!["--help"@] + rest;
    let b = seq!["--version"@] + rest;
    assert(a[0] == "--help"@ && b[0] == "--version"@);
    lemma_first_word(opts, a);
    lemma_read_all(default_wishes(), opts, a);
    lemma_first_word(opts, b);
    lemma_read_all(default_wishes(), opts, b);
}

} // verus!
