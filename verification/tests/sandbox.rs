//! The bubblewrap command line, and where the streams go.

use tallyrun::launch::FailureKind;
use tallyrun::sandbox::{
    args_contain_nul, contains_nul, open_failure, open_failure_kind, resolve_fd, stdout_taken,
    StreamPlan, BWRAP,
};
use tallyrun::{build_command, ProcMode, SandboxSpec};

fn args(v: &[&str]) -> Vec<String> {
    v.iter().map(|s| s.to_string()).collect()
}

fn boxed() -> SandboxSpec {
    SandboxSpec {
        box_dir: Some("/tmp/box".to_string()),
        ..Default::default()
    }
}

#[test]
fn build_command_no_box_is_passthrough() {
    let argv = args(&["python3", "m.py"]);
    assert_eq!(
        build_command(&argv, &SandboxSpec::default(), None, true),
        argv
    );
}

#[test]
fn build_command_wraps_with_bwrap() {
    let spec = boxed();
    let cmd = build_command(&args(&["python3", "m.py"]), &spec, None, true);
    assert_eq!(cmd[0], BWRAP);
    // Read-only box by default, payload argv after the `--`.
    let ro = cmd
        .windows(3)
        .any(|w| w == args(&["--ro-bind", "/tmp/box", "/box"]));
    assert!(ro, "box should be ro-bound at /box: {cmd:?}");
    let sep = cmd.iter().rposition(|a| a == "--").unwrap();
    assert_eq!(&cmd[sep + 1..], &args(&["python3", "m.py"])[..]);
}

#[test]
fn build_command_writable_and_extra_binds() {
    let spec = SandboxSpec {
        box_dir: Some("/tmp/box".to_string()),
        writable: true,
        extra_binds: vec![("/opt/jdk".into(), "/opt/jdk".into(), false)],
        ..Default::default()
    };
    let cmd = build_command(&args(&["javac", "M.java"]), &spec, None, true);
    assert!(cmd
        .windows(3)
        .any(|w| w == args(&["--bind", "/tmp/box", "/box"])));
    assert!(cmd
        .windows(3)
        .any(|w| w == args(&["--ro-bind", "/opt/jdk", "/opt/jdk"])));
}

#[test]
fn build_command_seccomp_fd_wiring() {
    let spec = boxed();
    let with = build_command(&args(&["./a.out"]), &spec, Some(7), true);
    assert!(with.windows(2).any(|w| w == args(&["--seccomp", "7"])));
    let without = build_command(&args(&["./a.out"]), &spec, None, true);
    assert!(!without.iter().any(|a| a == "--seccomp"));
}

#[test]
fn build_command_proc_mode_toggles_mount() {
    let spec = boxed();
    let fresh = build_command(&args(&["./a.out"]), &spec, None, true);
    assert!(fresh.windows(2).any(|w| w == args(&["--proc", "/proc"])));
    assert!(!fresh
        .windows(3)
        .any(|w| w == args(&["--ro-bind", "/proc", "/proc"])));

    let bind = build_command(&args(&["./a.out"]), &spec, None, false);
    assert!(bind
        .windows(3)
        .any(|w| w == args(&["--ro-bind", "/proc", "/proc"])));
    assert!(!bind.iter().any(|a| a == "--proc"));
}

#[test]
fn the_whole_command_line() {
    let spec = SandboxSpec {
        extra_binds: vec![("/a".into(), "/b".into(), true)],
        ..boxed()
    };
    let want: Vec<&str> = "/usr/bin/bwrap --unshare-all --die-with-parent \
        --ro-bind /usr /usr --symlink usr/lib /lib --symlink usr/lib64 /lib64 \
        --symlink usr/bin /bin --proc /proc --dev-bind /dev/null /dev/null \
        --dev-bind /dev/zero /dev/zero --dev-bind /dev/urandom /dev/urandom \
        --dev-bind /dev/random /dev/random --seccomp 12 --ro-bind /tmp/box /box \
        --bind /a /b --tmpfs /tmp --chdir /box --clearenv \
        --setenv PATH /usr/local/bin:/usr/bin:/bin --setenv HOME /tmp \
        --setenv PYTHONPYCACHEPREFIX /tmp/pycache --setenv PYTHONHASHSEED 0 \
        --setenv TMPDIR /tmp -- ./a.out --seccomp"
        .split_whitespace()
        .collect();
    assert_eq!(
        build_command(&args(&["./a.out", "--seccomp"]), &spec, Some(12), true),
        args(&want)
    );
}

#[test]
fn a_later_mount_follows_an_earlier_one() {
    let spec = SandboxSpec {
        extra_binds: vec![("/a".into(), "/x".into(), false), ("/b".into(), "/x".into(), true)],
        ..boxed()
    };
    let cmd = build_command(&args(&["p"]), &spec, None, true);
    let a = cmd.iter().position(|s| s == "/a").unwrap();
    assert_eq!(&cmd[a - 1..a + 5], &args(&["--ro-bind", "/a", "/x", "--bind", "/b", "/x"])[..]);
}

#[test]
fn defaults_of_the_sandbox() {
    let s = SandboxSpec::default();
    assert_eq!(s.box_dir, None);
    assert!(!s.writable && s.extra_binds.is_empty());
    assert_eq!(s.cgroup_dir, None);
    assert!(s.seccomp);
    assert_eq!(s.proc_mode, ProcMode::Auto);
    assert_eq!(ProcMode::default(), ProcMode::Auto);
    assert_eq!((s.stdin.as_str(), s.stdout.as_str(), s.stderr.as_str()), ("/dev/null", "/dev/null", "/dev/stderr"));
}

#[test]
fn standard_streams_are_reused() {
    assert_eq!(resolve_fd("/dev/stdin", 0, false), StreamPlan::Reuse);
    assert_eq!(resolve_fd("/dev/stdout", 1, true), StreamPlan::Reuse);
    assert_eq!(resolve_fd("/dev/stderr", 2, true), StreamPlan::Reuse);
}

#[test]
fn other_streams_are_opened_without_following_links() {
    let write = StreamPlan::Open {
        flags: libc::O_WRONLY | libc::O_CREAT | libc::O_TRUNC | libc::O_NOFOLLOW,
        mode: 0o644,
    };
    let read = StreamPlan::Open {
        flags: libc::O_RDONLY | libc::O_NOFOLLOW,
        mode: 0,
    };
    assert_eq!(resolve_fd("/tmp/out", 1, true), write);
    assert_eq!(resolve_fd("/tmp/in", 0, false), read);
    // The name of another stream is a path like any other.
    assert_eq!(resolve_fd("/dev/stderr", 1, true), write);
    assert_eq!(resolve_fd("/dev/stdin", 3, false), read);
    // A stream without a name reuses only the empty path.
    assert_eq!(resolve_fd("", 3, false), StreamPlan::Reuse);
    assert_eq!(resolve_fd("", 0, false), read);
}

#[test]
fn a_stream_path_with_a_nul_is_refused() {
    assert_eq!(resolve_fd("/tmp/a\0b", 1, true), StreamPlan::Nul);
    assert_eq!(resolve_fd("\0", 0, false), StreamPlan::Nul);
}

#[test]
fn nul_is_found_anywhere() {
    assert!(!contains_nul(""));
    assert!(!contains_nul("abc"));
    assert!(contains_nul("abc\0"));
    assert!(!args_contain_nul(&args(&["a", "b"])));
    assert!(args_contain_nul(&args(&["a", "b\0c"])));
    assert!(!args_contain_nul(&Vec::new()));
}

#[test]
fn a_symlink_is_told_from_other_failures() {
    assert_eq!(
        open_failure("/box/out", Some(libc::ELOOP)),
        Some(
            "/box/out: stream path is a symlink, refused (it could redirect the stream to any \
             file the host user can reach)"
                .to_string()
        )
    );
    assert_eq!(open_failure("/box/out", Some(libc::EACCES)), None);
    assert_eq!(open_failure("/box/out", None), None);
}

#[test]
fn a_nul_and_a_symlink_are_invalid_input() {
    let plan = resolve_fd("/box/out", 1, true);
    assert_eq!(open_failure_kind(plan, Some(libc::ELOOP)), FailureKind::InvalidInput);
    assert_eq!(open_failure_kind(plan, Some(libc::ENOENT)), FailureKind::AsReported);
    assert_eq!(open_failure_kind(plan, None), FailureKind::AsReported);
    let nul = resolve_fd("/box/\0", 1, true);
    assert_eq!(open_failure_kind(nul, None), FailureKind::InvalidInput);
}

#[test]
fn the_output_may_not_go_where_the_result_goes() {
    assert!(!stdout_taken(&SandboxSpec::default()));
    assert!(stdout_taken(&SandboxSpec {
        stdout: "/dev/stdout".to_string(),
        ..Default::default()
    }));
    assert!(stdout_taken(&SandboxSpec {
        stderr: "/dev/stdout".to_string(),
        ..Default::default()
    }));
    assert!(!stdout_taken(&SandboxSpec {
        stdin: "/dev/stdout".to_string(),
        ..Default::default()
    }));
}
