//! The command line, and the texts it is made of.

use tallyrun::cli::{
    exit_status, parse, Invocation, Request, EXIT_SETUP, EXIT_USAGE, HELP, HOST_WARNING, USAGE,
    VERSION,
};
use tallyrun::text::{
    after_prefix, chars_of, decimal, join, line_list, parse_signed, parse_unsigned, same,
    signed_decimal, split, trimmed, word_list,
};
use tallyrun::{ProcMode, RunResult};

fn args(v: &[&str]) -> Vec<String> {
    v.iter().map(|s| s.to_string()).collect()
}

fn run_of(v: &[&str]) -> Invocation {
    match parse(&args(v)) {
        Ok(Request::Run(i)) => i,
        other => panic!("{other:?}"),
    }
}

fn wrong(v: &[&str]) -> String {
    match parse(&args(v)) {
        Err(m) => m,
        other => panic!("{other:?}"),
    }
}

#[test]
fn the_quick_start_command() {
    let i = run_of(&[
        "run", "--box", "/tmp/tallyrun-box", "--insn-limit", "10000000000", "--wall-ms", "5000",
        "--mem-kb", "262144", "--require-insn", "--", "python3", "main.py",
    ]);
    assert_eq!(i.argv, args(&["python3", "main.py"]));
    assert_eq!(i.spec.box_dir.as_deref(), Some("/tmp/tallyrun-box"));
    assert_eq!(i.limits.insn_limit, Some(10_000_000_000));
    assert_eq!(i.limits.wall_ms, 5000);
    assert_eq!(i.limits.mem_kb, Some(262_144));
    assert!(i.limits.require_insn && !i.limits.require_cgroup);
    assert!(i.isolate && i.spec.seccomp && !i.spec.writable);
    assert_eq!((i.spec.stdin.as_str(), i.spec.stdout.as_str(), i.spec.stderr.as_str()), ("/dev/null", "/dev/null", "/dev/stderr"));
    assert_eq!(i.limits.cpu_seconds, 10);
}

#[test]
fn every_other_option() {
    let i = run_of(&[
        "--box", "b", "--writable", "--bind", "/a:/b", "--bind", "/c:/d:rw", "--bind", "/e:/f:ro",
        "--cgroup-dir", "/cg", "--stdin", "in", "--stdout", "out", "--stderr", "err", "--cpu-s",
        "3", "--pin-cpu", "2", "--require-cgroup", "--extra-counters", "--no-seccomp",
        "--proc-bind", "--", "p",
    ]);
    assert!(i.spec.writable && !i.spec.seccomp);
    assert_eq!(
        i.spec.extra_binds,
        vec![
            ("/a".to_string(), "/b".to_string(), false),
            ("/c".to_string(), "/d".to_string(), true),
            ("/e".to_string(), "/f".to_string(), false),
        ]
    );
    assert_eq!(i.spec.cgroup_dir.as_deref(), Some("/cg"));
    assert_eq!((i.spec.stdin.as_str(), i.spec.stdout.as_str(), i.spec.stderr.as_str()), ("in", "out", "err"));
    assert_eq!((i.limits.cpu_seconds, i.limits.pin_cpu), (3, Some(2)));
    assert!(i.limits.require_cgroup && i.limits.extra_counters);
    assert_eq!(i.spec.proc_mode, ProcMode::Bind);
    let i = run_of(&["--box", "b", "--proc-fresh", "--", "p"]);
    assert_eq!(i.spec.proc_mode, ProcMode::Fresh);
}

#[test]
fn the_command_is_taken_word_for_word() {
    let i = run_of(&["--box", "b", "--", "run", "--no-isolate", "--", ""]);
    assert_eq!(i.argv, args(&["run", "--no-isolate", "--", ""]));
    assert!(i.isolate);
}

#[test]
fn an_unisolated_run_has_no_box() {
    let i = run_of(&["run", "--box", "b", "--no-isolate", "--", "p"]);
    assert!(!i.isolate);
    assert_eq!(i.spec.box_dir, None);
    assert!(HOST_WARNING.starts_with("tallyrun: WARNING"));
}

#[test]
fn usage_errors() {
    assert_eq!(wrong(&[]), "no command given (put it after --)");
    assert_eq!(wrong(&["run"]), "no command given (put it after --)");
    assert_eq!(wrong(&["--box", "b", "--"]), "no command given (put it after --)");
    assert_eq!(
        wrong(&["--", "p"]),
        "isolation needs --box <dir> (or pass --no-isolate for trusted code)"
    );
    assert_eq!(wrong(&["--box"]), "--box needs a value");
    assert_eq!(wrong(&["run", "--wall-ms"]), "--wall-ms needs a value");
    assert_eq!(wrong(&["--wall-ms", "1s"]), "--wall-ms not an integer");
    assert_eq!(wrong(&["--insn-limit", "-1"]), "--insn-limit not an integer");
    assert_eq!(wrong(&["--cpu-s", ""]), "--cpu-s not an integer");
    assert_eq!(wrong(&["--mem-kb", "18446744073709551616"]), "--mem-kb not an integer");
    assert_eq!(wrong(&["--pin-cpu", "4294967296"]), "--pin-cpu not an integer");
    assert_eq!(wrong(&["--bind", "a"]), "--bind wants SRC:DST or SRC:DST:rw");
    assert_eq!(wrong(&["--bind", "a:b:x"]), "--bind wants SRC:DST or SRC:DST:rw");
    assert_eq!(wrong(&["--bind", "a:b:rw:c"]), "--bind wants SRC:DST or SRC:DST:rw");
    assert_eq!(wrong(&["run", "run"]), "unknown option run");
    assert_eq!(wrong(&["--box", "b", "p"]), "unknown option p");
    assert_eq!(USAGE, "usage: tallyrun run [OPTIONS] -- <command...>");
}

#[test]
fn numbers_may_have_a_plus_sign() {
    assert_eq!(run_of(&["--box", "b", "--pin-cpu", "+4294967295", "--", "p"]).limits.pin_cpu, Some(u32::MAX));
}

#[test]
fn help_and_version_need_no_command() {
    assert!(matches!(parse(&args(&["--help"])), Ok(Request::Help)));
    assert!(matches!(parse(&args(&["run", "--box", "b", "--help"])), Ok(Request::Help)));
    assert!(matches!(parse(&args(&["--version"])), Ok(Request::Version)));
    assert_eq!(VERSION, "tallyrun 0.4.0");
    for option in [
        "--box", "--writable", "--bind", "--stdin", "--stdout", "--stderr", "--wall-ms",
        "--insn-limit", "--cpu-s", "--mem-kb", "--pin-cpu", "--cgroup-dir", "--require-insn",
        "--require-cgroup", "--extra-counters", "--no-seccomp", "--proc-bind", "--proc-fresh",
        "--no-isolate", "--help", "--version",
    ] {
        assert!(HELP.contains(option), "{option}");
    }
}

fn ended(exit_code: Option<i32>) -> RunResult {
    RunResult {
        exit_code,
        signal: None,
        timed_out: false,
        killed: None,
        instructions: None,
        cpu_ms: 0,
        wall_ms: 0,
        peak_kb: 0,
        cpu_us: 0,
        cpu_user_us: 0,
        cpu_sys_us: 0,
        wall_us: 0,
        instructions_running: None,
        counters: Vec::new(),
        accounting: "rusage",
    }
}

#[test]
fn the_exit_status_is_the_child_s_own() {
    assert_eq!(exit_status(&ended(Some(0))), 0);
    assert_eq!(exit_status(&ended(Some(42))), 42);
    assert_eq!(exit_status(&ended(None)), 1);
    assert_eq!((EXIT_USAGE, EXIT_SETUP), (2, 3));
}

#[test]
fn decimals_are_written_and_read_back() {
    for n in [0u64, 7, 10, 1_140_561_942, u64::MAX] {
        let s = decimal(n as u128);
        assert_eq!(s, n.to_string());
        assert_eq!(parse_unsigned(&chars_of(&s), u64::MAX), Some(n));
    }
    assert_eq!(signed_decimal(i64::MIN), "-9223372036854775808");
    assert_eq!(parse_signed(&chars_of("-9223372036854775808")), Some(i64::MIN));
    assert_eq!(parse_signed(&chars_of("+5")), Some(5));
    assert_eq!(parse_signed(&chars_of("9223372036854775808")), None);
    assert_eq!(parse_unsigned(&chars_of("300"), 255), None);
    assert_eq!(parse_unsigned(&chars_of("+"), 255), None);
}

#[test]
fn texts_are_taken_apart_and_put_together() {
    assert_eq!(split("a:b::", ':'), args(&["a", "b", "", ""]));
    assert_eq!(split("", ':'), args(&[""]));
    assert_eq!(line_list("a\r\nb\n\nc"), args(&["a", "b", "", "c"]));
    assert_eq!(line_list(""), Vec::<String>::new());
    assert_eq!(word_list(" a\tb\u{3000}c\n"), args(&["a", "b", "c"]));
    assert_eq!(trimmed(&chars_of(" \u{a0}x y\n")), ['x', ' ', 'y']);
    assert_eq!(after_prefix("0::/u", "0::").as_deref(), Some("/u"));
    assert_eq!(after_prefix("0:/u", "0::"), None);
    assert_eq!(join("/a", "b"), "/a/b");
    assert_eq!(join("/a/", "b"), "/a/b");
    assert_eq!(join("/a", "/b"), "/b");
    assert!(same("x", "x") && !same("x", "xy"));
}
