//! Bringing a run up to its start.

use tallyrun::cgroup::CpuTimes;
use tallyrun::launch::{
    warning_text, Failure, FailureKind, Launch, Reply, Step, Stream, Warning,
};
use tallyrun::perf::CounterTimes;
use tallyrun::report::{Ending, Rusage, Shortfall};
use tallyrun::supervise::Supervisor;
use tallyrun::{run, Limits, ProcMode, SandboxSpec};

const FREE: Step = Step::Go {
    address_space: None,
};

fn argv() -> Vec<String> {
    vec!["./a.out".to_string()]
}

fn boxed() -> SandboxSpec {
    SandboxSpec {
        box_dir: Some("/tmp/box".to_string()),
        ..Default::default()
    }
}

fn start(spec: &SandboxSpec, limits: &Limits) -> Launch {
    run(&argv(), spec, limits)
}

/// Answers each step as a host would on which everything works.
fn good(step: Step) -> Reply {
    match step {
        Step::MakeFilter => Reply::Filter(9),
        Step::ProbeProc => Reply::Probed(true),
        Step::InspectCgroup => Reply::Files {
            cap: true,
            peak: true,
        },
        _ => Reply::Done,
    }
}

/// Goes on until `step` is pending, or the launch has ended.
fn until(l: &mut Launch, step: Step) {
    while l.pending != step && !matches!(l.pending, Step::Go { .. } | Step::Failed(_)) {
        let reply = good(l.pending);
        l.advance(reply);
    }
    assert_eq!(l.pending, step);
}

#[test]
fn a_full_launch_in_order() {
    let limits = Limits {
        mem_kb: Some(1000),
        pin_cpu: Some(3),
        extra_counters: true,
        require_insn: true,
        require_cgroup: true,
        ..Default::default()
    };
    let mut l = start(&boxed(), &limits);
    let mut steps = Vec::new();
    while !matches!(l.pending, Step::Go { .. }) {
        steps.push(l.pending);
        let reply = good(l.pending);
        l.advance(reply);
    }
    assert_eq!(
        steps,
        vec![
            Step::MakeFilter,
            Step::ProbeProc,
            Step::BuildCommand {
                filter: Some(9),
                fresh_proc: true
            },
            Step::OpenCgroup,
            Step::CapMemory { kb: 1250 },
            Step::CapPids { n: 4096 },
            Step::PinCpu { cpu: 3 },
            Step::InspectCgroup,
            Step::CheckArgs,
            Step::OpenStream(Stream::Stdin),
            Step::OpenStream(Stream::Stdout),
            Step::OpenStream(Stream::Stderr),
            Step::MakePipe,
            Step::Fork {
                cgroup_caps: true,
                keep: 9
            },
            Step::Enroll,
            Step::OpenCounter,
            Step::OpenExtra { index: 0 },
            Step::OpenExtra { index: 1 },
            Step::OpenExtra { index: 2 },
            Step::OpenExtra { index: 3 },
        ]
    );
    assert!(l.pinned && l.cgroup && l.counting && l.mem_peak && l.mem_cap);
    assert_eq!(l.pending, FREE);
}

#[test]
fn a_bare_launch_skips_what_was_not_asked_for() {
    let mut l = start(&SandboxSpec::default(), &Limits::default());
    assert_eq!(
        l.pending,
        Step::BuildCommand {
            filter: None,
            fresh_proc: false
        }
    );
    l.advance(Reply::Done);
    l.advance(Reply::Failed);
    assert_eq!(l.pending, Step::Warn(Warning::NoCgroup));
    l.advance(Reply::Done);
    assert_eq!(l.pending, Step::CheckArgs);
    until(
        &mut l,
        Step::Fork {
            cgroup_caps: false,
            keep: -1,
        },
    );
    l.advance(Reply::Done);
    assert_eq!(l.pending, Step::OpenCounter);
    l.advance(Reply::Done);
    assert_eq!(l.pending, FREE);
    l.advance(Reply::Failed);
    assert_eq!(l.pending, FREE);
}

#[test]
fn taken_stdout_is_refused_at_once() {
    let spec = SandboxSpec {
        stderr: "/dev/stdout".to_string(),
        ..boxed()
    };
    let mut l = start(&spec, &Limits::default());
    assert_eq!(l.pending, Step::Failed(Failure::StdoutReserved));
    l.advance(Reply::Done);
    assert_eq!(l.pending, Step::Failed(Failure::StdoutReserved));
}

#[test]
fn the_filter_must_be_there() {
    let mut l = start(&boxed(), &Limits::default());
    assert_eq!(l.pending, Step::MakeFilter);
    l.advance(Reply::Failed);
    assert_eq!(l.pending, Step::Failed(Failure::Filter));
    let open = SandboxSpec {
        seccomp: false,
        ..boxed()
    };
    assert_eq!(start(&open, &Limits::default()).pending, Step::ProbeProc);
}

#[test]
fn proc_modes_decide_before_the_probe() {
    let first = |proc_mode: ProcMode| {
        let spec = SandboxSpec {
            seccomp: false,
            proc_mode,
            ..boxed()
        };
        start(&spec, &Limits::default()).pending
    };
    assert_eq!(
        first(ProcMode::Fresh),
        Step::BuildCommand {
            filter: None,
            fresh_proc: true
        }
    );
    assert_eq!(
        first(ProcMode::Bind),
        Step::BuildCommand {
            filter: None,
            fresh_proc: false
        }
    );
    assert_eq!(first(ProcMode::Auto), Step::ProbeProc);
}

#[test]
fn a_refused_procfs_is_bound_with_a_warning() {
    let mut l = start(&boxed(), &Limits::default());
    until(&mut l, Step::ProbeProc);
    l.advance(Reply::Probed(false));
    assert_eq!(l.pending, Step::Warn(Warning::NoFreshProc));
    l.advance(Reply::Done);
    assert_eq!(
        l.pending,
        Step::BuildCommand {
            filter: Some(9),
            fresh_proc: false
        }
    );
}

#[test]
fn a_required_cgroup_that_is_missing_ends_the_launch() {
    let limits = Limits {
        require_cgroup: true,
        ..Default::default()
    };
    let mut l = start(&boxed(), &limits);
    until(&mut l, Step::OpenCgroup);
    l.advance(Reply::Failed);
    assert_eq!(l.pending, Step::Failed(Failure::CgroupRequired));

    let mut l = start(&boxed(), &limits);
    until(&mut l, Step::InspectCgroup);
    l.advance(Reply::Files {
        cap: true,
        peak: false,
    });
    assert_eq!(l.pending, Step::Failed(Failure::MemoryRequired));

    let mut l = start(&boxed(), &limits);
    until(&mut l, Step::Enroll);
    l.advance(Reply::Failed);
    assert_eq!(l.pending, Step::Abort(Failure::EnrollRequired));
    l.advance(Reply::Done);
    assert_eq!(l.pending, Step::Failed(Failure::EnrollRequired));
}

fn megabyte() -> Limits {
    Limits {
        mem_kb: Some(1024),
        ..Default::default()
    }
}

const LIMITED: Step = Step::Go {
    address_space: Some(1 << 20),
};

#[test]
fn a_cap_without_a_peak_still_spares_the_address_space() {
    let mut l = start(&boxed(), &megabyte());
    until(&mut l, Step::InspectCgroup);
    l.advance(Reply::Files {
        cap: true,
        peak: false,
    });
    until(&mut l, FREE);
}

#[test]
fn without_a_cap_the_address_space_is_limited() {
    // no cgroup
    let mut l = start(&boxed(), &megabyte());
    until(&mut l, Step::OpenCgroup);
    l.advance(Reply::Failed);
    until(&mut l, LIMITED);
    // no memory.max
    let mut l = start(&boxed(), &megabyte());
    until(&mut l, Step::InspectCgroup);
    l.advance(Reply::Files {
        cap: false,
        peak: false,
    });
    until(&mut l, LIMITED);
    // memory.max cannot be written
    let mut l = start(&boxed(), &megabyte());
    until(&mut l, Step::CapMemory { kb: 1280 });
    l.advance(Reply::Failed);
    assert_eq!(l.pending, Step::CapPids { n: 4096 });
    l.advance(Reply::Failed);
    until(&mut l, LIMITED);
    // the child is not in the cgroup
    let mut l = start(&boxed(), &megabyte());
    until(&mut l, Step::Enroll);
    l.advance(Reply::Failed);
    until(&mut l, LIMITED);
}

#[test]
fn a_child_outside_the_cgroup_is_limited_after_the_fork() {
    let mut l = start(&boxed(), &megabyte());
    let fork = Step::Fork {
        cgroup_caps: true,
        keep: 9,
    };
    until(&mut l, fork);
    until(&mut l, Step::Enroll);
    l.advance(Reply::Failed);
    until(&mut l, LIMITED);
    assert_eq!(l.limits.mem_kb, Some(1024));
}

#[test]
fn the_watch_starts_with_what_the_launch_found() {
    let limits = Limits {
        insn_limit: Some(500),
        cpu_seconds: 3,
        wall_ms: 7,
        pin_cpu: Some(1),
        ..Default::default()
    };
    let mut l = start(&boxed(), &limits);
    until(&mut l, FREE);
    assert_eq!(
        l.watch(true, 16),
        Supervisor::new(true, Some(500), true, true, 1, 3_000, 7)
    );
    let mut l = start(&boxed(), &Limits { pin_cpu: None, ..limits });
    until(&mut l, Step::OpenCgroup);
    l.advance(Reply::Failed);
    until(&mut l, Step::OpenCounter);
    l.advance(Reply::Failed);
    until(&mut l, FREE);
    assert_eq!(
        l.watch(false, 16),
        Supervisor::new(false, Some(500), false, false, 16, 3_000, 7)
    );
}

#[test]
fn a_run_is_concluded_with_what_was_required() {
    let ending = |insns: bool, peak: bool| Ending {
        status: 0,
        killed: None,
        insns: insns.then_some(CounterTimes {
            count: 3,
            enabled: 1,
            running: 1,
        }),
        insn_share: "1.000000".to_string(),
        reads: [None, None, None, None],
        cg_cpu: Some(CpuTimes {
            total: 2,
            user: 1,
            system: 1,
        }),
        cg_peak: peak.then_some(8),
        rusage: Rusage {
            user_sec: 0,
            user_usec: 0,
            system_sec: 0,
            system_usec: 0,
            maxrss: 4,
        },
        elapsed: 0,
    };
    let limits = Limits {
        require_insn: true,
        require_cgroup: true,
        ..Default::default()
    };
    let mut l = start(&boxed(), &limits);
    until(&mut l, FREE);
    let r = l.conclude(&ending(true, true)).unwrap();
    assert_eq!((r.instructions, r.accounting, r.peak_kb), (Some(3), "cgroup", 8));
    assert_eq!(l.conclude(&ending(false, true)).unwrap_err(), Shortfall::Instructions);
    assert_eq!(l.conclude(&ending(true, false)).unwrap_err(), Shortfall::Accounting);
    let mut l = start(&boxed(), &Limits::default());
    until(&mut l, FREE);
    let r = l.conclude(&ending(false, false)).unwrap();
    assert_eq!((r.instructions, r.accounting, r.peak_kb), (None, "cpu-only", 4));
}

#[test]
fn pinning_needs_a_cgroup() {
    let limits = Limits {
        pin_cpu: Some(1),
        ..Default::default()
    };
    let mut l = start(&boxed(), &limits);
    until(&mut l, Step::OpenCgroup);
    l.advance(Reply::Failed);
    l.advance(Reply::Done);
    assert_eq!(l.pending, Step::Warn(Warning::PinNeedsCgroup));
    assert!(!l.pinned);

    let mut l = start(&boxed(), &limits);
    until(&mut l, Step::PinCpu { cpu: 1 });
    l.advance(Reply::Failed);
    assert_eq!(l.pending, Step::Warn(Warning::PinFailed));
    l.advance(Reply::Done);
    assert_eq!(l.pending, Step::InspectCgroup);
    assert!(!l.pinned && l.cgroup);
}

#[test]
fn a_child_outside_the_cgroup_is_not_pinned() {
    let limits = Limits {
        pin_cpu: Some(1),
        ..Default::default()
    };
    let mut l = start(&boxed(), &limits);
    until(&mut l, Step::Enroll);
    assert!(l.pinned && l.cgroup);
    l.advance(Reply::Failed);
    assert_eq!(l.pending, Step::Warn(Warning::NotEnrolled));
    assert!(!l.pinned && !l.cgroup);
    l.advance(Reply::Done);
    assert_eq!(l.pending, Step::OpenCounter);
}

#[test]
fn what_fails_before_the_fork_ends_the_launch() {
    for (step, failure) in [
        (Step::CheckArgs, Failure::ArgvNul),
        (Step::OpenStream(Stream::Stdin), Failure::Stream(Stream::Stdin)),
        (Step::OpenStream(Stream::Stdout), Failure::Stream(Stream::Stdout)),
        (Step::OpenStream(Stream::Stderr), Failure::Stream(Stream::Stderr)),
        (Step::MakePipe, Failure::Pipe),
        (
            Step::Fork {
                cgroup_caps: false,
                keep: 9,
            },
            Failure::Fork,
        ),
    ] {
        let mut l = start(&boxed(), &Limits::default());
        until(&mut l, step);
        l.advance(Reply::Failed);
        assert_eq!(l.pending, Step::Failed(failure));
    }
}

#[test]
fn a_required_counter_that_is_missing_kills_the_child() {
    let limits = Limits {
        require_insn: true,
        ..Default::default()
    };
    let mut l = start(&boxed(), &limits);
    until(&mut l, Step::OpenCounter);
    l.advance(Reply::Failed);
    assert_eq!(l.pending, Step::Abort(Failure::CounterRequired));
    l.advance(Reply::Done);
    assert_eq!(l.pending, Step::Failed(Failure::CounterRequired));

    let mut l = start(&boxed(), &Limits::default());
    until(&mut l, Step::OpenCounter);
    l.advance(Reply::Failed);
    assert_eq!(l.pending, Step::Warn(Warning::NoCounter));
    l.advance(Reply::Done);
    assert_eq!(l.pending, FREE);
    assert!(!l.counting);
}

#[test]
fn a_missing_extra_counter_is_skipped() {
    let limits = Limits {
        extra_counters: true,
        ..Default::default()
    };
    let mut l = start(&boxed(), &limits);
    until(&mut l, Step::OpenExtra { index: 0 });
    for _ in 0..4 {
        l.advance(Reply::Failed);
    }
    assert_eq!(l.pending, FREE);
}

#[test]
fn a_reply_to_another_step_changes_nothing() {
    let mut l = start(&boxed(), &Limits::default());
    for reply in [
        Reply::Done,
        Reply::Probed(true),
        Reply::Files {
            cap: true,
            peak: true,
        },
    ] {
        l.advance(reply);
        assert_eq!(l.pending, Step::MakeFilter);
    }
}

#[test]
fn warnings_name_their_cause() {
    assert_eq!(
        warning_text(Warning::NoCgroup, "denied"),
        "tallyrun: warning: no per-run cgroup (denied); cpu_ms/peak_kb degrade to per-process \
         rusage and the memory cap to RLIMIT_AS"
    );
    assert_eq!(
        warning_text(Warning::PinFailed, "denied"),
        "tallyrun: warning: cpu pinning failed (denied); running unpinned (needs the cpuset \
         controller delegated)"
    );
    assert_eq!(
        warning_text(Warning::PinNeedsCgroup, "unused"),
        "tallyrun: warning: cpu pinning needs a cgroup; running unpinned"
    );
    assert_eq!(
        warning_text(Warning::NotEnrolled, "denied"),
        "tallyrun: warning: cgroup enrollment failed (denied); accounting degrades to \
         per-process rusage"
    );
    assert_eq!(
        warning_text(Warning::NoCounter, "denied"),
        "tallyrun: warning: perf_event_open failed (denied); instruction counting disabled, \
         measurement degraded to CPU/wall time"
    );
    assert_eq!(
        warning_text(Warning::NoFreshProc, "unused"),
        "tallyrun: warning: cannot mount a fresh /proc here (hardened container?); binding host \
         /proc read-only — sandboxed code can see host PIDs. Pass --proc-bind to silence, or fix \
         the container's /proc masking."
    );
}

#[test]
fn failures_say_why() {
    assert_eq!(
        Failure::StdoutReserved.text(""),
        "/dev/stdout is reserved for tallyrun's JSON result; send the program's output to a file"
    );
    assert_eq!(
        Failure::CgroupRequired.text("no entry"),
        "cgroup accounting required but unavailable: no entry"
    );
    assert_eq!(
        Failure::MemoryRequired.text(""),
        "cgroup accounting required but the memory controller is not delegated (peak RSS / \
         memory cap would be per-process only)"
    );
    assert_eq!(Failure::ArgvNul.text(""), "argv contains NUL");
    assert_eq!(
        Failure::EnrollRequired.text("denied"),
        "cgroup accounting required but enrollment failed: denied"
    );
    assert_eq!(
        Failure::CounterRequired.text("denied"),
        "instruction counting required but perf_event_open failed: denied (needs \
         kernel.perf_event_paranoid <= 2, a real PMU, and a container seccomp policy that allows \
         perf_event_open)"
    );
    for f in [
        Failure::Filter,
        Failure::Stream(Stream::Stdin),
        Failure::Pipe,
        Failure::Fork,
    ] {
        assert_eq!(f.text("denied"), "denied");
        assert_eq!(f.kind(), FailureKind::AsReported);
    }
    assert_eq!(Failure::StdoutReserved.kind(), FailureKind::InvalidInput);
    assert_eq!(Failure::ArgvNul.kind(), FailureKind::InvalidInput);
    assert_eq!(Failure::MemoryRequired.kind(), FailureKind::Unsupported);
    assert_eq!(Failure::CounterRequired.kind(), FailureKind::Unsupported);
    assert_eq!(Failure::CgroupRequired.kind(), FailureKind::AsReported);
    assert_eq!(Failure::EnrollRequired.kind(), FailureKind::AsReported);
}
