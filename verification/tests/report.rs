//! The result of a run and its JSON line.

use tallyrun::cgroup::CpuTimes;
use tallyrun::perf::CounterTimes;
use tallyrun::report::{
    finish, is_plausible, shortfall, CounterRead, Ending, Rusage, Shortfall,
};
use tallyrun::supervise::Kill;
use tallyrun::{Counter, Limits, RunResult};

fn share(running: f64) -> String {
    format!("{running:.6}")
}

fn result_full() -> RunResult {
    RunResult {
        exit_code: Some(0),
        signal: None,
        timed_out: false,
        killed: None,
        instructions: Some(1_140_561_942),
        cpu_ms: 116,
        wall_ms: 117,
        peak_kb: 5864,
        cpu_us: 116_532,
        cpu_user_us: 110_000,
        cpu_sys_us: 6_532,
        wall_us: 117_204,
        instructions_running: Some(share(1.0)),
        counters: Vec::new(),
        accounting: "cgroup",
    }
}

#[test]
fn json_full_measurement() {
    assert_eq!(
        result_full().to_json(),
        "{\"exit_code\":0,\"signal\":null,\"timed_out\":false,\"killed\":null,\
         \"instructions\":1140561942,\"measurement\":\"full\",\"accounting\":\"cgroup\",\
         \"cpu_ms\":116,\"wall_ms\":117,\"peak_kb\":5864,\
         \"cpu_us\":116532,\"cpu_user_us\":110000,\"cpu_sys_us\":6532,\
         \"wall_us\":117204,\"instructions_running\":1.000000}"
    );
}

#[test]
fn json_extra_counters() {
    let r = RunResult {
        instructions_running: Some(share(0.5)),
        counters: vec![
            Counter {
                name: "cache_misses",
                count: 42,
                running: share(1.0),
            },
            Counter {
                name: "branch_misses",
                count: 7,
                running: share(0.25),
            },
        ],
        ..result_full()
    };
    let j = r.to_json();
    assert!(j.contains("\"instructions_running\":0.500000"));
    assert!(j.ends_with(
        ",\"counters\":{\"cache_misses\":{\"count\":42,\"running\":1.000000},\
         \"branch_misses\":{\"count\":7,\"running\":0.250000}}}"
    ));
}

#[test]
fn json_degraded_when_no_instructions() {
    let r = RunResult {
        instructions: None,
        instructions_running: None,
        accounting: "rusage",
        ..result_full()
    };
    let j = r.to_json();
    assert!(j.contains("\"instructions\":null"));
    assert!(j.contains("\"measurement\":\"degraded\""));
    assert!(j.contains("\"accounting\":\"rusage\""));
    assert!(j.contains("\"instructions_running\":null"));
    assert!(!j.contains("counters"));
}

#[test]
fn json_signal_kill() {
    let r = RunResult {
        exit_code: None,
        signal: Some(9),
        killed: Some("instructions"),
        ..result_full()
    };
    let j = r.to_json();
    assert!(j.contains("\"exit_code\":null"));
    assert!(j.contains("\"signal\":9"));
    assert!(j.contains("\"killed\":\"instructions\""));
}

#[test]
fn json_negative_and_largest_numbers() {
    let r = RunResult {
        exit_code: Some(-1),
        timed_out: true,
        instructions: Some(u64::MAX),
        peak_kb: i64::MIN,
        wall_us: u128::MAX,
        ..result_full()
    };
    let j = r.to_json();
    assert!(j.starts_with("{\"exit_code\":-1,"));
    assert!(j.contains("\"timed_out\":true"));
    assert!(j.contains("\"instructions\":18446744073709551615,"));
    assert!(j.contains("\"peak_kb\":-9223372036854775808,"));
    assert!(j.contains("\"wall_us\":340282366920938463463374607431768211455,"));
    assert!(!j.contains('\n'));
}

fn rusage() -> Rusage {
    Rusage {
        user_sec: 1,
        user_usec: 500_000,
        system_sec: 0,
        system_usec: 250_000,
        maxrss: 4096,
    }
}

/// Limits with this instruction budget and the extra counters.
fn budget(insn_limit: Option<u64>) -> Limits {
    Limits {
        insn_limit,
        extra_counters: true,
        ..Default::default()
    }
}

fn done(e: &Ending) -> RunResult {
    finish(&budget(Some(2000)), true, e)
}

fn ending() -> Ending {
    Ending {
        status: 0,
        killed: None,
        insns: Some(CounterTimes {
            count: 1000,
            enabled: 10,
            running: 10,
        }),
        insn_share: share(1.0),
        reads: [None, None, None, None],
        cg_cpu: Some(CpuTimes {
            total: 116_532,
            user: 110_000,
            system: 6_532,
        }),
        cg_peak: Some(5864),
        rusage: rusage(),
        elapsed: 117_204_999,
    }
}

#[test]
fn a_clean_exit_is_reported_in_full() {
    let r = done(&ending());
    assert_eq!(r.exit_code, Some(0));
    assert_eq!(r.signal, None);
    assert_eq!(r.killed, None);
    assert!(!r.timed_out);
    assert_eq!(r.instructions, Some(1000));
    assert_eq!(r.instructions_running, Some("1.000000".to_string()));
    assert_eq!((r.cpu_ms, r.cpu_us, r.cpu_user_us, r.cpu_sys_us), (116, 116_532, 110_000, 6_532));
    assert_eq!((r.wall_ms, r.wall_us), (117, 117_204));
    assert_eq!(r.peak_kb, 5864);
    assert_eq!(r.accounting, "cgroup");
}

#[test]
fn an_exit_code_is_the_second_byte_of_the_status() {
    let r = done(&Ending {
        status: 3 << 8,
        ..ending()
    });
    assert_eq!((r.exit_code, r.signal), (Some(3), None));
}

#[test]
fn a_signal_is_the_low_bits_of_the_status() {
    let r = done(&Ending {
        status: 24 | 0x80,
        ..ending()
    });
    assert_eq!((r.exit_code, r.signal), (None, Some(24)));
}

#[test]
fn a_stop_is_neither() {
    let r = done(&Ending {
        status: 0x137f,
        ..ending()
    });
    assert_eq!((r.exit_code, r.signal), (None, None));
}

#[test]
fn a_silent_kill_over_the_budget_is_for_instructions() {
    let killed = |limit: Option<u64>, status: i32, insns: Option<CounterTimes>| {
        finish(
            &budget(limit),
            true,
            &Ending {
                status,
                insns,
                ..ending()
            },
        )
        .killed
    };
    let counted = ending().insns;
    assert_eq!(killed(Some(999), 9, counted), Some("instructions"));
    // At the budget the kill was somebody else's.
    assert_eq!(killed(Some(1000), 9, counted), None);
    // And so is another signal, or a run without a budget or a count.
    assert_eq!(killed(Some(999), 15, counted), None);
    assert_eq!(killed(None, 9, counted), None);
    assert_eq!(killed(Some(0), 9, None), None);
}

#[test]
fn a_reason_to_kill_is_kept() {
    for (kill, word) in [
        (Kill::Instructions, "instructions"),
        (Kill::Cpu, "cpu"),
        (Kill::Wall, "wall"),
    ] {
        let r = done(&Ending {
            status: 9,
            killed: Some(kill),
            ..ending()
        });
        assert_eq!(r.killed, Some(word));
        assert_eq!(r.timed_out, word == "wall");
    }
}

#[test]
fn usage_fills_in_for_the_cgroup() {
    let r = done(&Ending {
        cg_cpu: None,
        cg_peak: None,
        ..ending()
    });
    assert_eq!(r.accounting, "rusage");
    assert_eq!((r.cpu_ms, r.cpu_us, r.cpu_user_us, r.cpu_sys_us), (1750, 1_750_000, 1_500_000, 250_000));
    assert_eq!(r.peak_kb, 4096);
    let r = done(&Ending {
        cg_peak: None,
        ..ending()
    });
    assert_eq!(r.accounting, "cpu-only");
    assert_eq!((r.cpu_us, r.peak_kb), (116_532, 4096));
    let r = done(&Ending {
        cg_cpu: None,
        ..ending()
    });
    assert_eq!(r.accounting, "rusage");
    assert_eq!((r.cpu_us, r.peak_kb), (1_750_000, 4096));
}

#[test]
fn a_counter_that_never_ran_has_no_share() {
    let r = done(&Ending {
        insns: Some(CounterTimes {
            count: 0,
            enabled: 0,
            running: 0,
        }),
        ..ending()
    });
    assert_eq!(r.instructions, Some(0));
    assert_eq!(r.instructions_running, None);
    let r = done(&Ending {
        insns: None,
        ..ending()
    });
    assert_eq!(r.instructions, None);
    assert_eq!(r.instructions_running, None);
    assert!(r.to_json().contains("\"measurement\":\"degraded\""));
}

fn with_extras() -> Ending {
    let read = |count: u64, enabled: u64| {
        Some(CounterRead {
            times: CounterTimes {
                count,
                enabled,
                running: enabled,
            },
            share: share(1.0),
        })
    };
    Ending {
        reads: [read(5, 8), None, None, read(0, 0)],
        ..ending()
    }
}

#[test]
fn unreadable_counters_are_left_out() {
    let r = done(&with_extras());
    let got: Vec<(&str, u64, &str)> = r
        .counters
        .iter()
        .map(|c| (c.name, c.count, c.running.as_str()))
        .collect();
    assert_eq!(
        got,
        vec![("l1d_read_misses", 5, "1.000000"), ("branch_misses", 0, "0.000000")]
    );
}

#[test]
fn extra_counters_need_to_be_asked_for_and_counted() {
    assert!(finish(&Limits::default(), true, &with_extras()).counters.is_empty());
    assert!(finish(&budget(None), false, &with_extras()).counters.is_empty());
    assert_eq!(finish(&budget(None), true, &with_extras()).counters.len(), 2);
}

#[test]
fn usage_that_no_clock_gives_is_told() {
    assert!(is_plausible(&rusage()));
    assert!(!is_plausible(&Rusage {
        user_sec: -1,
        ..rusage()
    }));
    assert!(!is_plausible(&Rusage {
        system_usec: -1,
        ..rusage()
    }));
    assert!(!is_plausible(&Rusage {
        user_sec: i64::MAX,
        ..rusage()
    }));
}

#[test]
fn what_was_required_must_be_reported() {
    let insn = Limits {
        require_insn: true,
        ..Default::default()
    };
    let cgroup = Limits {
        require_cgroup: true,
        ..Default::default()
    };
    let degraded = RunResult {
        instructions: None,
        accounting: "cpu-only",
        ..result_full()
    };
    assert_eq!(shortfall(&insn, &result_full()), None);
    assert_eq!(shortfall(&cgroup, &result_full()), None);
    assert_eq!(shortfall(&Limits::default(), &degraded), None);
    assert_eq!(shortfall(&insn, &degraded), Some(Shortfall::Instructions));
    assert_eq!(shortfall(&cgroup, &degraded), Some(Shortfall::Accounting));
    assert_eq!(
        Shortfall::Instructions.text(),
        "instruction counting required but the counter could not be read"
    );
    assert_eq!(
        Shortfall::Accounting.text(),
        "cgroup accounting required but the cgroup could not be read"
    );
}

/// What is left of `s` behind the JSON value that it starts with.
fn after_value(s: &str) -> Option<&str> {
    for word in ["null", "true", "false"] {
        if let Some(rest) = s.strip_prefix(word) {
            return Some(rest);
        }
    }
    if s.starts_with('"') {
        return after_string(s);
    }
    if let Some(mut rest) = s.strip_prefix('{') {
        loop {
            rest = after_value(after_string(rest)?.strip_prefix(':')?)?;
            match rest.strip_prefix(',') {
                Some(next) => rest = next,
                None => return rest.strip_prefix('}'),
            }
        }
    }
    let whole = after_digits(s.strip_prefix('-').unwrap_or(s))?;
    match whole.strip_prefix('.') {
        Some(decimals) => after_digits(decimals),
        None => Some(whole),
    }
}

fn after_string(s: &str) -> Option<&str> {
    let (word, rest) = s.strip_prefix('"')?.split_once('"')?;
    if word.contains('\\') {
        None
    } else {
        Some(rest)
    }
}

fn after_digits(s: &str) -> Option<&str> {
    let rest = s.trim_start_matches(|c: char| c.is_ascii_digit());
    if rest.len() == s.len() {
        None
    } else {
        Some(rest)
    }
}

#[test]
fn results_are_json() {
    let killed = Ending {
        status: 9,
        killed: Some(Kill::Wall),
        insns: None,
        cg_cpu: None,
        ..with_extras()
    };
    let negative = RunResult {
        exit_code: Some(-1),
        peak_kb: -5,
        ..result_full()
    };
    for r in [result_full(), done(&with_extras()), done(&killed), negative] {
        assert_eq!(after_value(&r.to_json()), Some(""), "{}", r.to_json());
    }
    let worded = RunResult {
        instructions_running: Some("nan".to_string()),
        ..result_full()
    };
    assert_eq!(after_value(&worded.to_json()), None);
}
