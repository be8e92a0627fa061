//! Performance counters, and the probe for a fresh procfs.

use tallyrun::bytes::push_le;
use tallyrun::perf::{
    extra_counter, instruction_attr, next_perf, perf_open_counter, perf_open_instructions, read_counter,
    read_counter_times, running_fraction, PerfAction, EXTRA_COUNTERS, PERF_TYPE_HARDWARE,
};
use tallyrun::probe::{fresh_proc_available, next_probe, Probe};

#[test]
fn counters_count_user_space_from_exec_on() {
    let a = perf_open_counter(3, 0x1_0003);
    assert_eq!((a.kind, a.size, a.config), (3, 72, 0x1_0003));
    // disabled, inherit, exclude_kernel, exclude_hv, enable_on_exec
    assert_eq!(a.flags, 1 | 1 << 1 | 1 << 5 | 1 << 6 | 1 << 12);
    assert_eq!(a.read_format, 3);
    assert_eq!((a.sample_period, a.sample_type, a.wakeup_events), (0, 0, 0));
}

#[test]
fn a_budget_is_the_sample_period() {
    let a = instruction_attr(1_000_000);
    assert_eq!((a.kind, a.config), (PERF_TYPE_HARDWARE, 1));
    assert_eq!((a.sample_period, a.sample_type, a.wakeup_events), (1_000_000, 1, 1));
    let free = instruction_attr(0);
    assert_eq!((free.sample_period, free.sample_type, free.wakeup_events), (0, 0, 0));
}

#[test]
fn the_attributes_are_72_bytes() {
    let b = instruction_attr(0x0102_0304).encode();
    assert_eq!(b.len(), 72);
    assert_eq!(b[4], 72);
    assert_eq!(b[8], 1);
    assert_eq!(&b[16..24], &[4, 3, 2, 1, 0, 0, 0, 0]);
    assert_eq!(&b[40..48], &[0x63, 0x10, 0, 0, 0, 0, 0, 0]);
    assert_eq!(b[48], 1);
}

#[test]
fn numbers_are_written_lowest_byte_first() {
    let mut out = vec![9u8];
    push_le(&mut out, 0x0102, 4);
    push_le(&mut out, u64::MAX, 8);
    push_le(&mut out, 7, 0);
    assert_eq!(&out[..5], &[9, 2, 1, 0, 0]);
    assert_eq!(out.len(), 13);
    assert_eq!(u64::from_le_bytes(out[5..].try_into().unwrap()), u64::MAX);
}

#[test]
fn the_extra_counters() {
    let names: Vec<&str> = EXTRA_COUNTERS.iter().map(|c| c.0).collect();
    assert_eq!(names, vec!["l1d_read_misses", "cache_misses", "dtlb_read_misses", "branch_misses"]);
    assert_eq!(EXTRA_COUNTERS.len(), tallyrun::launch::EXTRA_COUNT);
    for (i, &(name, kind, config)) in EXTRA_COUNTERS.iter().enumerate() {
        assert_eq!(extra_counter(i), (name, perf_open_counter(kind, config)));
    }
    assert_eq!((EXTRA_COUNTERS[0].1, EXTRA_COUNTERS[0].2), (3, 0x1_0000));
    assert_eq!((EXTRA_COUNTERS[1].1, EXTRA_COUNTERS[1].2), (0, 3));
}

#[test]
fn a_budget_is_armed_in_three_steps() {
    let mut step = perf_open_instructions(Some(500));
    for want in [
        PerfAction::Open { period: 500 },
        PerfAction::SetOwner,
        PerfAction::SetSignal,
        PerfAction::SetAsync,
        PerfAction::Ready,
    ] {
        assert_eq!(step, want);
        step = next_perf(step, true);
    }
    assert_eq!(step, PerfAction::Ready);
}

#[test]
fn refused_sampling_falls_back_to_counting() {
    let step = next_perf(perf_open_instructions(Some(500)), false);
    assert_eq!(step, PerfAction::Open { period: 0 });
    assert_eq!(next_perf(step, true), PerfAction::Ready);
    assert_eq!(next_perf(step, false), PerfAction::Failed);
    assert_eq!(next_perf(PerfAction::Failed, true), PerfAction::Failed);
}

#[test]
fn no_budget_opens_without_a_period() {
    assert_eq!(perf_open_instructions(None), PerfAction::Open { period: 0 });
    assert_eq!(perf_open_instructions(Some(0)), PerfAction::Open { period: 0 });
}

#[test]
fn a_signal_that_cannot_be_arranged_leaves_the_counter() {
    assert_eq!(next_perf(PerfAction::SetOwner, false), PerfAction::Ready);
    assert_eq!(next_perf(PerfAction::SetSignal, false), PerfAction::Ready);
    assert_eq!(next_perf(PerfAction::SetAsync, false), PerfAction::Ready);
}

#[test]
fn only_a_whole_read_counts() {
    let t = read_counter_times(24, [5, 10, 8]).unwrap();
    assert_eq!((t.count, t.enabled, t.running), (5, 10, 8));
    assert_eq!(read_counter(24, [5, 10, 8]), Some(5));
    assert!(read_counter_times(8, [5, 0, 0]).is_none());
    assert_eq!(read_counter(-1, [5, 0, 0]), None);
}

#[test]
fn a_counter_that_was_never_on_has_no_fraction() {
    let f = running_fraction(4, 1).unwrap();
    assert_eq!((f.running, f.enabled), (1, 4));
    assert!(running_fraction(0, 0).is_none());
}

#[test]
fn the_parent_of_the_probe_waits() {
    let step = fresh_proc_available();
    assert_eq!(step, Probe::Fork);
    let step = next_probe(step, 77);
    assert_eq!(step, Probe::Wait);
    assert_eq!(next_probe(step, 0), Probe::Report { available: true });
    assert_eq!(next_probe(step, 1 << 8), Probe::Report { available: false });
    assert_eq!(next_probe(step, 9), Probe::Report { available: false });
}

#[test]
fn the_child_of_the_probe_unshares_and_forks() {
    let step = next_probe(Probe::Fork, 0);
    let flags = libc::CLONE_NEWUSER | libc::CLONE_NEWNS | libc::CLONE_NEWPID;
    assert_eq!(step, Probe::Unshare { flags });
    assert_eq!(next_probe(step, -1), Probe::Exit { code: 2 });
    let step = next_probe(step, 0);
    assert_eq!(step, Probe::ForkInner);
    assert_eq!(next_probe(step, -1), Probe::Exit { code: 2 });
    assert_eq!(next_probe(step, 5), Probe::WaitInner);
    assert_eq!(next_probe(Probe::WaitInner, 1 << 8), Probe::Exit { code: 1 });
    assert_eq!(next_probe(Probe::WaitInner, 9), Probe::Exit { code: 3 });
}

#[test]
fn the_grandchild_of_the_probe_mounts() {
    let step = next_probe(Probe::ForkInner, 0);
    let propagation = libc::MS_REC | libc::MS_PRIVATE;
    assert_eq!(step, Probe::MakePrivate { propagation });
    assert_eq!(next_probe(step, -1), Probe::MountProc);
    assert_eq!(next_probe(Probe::MountProc, 0), Probe::Exit { code: 0 });
    assert_eq!(next_probe(Probe::MountProc, -1), Probe::Exit { code: 1 });
}

#[test]
fn a_probe_that_cannot_fork_says_no() {
    assert_eq!(next_probe(Probe::Fork, -1), Probe::Report { available: false });
}
