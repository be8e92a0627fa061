//! Limits, and the descriptors that a child closes.

use tallyrun::limits::{
    address_space, address_space_rlimit, capped_mul, child_rlimits, close_inherited_fds,
    core_count, cpu_budget_ms, fd_ceiling, highest_fd, memory_cap_kb, next_sweep, Sweep,
};
use tallyrun::Limits;

#[test]
fn defaults_of_the_limits() {
    let l = Limits::default();
    assert_eq!((l.wall_ms, l.insn_limit, l.cpu_seconds, l.mem_kb), (10_000, None, 10, None));
    assert_eq!((l.max_procs, l.max_output_bytes, l.max_open_files), (4096, 8 << 20, 64));
    assert_eq!(l.pin_cpu, None);
    assert!(!l.require_insn && !l.require_cgroup && !l.extra_counters);
}

#[test]
fn the_cap_is_a_quarter_above_the_limit() {
    assert_eq!(memory_cap_kb(262_144), 327_680);
    assert_eq!(memory_cap_kb(3), 3);
    assert_eq!(memory_cap_kb(0), 0);
    assert_eq!(memory_cap_kb(u64::MAX), u64::MAX / 4);
}

#[test]
fn products_stop_at_the_largest_number() {
    assert_eq!(capped_mul(6, 7), 42);
    assert_eq!(capped_mul(u64::MAX, 2), u64::MAX);
    assert_eq!(capped_mul(1 << 32, 1 << 32), u64::MAX);
    assert_eq!(cpu_budget_ms(10), 10_000);
    assert_eq!(cpu_budget_ms(u64::MAX), u64::MAX);
}

fn triples(limits: &Limits, cgroup_caps: bool) -> Vec<(i32, u64, u64)> {
    child_rlimits(limits, cgroup_caps)
        .iter()
        .map(|r| (r.resource, r.soft, r.hard))
        .collect()
}

#[test]
fn the_child_limits_itself() {
    let limits = Limits {
        mem_kb: Some(1000),
        ..Default::default()
    };
    assert_eq!(
        triples(&limits, false),
        vec![
            (libc::RLIMIT_CPU as i32, 10, 11),
            (libc::RLIMIT_AS as i32, 1_024_000, 1_024_000),
            (libc::RLIMIT_NPROC as i32, 4096, 4096),
            (libc::RLIMIT_FSIZE as i32, 8_388_608, 8_388_608),
            (libc::RLIMIT_NOFILE as i32, 64, 64),
        ]
    );
    let capped = triples(&limits, true);
    assert_eq!(capped.len(), 4);
    assert!(capped.iter().all(|r| r.0 != libc::RLIMIT_AS as i32));
    assert_eq!(triples(&Limits::default(), false), capped);
}

#[test]
fn address_space_is_limited_only_without_a_cap() {
    let limits = |mem_kb: Option<u64>| Limits {
        mem_kb,
        ..Default::default()
    };
    assert_eq!(address_space(&limits(Some(1000)), false), Some(1_024_000));
    assert_eq!(address_space(&limits(Some(1000)), true), None);
    assert_eq!(address_space(&limits(None), false), None);
    assert_eq!(address_space(&limits(Some(u64::MAX)), false), Some(u64::MAX));
    let r = address_space_rlimit(4096);
    assert_eq!((r.resource, r.soft, r.hard), (libc::RLIMIT_AS as i32, 4096, 4096));
}

#[test]
fn a_pinned_run_has_one_core() {
    assert_eq!(core_count(true, 16), 1);
    assert_eq!(core_count(false, 16), 16);
    assert_eq!(core_count(false, 0), 1);
    assert_eq!(core_count(false, -1), 1);
}

#[test]
fn the_sweep_goes_to_the_highest_descriptor_or_the_limit() {
    assert_eq!(fd_ceiling(1024, Some(70_000)), 70_000);
    assert_eq!(fd_ceiling(1_000_000, Some(9)), 9);
    assert_eq!(fd_ceiling(1_000_000, None), 1_000_000);
    assert_eq!(fd_ceiling(u64::MAX, None), i32::MAX);
}

#[test]
fn the_highest_descriptor_is_found_among_the_names() {
    let names = |v: &[&str]| v.iter().map(|s| s.to_string()).collect::<Vec<String>>();
    assert_eq!(highest_fd(&names(&["0", "2", "70000", "11"])), Some(70_000));
    assert_eq!(highest_fd(&names(&["0", "x", "2147483648"])), Some(0));
    assert_eq!(highest_fd(&names(&[])), None);
}

#[test]
fn a_high_descriptor_does_not_survive() {
    let ceiling = fd_ceiling(1_000_000, Some(70_000));
    assert!(swept(-1, ceiling).contains(&70_000));
    assert!(!swept(70_000, ceiling).contains(&70_000));
}

#[test]
fn ranges_go_round_the_kept_descriptor() {
    assert_eq!(close_inherited_fds(-1), Sweep::Range { lo: 3, hi: u32::MAX });
    let first = close_inherited_fds(7);
    assert_eq!(first, Sweep::Range { lo: 3, hi: 6 });
    let second = next_sweep(first, true, 7, 100);
    assert_eq!(second, Sweep::Range { lo: 8, hi: u32::MAX });
    assert_eq!(next_sweep(second, true, 7, 100), Sweep::Done);
    assert_eq!(next_sweep(Sweep::Done, true, 7, 100), Sweep::Done);
}

#[test]
fn nothing_lies_below_the_first_descriptor() {
    // 3..2 is empty, and closing an empty range would be refused.
    assert_eq!(close_inherited_fds(3), Sweep::Range { lo: 4, hi: u32::MAX });
}

fn swept(keep: i32, ceiling: i32) -> Vec<i32> {
    let mut closed = Vec::new();
    let mut step = next_sweep(close_inherited_fds(keep), false, keep, ceiling);
    while let Sweep::Close(fd) = step {
        closed.push(fd);
        step = next_sweep(step, true, keep, ceiling);
    }
    assert_eq!(step, Sweep::Done);
    closed
}

#[test]
fn without_ranges_each_descriptor_is_closed() {
    assert_eq!(swept(-1, 6), vec![3, 4, 5, 6]);
    assert_eq!(swept(5, 7), vec![3, 4, 6, 7]);
    assert_eq!(swept(3, 4), vec![4]);
    assert_eq!(swept(4, 4), vec![3]);
    assert_eq!(swept(-1, 2), Vec::<i32>::new());
}
