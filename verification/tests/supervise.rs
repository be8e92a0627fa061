//! Watching a run.

use std::time::Duration;
use tallyrun::supervise::{
    backstop_timeout, cpu_backstop_timeout, Kill, Seen, Supervisor, Watch, BACKSTOP_FLOOR,
    NO_PIDFD_TICK, PEAK_INSN_RATE_PER_CORE,
};

#[test]
fn backstop_scales_with_headroom() {
    // one second of peak-rate work on 1 core -> 1s sleep
    assert_eq!(
        backstop_timeout(PEAK_INSN_RATE_PER_CORE, 1),
        Duration::from_secs(1).as_nanos()
    );
    // ten cores burn it ten times faster
    assert_eq!(
        backstop_timeout(PEAK_INSN_RATE_PER_CORE, 10),
        Duration::from_millis(100).as_nanos()
    );
    // a nearly spent budget still sleeps 1ms, so the loop doesn't spin
    assert_eq!(backstop_timeout(0, 16), BACKSTOP_FLOOR);
    assert_eq!(backstop_timeout(1, 16), BACKSTOP_FLOOR);
    // a failed sysconf (cores=0) must not divide by zero
    assert_eq!(
        backstop_timeout(PEAK_INSN_RATE_PER_CORE, 0),
        Duration::from_secs(1).as_nanos()
    );
}

#[test]
fn cpu_backstop_scales_with_headroom() {
    // 8 cores can use up 8s of budget in 1s of wall time
    assert_eq!(cpu_backstop_timeout(8_000, 8), Duration::from_secs(1).as_nanos());
    assert_eq!(cpu_backstop_timeout(8_000, 1), Duration::from_secs(8).as_nanos());
    // a nearly spent budget still sleeps 1ms, so the loop doesn't spin
    assert_eq!(cpu_backstop_timeout(0, 8), BACKSTOP_FLOOR);
    // a failed sysconf (cores=0) must not divide by zero
    assert_eq!(cpu_backstop_timeout(8_000, 0), Duration::from_secs(8).as_nanos());
}

#[test]
fn the_floor_and_the_tick_are_milliseconds() {
    assert_eq!(BACKSTOP_FLOOR, Duration::from_millis(1).as_nanos());
    assert_eq!(NO_PIDFD_TICK, Duration::from_millis(5).as_nanos());
}

#[test]
fn backstops_of_the_largest_numbers() {
    // 18446744073709551615 * 10^9 / (4 * 10^10)
    assert_eq!(backstop_timeout(u64::MAX, 1), 461_168_601_842_738_790);
    assert_eq!(cpu_backstop_timeout(u64::MAX, 1), u64::MAX as u128 * 1_000_000);
    // The rate stops at the largest number there is.
    assert_eq!(backstop_timeout(u64::MAX, u64::MAX), 1_000_000_000);
}

fn watch(counting: bool, limit: Option<u64>, cgroup: bool, pidfd: bool) -> Supervisor {
    Supervisor::new(counting, limit, cgroup, pidfd, 2, 10_000, 5_000)
}

#[test]
fn a_round_makes_every_check() {
    let mut s = watch(true, Some(80_000_000_000), true, true);
    assert_eq!(s.pending, Watch::Reap);
    s.advance(Seen::Running);
    assert_eq!(s.pending, Watch::ReadCounter);
    s.advance(Seen::Count(Some(0)));
    assert_eq!(s.pending, Watch::ReadCpu);
    s.advance(Seen::Used(Some(9_000)));
    assert_eq!(s.pending, Watch::ReadClock);
    s.advance(Seen::Elapsed(1_000_000_000));
    // A second of budget on two cores, against half a second of CPU time.
    assert_eq!(s.pending, Watch::Poll { ms: 501 });
    s.advance(Seen::Done);
    assert_eq!(s.pending, Watch::Reap);
    s.advance(Seen::Gone);
    assert_eq!(s.pending, Watch::Ended);
    assert_eq!(s.killed, None);
}

#[test]
fn each_excess_kills() {
    let mut s = watch(true, Some(100), true, true);
    s.advance(Seen::Running);
    s.advance(Seen::Count(Some(101)));
    assert_eq!((s.pending, s.killed), (Watch::KillAndReap, Some(Kill::Instructions)));
    s.advance(Seen::Done);
    assert_eq!(s.pending, Watch::Ended);

    let mut s = watch(false, Some(100), true, true);
    s.advance(Seen::Running);
    assert_eq!(s.pending, Watch::ReadCpu);
    s.advance(Seen::Used(Some(10_001)));
    assert_eq!((s.pending, s.killed), (Watch::KillAndReap, Some(Kill::Cpu)));

    let mut s = watch(false, None, false, true);
    s.advance(Seen::Running);
    assert_eq!(s.pending, Watch::ReadClock);
    s.advance(Seen::Elapsed(5_000_000_000));
    assert_eq!((s.pending, s.killed), (Watch::KillAndReap, Some(Kill::Wall)));
}

#[test]
fn the_limit_itself_is_allowed() {
    let mut s = watch(true, Some(100), true, true);
    s.advance(Seen::Running);
    s.advance(Seen::Count(Some(100)));
    s.advance(Seen::Used(Some(10_000)));
    s.advance(Seen::Elapsed(4_999_999_999));
    assert_eq!(s.killed, None);
    assert_eq!(s.pending, Watch::Poll { ms: 1 });
}

#[test]
fn without_a_pidfd_it_sleeps_a_tick() {
    let mut s = watch(false, None, false, false);
    s.advance(Seen::Running);
    s.advance(Seen::Elapsed(0));
    assert_eq!(s.pending, Watch::Nap { ns: 5_000_000 });
    s.advance(Seen::Done);
    s.advance(Seen::Running);
    s.advance(Seen::Elapsed(4_999_000_000));
    assert_eq!(s.pending, Watch::Nap { ns: 1_000_000 });
}

#[test]
fn unreadable_numbers_are_asked_for_again_soon() {
    let mut s = watch(true, Some(100), true, true);
    s.advance(Seen::Running);
    s.advance(Seen::Count(None));
    s.advance(Seen::Used(None));
    s.advance(Seen::Elapsed(0));
    assert_eq!(s.pending, Watch::Poll { ms: 6 });
}

#[test]
fn a_long_sleep_is_cut_to_what_poll_takes() {
    let mut s = Supervisor::new(false, None, false, true, 1, 0, u64::MAX);
    s.advance(Seen::Running);
    s.advance(Seen::Elapsed(0));
    assert_eq!(s.pending, Watch::Poll { ms: i32::MAX });
}

#[test]
fn a_child_that_cannot_be_waited_for_is_lost() {
    let mut s = watch(false, None, false, true);
    s.advance(Seen::WaitFailed);
    assert_eq!(s.pending, Watch::Lost);
    s.advance(Seen::Running);
    assert_eq!(s.pending, Watch::Lost);
}

#[test]
fn what_was_not_asked_for_changes_nothing() {
    let mut s = watch(true, Some(1), true, true);
    let before = s;
    s.advance(Seen::Count(Some(u64::MAX)));
    s.advance(Seen::Elapsed(u128::MAX));
    s.advance(Seen::Done);
    assert_eq!(s, before);
}

#[test]
fn kills_have_names() {
    assert_eq!(Kill::Instructions.name(), "instructions");
    assert_eq!(Kill::Cpu.name(), "cpu");
    assert_eq!(Kill::Wall.name(), "wall");
}

#[test]
fn the_backstop_is_the_longest_safe_sleep() {
    for (left, cores) in [(1_000_000_000_007u64, 3u64), (77_777_777_777, 1), (u64::MAX, 64)] {
        let t = backstop_timeout(left, cores);
        let rate = (cores * PEAK_INSN_RATE_PER_CORE) as u128;
        let all = left as u128 * 1_000_000_000;
        assert!(t * rate <= all);
        assert!((t + 1) * rate > all);
        let t = cpu_backstop_timeout(left, cores);
        assert!(t * cores as u128 <= left as u128 * 1_000_000);
        assert!((t / 1_000_000 + 1) * cores as u128 > left as u128);
    }
}

#[test]
fn near_the_budget_the_overshoot_is_two_milliseconds_of_all_cores() {
    for left in [0u64, 1, 39_999_999, 40_000_001, 123_456_789] {
        for cores in [1u64, 2, 16] {
            let rate = (cores * PEAK_INSN_RATE_PER_CORE) as u128;
            let slept = backstop_timeout(left, cores) + 1_000_000;
            assert!(slept * rate <= left as u128 * 1_000_000_000 + 2_000_000 * rate);
        }
    }
}

#[test]
fn a_whole_watch_kills_only_for_what_was_read() {
    let readings = [
        Seen::Running,
        Seen::Count(Some(10)),
        Seen::Used(Some(5)),
        Seen::Elapsed(1_000),
        Seen::Done,
        Seen::Running,
        Seen::Count(Some(90)),
        Seen::Used(Some(5)),
        Seen::Elapsed(5_000_000_001),
    ];
    let mut s = watch(true, Some(100), true, true);
    for (i, seen) in readings.iter().enumerate() {
        s.advance(*seen);
        assert_eq!(s.killed.is_some(), i + 1 == readings.len());
    }
    assert_eq!((s.killed, s.pending), (Some(Kill::Wall), Watch::KillAndReap));
    assert_eq!((s.insn_limit, s.cpu_budget_ms, s.wall), (Some(100), 10_000, 5_000_000_000));
}
