//! Watching a run: when to look at it again, and when to kill it.
//!
//! The supervisor sleeps in poll(2) on a pidfd, which turns readable when the
//! child exits, until the wall deadline or the next backstop check. The PMU
//! stops a single task that runs over its instruction budget. The backstop
//! reads of the total instruction count and of cpu.stat catch work spread over
//! several processes or done in the kernel.
//!
//! Times are nanoseconds, unless a name says otherwise.

use crate::limits;
use crate::limits::capped_mul;
use vstd::prelude::*;

verus! {

/// Fixed supervisor tick when pidfd_open is unavailable (pre-5.3 kernels).
pub const NO_PIDFD_TICK: u128 = 5_000_000;

/// Minimum backstop sleep; caps the re-check rate near the limit.
pub const BACKSTOP_FLOOR: u128 = 1_000_000;

/// The most instructions one core can retire per second, used to size the
/// backstop sleep. It has to cover the fastest code: a high-ILP compiled loop
/// on a 2026 desktop core (~6 GHz, IPC 5-6) retires 30-35G/s, against ~14G/s
/// for an interpreter loop. Setting it too high only costs extra wakeups near
/// the budget.
pub const PEAK_INSN_RATE_PER_CORE: u64 = 40_000_000_000;

pub const NS_PER_SEC: u128 = 1_000_000_000;

pub const NS_PER_MS: u128 = 1_000_000;

/// At least one core.
pub open spec fn at_least_one(cores: u64) -> u64 {
    if cores < 1 {
        1
    } else {
        cores
    }
}

pub open spec fn lesser(a: nat, b: nat) -> nat {
    if a <= b {
        a
    } else {
        b
    }
}

pub open spec fn greater(a: nat, b: nat) -> nat {
    if a >= b {
        a
    } else {
        b
    }
}

/// The most instructions that `cores` cores retire per second.
pub open spec fn peak_rate(cores: u64) -> u64 {
    limits::capped_product(at_least_one(cores) as nat, PEAK_INSN_RATE_PER_CORE as nat)
}

/// The sleep with `remaining_insns` left of the budget.
pub open spec fn insn_backstop(remaining_insns: u64, cores: u64) -> nat {
    greater(
        lesser(
            remaining_insns as nat * NS_PER_SEC as nat / peak_rate(cores) as nat,
            u64::MAX as nat,
        ),
        BACKSTOP_FLOOR as nat,
    )
}

/// The sleep with `remaining_ms` left of the CPU budget.
pub open spec fn cpu_backstop(remaining_ms: u64, cores: u64) -> nat {
    greater(
        (remaining_ms / at_least_one(cores)) as nat * NS_PER_MS as nat,
        BACKSTOP_FLOOR as nat,
    )
}

/// The longest sleep in which every core at peak rate still couldn't burn the
/// remaining budget, so forking can't outrun the next read.
pub fn backstop_timeout(remaining_insns: u64, cores: u64) -> (r: u128)
    ensures
        r == insn_backstop(remaining_insns, cores),
{
    let n: u64 = if cores < 1 {
        1
    } else {
        cores
    };
    let rate: u64 = capped_mul(n, PEAK_INSN_RATE_PER_CORE);
    proof {
        assert(n as nat * PEAK_INSN_RATE_PER_CORE as nat >= PEAK_INSN_RATE_PER_CORE)
            by (nonlinear_arith)
            requires
                n >= 1,
                PEAK_INSN_RATE_PER_CORE >= 1,
        ;
    }
    let ns: u128 = remaining_insns as u128 * NS_PER_SEC / rate as u128;
    let capped: u128 = if ns <= u64::MAX as u128 {
        ns
    } else {
        u64::MAX as u128
    };
    if capped >= BACKSTOP_FLOOR {
        capped
    } else {
        BACKSTOP_FLOOR
    }
}

/// The same for the CPU budget: the tree uses at most `cores` ms of CPU per ms
/// of wall time, so after sleeping `remaining / cores` the next cpu.stat read
/// can find the budget exceeded by a few core-milliseconds at most.
pub fn cpu_backstop_timeout(remaining_ms: u64, cores: u64) -> (r: u128)
    ensures
        r == cpu_backstop(remaining_ms, cores),
{
    let n: u64 = if cores < 1 {
        1
    } else {
        cores
    };
    let ns: u128 = (remaining_ms / n) as u128 * NS_PER_MS;
    if ns >= BACKSTOP_FLOOR {
        ns
    } else {
        BACKSTOP_FLOOR
    }
}

/// In a sleep longer than the floor, all cores together at peak rate retire no
/// more instructions than are left; and in any longer sleep, up to the longest
/// there is, they would retire them all. The peak rate of all cores is taken to
/// be one that 64 bits hold.
pub proof fn law_forking_cannot_outrun_the_read(remaining_insns: u64, cores: u64)
    requires
        insn_backstop(remaining_insns, cores) > BACKSTOP_FLOOR,
    ensures
        insn_backstop(remaining_insns, cores) * peak_rate(cores) <= remaining_insns * NS_PER_SEC,
        insn_backstop(remaining_insns, cores) < u64::MAX ==> (insn_backstop(remaining_insns, cores)
            + 1) * peak_rate(cores) > remaining_insns * NS_PER_SEC,
        cores * PEAK_INSN_RATE_PER_CORE <= u64::MAX ==> peak_rate(cores) == at_least_one(cores)
            * PEAK_INSN_RATE_PER_CORE,
{
    let x = remaining_insns as int * NS_PER_SEC as int;
    let rate = peak_rate(cores) as int;
    let t = insn_backstop(remaining_insns, cores) as int;
    assert(rate >= 1);
    assert(t <= x / rate);
    assert(t * rate <= x) by (nonlinear_arith)
        requires
            t <= x / rate,
            rate >= 1,
    ;
    if t < u64::MAX {
        assert(t == x / rate);
        assert((t + 1) * rate > x) by (nonlinear_arith)
            requires
                t == x / rate,
                rate >= 1,
        ;
    }
}

/// In a sleep longer than the floor, all cores together use no more CPU time
/// than is left; and in one that is a whole millisecond longer they could use
/// more.
pub proof fn law_cores_cannot_outrun_the_budget(remaining_ms: u64, cores: u64)
    requires
        cpu_backstop(remaining_ms, cores) > BACKSTOP_FLOOR,
    ensures
        cpu_backstop(remaining_ms, cores) * at_least_one(cores) <= remaining_ms * NS_PER_MS,
        remaining_ms < (cpu_backstop(remaining_ms, cores) / (NS_PER_MS as nat) + 1) * at_least_one(
            cores,
        ),
{
    let m = remaining_ms as int;
    let n = at_least_one(cores) as int;
    let q = m / n;
    assert(m < (q + 1) * n) by (nonlinear_arith)
        requires
            q == m / n,
            n >= 1,
    ;
    assert(cpu_backstop(remaining_ms, cores) / (NS_PER_MS as nat) == q);
    assert(q * n <= m) by (nonlinear_arith)
        requires
            q == m / n,
            n >= 1,
    ;
    assert((q * NS_PER_MS) * n <= m * NS_PER_MS) by (nonlinear_arith)
        requires
            q * n <= m,
            NS_PER_MS == 1_000_000,
    ;
}

/// After a sleep of at most a millisecond more than the backstop, the next read
/// finds a budget exceeded by what the cores do in two milliseconds at most.
pub proof fn law_overshoot_is_bounded(remaining: u64, cores: u64, slept: nat)
    ensures
        slept <= cpu_backstop(remaining, cores) + NS_PER_MS ==> slept * at_least_one(cores)
            <= remaining * NS_PER_MS + 2 * NS_PER_MS * at_least_one(cores),
        slept <= insn_backstop(remaining, cores) + NS_PER_MS ==> slept * peak_rate(cores)
            <= remaining * NS_PER_SEC + 2 * NS_PER_MS * peak_rate(cores),
{
    let t = slept as int;
    let n = at_least_one(cores) as int;
    let b = cpu_backstop(remaining, cores) as int;
    if b > BACKSTOP_FLOOR {
        law_cores_cannot_outrun_the_budget(remaining, cores);
    }
    if t <= b + NS_PER_MS {
        lemma_overshoot(t, b, n, remaining as int * NS_PER_MS as int);
    }
    let rate = peak_rate(cores) as int;
    let c = insn_backstop(remaining, cores) as int;
    if c > BACKSTOP_FLOOR {
        law_forking_cannot_outrun_the_read(remaining, cores);
    }
    if t <= c + NS_PER_MS {
        lemma_overshoot(t, c, rate, remaining as int * NS_PER_SEC as int);
    }
}

proof fn lemma_overshoot(t: int, b: int, rate: int, left: int)
    requires
        0 <= t <= b + 1_000_000,
        b > 1_000_000 ==> b * rate <= left,
        rate >= 1,
        left >= 0,
    ensures
        t * rate <= left + 2_000_000 * rate,
{
    if b > 1_000_000 {
        assert(t * rate <= left + 2_000_000 * rate) by (nonlinear_arith)
            requires
                t <= b + 1_000_000,
                b * rate <= left,
                rate >= 1,
        ;
    } else {
        assert(t * rate <= left + 2_000_000 * rate) by (nonlinear_arith)
            requires
                t <= 2_000_000,
                left >= 0,
                rate >= 1,
        ;
    }
}

/// The sleep grows with what is left of the budget, and shrinks with the
/// number of cores.
pub proof fn law_backstop_scales(less: u64, more: u64, few: u64, many: u64)
    requires
        less <= more,
        few <= many,
    ensures
        insn_backstop(less, few) <= insn_backstop(more, few),
        insn_backstop(less, many) <= insn_backstop(less, few),
        cpu_backstop(less, few) <= cpu_backstop(more, few),
        cpu_backstop(less, many) <= cpu_backstop(less, few),
{
    let a = less as int * NS_PER_SEC as int;
    let b = more as int * NS_PER_SEC as int;
    let f = peak_rate(few) as int;
    let m = peak_rate(many) as int;
    assert(f <= m);
    assert(f >= 1);
    vstd::arithmetic::div_mod::lemma_div_is_ordered(a, b, f);
    vstd::arithmetic::div_mod::lemma_div_is_ordered_by_denominator(a, f, m);
    let cf = at_least_one(few) as int;
    let cm = at_least_one(many) as int;
    vstd::arithmetic::div_mod::lemma_div_is_ordered(less as int, more as int, cf);
    vstd::arithmetic::div_mod::lemma_div_is_ordered_by_denominator(less as int, cf, cm);
}

/// Why a run was killed.
#[derive(Debug, Clone, Copy, PartialEq, Eq, Structural)]
pub enum Kill {
    Instructions,
    Cpu,
    Wall,
}

impl Kill {
    /// The word for it in the result.
    pub open spec fn word(self) -> Seq<char> {
        match self {
            Kill::Instructions => "instructions"@,
            Kill::Cpu => "cpu"@,
            Kill::Wall => "wall"@,
        }
    }

    /// The word for it in the result.
    pub fn name(self) -> (r: &'static str)
        ensures
            r@ == self.word(),
    {
        match self {
            Kill::Instructions => "instructions",
            Kill::Cpu => "cpu",
            Kill::Wall => "wall",
        }
    }
}

/// What the supervisor asks for next.
#[derive(Debug, Clone, Copy, PartialEq, Eq, Structural)]
pub enum Watch {
    /// See whether the child is gone, without waiting.
    Reap,
    /// Read the instruction counter.
    ReadCounter,
    /// Read the CPU time of the cgroup.
    ReadCpu,
    /// Read the clock.
    ReadClock,
    /// Kill the whole tree and wait for the child. cgroup.kill takes the tree
    /// at once, including fork bombs and processes that called setsid; killpg
    /// covers runs without a cgroup.
    KillAndReap,
    /// Sleep until the child exits, at most so many milliseconds.
    Poll { ms: i32 },
    /// Sleep so many nanoseconds.
    Nap { ns: u128 },
    /// The run is over.
    Ended,
    /// The child cannot be waited for.
    Lost,
}

/// What came of it.
#[derive(Debug, Clone, Copy, PartialEq, Eq, Structural)]
pub enum Seen {
    /// The child is still there.
    Running,
    /// The child is gone.
    Gone,
    /// Waiting failed.
    WaitFailed,
    /// The instruction count, where it could be read.
    Count(Option<u64>),
    /// The CPU time in milliseconds, where it could be read.
    Used(Option<u64>),
    /// The time since the start.
    Elapsed(u128),
    /// It is done.
    Done,
}

/// A run that is being watched.
#[derive(Debug, Clone, Copy, PartialEq, Eq, Structural)]
pub struct Supervisor {
    /// The instruction budget, where there is one and a counter to hold
    /// against it.
    pub insn_limit: Option<u64>,
    /// Whether the run has a cgroup.
    pub cgroup: bool,
    /// Whether the child's exit can be polled for.
    pub pidfd: bool,
    pub cores: u64,
    pub cpu_budget_ms: u64,
    pub wall: u128,
    /// The longest sleep that the checks of this round allow.
    pub backstop: Option<u128>,
    pub killed: Option<Kill>,
    pub pending: Watch,
}

/// The shorter of a sleep and the one that was allowed so far.
pub open spec fn tightened(so_far: Option<u128>, t: nat) -> u128 {
    match so_far {
        Some(b) => lesser(b as nat, t) as u128,
        None => t as u128,
    }
}

/// The sleep until the deadline or the next check.
pub open spec fn sleep_for(s: Supervisor, elapsed: u128) -> nat {
    let left = (s.wall - elapsed) as nat;
    match s.backstop {
        Some(b) => lesser(left, b as nat),
        None => left,
    }
}

/// poll() takes whole milliseconds, and rounding down would spin just short of
/// the deadline, hence the one more. An early wake only re-runs the checks.
pub open spec fn poll_ms(ns: nat) -> i32 {
    lesser(ns / (NS_PER_MS as nat) + 1, i32::MAX as nat) as i32
}

/// The check that follows the one of the counter.
pub open spec fn check_after_counter(s: Supervisor) -> Watch {
    if s.cgroup {
        Watch::ReadCpu
    } else {
        Watch::ReadClock
    }
}

/// What follows when the pending action came to `seen`.
pub open spec fn watch_after(s: Supervisor, seen: Seen) -> Supervisor {
    match (s.pending, seen) {
        (Watch::Reap, Seen::Gone) => Supervisor { pending: Watch::Ended, ..s },
        (Watch::Reap, Seen::WaitFailed) => Supervisor { pending: Watch::Lost, ..s },
        (Watch::Reap, Seen::Running) => Supervisor {
            backstop: None,
            pending: if s.insn_limit is Some {
                Watch::ReadCounter
            } else {
                check_after_counter(s)
            },
            ..s
        },
        (Watch::ReadCounter, Seen::Count(count)) => match (count, s.insn_limit) {
            (Some(c), Some(limit)) => if c > limit {
                Supervisor {
                    killed: Some(Kill::Instructions),
                    pending: Watch::KillAndReap,
                    ..s
                }
            } else {
                Supervisor {
                    backstop: Some(insn_backstop((limit - c) as u64, s.cores) as u128),
                    pending: check_after_counter(s),
                    ..s
                }
            },
            _ => Supervisor {
                backstop: Some(NO_PIDFD_TICK),
                pending: check_after_counter(s),
                ..s
            },
        },
        (Watch::ReadCpu, Seen::Used(used)) => match used {
            Some(u) => if u > s.cpu_budget_ms {
                Supervisor { killed: Some(Kill::Cpu), pending: Watch::KillAndReap, ..s }
            } else {
                Supervisor {
                    backstop: Some(
                        tightened(s.backstop, cpu_backstop((s.cpu_budget_ms - u) as u64, s.cores)),
                    ),
                    pending: Watch::ReadClock,
                    ..s
                }
            },
            None => Supervisor { pending: Watch::ReadClock, ..s },
        },
        (Watch::ReadClock, Seen::Elapsed(elapsed)) => if elapsed >= s.wall {
            Supervisor { killed: Some(Kill::Wall), pending: Watch::KillAndReap, ..s }
        } else if s.pidfd {
            Supervisor { pending: Watch::Poll { ms: poll_ms(sleep_for(s, elapsed)) }, ..s }
        } else {
            Supervisor {
                pending: Watch::Nap {
                    ns: lesser(sleep_for(s, elapsed), NO_PIDFD_TICK as nat) as u128,
                },
                ..s
            }
        },
        (Watch::KillAndReap, Seen::Done) => Supervisor { pending: Watch::Ended, ..s },
        (Watch::Poll { .. }, Seen::Done) => Supervisor { pending: Watch::Reap, ..s },
        (Watch::Nap { .. }, Seen::Done) => Supervisor { pending: Watch::Reap, ..s },
        _ => s,
    }
}

/// Where watching a run starts. The budget binds only where there is a counter
/// to read it from.
pub open spec fn watch_start(
    counting: bool,
    insn_limit: Option<u64>,
    cgroup: bool,
    pidfd: bool,
    cores: u64,
    cpu_budget_ms: u64,
    wall_ms: u64,
) -> Supervisor {
    Supervisor {
        insn_limit: if counting {
            insn_limit
        } else {
            None
        },
        cgroup,
        pidfd,
        cores,
        cpu_budget_ms,
        wall: (wall_ms * NS_PER_MS) as u128,
        backstop: None,
        killed: None,
        pending: Watch::Reap,
    }
}

impl Supervisor {
    /// Starts to watch a run.
    pub fn new(
        counting: bool,
        insn_limit: Option<u64>,
        cgroup: bool,
        pidfd: bool,
        cores: u64,
        cpu_budget_ms: u64,
        wall_ms: u64,
    ) -> (r: Supervisor)
        ensures
            r == watch_start(
                counting,
                insn_limit,
                cgroup,
                pidfd,
                cores,
                cpu_budget_ms,
                wall_ms,
            ),
            orderly(r),
    {
        Supervisor {
            insn_limit: if counting {
                insn_limit
            } else {
                None
            },
            cgroup,
            pidfd,
            cores,
            cpu_budget_ms,
            wall: wall_ms as u128 * NS_PER_MS,
            backstop: None,
            killed: None,
            pending: Watch::Reap,
        }
    }

    fn check_after_counter(&self) -> (r: Watch)
        ensures
            r == check_after_counter(*self),
    {
        if self.cgroup {
            Watch::ReadCpu
        } else {
            Watch::ReadClock
        }
    }

    /// Takes what came of the pending action. What does not belong to it
    /// changes nothing.
    pub fn advance(&mut self, seen: Seen)
        ensures
            *final(self) == watch_after(*old(self), seen),
    {
        match (self.pending, seen) {
            (Watch::Reap, Seen::Gone) => {
                // exited, or killed by the PMU (attributed later)
                self.pending = Watch::Ended;
            },
            (Watch::Reap, Seen::WaitFailed) => {
                self.pending = Watch::Lost;
            },
            (Watch::Reap, Seen::Running) => {
                self.backstop = None;
                self.pending = match self.insn_limit {
                    Some(_) => Watch::ReadCounter,
                    None => self.check_after_counter(),
                };
            },
            (Watch::ReadCounter, Seen::Count(count)) => match (count, self.insn_limit) {
                (Some(c), Some(limit)) => {
                    if c > limit {
                        self.killed = Some(Kill::Instructions);
                        self.pending = Watch::KillAndReap;
                    } else {
                        self.backstop = Some(backstop_timeout(limit - c, self.cores));
                        self.pending = self.check_after_counter();
                    }
                },
                _ => {
                    // unreadable: use the fixed tick
                    self.backstop = Some(NO_PIDFD_TICK);
                    self.pending = self.check_after_counter();
                },
            },
            (Watch::ReadCpu, Seen::Used(used)) => match used {
                Some(u) => {
                    if u > self.cpu_budget_ms {
                        self.killed = Some(Kill::Cpu);
                        self.pending = Watch::KillAndReap;
                    } else {
                        let t: u128 = cpu_backstop_timeout(self.cpu_budget_ms - u, self.cores);
                        self.backstop = match self.backstop {
                            Some(b) => if b <= t {
                                Some(b)
                            } else {
                                Some(t)
                            },
                            None => Some(t),
                        };
                        self.pending = Watch::ReadClock;
                    }
                },
                None => {
                    self.pending = Watch::ReadClock;
                },
            },
            (Watch::ReadClock, Seen::Elapsed(elapsed)) => {
                if elapsed >= self.wall {
                    self.killed = Some(Kill::Wall);
                    self.pending = Watch::KillAndReap;
                } else {
                    let left: u128 = self.wall - elapsed;
                    let timeout: u128 = match self.backstop {
                        Some(b) => if left <= b {
                            left
                        } else {
                            b
                        },
                        None => left,
                    };
                    self.pending = if self.pidfd {
                        let ms: u128 = timeout / NS_PER_MS + 1;
                        Watch::Poll {
                            ms: if ms <= i32::MAX as u128 {
                                ms as i32
                            } else {
                                i32::MAX
                            },
                        }
                    } else if timeout <= NO_PIDFD_TICK {
                        Watch::Nap { ns: timeout }
                    } else {
                        Watch::Nap { ns: NO_PIDFD_TICK }
                    };
                }
            },
            (Watch::KillAndReap, Seen::Done) => {
                self.pending = Watch::Ended;
            },
            (Watch::Poll { ms: _ }, Seen::Done) => {
                self.pending = Watch::Reap;
            },
            (Watch::Nap { ns: _ }, Seen::Done) => {
                self.pending = Watch::Reap;
            },
            _ => {},
        }
    }
}

/// Whether the watching so far is in order: only what is there is read, and a
/// reason to kill is there exactly from the kill on.
pub open spec fn orderly(s: Supervisor) -> bool {
    match s.pending {
        Watch::ReadCounter => s.killed is None && s.insn_limit is Some,
        Watch::ReadCpu => s.killed is None && s.cgroup,
        Watch::KillAndReap => s.killed is Some,
        Watch::Ended => true,
        _ => s.killed is None,
    }
}

/// A run is killed only for a limit that it was just seen to exceed, and a
/// reason, once there, stays.
pub proof fn law_kills_are_justified(s: Supervisor, seen: Seen)
    requires
        orderly(s),
    ensures
        orderly(watch_after(s, seen)),
        s.killed is Some ==> watch_after(s, seen).killed == s.killed,
        s.killed is None ==> match watch_after(s, seen).killed {
            Some(Kill::Instructions) => seen matches Seen::Count(Some(c)) && s.insn_limit matches Some(
                limit,
            ) && c > limit,
            Some(Kill::Cpu) => s.cgroup && (seen matches Seen::Used(Some(u)) && u
                > s.cpu_budget_ms),
            Some(Kill::Wall) => seen matches Seen::Elapsed(e) && e >= s.wall,
            None => true,
        },
{
}

/// A limit that is seen to be exceeded is acted on at once: the next thing that
/// happens is the kill.
pub proof fn law_excess_is_acted_on(s: Supervisor, count: u64, limit: u64, used: u64, elapsed: u128)
    ensures
        s.pending == Watch::ReadCounter && s.insn_limit == Some(limit) && count > limit ==> {
            let n = watch_after(s, Seen::Count(Some(count)));
            n.pending == Watch::KillAndReap && n.killed == Some(Kill::Instructions)
        },
        s.pending == Watch::ReadCpu && used > s.cpu_budget_ms ==> {
            let n = watch_after(s, Seen::Used(Some(used)));
            n.pending == Watch::KillAndReap && n.killed == Some(Kill::Cpu)
        },
        s.pending == Watch::ReadClock && elapsed >= s.wall ==> {
            let n = watch_after(s, Seen::Elapsed(elapsed));
            n.pending == Watch::KillAndReap && n.killed == Some(Kill::Wall)
        },
{
}

/// No sleep goes past the deadline or the backstop by more than the millisecond
/// that poll() is rounded up by.
pub proof fn law_sleep_is_bounded(s: Supervisor, elapsed: u128)
    requires
        s.pending == Watch::ReadClock,
        elapsed < s.wall,
    ensures
        ({
            let n = watch_after(s, Seen::Elapsed(elapsed));
            let slept = match n.pending {
                Watch::Poll { ms } => ms as int * NS_PER_MS,
                Watch::Nap { ns } => ns as int,
                _ => 0,
            };
            &&& n.pending is Poll || n.pending is Nap
            &&& slept <= s.wall - elapsed + NS_PER_MS
            &&& s.backstop matches Some(b) ==> slept <= b + NS_PER_MS
            &&& n.pending is Poll ==> slept > 0
        }),
{
}

/// Before a sleep the clock was read; before the clock, the CPU time of a run
/// that has a cgroup; and before either, the counter of a run that has a
/// budget to hold against it.
pub proof fn law_every_round_checks(s: Supervisor, seen: Seen)
    requires
        orderly(s),
        watch_after(s, seen).pending != s.pending,
    ensures
        ({
            let n = watch_after(s, seen);
            &&& n.pending is Poll || n.pending is Nap ==> s.pending == Watch::ReadClock
            &&& n.pending == Watch::ReadClock && s.cgroup ==> s.pending == Watch::ReadCpu
            &&& n.pending == Watch::ReadClock && !s.cgroup && s.insn_limit is Some ==> s.pending
                == Watch::ReadCounter
            &&& n.pending == Watch::ReadCpu && s.insn_limit is Some ==> s.pending
                == Watch::ReadCounter
        }),
{
}

/// The watch after all that was seen.
pub open spec fn watch_after_all(s: Supervisor, seen: Seq<Seen>) -> Supervisor
    decreases seen.len(),
{
    if seen.len() == 0 {
        s
    } else {
        watch_after(watch_after_all(s, seen.drop_last()), seen.last())
    }
}

/// Whether a reading is over the limit that `k` stands for.
pub open spec fn exceeds(s: Supervisor, reading: Seen, k: Kill) -> bool {
    match k {
        Kill::Instructions => reading matches Seen::Count(Some(c)) && s.insn_limit matches Some(
            limit,
        ) && c > limit,
        Kill::Cpu => s.cgroup && (reading matches Seen::Used(Some(u)) && u > s.cpu_budget_ms),
        Kill::Wall => reading matches Seen::Elapsed(e) && e >= s.wall,
    }
}

proof fn lemma_limits_stay(s: Supervisor, seen: Seen)
    ensures
        ({
            let n = watch_after(s, seen);
            &&& n.insn_limit == s.insn_limit
            &&& n.cgroup == s.cgroup
            &&& n.cpu_budget_ms == s.cpu_budget_ms
            &&& n.wall == s.wall
        }),
{
}

/// Over a whole watch, a run is killed only for a limit that one of the readings
/// was over; a run without such a reading is never killed.
pub proof fn law_every_kill_has_its_reading(s: Supervisor, seen: Seq<Seen>)
    requires
        orderly(s),
        s.killed is None,
    ensures
        orderly(watch_after_all(s, seen)),
        watch_after_all(s, seen).killed matches Some(k) ==> exists|i: int|
            0 <= i < seen.len() && exceeds(s, #[trigger] seen[i], k),
        ({
            let n = watch_after_all(s, seen);
            &&& n.insn_limit == s.insn_limit
            &&& n.cgroup == s.cgroup
            &&& n.cpu_budget_ms == s.cpu_budget_ms
            &&& n.wall == s.wall
        }),
    decreases seen.len(),
{
    if seen.len() > 0 {
        let front = seen.drop_last();
        law_every_kill_has_its_reading(s, front);
        let before = watch_after_all(s, front);
        law_kills_are_justified(before, seen.last());
        lemma_limits_stay(before, seen.last());
        if let Some(k) = watch_after_all(s, seen).killed {
            if before.killed is Some {
                let i = choose|i: int| 0 <= i < front.len() && exceeds(s, #[trigger] front[i], k);
                assert(exceeds(s, seen[i], k));
            } else {
                assert(exceeds(s, seen[seen.len() - 1], k));
            }
        }
    }
}

/// A run that was killed for its wall time took at least that long, where its
/// end is no earlier than any reading of the clock.
pub proof fn law_wall_kill_took_its_time(s: Supervisor, seen: Seq<Seen>, elapsed: u128)
    requires
        orderly(s),
        s.killed is None,
        forall|i: int|
            0 <= i < seen.len() ==> ((#[trigger] seen[i]) matches Seen::Elapsed(e) ==> e
                <= elapsed),
    ensures
        watch_after_all(s, seen).killed == Some(Kill::Wall) ==> elapsed >= s.wall && elapsed
            / 1_000_000 >= s.wall / 1_000_000,
{
    law_every_kill_has_its_reading(s, seen);
    if watch_after_all(s, seen).killed == Some(Kill::Wall) {
        let i = choose|i: int| 0 <= i < seen.len() && exceeds(s, #[trigger] seen[i], Kill::Wall);
        assert(seen[i] matches Seen::Elapsed(e) && e >= s.wall);
    }
}

/// A round of watching: the child is there, the counter is read where there is a
/// budget, then the CPU time where there is a cgroup, then the clock.
pub open spec fn round(
    s: Supervisor,
    count: Option<u64>,
    used: Option<u64>,
    elapsed: u128,
) -> Supervisor {
    let a = watch_after(s, Seen::Running);
    let b = if s.insn_limit is Some {
        watch_after(a, Seen::Count(count))
    } else {
        a
    };
    let c = if s.cgroup {
        watch_after(b, Seen::Used(used))
    } else {
        b
    };
    watch_after(c, Seen::Elapsed(elapsed))
}

/// How many nanoseconds the supervisor sleeps.
pub open spec fn sleeps(w: Watch) -> int {
    match w {
        Watch::Poll { ms } => ms * 1_000_000,
        Watch::Nap { ns } => ns as int,
        _ => 0,
    }
}

/// Whether `slept` nanoseconds leave the budget safe: at 40 billion instructions a
/// second on each of `n` cores, what is left of it is exceeded by what the cores
/// do in two milliseconds at most.
pub open spec fn insns_safe(slept: int, left: int, n: int) -> bool {
    slept * (n * 40_000_000_000) <= left * 1_000_000_000 + 2_000_000 * (n * 40_000_000_000)
}

/// Whether `slept` nanoseconds leave the CPU budget safe, with `left` milliseconds
/// of it: on `n` cores it is exceeded by what they do in two milliseconds at most.
pub open spec fn cpu_safe(slept: int, left: int, n: int) -> bool {
    slept * n <= left * 1_000_000 + 2_000_000 * n
}

/// After a round in which no limit was exceeded the supervisor sleeps, and so long
/// that every limit that was read stays safe, each by itself: the instruction
/// budget, the CPU budget and the wall time. A counter that could not be read is
/// read again after a tick of five milliseconds, and the one of poll.
pub proof fn law_round_keeps_every_limit(
    s: Supervisor,
    count: Option<u64>,
    used: Option<u64>,
    elapsed: u128,
    n: int,
)
    requires
        s.pending == Watch::Reap,
        elapsed < s.wall,
        s.insn_limit matches Some(limit) ==> (count matches Some(c) ==> c <= limit),
        used matches Some(u) ==> u <= s.cpu_budget_ms,
        n == if s.cores < 1 {
            1
        } else {
            s.cores as int
        },
        n * 40_000_000_000 <= u64::MAX,
    ensures
        ({
            let r = round(s, count, used, elapsed);
            let slept = sleeps(r.pending);
            &&& r.killed == s.killed
            &&& if s.pidfd {
                r.pending is Poll && slept > 0
            } else {
                r.pending is Nap && slept <= 5_000_000
            }
            &&& slept <= s.wall - elapsed + 1_000_000
            &&& s.insn_limit matches Some(limit) ==> match count {
                Some(c) => insns_safe(slept, limit - c, n),
                None => slept <= 6_000_000,
            }
            &&& s.cgroup ==> (used matches Some(u) ==> cpu_safe(slept, s.cpu_budget_ms - u, n))
        }),
{
    let r = round(s, count, used, elapsed);
    let slept = sleeps(r.pending);
    if let Some(limit) = s.insn_limit {
        if let Some(c) = count {
            let left = (limit - c) as u64;
            let b = insn_backstop(left, s.cores);
            assert(slept <= b + 1_000_000);
            law_overshoot_is_bounded(left, s.cores, slept as nat);
            assert(peak_rate(s.cores) == n * 40_000_000_000);
        }
    }
    if s.cgroup {
        if let Some(u) = used {
            let left = (s.cpu_budget_ms - u) as u64;
            let b = cpu_backstop(left, s.cores);
            assert(slept <= b + 1_000_000);
            law_overshoot_is_bounded(left, s.cores, slept as nat);
        }
    }
}

/// And no sleep is shorter than it has to be: poll wakes it early only where the
/// wall time would be over, or one of the budgets could be, or the counter could
/// not be read, or poll takes no longer sleep, or the floor of one millisecond is
/// reached.
pub proof fn law_round_wakes_for_a_reason(
    s: Supervisor,
    count: Option<u64>,
    used: Option<u64>,
    elapsed: u128,
    n: int,
)
    requires
        s.pending == Watch::Reap,
        s.pidfd,
        elapsed < s.wall,
        s.insn_limit matches Some(limit) ==> (count matches Some(c) ==> c <= limit),
        used matches Some(u) ==> u <= s.cpu_budget_ms,
        n == if s.cores < 1 {
            1
        } else {
            s.cores as int
        },
        n * 40_000_000_000 <= u64::MAX,
    ensures
        ({
            let slept = sleeps(round(s, count, used, elapsed).pending);
            ||| slept == i32::MAX * 1_000_000
            ||| slept > s.wall - elapsed
            ||| s.insn_limit is Some && count is None && slept > 5_000_000
            ||| s.insn_limit matches Some(limit) && count matches Some(c) && slept * (n
                * 40_000_000_000) > (limit - c) * 1_000_000_000
            ||| s.cgroup && (used matches Some(u) && slept * n > (s.cpu_budget_ms - u) * 1_000_000)
        }),
{
    let r = round(s, count, used, elapsed);
    let slept = sleeps(r.pending);
    let t1: Option<u128> = if s.insn_limit is Some {
        match count {
            Some(c) => Some(insn_backstop((s.insn_limit->0 - c) as u64, s.cores) as u128),
            None => Some(NO_PIDFD_TICK),
        }
    } else {
        None
    };
    if slept < i32::MAX * 1_000_000 && slept <= s.wall - elapsed {
        if t1 is Some && slept > t1->0 {
            if let Some(c) = count {
                let left = s.insn_limit->0 - c;
                let rate = n * 40_000_000_000;
                let x = left * 1_000_000_000;
                assert(peak_rate(s.cores) == rate);
                assert(x / rate <= u64::MAX) by (nonlinear_arith)
                    requires
                        x <= u64::MAX * 1_000_000_000,
                        rate >= 1_000_000_000,
                        x >= 0,
                ;
                assert(slept > x / rate);
                assert(slept * rate > x) by (nonlinear_arith)
                    requires
                        slept > x / rate,
                        rate >= 1,
                ;
            }
        } else {
            assert(s.cgroup && used is Some);
            let m = s.cpu_budget_ms - used->0;
            let q = m / n;
            assert(slept > q * 1_000_000);
            assert(slept * n > m * 1_000_000) by (nonlinear_arith)
                requires
                    slept >= (q + 1) * 1_000_000,
                    q == m / n,
                    n >= 1,
            ;
        }
    }
}

/// The watch goes on, round after round, until the child is gone: it ends only when
/// the child was reaped, and each sleep is followed by a look at the child.
pub proof fn law_watch_goes_on(s: Supervisor, seen: Seen)
    ensures
        ({
            let n = watch_after(s, seen);
            &&& n.pending == Watch::Ended && s.pending != Watch::Ended ==> (s.pending == Watch::Reap
                && seen == Seen::Gone) || (s.pending == Watch::KillAndReap && seen == Seen::Done)
            &&& n.pending == Watch::Lost && s.pending != Watch::Lost ==> s.pending == Watch::Reap
                && seen == Seen::WaitFailed
            &&& s.pending == Watch::Reap && seen == Seen::Gone ==> n.pending == Watch::Ended
            &&& s.pending == Watch::Reap && seen == Seen::WaitFailed ==> n.pending == Watch::Lost
            &&& s.pending == Watch::KillAndReap && seen == Seen::Done ==> n.pending == Watch::Ended
            &&& (s.pending is Poll || s.pending is Nap) && seen == Seen::Done ==> n.pending
                == Watch::Reap
            &&& s.pending == Watch::Ended || s.pending == Watch::Lost ==> n == s
        }),
{
}

/// The limits of a watch are those that it was given: the budget counts where
/// instructions are counted, and the wall time is in milliseconds.
pub proof fn law_watch_takes_its_limits(
    counting: bool,
    insn_limit: Option<u64>,
    cgroup: bool,
    pidfd: bool,
    cores: u64,
    cpu_budget_ms: u64,
    wall_ms: u64,
)
    ensures
        ({
            let s = watch_start(
                counting,
                insn_limit,
                cgroup,
                pidfd,
                cores,
                cpu_budget_ms,
                wall_ms,
            );
            &&& s.insn_limit is Some <==> counting && insn_limit is Some
            &&& s.insn_limit is Some ==> s.insn_limit == insn_limit
            &&& s.cgroup == cgroup && s.pidfd == pidfd && s.cores == cores
            &&& s.cpu_budget_ms == cpu_budget_ms
            &&& s.wall == wall_ms * 1_000_000
            &&& s.pending == Watch::Reap && s.killed is None
        }),
{
}

/// The sleep after a round is no longer than any check of it allows, but for the
/// millisecond that poll is rounded up by: the one for the instructions that are
/// left, the one for the CPU time that is left, and the wall time that is left. It is
/// one of them, the tick where a counter could not be read, or the longest there is.
pub proof fn law_round_sleeps_within_every_backstop(
    s: Supervisor,
    count: Option<u64>,
    used: Option<u64>,
    elapsed: u128,
)
    requires
        s.pending == Watch::Reap,
        elapsed < s.wall,
        s.insn_limit matches Some(limit) ==> (count matches Some(c) ==> c <= limit),
        used matches Some(u) ==> u <= s.cpu_budget_ms,
    ensures
        ({
            let slept = sleeps(round(s, count, used, elapsed).pending);
            let by_insns = s.insn_limit is Some && count is Some;
            let by_cpu = s.cgroup && used is Some;
            let insns = insn_backstop((s.insn_limit->0 - count->0) as u64, s.cores);
            let cpu = cpu_backstop((s.cpu_budget_ms - used->0) as u64, s.cores);
            &&& by_insns ==> slept <= insns + 1_000_000
            &&& by_cpu ==> slept <= cpu + 1_000_000
            &&& slept <= s.wall - elapsed + 1_000_000
            &&& s.insn_limit is Some && count is None ==> slept <= 6_000_000
            &&& {
                ||| by_insns && slept >= insns
                ||| by_cpu && slept >= cpu
                ||| slept >= s.wall - elapsed
                ||| (s.insn_limit is Some && count is None || !s.pidfd) && slept >= 5_000_000
                ||| slept == 0x7fff_ffff * 1_000_000
            }
        }),
{
    let r = round(s, count, used, elapsed);
    let slept = sleeps(r.pending);
    let by_insns = s.insn_limit is Some && count is Some;
    let insns = insn_backstop((s.insn_limit->0 - count->0) as u64, s.cores);
    let cpu = cpu_backstop((s.cpu_budget_ms - used->0) as u64, s.cores);
    let t1: Option<u128> = if by_insns {
        Some(insns as u128)
    } else if s.insn_limit is Some {
        Some(NO_PIDFD_TICK)
    } else {
        None
    };
    let t2: Option<u128> = if s.cgroup && used is Some {
        Some(tightened(t1, cpu))
    } else {
        t1
    };
    let left = (s.wall - elapsed) as nat;
    let t = match t2 {
        Some(b) => lesser(left, b as nat),
        None => left,
    };
    assert(r.pending == (if s.pidfd {
        Watch::Poll { ms: poll_ms(t) }
    } else {
        Watch::Nap { ns: lesser(t, NO_PIDFD_TICK as nat) as u128 }
    }));
    assert(t <= slept || slept == 0x7fff_ffff * 1_000_000 || (!s.pidfd && slept == 5_000_000));
    assert(slept <= t + 1_000_000);
}

/// The sleep for what is left of the instruction budget, in numbers: never under a
/// millisecond; over that, no longer than the cores, at 40 billion instructions a second
/// each as far as 64 bits hold that, take for what is left; and not a nanosecond shorter
/// than that, up to the longest sleep there is.
pub proof fn law_insn_sleep_in_numbers(left: u64, cores: u64, rate: int)
    requires
        cores < 1 ==> rate == 40_000_000_000,
        cores >= 1 && cores * 40_000_000_000 <= 0xffff_ffff_ffff_ffff ==> rate == cores
            * 40_000_000_000,
        cores * 40_000_000_000 > 0xffff_ffff_ffff_ffff ==> rate == 0xffff_ffff_ffff_ffff,
    ensures
        ({
            let t = insn_backstop(left, cores) as int;
            &&& 1_000_000 <= t <= 0xffff_ffff_ffff_ffff
            &&& t > 1_000_000 ==> t * rate <= left * 1_000_000_000
            &&& t < 0xffff_ffff_ffff_ffff ==> (t + 1) * rate > left * 1_000_000_000
        }),
{
    let t = insn_backstop(left, cores) as int;
    let x = left * 1_000_000_000;
    assert(rate == peak_rate(cores));
    assert(rate >= 1);
    assert((x / rate + 1) * rate > x && (x / rate) * rate <= x) by (nonlinear_arith)
        requires
            rate >= 1,
    ;
    let q = x / rate;
    if t > 1_000_000 {
        assert(t * rate <= x) by (nonlinear_arith)
            requires
                t <= q,
                q * rate <= x,
                rate >= 1,
        ;
    }
    if t < 0xffff_ffff_ffff_ffff {
        assert((t + 1) * rate > x) by (nonlinear_arith)
            requires
                t >= q,
                (q + 1) * rate > x,
                rate >= 1,
        ;
    }
}

/// The sleep for what is left of the CPU budget, in numbers: never under a millisecond;
/// over that, no longer than all cores together take for what is left; and less than a
/// millisecond shorter than that.
pub proof fn law_cpu_sleep_in_numbers(left_ms: u64, cores: u64, n: int)
    requires
        cores < 1 ==> n == 1,
        cores >= 1 ==> n == cores,
    ensures
        ({
            let t = cpu_backstop(left_ms, cores) as int;
            &&& t >= 1_000_000
            &&& t > 1_000_000 ==> t * n <= left_ms * 1_000_000
            &&& (t + 1_000_000) * n > left_ms * 1_000_000
        }),
{
    let t = cpu_backstop(left_ms, cores) as int;
    let m = left_ms as int;
    let q = m / n;
    assert(q * n <= m && (q + 1) * n > m) by (nonlinear_arith)
        requires
            q == m / n,
            n >= 1,
    ;
    if t > 1_000_000 {
        assert(t * n <= m * 1_000_000) by (nonlinear_arith)
            requires
                t == q * 1_000_000,
                q * n <= m,
        ;
    }
    assert((t + 1_000_000) * n > m * 1_000_000) by (nonlinear_arith)
        requires
            t >= q * 1_000_000,
            (q + 1) * n > m,
            n >= 1,
    ;
}

} // verus!
