//! The hardware counters: what to ask `perf_event_open` for, in which order,
//! and how to read what it gives.

use crate::bytes;
use crate::bytes::push_le;
use vstd::prelude::*;

verus! {

pub const PERF_TYPE_HARDWARE: u32 = 0;

pub const PERF_TYPE_HW_CACHE: u32 = 3;

pub const PERF_COUNT_HW_INSTRUCTIONS: u64 = 1;

pub const PERF_COUNT_HW_CACHE_MISSES: u64 = 3;

pub const PERF_COUNT_HW_BRANCH_MISSES: u64 = 5;

// hw_cache config: cache id | (op << 8) | (result << 16)
pub const HW_CACHE_L1D_READ_MISS: u64 = 0x1_0000;

pub const HW_CACHE_DTLB_READ_MISS: u64 = 0x1_0003;

/// Both PERF_FORMAT_TOTAL_TIME_ENABLED and PERF_FORMAT_TOTAL_TIME_RUNNING.
pub const READ_TIMES: u64 = 0x3;

/// Off until exec, inherited by every descendant, user space only: the flags
/// disabled, inherit, exclude_kernel, exclude_hv and enable_on_exec.
pub const COUNT_USER_FROM_EXEC: u64 = 0x1063;

pub const PERF_SAMPLE_IP: u64 = 1;

/// The size of `struct perf_event_attr` up to config2 (the VER1 layout).
pub const ATTR_SIZE: u32 = 72;

/// How many bytes a counter with both times is read as.
pub const COUNTER_BYTES: i64 = 24;

/// The counters that `--extra-counters` adds, user space only like
/// instructions. There are four so that, with instructions and the NMI
/// watchdog, they fit a six-counter PMU without multiplexing. `cache_misses`
/// is the vendor's generic event: last-level cache on Intel, L2 on AMD Zen.
pub const EXTRA_COUNTERS: [(&'static str, u32, u64); 4] = [
    ("l1d_read_misses", PERF_TYPE_HW_CACHE, HW_CACHE_L1D_READ_MISS),
    ("cache_misses", PERF_TYPE_HARDWARE, PERF_COUNT_HW_CACHE_MISSES),
    ("dtlb_read_misses", PERF_TYPE_HW_CACHE, HW_CACHE_DTLB_READ_MISS),
    ("branch_misses", PERF_TYPE_HARDWARE, PERF_COUNT_HW_BRANCH_MISSES),
];

/// `struct perf_event_attr`, up to config2.
#[derive(Debug, Clone, Copy, PartialEq, Eq, Structural)]
pub struct PerfEventAttr {
    pub kind: u32,
    pub size: u32,
    pub config: u64,
    pub sample_period: u64,
    pub sample_type: u64,
    pub read_format: u64,
    pub flags: u64,
    pub wakeup_events: u32,
    pub bp_type: u32,
    pub config1: u64,
    pub config2: u64,
}

/// A counter of user-space events from exec on, for a task and its
/// descendants. With a `period`, it overflows after so many events.
pub open spec fn attr_for(kind: u32, config: u64, period: u64) -> PerfEventAttr {
    PerfEventAttr {
        kind,
        size: ATTR_SIZE,
        config,
        sample_period: period,
        sample_type: if period > 0 {
            PERF_SAMPLE_IP
        } else {
            0
        },
        read_format: READ_TIMES,
        flags: COUNT_USER_FROM_EXEC,
        wakeup_events: if period > 0 {
            1
        } else {
            0
        },
        bp_type: 0,
        config1: 0,
        config2: 0,
    }
}

/// See `attr_for`.
fn attr(kind: u32, config: u64, period: u64) -> (r: PerfEventAttr)
    ensures
        r == attr_for(kind, config, period),
{
    let sampling: bool = period > 0;
    PerfEventAttr {
        kind,
        size: ATTR_SIZE,
        config,
        sample_period: period,
        sample_type: if sampling {
            PERF_SAMPLE_IP
        } else {
            0
        },
        read_format: READ_TIMES,
        flags: COUNT_USER_FROM_EXEC,
        wakeup_events: if sampling {
            1
        } else {
            0
        },
        bp_type: 0,
        config1: 0,
        config2: 0,
    }
}

/// The retired-instruction counter. With a `period`, the overflow after so
/// many instructions is signalled.
pub fn instruction_attr(period: u64) -> (r: PerfEventAttr)
    ensures
        r == attr_for(PERF_TYPE_HARDWARE, PERF_COUNT_HW_INSTRUCTIONS, period),
        r.kind == 0 && r.config == 1 && r.sample_period == period,
{
    attr(PERF_TYPE_HARDWARE, PERF_COUNT_HW_INSTRUCTIONS, period)
}

/// A counting-only, user-space counter, enabled at exec.
pub fn perf_open_counter(kind: u32, config: u64) -> (r: PerfEventAttr)
    ensures
        r == attr_for(kind, config, 0),
{
    attr(kind, config, 0)
}

/// The name of an extra counter, and what to open for it.
pub fn extra_counter(index: usize) -> (r: (&'static str, PerfEventAttr))
    requires
        index < 4,
    ensures
        r.0@ == EXTRA_COUNTERS@[index as int].0@,
        r.1 == attr_for(EXTRA_COUNTERS@[index as int].1, EXTRA_COUNTERS@[index as int].2, 0),
{
    let (name, kind, config) = EXTRA_COUNTERS[index];
    (name, perf_open_counter(kind, config))
}

/// The bytes of `a`, as the kernel reads them.
pub open spec fn attr_bytes(a: PerfEventAttr) -> Seq<u8> {
    bytes::le(a.kind as nat, 4) + bytes::le(a.size as nat, 4) + bytes::le(a.config as nat, 8)
        + bytes::le(a.sample_period as nat, 8) + bytes::le(a.sample_type as nat, 8) + bytes::le(
        a.read_format as nat,
        8,
    ) + bytes::le(a.flags as nat, 8) + bytes::le(a.wakeup_events as nat, 4) + bytes::le(
        a.bp_type as nat,
        4,
    ) + bytes::le(a.config1 as nat, 8) + bytes::le(a.config2 as nat, 8)
}

impl PerfEventAttr {
    /// The bytes of the structure, as the kernel reads them.
    pub fn encode(&self) -> (r: Vec<u8>)
        ensures
            r@ == attr_bytes(*self),
            r@.len() == ATTR_SIZE,
    {
        let mut out: Vec<u8> = Vec::new();
        push_le(&mut out, self.kind as u64, 4);
        push_le(&mut out, self.size as u64, 4);
        push_le(&mut out, self.config, 8);
        push_le(&mut out, self.sample_period, 8);
        push_le(&mut out, self.sample_type, 8);
        push_le(&mut out, self.read_format, 8);
        push_le(&mut out, self.flags, 8);
        push_le(&mut out, self.wakeup_events as u64, 4);
        push_le(&mut out, self.bp_type as u64, 4);
        push_le(&mut out, self.config1, 8);
        push_le(&mut out, self.config2, 8);
        assert(out@ =~= attr_bytes(*self));
        proof {
            reveal_with_fuel(bytes::le, 9);
        }
        out
    }
}

/// What opening the instruction counter asks for next.
#[derive(Debug, Clone, Copy, PartialEq, Eq, Structural)]
pub enum PerfAction {
    /// Open the counter, overflowing after so many instructions (0: never).
    Open { period: u64 },
    /// Send the counter's signals to the run's process group.
    SetOwner,
    /// Make the signal SIGKILL.
    SetSignal,
    /// Send it at every overflow.
    SetAsync,
    /// The counter is open.
    Ready,
    /// There is no counter.
    Failed,
}

/// Where opening starts: at the budget, or without a period where there is no
/// budget.
pub open spec fn perf_start(kill_at: Option<u64>) -> PerfAction {
    match kill_at {
        Some(limit) => PerfAction::Open { period: limit },
        None => PerfAction::Open { period: 0 },
    }
}

/// What follows `pending` when it worked (`ok`), or did not.
pub open spec fn perf_after(pending: PerfAction, ok: bool) -> PerfAction {
    match pending {
        PerfAction::Open { period } => if period > 0 {
            if ok {
                PerfAction::SetOwner
            } else {
                PerfAction::Open { period: 0 }
            }
        } else if ok {
            PerfAction::Ready
        } else {
            PerfAction::Failed
        },
        PerfAction::SetOwner => if ok {
            PerfAction::SetSignal
        } else {
            PerfAction::Ready
        },
        PerfAction::SetSignal => if ok {
            PerfAction::SetAsync
        } else {
            PerfAction::Ready
        },
        PerfAction::SetAsync => PerfAction::Ready,
        PerfAction::Ready => PerfAction::Ready,
        PerfAction::Failed => PerfAction::Failed,
    }
}

/// Starts to open a retired-instruction counter on a task and its descendants,
/// enabled at exec. With `kill_at`, overflowing the budget makes the kernel
/// SIGKILL the run's process group. A read still returns the total for the
/// whole tree.
///
/// The sample period counts per task, so forked children can exceed the budget
/// together without any one of them tripping it, and a child that calls
/// setsid() leaves the signalled group. The backstop read catches both.
pub fn perf_open_instructions(kill_at: Option<u64>) -> (r: PerfAction)
    ensures
        r == perf_start(kill_at),
{
    match kill_at {
        Some(limit) => PerfAction::Open { period: limit },
        None => PerfAction::Open { period: 0 },
    }
}

/// Goes on opening the counter. Some PMUs refuse sampling but allow counting,
/// so a refusal degrades to counting only; and where the signal cannot be
/// arranged, the backstop read still enforces the limit.
pub fn next_perf(pending: PerfAction, ok: bool) -> (r: PerfAction)
    ensures
        r == perf_after(pending, ok),
{
    match pending {
        PerfAction::Open { period } => if period > 0 {
            if ok {
                PerfAction::SetOwner
            } else {
                PerfAction::Open { period: 0 }
            }
        } else if ok {
            PerfAction::Ready
        } else {
            PerfAction::Failed
        },
        PerfAction::SetOwner => if ok {
            PerfAction::SetSignal
        } else {
            PerfAction::Ready
        },
        PerfAction::SetSignal => if ok {
            PerfAction::SetAsync
        } else {
            PerfAction::Ready
        },
        PerfAction::SetAsync => PerfAction::Ready,
        PerfAction::Ready => PerfAction::Ready,
        PerfAction::Failed => PerfAction::Failed,
    }
}

/// Opening gives up only when the plain counter was refused.
pub proof fn law_only_plain_refusal_fails(pending: PerfAction, ok: bool)
    requires
        pending != PerfAction::Failed,
    ensures
        perf_after(pending, ok) == PerfAction::Failed <==> pending == (PerfAction::Open {
            period: 0,
        }) && !ok,
{
}

/// How many more system calls opening can take.
pub open spec fn perf_steps(pending: PerfAction) -> nat {
    match pending {
        PerfAction::Open { period } => if period > 0 {
            4
        } else {
            1
        },
        PerfAction::SetOwner => 3,
        PerfAction::SetSignal => 2,
        PerfAction::SetAsync => 1,
        _ => 0,
    }
}

/// Opening comes to an end, whatever the kernel answers.
pub proof fn law_opening_ends(pending: PerfAction, ok: bool)
    ensures
        perf_steps(pending) > 0 ==> perf_steps(perf_after(pending, ok)) < perf_steps(pending),
        perf_steps(pending) == 0 <==> pending == PerfAction::Ready || pending
            == PerfAction::Failed,
{
}

/// What a counter holds.
#[derive(Debug, Clone, Copy, PartialEq, Eq, Structural)]
pub struct CounterTimes {
    pub count: u64,
    /// How long the counter was asked to count.
    pub enabled: u64,
    /// How long it was on the PMU.
    pub running: u64,
}

/// What was read from a counter into `words`, where the read returned `n`.
pub fn read_counter_times(n: i64, words: [u64; 3]) -> (r: Option<CounterTimes>)
    ensures
        r == (if n == COUNTER_BYTES {
            Some(CounterTimes { count: words@[0], enabled: words@[1], running: words@[2] })
        } else {
            None
        }),
{
    if n == COUNTER_BYTES {
        Some(CounterTimes { count: words[0], enabled: words[1], running: words[2] })
    } else {
        None
    }
}

/// The count alone.
pub fn read_counter(n: i64, words: [u64; 3]) -> (r: Option<u64>)
    ensures
        r == (if n == COUNTER_BYTES {
            Some(words@[0])
        } else {
            None
        }),
{
    match read_counter_times(n, words) {
        Some(t) => Some(t.count),
        None => None,
    }
}

/// A fraction, as the two times that make it.
#[derive(Debug, Clone, Copy, PartialEq, Eq, Structural)]
pub struct Fraction {
    pub running: u64,
    pub enabled: u64,
}

/// The fraction of the run that a counter was on the PMU, where it was enabled
/// at all.
pub fn running_fraction(enabled: u64, running: u64) -> (r: Option<Fraction>)
    ensures
        r == (if enabled > 0 {
            Some(Fraction { running, enabled })
        } else {
            None
        }),
{
    if enabled > 0 {
        Some(Fraction { running, enabled })
    } else {
        None
    }
}

/// Every field stands in the bytes where `struct perf_event_attr` has it, lowest
/// byte first, and there is nothing else.
pub proof fn law_fields_stand_in_place(a: PerfEventAttr)
    ensures
        attr_bytes(a).len() == 72,
        bytes::from_le(attr_bytes(a).subrange(0, 4)) == a.kind,
        bytes::from_le(attr_bytes(a).subrange(4, 8)) == a.size,
        bytes::from_le(attr_bytes(a).subrange(8, 16)) == a.config,
        bytes::from_le(attr_bytes(a).subrange(16, 24)) == a.sample_period,
        bytes::from_le(attr_bytes(a).subrange(24, 32)) == a.sample_type,
        bytes::from_le(attr_bytes(a).subrange(32, 40)) == a.read_format,
        bytes::from_le(attr_bytes(a).subrange(40, 48)) == a.flags,
        bytes::from_le(attr_bytes(a).subrange(48, 52)) == a.wakeup_events,
        bytes::from_le(attr_bytes(a).subrange(52, 56)) == a.bp_type,
        bytes::from_le(attr_bytes(a).subrange(56, 64)) == a.config1,
        bytes::from_le(attr_bytes(a).subrange(64, 72)) == a.config2,
{
    reveal_with_fuel(bytes::numbers, 9);
    bytes::law_bytes_read_back(a.kind as nat, 4);
    bytes::law_bytes_read_back(a.size as nat, 4);
    bytes::law_bytes_read_back(a.config as nat, 8);
    bytes::law_bytes_read_back(a.sample_period as nat, 8);
    bytes::law_bytes_read_back(a.sample_type as nat, 8);
    bytes::law_bytes_read_back(a.read_format as nat, 8);
    bytes::law_bytes_read_back(a.flags as nat, 8);
    bytes::law_bytes_read_back(a.wakeup_events as nat, 4);
    bytes::law_bytes_read_back(a.bp_type as nat, 4);
    bytes::law_bytes_read_back(a.config1 as nat, 8);
    bytes::law_bytes_read_back(a.config2 as nat, 8);
    assert(attr_bytes(a).subrange(0, 4) =~= bytes::le(a.kind as nat, 4));
    assert(attr_bytes(a).subrange(4, 8) =~= bytes::le(a.size as nat, 4));
    assert(attr_bytes(a).subrange(8, 16) =~= bytes::le(a.config as nat, 8));
    assert(attr_bytes(a).subrange(16, 24) =~= bytes::le(a.sample_period as nat, 8));
    assert(attr_bytes(a).subrange(24, 32) =~= bytes::le(a.sample_type as nat, 8));
    assert(attr_bytes(a).subrange(32, 40) =~= bytes::le(a.read_format as nat, 8));
    assert(attr_bytes(a).subrange(40, 48) =~= bytes::le(a.flags as nat, 8));
    assert(attr_bytes(a).subrange(48, 52) =~= bytes::le(a.wakeup_events as nat, 4));
    assert(attr_bytes(a).subrange(52, 56) =~= bytes::le(a.bp_type as nat, 4));
    assert(attr_bytes(a).subrange(56, 64) =~= bytes::le(a.config1 as nat, 8));
    assert(attr_bytes(a).subrange(64, 72) =~= bytes::le(a.config2 as nat, 8));
}

/// A counter counts user space alone, for the task and all its descendants, from
/// exec on, and gives back how long it was enabled and running: the flags
/// disabled, inherit, exclude_kernel, exclude_hv and enable_on_exec are set and no
/// others, and so are both times of the read format. With a period it takes a
/// sample and wakes after each, without one it never does.
pub proof fn law_counters_count_the_tree(kind: u32, config: u64, period: u64)
    ensures
        ({
            let b = attr_bytes(attr_for(kind, config, period));
            let flags = bytes::from_le(b.subrange(40, 48)) as u64;
            &&& bytes::from_le(b.subrange(0, 4)) == kind
            &&& bytes::from_le(b.subrange(4, 8)) == b.len()
            &&& bytes::from_le(b.subrange(8, 16)) == config
            &&& bytes::from_le(b.subrange(16, 24)) == period
            &&& bytes::from_le(b.subrange(24, 32)) == if period > 0 {
                1nat
            } else {
                0
            }
            &&& bytes::from_le(b.subrange(32, 40)) == 1 + 2
            &&& flags == 1u64 | 1u64 << 1 | 1u64 << 5 | 1u64 << 6 | 1u64 << 12
            &&& bytes::from_le(b.subrange(48, 52)) == if period > 0 {
                1nat
            } else {
                0
            }
            &&& bytes::from_le(b.subrange(52, 56)) == 0
            &&& bytes::from_le(b.subrange(56, 64)) == 0
            &&& bytes::from_le(b.subrange(64, 72)) == 0
        }),
{
    law_fields_stand_in_place(attr_for(kind, config, period));
    assert(0x1063u64 == 1u64 | 1u64 << 1 | 1u64 << 5 | 1u64 << 6 | 1u64 << 12) by (bit_vector);
}

/// A budget of at least one instruction is armed before the counter is ready: it
/// is opened with that period, and then its owner, its signal and its signalling
/// are set, one after the other; where one of these fails, or where sampling is
/// refused, the counter still counts. Without a budget it is opened without a
/// period.
pub proof fn law_budget_is_armed(kill_at: Option<u64>, a: bool, b: bool, c: bool)
    ensures
        ({
            let first = perf_start(kill_at);
            let armed = kill_at matches Some(n) && n > 0;
            &&& armed ==> first == (PerfAction::Open { period: kill_at->0 })
            &&& !armed ==> first == (PerfAction::Open { period: 0 })
            &&& armed ==> perf_after(first, true) == PerfAction::SetOwner
            &&& armed ==> perf_after(first, false) == (PerfAction::Open { period: 0 })
            &&& !armed ==> perf_after(first, true) == PerfAction::Ready
            &&& !armed ==> perf_after(first, false) == PerfAction::Failed
            &&& perf_after(PerfAction::SetOwner, a) == if a {
                PerfAction::SetSignal
            } else {
                PerfAction::Ready
            }
            &&& perf_after(PerfAction::SetSignal, b) == if b {
                PerfAction::SetAsync
            } else {
                PerfAction::Ready
            }
            &&& perf_after(PerfAction::SetAsync, c) == PerfAction::Ready
        }),
{
}

/// The extra counters are the misses of the first data cache, of the last cache,
/// of the data TLB and of branch prediction, by their numbers.
pub proof fn law_extra_counters_are_misses()
    ensures
        EXTRA_COUNTERS@.len() == 4,
        EXTRA_COUNTERS@[0].1 == 3 && EXTRA_COUNTERS@[0].2 == 0 + 0 * 256 + 1 * 65536,
        EXTRA_COUNTERS@[1].1 == 0 && EXTRA_COUNTERS@[1].2 == 3,
        EXTRA_COUNTERS@[2].1 == 3 && EXTRA_COUNTERS@[2].2 == 3 + 0 * 256 + 1 * 65536,
        EXTRA_COUNTERS@[3].1 == 0 && EXTRA_COUNTERS@[3].2 == 5,
        EXTRA_COUNTERS@[0].0@ == "l1d_read_misses"@,
        EXTRA_COUNTERS@[1].0@ == "cache_misses"@,
        EXTRA_COUNTERS@[2].0@ == "dtlb_read_misses"@,
        EXTRA_COUNTERS@[3].0@ == "branch_misses"@,
{
}

/// The instruction counter is the hardware event of number 1, whatever its period; and
/// a counter is read as three words of eight bytes, its count and the two times.
pub proof fn law_instructions_are_counted(period: u64)
    ensures
        ({
            let a = attr_for(PERF_TYPE_HARDWARE, PERF_COUNT_HW_INSTRUCTIONS, period);
            let b = attr_bytes(a);
            &&& bytes::from_le(b.subrange(0, 4)) == 0
            &&& bytes::from_le(b.subrange(8, 16)) == 1
            &&& bytes::from_le(b.subrange(16, 24)) == period
            &&& COUNTER_BYTES == 3 * 8
        }),
{
    law_counters_count_the_tree(PERF_TYPE_HARDWARE, PERF_COUNT_HW_INSTRUCTIONS, period);
}

} // verus!
