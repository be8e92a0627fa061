//! Resource limits for one run, and what the child process makes of them.

use crate::sys::rlimit_resources;
use crate::text;
use crate::text::{chars_of, parse_unsigned};
use vstd::prelude::*;
use vstd::string::*;

verus! {

/// memory.max is 1.25x the caller's limit. A run that peaks between 1.0x and
/// 1.25x gets measured instead of OOM-killed, and the caller still sees
/// peak_kb over its limit.
pub const MEM_CAP_NUM: u64 = 5;

/// See `MEM_CAP_NUM`.
pub const MEM_CAP_DEN: u64 = 4;

/// Resource limits and the instruction budget for one run.
#[derive(Debug, Clone, Copy)]
pub struct Limits {
    /// Wall-clock timeout, for hangs that burn no instructions.
    pub wall_ms: u64,
    /// Kill once retired instructions exceed this. Unlike CPU time, the count
    /// doesn't depend on machine load.
    pub insn_limit: Option<u64>,
    /// CPU budget in seconds. With a cgroup it covers the whole tree
    /// (cpu.stat, reported as `killed:"cpu"`), so it also catches kernel-mode
    /// work, which the instruction counter leaves out. RLIMIT_CPU is set on
    /// each process as well, and is the only CPU limit without a cgroup.
    pub cpu_seconds: u64,
    /// Memory limit in KiB (the MLE threshold). With a cgroup it becomes
    /// memory.max at 1.25x, on real RSS for the whole tree. Without one, or
    /// where the cgroup does not take it, it is RLIMIT_AS at 1.0x on each
    /// process: one of the two always holds.
    pub mem_kb: Option<u64>,
    pub max_procs: u64,
    pub max_output_bytes: u64,
    pub max_open_files: u64,
    /// Pin the whole run to one CPU with the cgroup cpuset, which the payload
    /// can't undo. Threads then share that core, and the instruction backstop
    /// can assume one core's burn rate. Give each concurrent worker its own
    /// CPU.
    pub pin_cpu: Option<u32>,
    /// Fail instead of degrading when perf can't count instructions. Judges
    /// should set this, since a degraded run can't give a fair verdict.
    pub require_insn: bool,
    /// Fail instead of degrading when no per-run cgroup is available.
    pub require_cgroup: bool,
    /// Also count cache misses, TLB misses and branch mispredictions
    /// (`perf::EXTRA_COUNTERS`), for cost models that need more than
    /// instructions.
    pub extra_counters: bool,
}

impl Default for Limits {
    fn default() -> (r: Self)
        ensures
            r.wall_ms == 10_000,
            r.insn_limit is None,
            r.cpu_seconds == 10,
            r.mem_kb is None,
            r.max_procs == 4096,
            r.max_output_bytes == 8 * 1024 * 1024,
            r.max_open_files == 64,
            r.pin_cpu is None,
            !r.require_insn,
            !r.require_cgroup,
            !r.extra_counters,
    {
        Limits {
            wall_ms: 10_000,
            insn_limit: None,
            cpu_seconds: 10,
            mem_kb: None,
            max_procs: 4096,  // RLIMIT_NPROC counts per uid; a tight value breaks bwrap's clone()
            max_output_bytes: 8 * 1024 * 1024,
            max_open_files: 64,
            pin_cpu: None,
            require_insn: false,
            require_cgroup: false,
            extra_counters: false,
        }
    }
}

/// `a` times `b`, or the largest `u64` where that is less.
pub open spec fn capped_product(a: nat, b: nat) -> u64 {
    if a * b > u64::MAX {
        u64::MAX
    } else {
        (a * b) as u64
    }
}

/// `a` times `b`, or the largest `u64` where that is less.
pub fn capped_mul(a: u64, b: u64) -> (r: u64)
    ensures
        r == capped_product(a as nat, b as nat),
{
    match a.checked_mul(b) {
        Some(n) => n,
        None => u64::MAX,
    }
}

/// memory.max for a limit of `kb`, in KiB.
pub open spec fn memory_cap(kb: u64) -> u64 {
    capped_product(kb as nat, MEM_CAP_NUM as nat) / MEM_CAP_DEN
}

/// memory.max for a limit of `kb`, in KiB.
pub fn memory_cap_kb(kb: u64) -> (r: u64)
    ensures
        r == memory_cap(kb),
{
    capped_mul(kb, MEM_CAP_NUM) / MEM_CAP_DEN
}

/// The cap is 1.25x the limit, rounded down, for every limit that the cap can
/// follow; so a run can be measured over its limit before it is killed.
pub proof fn law_cap_leaves_headroom(kb: u64)
    requires
        kb <= u64::MAX / 5,
    ensures
        memory_cap(kb) == kb * 5 / 4,
        kb <= memory_cap(kb),
        kb >= 4 ==> kb < memory_cap(kb),
{
}

/// The bytes that are written to memory.max are 1.25x the limit in whole KiB, up
/// to the largest number there is.
pub proof fn law_cap_in_bytes(kb: u64)
    ensures
        kb * 5 / 4 * 1024 <= u64::MAX ==> capped_product(memory_cap(kb) as nat, 1024) == kb * 5 / 4
            * 1024,
        kb * 5 / 4 * 1024 > u64::MAX ==> capped_product(memory_cap(kb) as nat, 1024) == u64::MAX,
{
}

/// The CPU budget in milliseconds.
pub fn cpu_budget_ms(cpu_seconds: u64) -> (r: u64)
    ensures
        r == capped_product(cpu_seconds as nat, 1000),
{
    capped_mul(cpu_seconds, 1000)
}

/// One limit that the child sets on itself before exec.
#[derive(Debug, Clone, Copy, PartialEq, Eq, Structural)]
pub struct Rlimit {
    pub resource: i32,
    pub soft: u64,
    pub hard: u64,
}

/// The limit on address space, in bytes: the memory limit, unless a cgroup
/// already caps the memory that is really in use (`capped`). RLIMIT_AS counts
/// virtual address space, far more than that.
pub open spec fn address_space_of(limits: Limits, capped: bool) -> Option<u64> {
    match limits.mem_kb {
        Some(kb) if !capped => Some(capped_product(kb as nat, 1024)),
        _ => None,
    }
}

/// The limit on address space, in bytes, where there is to be one.
pub fn address_space(limits: &Limits, capped: bool) -> (r: Option<u64>)
    ensures
        r == address_space_of(*limits, capped),
{
    match limits.mem_kb {
        Some(kb) => if capped {
            None
        } else {
            Some(capped_mul(kb, 1024))
        },
        None => None,
    }
}

/// RLIMIT_AS at `bytes`, soft and hard.
pub fn address_space_rlimit(bytes: u64) -> (r: Rlimit)
    ensures
        r == (Rlimit { resource: 9, soft: bytes, hard: bytes }),
{
    let res: [i32; 5] = rlimit_resources();
    Rlimit { resource: res[1], soft: bytes, hard: bytes }
}

/// The limit on address space, where there is to be one.
pub open spec fn address_space_limit(limits: Limits, cgroup_caps: bool) -> Seq<Rlimit> {
    match address_space_of(limits, cgroup_caps) {
        Some(b) => seq![Rlimit { resource: 9, soft: b, hard: b }],
        None => seq![],
    }
}

/// The limits that the child sets on itself, in order.
pub open spec fn rlimit_list(limits: Limits, cgroup_caps: bool) -> Seq<Rlimit> {
    seq![
        Rlimit {
            resource: 0,
            soft: limits.cpu_seconds,
            hard: (limits.cpu_seconds + 1) as u64,
        },
    ] + address_space_limit(limits, cgroup_caps) + seq![
        Rlimit { resource: 6, soft: limits.max_procs, hard: limits.max_procs },
        Rlimit { resource: 1, soft: limits.max_output_bytes, hard: limits.max_output_bytes },
        Rlimit { resource: 7, soft: limits.max_open_files, hard: limits.max_open_files },
    ]
}

/// The limits that the child sets on itself: CPU time, with a second of grace
/// before the hard limit; address space, where no cgroup caps memory;
/// processes; file size; and open files.
pub fn child_rlimits(limits: &Limits, cgroup_caps: bool) -> (r: Vec<Rlimit>)
    requires
        limits.cpu_seconds < u64::MAX,
    ensures
        r@ == rlimit_list(*limits, cgroup_caps),
{
    let res: [i32; 5] = rlimit_resources();
    let mut v: Vec<Rlimit> = Vec::new();
    v.push(
        Rlimit { resource: res[0], soft: limits.cpu_seconds, hard: limits.cpu_seconds + 1 },
    );
    if let Some(b) = address_space(limits, cgroup_caps) {
        v.push(address_space_rlimit(b));
    }
    v.push(Rlimit { resource: res[2], soft: limits.max_procs, hard: limits.max_procs });
    v.push(
        Rlimit {
            resource: res[3],
            soft: limits.max_output_bytes,
            hard: limits.max_output_bytes,
        },
    );
    v.push(Rlimit { resource: res[4], soft: limits.max_open_files, hard: limits.max_open_files });
    assert(v@ =~= rlimit_list(*limits, cgroup_caps));
    v
}

/// How many cores the run can use: one where it is pinned, else those that are
/// online, and at least one.
pub open spec fn cores_of(pinned: bool, online: i64) -> u64 {
    if pinned || online < 1 {
        1
    } else {
        online as u64
    }
}

/// How many cores the run can use.
pub fn core_count(pinned: bool, online: i64) -> (r: u64)
    ensures
        r == cores_of(pinned, online),
{
    if pinned || online < 1 {
        1
    } else {
        online as u64
    }
}

/// The highest number of `names`, the names of the entries of /proc/self/fd.
pub open spec fn highest_of(names: Seq<Seq<char>>) -> Option<i32>
    decreases names.len(),
{
    if names.len() == 0 {
        None
    } else {
        let before = highest_of(names.drop_last());
        match (before, text::unsigned_up_to(names.last(), i32::MAX as nat)) {
            (Some(h), Some(n)) if n <= h => Some(h),
            (_, Some(n)) => Some(n as i32),
            (h, None) => h,
        }
    }
}

/// The highest open descriptor, from the names of the entries of /proc/self/fd.
pub fn highest_fd(names: &Vec<String>) -> (r: Option<i32>)
    ensures
        r == highest_of(text::texts(names@)),
{
    let ghost all = text::texts(names@);
    let mut high: Option<i32> = None;
    let mut i: usize = 0;
    while i < names.len()
        invariant
            i <= names@.len(),
            all == text::texts(names@),
            high == highest_of(all.take(i as int)),
        decreases names@.len() - i,
    {
        let c = chars_of(names[i].as_str());
        let n: Option<u64> = parse_unsigned(c.as_slice(), i32::MAX as u64);
        high = match n {
            Some(n) => match high {
                Some(h) => if n <= h as u64 && h >= 0 {
                    Some(h)
                } else {
                    Some(n as i32)
                },
                None => Some(n as i32),
            },
            None => high,
        };
        i = i + 1;
        proof {
            assert(all.take(i as int).drop_last() =~= all.take(i - 1));
            assert(all.take(i as int).last() == names@[i - 1]@);
            lemma_highest(all.take(i - 1));
        }
    }
    assert(all.take(i as int) =~= all);
    high
}

proof fn lemma_highest(names: Seq<Seq<char>>)
    ensures
        highest_of(names) matches Some(h) ==> h >= 0,
        forall|i: int|
            0 <= i < names.len() ==> (text::unsigned_up_to(
                #[trigger] names[i],
                i32::MAX as nat,
            ) matches Some(n) ==> (highest_of(names) matches Some(h) && n <= h)),
    decreases names.len(),
{
    if names.len() > 0 {
        lemma_highest(names.drop_last());
        assert forall|i: int| 0 <= i < names.len() implies (text::unsigned_up_to(
            #[trigger] names[i],
            i32::MAX as nat,
        ) matches Some(n) ==> (highest_of(names) matches Some(h) && n <= h)) by {
            if i < names.len() - 1 {
                assert(names.drop_last()[i] == names[i]);
            }
        }
    }
}

/// No descriptor that /proc/self/fd names is higher than the highest.
pub proof fn law_highest_is_highest(names: Seq<Seq<char>>, i: int)
    requires
        0 <= i < names.len(),
    ensures
        text::unsigned_up_to(names[i], i32::MAX as nat) matches Some(n) ==> (highest_of(
            names,
        ) matches Some(h) && n <= h),
{
    lemma_highest(names);
}

/// The last descriptor of the one-by-one sweep: the highest that is open, or,
/// where that is not known, the hard limit on open files.
pub open spec fn ceiling_of(hard: u64, highest: Option<i32>) -> i32 {
    match highest {
        Some(h) => h,
        None => if hard <= i32::MAX {
            hard as i32
        } else {
            i32::MAX
        },
    }
}

/// The last descriptor of the one-by-one sweep, for a hard limit of `hard` on
/// open files, with `highest` the highest open descriptor, where it is known.
pub fn fd_ceiling(hard: u64, highest: Option<i32>) -> (r: i32)
    ensures
        r == ceiling_of(hard, highest),
{
    match highest {
        Some(h) => h,
        None => if hard <= i32::MAX as u64 {
            hard as i32
        } else {
            i32::MAX
        },
    }
}

/// What the sweep over inherited descriptors asks for next.
#[derive(Debug, Clone, Copy, PartialEq, Eq, Structural)]
pub enum Sweep {
    /// Close all descriptors from `lo` to `hi` in one call.
    Range { lo: u32, hi: u32 },
    /// Close one descriptor.
    Close(i32),
    /// Nothing is left to close.
    Done,
}

/// Closing starts with the range below the descriptor to keep, or, where there
/// is none below it, above.
pub open spec fn sweep_start(keep: i32) -> Sweep {
    if keep > 3 {
        Sweep::Range { lo: 3, hi: (keep - 1) as u32 }
    } else if keep == 3 {
        Sweep::Range { lo: 4, hi: u32::MAX }
    } else {
        Sweep::Range { lo: 3, hi: u32::MAX }
    }
}

/// The first descriptor to close from `fd` on.
pub open spec fn close_from(fd: int, keep: i32, ceiling: i32) -> Sweep {
    let at = if fd == keep {
        fd + 1
    } else {
        fd
    };
    if at > ceiling {
        Sweep::Done
    } else {
        Sweep::Close(at as i32)
    }
}

/// What follows `step` when it worked (`ok`), or did not.
pub open spec fn sweep_after(step: Sweep, ok: bool, keep: i32, ceiling: i32) -> Sweep {
    match step {
        Sweep::Range { lo, hi } => if !ok {
            close_from(3, keep, ceiling)
        } else if hi >= u32::MAX - 1 {
            Sweep::Done
        } else {
            Sweep::Range { lo: (hi + 2) as u32, hi: u32::MAX }
        },
        Sweep::Close(fd) => close_from(fd + 1, keep, ceiling),
        Sweep::Done => Sweep::Done,
    }
}

/// Starts to close every descriptor above 2 except `keep` (the filter's, which
/// bwrap reads, or -1), right before exec.
///
/// bwrap doesn't close inherited descriptors, so anything the caller had open
/// at fork would reach the payload. A directory descriptor is enough to
/// escape: openat() relative to it resolves outside the sandbox's mount
/// namespace.
pub fn close_inherited_fds(keep: i32) -> (r: Sweep)
    ensures
        r == sweep_start(keep),
{
    if keep > 3 {
        Sweep::Range { lo: 3, hi: (keep - 1) as u32 }
    } else if keep == 3 {
        Sweep::Range { lo: 4, hi: u32::MAX }
    } else {
        Sweep::Range { lo: 3, hi: u32::MAX }
    }
}

/// Goes on closing. Where the kernel has no close_range (before Linux 5.9),
/// each descriptor up to `ceiling` is closed on its own.
pub fn next_sweep(step: Sweep, ok: bool, keep: i32, ceiling: i32) -> (r: Sweep)
    ensures
        r == sweep_after(step, ok, keep, ceiling),
{
    let fd: i64 = match step {
        Sweep::Range { lo: _, hi } => if !ok {
            3
        } else if hi >= u32::MAX - 1 {
            return Sweep::Done;
        } else {
            return Sweep::Range { lo: hi + 2, hi: u32::MAX };
        },
        Sweep::Close(fd) => fd as i64 + 1,
        Sweep::Done => {
            return Sweep::Done;
        },
    };
    let at: i64 = if fd == keep as i64 {
        fd + 1
    } else {
        fd
    };
    if at > ceiling as i64 {
        Sweep::Done
    } else {
        Sweep::Close(at as i32)
    }
}

/// Whether `step` closes the descriptor `fd`.
pub open spec fn closes(step: Sweep, fd: u32) -> bool {
    match step {
        Sweep::Range { lo, hi } => lo <= fd <= hi,
        Sweep::Close(n) => n == fd,
        Sweep::Done => false,
    }
}

/// Where the ranges can be closed, every descriptor above 2 is closed, but for
/// the one to keep.
pub proof fn law_ranges_spare_only_one(keep: i32, ceiling: i32, fd: u32)
    ensures
        ({
            let first = sweep_start(keep);
            let second = sweep_after(first, true, keep, ceiling);
            &&& (closes(first, fd) || closes(second, fd)) <==> (fd > 2 && fd != keep)
            &&& second == Sweep::Done || sweep_after(second, true, keep, ceiling) == Sweep::Done
        }),
{
}

/// The descriptors that the one-by-one sweep closes, from `step` on.
pub open spec fn swept(step: Sweep, keep: i32, ceiling: i32) -> Set<int>
    decreases
            (match step {
                Sweep::Close(fd) => if fd <= ceiling {
                    ceiling - fd + 1
                } else {
                    0
                },
                _ => 0,
            }),
{
    match step {
        Sweep::Close(fd) if fd <= ceiling => swept(
            close_from(fd + 1, keep, ceiling),
            keep,
            ceiling,
        ).insert(fd as int),
        _ => Set::empty(),
    }
}

/// Where they cannot, the same holds of every descriptor up to the ceiling.
pub proof fn law_sweep_spares_only_one(keep: i32, ceiling: i32, fd: int)
    requires
        3 <= fd <= ceiling,
    ensures
        swept(sweep_after(sweep_start(keep), false, keep, ceiling), keep, ceiling).contains(fd)
            <==> fd != keep,
{
    lemma_swept(3, keep, ceiling, fd);
}

proof fn lemma_swept(from: int, keep: i32, ceiling: i32, fd: int)
    requires
        3 <= from <= ceiling + 1,
        fd <= ceiling,
    ensures
        swept(close_from(from, keep, ceiling), keep, ceiling).contains(fd) <==> (from <= fd && fd
            != keep),
    decreases ceiling + 1 - from,
{
    if from <= ceiling {
        lemma_swept(from + 1, keep, ceiling, fd);
        let step = close_from(from, keep, ceiling);
        if from != keep {
            assert(step == Sweep::Close(from as i32));
        }
    }
}

/// The descriptors that can be open where the sweep goes up to the ceiling for
/// this hard limit and this highest open descriptor.
pub open spec fn can_be_open(fd: int, hard: u64, highest: Option<i32>) -> bool {
    &&& 0 <= fd <= i32::MAX
    &&& match highest {
        Some(h) => fd <= h,
        None => fd < hard,
    }
}

/// What closing leaves open of `open`, where the calls that close a range work
/// (`first`, `second`), or do not.
pub open spec fn left_open(
    open: Set<int>,
    keep: i32,
    ceiling: i32,
    first: bool,
    second: bool,
) -> Set<int> {
    let one = sweep_start(keep);
    let two = sweep_after(one, first, keep, ceiling);
    let in_ranges = open.filter(
        |fd: int|
            !(first && closes(one, fd as u32)) && !(first && second && closes(two, fd as u32)),
    );
    if !first {
        in_ranges.difference(swept(two, keep, ceiling))
    } else if two is Range && !second {
        in_ranges.difference(swept(sweep_after(two, false, keep, ceiling), keep, ceiling))
    } else {
        in_ranges
    }
}

/// However the kernel answers, what is left open is exactly the standard
/// descriptors and the one to keep, of those that were open.
pub proof fn law_only_standard_and_kept_stay(
    open: Set<int>,
    keep: i32,
    hard: u64,
    highest: Option<i32>,
    first: bool,
    second: bool,
)
    requires
        forall|fd: int| #[trigger] open.contains(fd) ==> can_be_open(fd, hard, highest),
    ensures
        left_open(open, keep, ceiling_of(hard, highest), first, second) == open.filter(
            |fd: int| fd <= 2 || fd == keep,
        ),
{
    let ceiling = ceiling_of(hard, highest);
    let left = left_open(open, keep, ceiling, first, second);
    let want = open.filter(|fd: int| fd <= 2 || fd == keep);
    assert forall|fd: int| left.contains(fd) == want.contains(fd) by {
        if open.contains(fd) {
            assert(can_be_open(fd, hard, highest));
            law_ranges_spare_only_one(keep, ceiling, fd as u32);
            if ceiling >= 2 {
                lemma_swept(3, keep, ceiling, fd);
            }
        }
    }
    assert(left =~= want);
}

/// A capped product is the product wherever 64 bits hold it, and else the largest
/// number that they hold.
pub proof fn law_products_are_exact_or_capped(a: nat, b: nat)
    ensures
        a * b <= 0xffff_ffff_ffff_ffff ==> capped_product(a, b) == a * b,
        a * b > 0xffff_ffff_ffff_ffff ==> capped_product(a, b) == 0xffff_ffff_ffff_ffff,
{
}

/// The limit on address space holds just where there is a memory limit that no
/// cgroup caps, at so many KiB in bytes.
pub proof fn law_address_space_stands_in(limits: Limits, capped: bool)
    ensures
        address_space_of(limits, capped) is Some <==> limits.mem_kb is Some && !capped,
        address_space_of(limits, capped) matches Some(b) ==> if limits.mem_kb->0 * 1024
            <= 0xffff_ffff_ffff_ffff {
            b == limits.mem_kb->0 * 1024
        } else {
            b == 0xffff_ffff_ffff_ffff
        },
{
}

/// The child limits each resource once, soft and hard alike: processes (6), file
/// size (1) and open files (7) as asked; CPU time (0) with one more second before the
/// hard limit; and address space (9) where memory is limited and no cgroup caps it.
pub proof fn law_child_limits_itself(limits: Limits, capped: bool)
    requires
        limits.cpu_seconds < 0xffff_ffff_ffff_ffff,
    ensures
        ({
            let l = rlimit_list(limits, capped);
            let memory = limits.mem_kb is Some && !capped;
            &&& l.len() == (if memory { 5int } else { 4 })
            &&& l[0].resource == 0 && l[0].soft == limits.cpu_seconds && l[0].hard
                == limits.cpu_seconds + 1
            &&& memory ==> l[1].resource == 9 && l[1].soft == l[1].hard && (l[1].soft
                == limits.mem_kb->0 * 1024 || limits.mem_kb->0 * 1024 > 0xffff_ffff_ffff_ffff)
            &&& l[l.len() - 3] == (Rlimit {
                resource: 6,
                soft: limits.max_procs,
                hard: limits.max_procs,
            })
            &&& l[l.len() - 2] == (Rlimit {
                resource: 1,
                soft: limits.max_output_bytes,
                hard: limits.max_output_bytes,
            })
            &&& l[l.len() - 1] == (Rlimit {
                resource: 7,
                soft: limits.max_open_files,
                hard: limits.max_open_files,
            })
        }),
{
}

/// A pinned run has one core, and any other all that are online; where their number
/// makes no sense, one.
pub proof fn law_cores_are_those_online(online: i64)
    ensures
        cores_of(true, online) == 1,
        online >= 1 ==> cores_of(false, online) == online,
        online < 1 ==> cores_of(false, online) == 1,
{
}

/// The highest descriptor is one of those that are named; there is none only where
/// no name is a descriptor.
pub proof fn law_highest_is_named(names: Seq<Seq<char>>)
    ensures
        highest_of(names) matches Some(h) ==> exists|i: int|
            0 <= i < names.len() && text::unsigned_up_to(#[trigger] names[i], 0x7fff_ffff) == Some(
                h as nat,
            ),
        highest_of(names) is None ==> forall|i: int|
            0 <= i < names.len() ==> text::unsigned_up_to(#[trigger] names[i], 0x7fff_ffff) is None,
    decreases names.len(),
{
    lemma_highest(names);
    if names.len() > 0 {
        let front = names.drop_last();
        let before = highest_of(front);
        law_highest_is_named(front);
        lemma_highest(front);
        assert(names[names.len() - 1] == names.last());
        let last = text::unsigned_up_to(names.last(), 0x7fff_ffff);
        if let Some(h) = highest_of(names) {
            if before == Some(h) {
                let i = choose|i: int|
                    0 <= i < front.len() && text::unsigned_up_to(#[trigger] front[i], 0x7fff_ffff)
                        == Some(h as nat);
                assert(names[i] == front[i]);
            } else {
                text::law_numbers_are_digits(names.last());
                assert(last is Some);
                assert(last->0 <= 0x7fff_ffff);
                assert(last == Some(h as nat));
            }
        }
    }
}

/// The sweep goes up to the highest descriptor that is known; else up to the hard
/// limit on open files, as far as descriptors go.
pub proof fn law_sweep_goes_far_enough(hard: u64, highest: i32)
    ensures
        ceiling_of(hard, Some(highest)) == highest,
        hard <= 0x7fff_ffff ==> ceiling_of(hard, None) == hard,
        hard > 0x7fff_ffff ==> ceiling_of(hard, None) == 0x7fff_ffff,
{
}

} // verus!
