//! A seccomp-bpf denylist that blocks kernel interfaces sandboxed code has no
//! use for, while normal language runtimes keep working.
//!
//! It is a denylist because a judge runs whatever the submission needs, and an
//! allowlist breaks each time a libc or a JIT starts using a new syscall. The
//! calls blocked here are the ones kernel exploits tend to be built on: nested
//! user namespaces, `bpf`, `io_uring`, `userfaultfd`, `keyctl`, and the mount,
//! ptrace and module calls.
//!
//! Most denied calls get `EPERM`. Calls that runtimes probe and then fall back
//! from get `ENOSYS`, which reads as "old kernel": glibc retries `clone3` as
//! `clone`, whose flags the filter can inspect, and libuv falls back from
//! io_uring to epoll. A foreign audit architecture, or an x32 syscall number,
//! kills the process, since either would let a call get past the table.
//!
//! The program is classic BPF. `eval` says what the kernel's interpreter makes
//! of it, and `law_filter_verdict` that every call gets the verdict of the
//! tables.

use crate::{bytes, sys};
use crate::sys::{
    admin_calls, clone_call, errnos, fallback_calls, kernel_calls, mount_calls, namespace_calls,
    namespace_flags, tracing_calls, x86_calls,
};
use vstd::prelude::*;

verus! {

/// Load the 32-bit word at offset `k` of the call's data.
pub const LD_W_ABS: u16 = 0x20;

/// Jump by `jt` where the accumulator equals `k`, else by `jf`.
pub const JEQ_K: u16 = 0x15;

/// Jump by `jt` where the accumulator is at least `k`, else by `jf`.
pub const JGE_K: u16 = 0x35;

/// Jump by `jt` where the accumulator shares a bit with `k`, else by `jf`.
pub const JSET_K: u16 = 0x45;

/// Return `k`.
pub const RET_K: u16 = 0x06;

/// Let the call through.
pub const RET_ALLOW: u32 = 0x7fff_0000;

/// Kill the process.
pub const RET_KILL_PROCESS: u32 = 0x8000_0000;

/// The offset of the syscall number in `struct seccomp_data`.
pub const OFF_NR: u32 = 0;

/// The offset of the audit architecture.
pub const OFF_ARCH: u32 = 4;

/// The offset of the low word of the first argument (little-endian).
pub const OFF_ARG0_LO: u32 = 16;

/// AUDIT_ARCH_X86_64.
pub const AUDIT_ARCH: u32 = 0xc000_003e;

/// The bit that x32 syscall numbers have.
pub const X32_SYSCALL_BIT: u32 = 0x4000_0000;

/// The longest program that the kernel takes (BPF_MAXINSNS).
pub const MAX_INSNS: usize = 4096;

/// One classic BPF instruction (`struct sock_filter`).
#[derive(Clone, Copy, Debug, PartialEq, Eq, Structural)]
pub struct SockFilter {
    pub code: u16,
    pub jt: u8,
    pub jf: u8,
    pub k: u32,
}

/// What a filter is assembled for: an architecture and its syscall numbers.
#[derive(Clone, Debug)]
pub struct FilterTarget {
    /// The audit architecture of calls that the tables are about.
    pub audit_arch: u32,
    /// The bit of a second numbering that the architecture also takes.
    pub x32_bit: Option<u32>,
    /// The number of `clone`.
    pub clone_nr: i64,
    /// The calls that get `EPERM`.
    pub eperm: Vec<i64>,
    /// The calls that get `ENOSYS`.
    pub enosys: Vec<i64>,
}

/// The model of a `FilterTarget`.
#[verifier::ext_equal]
pub struct Tables {
    pub audit_arch: u32,
    pub x32_bit: Option<u32>,
    pub clone_nr: i64,
    pub eperm: Seq<i64>,
    pub enosys: Seq<i64>,
}

impl View for FilterTarget {
    type V = Tables;

    open spec fn view(&self) -> Tables {
        Tables {
            audit_arch: self.audit_arch,
            x32_bit: self.x32_bit,
            clone_nr: self.clone_nr,
            eperm: self.eperm@,
            enosys: self.enosys@,
        }
    }
}

/// The return value that fails a call with `errno`.
pub open spec fn errno_verdict(errno: i32) -> u32 {
    0x0005_0000u32 | (errno as u32 & 0xffffu32)
}

/// The verdict that fails a call with EPERM.
pub open spec fn eperm_verdict() -> u32 {
    errno_verdict(1)
}

/// The verdict that fails a call with ENOSYS.
pub open spec fn enosys_verdict() -> u32 {
    errno_verdict(38)
}

/// The bit CLONE_NEWUSER of the flags of `clone`.
pub open spec fn newuser_bit() -> u32 {
    0x1000_0000
}

/// The denied calls, as `sys` numbers them.
pub open spec fn eperm_numbers() -> Seq<i64> {
    sys::tracing_numbers() + sys::mount_numbers() + sys::namespace_numbers()
        + sys::kernel_numbers() + sys::admin_numbers() + sys::x86_numbers()
}

/// One instruction.
pub open spec fn instruction(code: u16, jt: u8, jf: u8, k: u32) -> SockFilter {
    SockFilter { code, jt, jf, k }
}

/// For each number of `list`, in order: a comparison, and `verdict` where it
/// holds.
pub open spec fn rules(list: Seq<i64>, verdict: u32) -> Seq<SockFilter> {
    Seq::new(
        2 * list.len(),
        |i: int|
            if i % 2 == 0 {
                instruction(JEQ_K, 0, 1, list[i / 2] as u32)
            } else {
                instruction(RET_K, 0, 0, verdict)
            },
    )
}

/// Kill calls of another architecture, then load the number.
pub open spec fn arch_guard(audit_arch: u32) -> Seq<SockFilter> {
    seq![
        instruction(LD_W_ABS, 0, 0, OFF_ARCH),
        instruction(JEQ_K, 1, 0, audit_arch),
        instruction(RET_K, 0, 0, RET_KILL_PROCESS),
        instruction(LD_W_ABS, 0, 0, OFF_NR),
    ]
}

/// Kill calls of the second numbering, where there is one.
pub open spec fn x32_guard(x32_bit: Option<u32>) -> Seq<SockFilter> {
    match x32_bit {
        Some(bit) => seq![
            instruction(JGE_K, 0, 1, bit),
            instruction(RET_K, 0, 0, RET_KILL_PROCESS),
        ],
        None => seq![],
    }
}

/// Deny `clone` with CLONE_NEWUSER in its flags, then load the number again.
pub open spec fn clone_guard(clone_nr: i64) -> Seq<SockFilter> {
    seq![
        instruction(JEQ_K, 0, 4, clone_nr as u32),
        instruction(LD_W_ABS, 0, 0, OFF_ARG0_LO),
        instruction(JSET_K, 0, 1, newuser_bit()),
        instruction(RET_K, 0, 0, eperm_verdict()),
        instruction(LD_W_ABS, 0, 0, OFF_NR),
    ]
}

/// The filter for `t`.
pub open spec fn program(t: Tables) -> Seq<SockFilter> {
    arch_guard(t.audit_arch) + x32_guard(t.x32_bit) + clone_guard(t.clone_nr) + rules(
        t.eperm,
        eperm_verdict(),
    ) + rules(t.enosys, enosys_verdict()) + seq![instruction(RET_K, 0, 0, RET_ALLOW)]
}

/// What the filter sees of a system call.
pub struct Call {
    pub arch: u32,
    pub nr: u32,
    pub arg0: u64,
}

/// The word at offset `off` of the call's data, for the offsets in use.
pub open spec fn word(c: Call, off: u32) -> Option<u32> {
    if off == OFF_NR {
        Some(c.nr)
    } else if off == OFF_ARCH {
        Some(c.arch)
    } else if off == OFF_ARG0_LO {
        Some((c.arg0 & 0xffff_ffff) as u32)
    } else {
        None
    }
}

/// What the program `p` returns from instruction `pc` on, with `a` in the
/// accumulator. `None` stands for an unknown instruction or offset, and for a
/// jump past the end.
pub open spec fn eval_from(p: Seq<SockFilter>, pc: int, a: u32, c: Call) -> Option<u32>
    decreases
            (if pc < p.len() {
                p.len() - pc
            } else {
                0
            }),
{
    if pc < 0 || pc >= p.len() {
        None
    } else {
        let i = p[pc];
        if i.code == LD_W_ABS {
            match word(c, i.k) {
                Some(w) => eval_from(p, pc + 1, w, c),
                None => None,
            }
        } else if i.code == JEQ_K {
            eval_from(p, pc + 1 + (if a == i.k { i.jt as int } else { i.jf as int }), a, c)
        } else if i.code == JGE_K {
            eval_from(p, pc + 1 + (if a >= i.k { i.jt as int } else { i.jf as int }), a, c)
        } else if i.code == JSET_K {
            eval_from(p, pc + 1 + (if a & i.k != 0 { i.jt as int } else { i.jf as int }), a, c)
        } else if i.code == RET_K {
            Some(i.k)
        } else {
            None
        }
    }
}

/// What the program `p` decides for the call `c`.
pub open spec fn eval(p: Seq<SockFilter>, c: Call) -> Option<u32> {
    eval_from(p, 0, 0, c)
}

/// Whether `nr` is in the table `list`.
pub open spec fn listed(list: Seq<i64>, nr: u32) -> bool {
    exists|j: int| 0 <= j < list.len() && (#[trigger] list[j]) as u32 == nr
}

/// The verdict that the tables of `t` give the call `c`.
pub open spec fn verdict(t: Tables, c: Call) -> u32 {
    if c.arch != t.audit_arch {
        RET_KILL_PROCESS
    } else if t.x32_bit matches Some(bit) && c.nr >= bit {
        RET_KILL_PROCESS
    } else if c.nr == t.clone_nr as u32 && ((c.arg0 & 0xffff_ffff) as u32) & newuser_bit() != 0 {
        eperm_verdict()
    } else if listed(t.eperm, c.nr) {
        eperm_verdict()
    } else if listed(t.enosys, c.nr) {
        enosys_verdict()
    } else {
        RET_ALLOW
    }
}

/// The return value that fails a call with `errno`.
pub fn ret_errno(errno: i32) -> (r: u32)
    ensures
        r == errno_verdict(errno),
{
    0x0005_0000u32 | (errno as u32 & 0xffffu32)
}

/// One instruction.
pub fn insn(code: u16, jt: u8, jf: u8, k: u32) -> (r: SockFilter)
    ensures
        r == instruction(code, jt, jf, k),
{
    SockFilter { code, jt, jf, k }
}

/// Appends the numbers of `group` to `nrs`.
fn extend(nrs: &mut Vec<i64>, group: &[i64])
    ensures
        final(nrs)@ == old(nrs)@ + group@,
{
    let mut i: usize = 0;
    while i < group.len()
        invariant
            i <= group@.len(),
            nrs@ == old(nrs)@ + group@.take(i as int),
        decreases group@.len() - i,
    {
        nrs.push(group[i]);
        i = i + 1;
        assert(group@.take(i as int) =~= group@.take(i - 1).push(group@[i - 1]));
    }
    assert(group@.take(i as int) =~= group@);
}

/// The syscalls that get EPERM: privileged or useless in the sandbox, and not
/// called by any runtime in normal use.
pub fn deny_eperm() -> (r: Vec<i64>)
    ensures
        r@ == eperm_numbers(),
{
    let mut nrs: Vec<i64> = Vec::new();
    // tracing and cross-process memory
    extend(&mut nrs, &tracing_calls());
    // mount API, old and new, plus the classic escape calls
    extend(&mut nrs, &mount_calls());
    // namespaces; nested user namespaces are the main kernel-LPE amplifier
    extend(&mut nrs, &namespace_calls());
    // kernel attack surface
    extend(&mut nrs, &kernel_calls());
    // module, kexec, accounting, quota: root-only anyway, denied for depth
    extend(&mut nrs, &admin_calls());
    extend(&mut nrs, &x86_calls());
    assert(nrs@ =~= eperm_numbers());
    nrs
}

/// The syscalls that get ENOSYS because callers probe them and fall back.
pub fn deny_enosys() -> (r: Vec<i64>)
    ensures
        r@ == sys::fallback_numbers(),
{
    let mut nrs: Vec<i64> = Vec::new();
    extend(&mut nrs, &fallback_calls());
    assert(nrs@ =~= sys::fallback_numbers());
    nrs
}

/// x86-64, with the tables of this module.
pub open spec fn native_tables() -> Tables {
    Tables {
        audit_arch: AUDIT_ARCH,
        x32_bit: Some(X32_SYSCALL_BIT),
        clone_nr: 56,
        eperm: eperm_numbers(),
        enosys: sys::fallback_numbers(),
    }
}

/// x86-64, with the tables of this module.
pub fn native_target() -> (r: FilterTarget)
    ensures
        r@ == native_tables(),
{
    FilterTarget {
        audit_arch: AUDIT_ARCH,
        x32_bit: Some(X32_SYSCALL_BIT),
        clone_nr: clone_call(),
        eperm: deny_eperm(),
        enosys: deny_enosys(),
    }
}

/// Appends to `p` the rules that give the calls of `list` the verdict `v`.
fn push_rules(p: &mut Vec<SockFilter>, list: &Vec<i64>, v: u32)
    ensures
        final(p)@ == old(p)@ + rules(list@, v),
{
    let mut i: usize = 0;
    assert(rules(list@.take(0), v) =~= Seq::<SockFilter>::empty());
    while i < list.len()
        invariant
            i <= list@.len(),
            p@ == old(p)@ + rules(list@.take(i as int), v),
        decreases list@.len() - i,
    {
        p.push(insn(JEQ_K, 0, 1, list[i] as u32));
        p.push(insn(RET_K, 0, 0, v));
        i = i + 1;
        proof {
            let before = rules(list@.take(i - 1), v);
            let after = rules(list@.take(i as int), v);
            assert(after =~= before.push(
                instruction(JEQ_K, 0, 1, list@[i - 1] as u32),
            ).push(instruction(RET_K, 0, 0, v))) by {
                assert forall|j: int| 0 <= j < before.len() implies after[j] == before[j] by {
                    assert(list@.take(i as int)[j / 2] == list@.take(i - 1)[j / 2]);
                }
            }
            assert(p@ =~= old(p)@ + after);
        }
    }
    assert(list@.take(i as int) =~= list@);
}

/// Assembles the filter for `t`.
pub fn assemble(t: &FilterTarget) -> (r: Vec<SockFilter>)
    ensures
        r@ == program(t@),
{
    let mut p: Vec<SockFilter> = Vec::with_capacity(96);
    let flags: [i32; 3] = namespace_flags();
    let errs: [i32; 4] = errnos();
    let eperm: u32 = ret_errno(errs[0]);
    let enosys: u32 = ret_errno(errs[1]);

    // With a foreign audit arch or x32 numbering, every comparison below would
    // be with the wrong table, so kill.
    p.push(insn(LD_W_ABS, 0, 0, OFF_ARCH));
    p.push(insn(JEQ_K, 1, 0, t.audit_arch));
    p.push(insn(RET_K, 0, 0, RET_KILL_PROCESS));
    p.push(insn(LD_W_ABS, 0, 0, OFF_NR));
    assert(p@ =~= arch_guard(t.audit_arch));
    if let Some(bit) = t.x32_bit {
        p.push(insn(JGE_K, 0, 1, bit));
        p.push(insn(RET_K, 0, 0, RET_KILL_PROCESS));
    }
    assert(p@ =~= arch_guard(t.audit_arch) + x32_guard(t.x32_bit));

    // clone() is allowed unless its flags include CLONE_NEWUSER. clone3 gets
    // ENOSYS so callers fall back to clone(): clone3 passes its flags in a
    // struct, which classic BPF can't read.
    let ghost guards = p@;
    p.push(insn(JEQ_K, 0, 4, t.clone_nr as u32));
    p.push(insn(LD_W_ABS, 0, 0, OFF_ARG0_LO));
    p.push(insn(JSET_K, 0, 1, flags[0] as u32));
    p.push(insn(RET_K, 0, 0, eperm));
    p.push(insn(LD_W_ABS, 0, 0, OFF_NR));
    assert(p@ =~= guards + clone_guard(t.clone_nr));

    push_rules(&mut p, &t.eperm, eperm);
    push_rules(&mut p, &t.enosys, enosys);
    p.push(insn(RET_K, 0, 0, RET_ALLOW));
    assert(p@ =~= program(t@));
    p
}

/// Walking over the rules for `list` decides the calls in it and no others.
proof fn lemma_rules(p: Seq<SockFilter>, at: int, list: Seq<i64>, v: u32, a: u32, c: Call)
    requires
        0 <= at,
        at + 2 * list.len() <= p.len(),
        p.subrange(at, at + 2 * list.len()) == rules(list, v),
    ensures
        eval_from(p, at, a, c) == if listed(list, a) {
            Some(v)
        } else {
            eval_from(p, at + 2 * list.len(), a, c)
        },
    decreases list.len(),
{
    if list.len() > 0 {
        let rest = list.drop_first();
        let whole = rules(list, v);
        assert(p[at] == whole[0]);
        assert(p[at + 1] == whole[1]);
        assert(p.subrange(at + 2, at + 2 + 2 * rest.len()) =~= rules(rest, v)) by {
            assert forall|j: int| 0 <= j < 2 * rest.len() implies p.subrange(
                at + 2,
                at + 2 + 2 * rest.len(),
            )[j] == rules(rest, v)[j] by {
                assert(p[at + 2 + j] == whole[j + 2]);
                assert(rest[j / 2] == list[(j + 2) / 2]);
            }
        }
        lemma_rules(p, at + 2, rest, v, a, c);
        if list[0] as u32 == a {
            assert(listed(list, a));
            assert(eval_from(p, at + 1, a, c) == Some(v));
        } else {
            assert(listed(list, a) == listed(rest, a)) by {
                if listed(list, a) {
                    let j = choose|j: int| 0 <= j < list.len() && (#[trigger] list[j]) as u32 == a;
                    assert(rest[j - 1] as u32 == a);
                }
                if listed(rest, a) {
                    let j = choose|j: int| 0 <= j < rest.len() && (#[trigger] rest[j]) as u32 == a;
                    assert(list[j + 1] as u32 == a);
                }
            }
        }
    }
}

/// Every call gets the verdict that the tables give it: a foreign
/// architecture and the second numbering are killed, `clone` with a new user
/// namespace and the first table get EPERM, the second table gets ENOSYS, and
/// everything else is let through.
pub proof fn law_filter_verdict(t: Tables, c: Call)
    ensures
        eval(program(t), c) == Some(verdict(t, c)),
{
    let p = program(t);
    let x = x32_guard(t.x32_bit).len() as int;
    let n = t.eperm.len() as int;
    let m = t.enosys.len() as int;
    let low = (c.arg0 & 0xffff_ffff) as u32;
    assert(p[0] == arch_guard(t.audit_arch)[0]);
    assert(p[1] == arch_guard(t.audit_arch)[1]);
    assert(p[2] == arch_guard(t.audit_arch)[2]);
    assert(p[3] == arch_guard(t.audit_arch)[3]);
    assert(eval_from(p, 0, 0, c) == eval_from(p, 1, c.arch, c));
    if c.arch != t.audit_arch {
        assert(eval_from(p, 1, c.arch, c) == eval_from(p, 2, c.arch, c));
    } else {
        assert(eval_from(p, 1, c.arch, c) == eval_from(p, 3, c.arch, c));
        assert(eval_from(p, 3, c.arch, c) == eval_from(p, 4, c.nr, c));
        let past_x32 = 4 + x;
        if t.x32_bit is Some {
            let bit = t.x32_bit->0;
            assert(p[4] == x32_guard(t.x32_bit)[0]);
            assert(p[5] == x32_guard(t.x32_bit)[1]);
            if c.nr >= bit {
                assert(eval_from(p, 4, c.nr, c) == eval_from(p, 5, c.nr, c));
            } else {
                assert(eval_from(p, 4, c.nr, c) == eval_from(p, past_x32, c.nr, c));
            }
        }
        if !(t.x32_bit is Some && c.nr >= t.x32_bit->0) {
            let q = past_x32;
            assert(p[q] == clone_guard(t.clone_nr)[0]);
            assert(p[q + 1] == clone_guard(t.clone_nr)[1]);
            assert(p[q + 2] == clone_guard(t.clone_nr)[2]);
            assert(p[q + 3] == clone_guard(t.clone_nr)[3]);
            assert(p[q + 4] == clone_guard(t.clone_nr)[4]);
            if c.nr == t.clone_nr as u32 {
                assert(eval_from(p, q, c.nr, c) == eval_from(p, q + 1, c.nr, c));
                assert(eval_from(p, q + 1, c.nr, c) == eval_from(p, q + 2, low, c));
                if low & newuser_bit() != 0 {
                    assert(eval_from(p, q + 2, low, c) == eval_from(p, q + 3, low, c));
                } else {
                    assert(eval_from(p, q + 2, low, c) == eval_from(p, q + 4, low, c));
                    assert(eval_from(p, q + 4, low, c) == eval_from(p, q + 5, c.nr, c));
                }
            } else {
                assert(eval_from(p, q, c.nr, c) == eval_from(p, q + 5, c.nr, c));
            }
            let r = q + 5;
            assert(p.subrange(r, r + 2 * n) =~= rules(t.eperm, eperm_verdict()));
            lemma_rules(p, r, t.eperm, eperm_verdict(), c.nr, c);
            let s = r + 2 * n;
            assert(p.subrange(s, s + 2 * m) =~= rules(t.enosys, enosys_verdict()));
            lemma_rules(p, s, t.enosys, enosys_verdict(), c.nr, c);
            assert(p[s + 2 * m] == instruction(RET_K, 0, 0, RET_ALLOW));
        }
    }
}

/// Whether the instruction `i` is a jump.
pub open spec fn is_jump(i: SockFilter) -> bool {
    i.code == JEQ_K || i.code == JGE_K || i.code == JSET_K
}

/// No jump of a filter leaves it, and it ends by letting the call through.
pub proof fn law_jumps_stay_inside(t: Tables)
    ensures
        forall|i: int|
            #![trigger program(t)[i]]
            0 <= i < program(t).len() && is_jump(program(t)[i]) ==> {
                &&& i + 1 + program(t)[i].jt < program(t).len()
                &&& i + 1 + program(t)[i].jf < program(t).len()
            },
        program(t).last() == instruction(RET_K, 0, 0, RET_ALLOW),
        program(t).len() == 10 + x32_guard(t.x32_bit).len() + 2 * t.eperm.len() + 2
            * t.enosys.len(),
{
    let p = program(t);
    let x = x32_guard(t.x32_bit).len() as int;
    let n = t.eperm.len() as int;
    let m = t.enosys.len() as int;
    assert forall|i: int| #![trigger p[i]] 0 <= i < p.len() && is_jump(p[i]) implies i + 1 + p[i].jt
        < p.len() && i + 1 + p[i].jf < p.len() by {
        if i < 4 {
            assert(p[i] == arch_guard(t.audit_arch)[i]);
        } else if i < 4 + x {
            assert(p[i] == x32_guard(t.x32_bit)[i - 4]);
        } else if i < 9 + x {
            assert(p[i] == clone_guard(t.clone_nr)[i - 4 - x]);
        } else if i < 9 + x + 2 * n {
            assert(p[i] == rules(t.eperm, eperm_verdict())[i - 9 - x]);
        } else if i < 9 + x + 2 * n + 2 * m {
            assert(p[i] == rules(t.enosys, enosys_verdict())[i - 9 - x - 2 * n]);
        }
    }
}

/// Only the verdict on `clone` depends on the arguments of the call.
pub proof fn law_only_clone_is_inspected(t: Tables, c: Call, arg0: u64)
    requires
        c.nr != t.clone_nr as u32,
    ensures
        eval(program(t), (Call { arg0, ..c })) == eval(program(t), c),
{
    law_filter_verdict(t, c);
    law_filter_verdict(t, Call { arg0, ..c });
}

/// Assembles the filter program for x86-64.
pub fn filter_program() -> (r: Vec<SockFilter>)
    ensures
        r@ == program(native_tables()),
        r@.len() <= MAX_INSNS,
        forall|c: Call| #[trigger] eval(r@, c) == Some(verdict(native_tables(), c)),
{
    let p = assemble(&native_target());
    proof {
        law_jumps_stay_inside(native_tables());
        assert forall|c: Call| #[trigger] eval(p@, c) == Some(verdict(native_tables(), c)) by {
            law_filter_verdict(native_tables(), c);
        }
    }
    p
}

/// The eight bytes of one instruction.
pub open spec fn insn_bytes(i: SockFilter) -> Seq<u8> {
    bytes::le(i.code as nat, 2) + seq![i.jt, i.jf] + bytes::le(i.k as nat, 4)
}

/// The bytes of a program.
pub open spec fn image(p: Seq<SockFilter>) -> Seq<u8>
    decreases p.len(),
{
    if p.len() == 0 {
        Seq::empty()
    } else {
        image(p.drop_last()) + insn_bytes(p.last())
    }
}

/// The instruction in the eight bytes `b`.
pub open spec fn insn_from(b: Seq<u8>) -> SockFilter {
    instruction(
        bytes::from_le(b.subrange(0, 2)) as u16,
        b[2],
        b[3],
        bytes::from_le(b.subrange(4, 8)) as u32,
    )
}

/// The bytes of a program hold its instructions, eight bytes each, in order.
pub proof fn law_image_reads_back(p: Seq<SockFilter>, i: int)
    requires
        0 <= i < p.len(),
    ensures
        image(p).len() == 8 * p.len(),
        insn_from(image(p).subrange(8 * i, 8 * i + 8)) == p[i],
    decreases p.len(),
{
    let last = p.last();
    reveal_with_fuel(bytes::numbers, 5);
    bytes::law_bytes_read_back(last.code as nat, 2);
    bytes::law_bytes_read_back(last.k as nat, 4);
    let b = insn_bytes(last);
    assert(b.subrange(0, 2) =~= bytes::le(last.code as nat, 2));
    assert(b.subrange(4, 8) =~= bytes::le(last.k as nat, 4));
    let front = p.drop_last();
    if front.len() > 0 {
        law_image_reads_back(front, if i < front.len() { i } else { 0 });
    }
    if i < front.len() {
        assert(image(p).subrange(8 * i, 8 * i + 8) =~= image(front).subrange(8 * i, 8 * i + 8));
    } else {
        assert(image(p).subrange(8 * i, 8 * i + 8) =~= b);
    }
}

/// The bytes of a program, as `struct sock_filter` lays it out.
pub fn encode(p: &[SockFilter]) -> (r: Vec<u8>)
    ensures
        r@ == image(p@),
{
    let mut out: Vec<u8> = Vec::new();
    let mut i: usize = 0;
    while i < p.len()
        invariant
            i <= p@.len(),
            out@ == image(p@.take(i as int)),
        decreases p@.len() - i,
    {
        let ins: SockFilter = p[i];
        let ghost before = out@;
        bytes::push_le(&mut out, ins.code as u64, 2);
        out.push(ins.jt);
        out.push(ins.jf);
        bytes::push_le(&mut out, ins.k as u64, 4);
        i = i + 1;
        assert(p@.take(i as int).drop_last() =~= p@.take(i - 1));
        assert(out@ =~= before + insn_bytes(ins));
    }
    assert(p@.take(i as int) =~= p@);
    out
}

/// What installing the filter asks for next.
#[derive(Clone, Copy, Debug, PartialEq, Eq, Structural)]
pub enum InstallAction {
    /// Create a memory file that survives exec.
    Create,
    /// Write the bytes from this offset on.
    Write(usize),
    /// Seek to the start.
    Rewind,
    /// The file is ready for bwrap.
    Ready,
    /// Give up, with the error of the last call.
    Failed,
}

/// The filter program on its way into a memory file, rewound to offset 0, for
/// bwrap's `--seccomp FD`.
pub struct Install {
    pub bytes: Vec<u8>,
    pub pending: InstallAction,
}

/// What follows `pending` when its system call returned `ret`, for a program
/// of `len` bytes.
pub open spec fn install_next(len: nat, pending: InstallAction, ret: i64) -> InstallAction {
    match pending {
        InstallAction::Create => if ret < 0 {
            InstallAction::Failed
        } else if len > 0 {
            InstallAction::Write(0)
        } else {
            InstallAction::Rewind
        },
        InstallAction::Write(from) => if ret < 0 {
            InstallAction::Failed
        } else if from + ret < len {
            InstallAction::Write((from + ret) as usize)
        } else {
            InstallAction::Rewind
        },
        InstallAction::Rewind => if ret != 0 {
            InstallAction::Failed
        } else {
            InstallAction::Ready
        },
        InstallAction::Ready => InstallAction::Ready,
        InstallAction::Failed => InstallAction::Failed,
    }
}

/// Starts to install the filter for x86-64.
pub fn install_fd() -> (r: Install)
    ensures
        r.bytes@ == image(program(native_tables())),
        r.pending == InstallAction::Create,
{
    let prog = filter_program();
    Install { bytes: encode(prog.as_slice()), pending: InstallAction::Create }
}

impl Install {
    /// Takes what the pending system call returned.
    pub fn advance(&mut self, ret: i64)
        ensures
            final(self).bytes == old(self).bytes,
            final(self).pending == install_next(old(self).bytes@.len(), old(self).pending, ret),
    {
        let len: usize = self.bytes.len();
        self.pending = match self.pending {
            InstallAction::Create => if ret < 0 {
                InstallAction::Failed
            } else if len > 0 {
                InstallAction::Write(0)
            } else {
                InstallAction::Rewind
            },
            InstallAction::Write(from) => if ret < 0 {
                InstallAction::Failed
            } else if (from as i128) + (ret as i128) < (len as i128) {
                InstallAction::Write(((from as i128) + (ret as i128)) as usize)
            } else {
                InstallAction::Rewind
            },
            InstallAction::Rewind => if ret != 0 {
                InstallAction::Failed
            } else {
                InstallAction::Ready
            },
            InstallAction::Ready => InstallAction::Ready,
            InstallAction::Failed => InstallAction::Failed,
        };
    }
}

/// What the memory file holds after a call that returned `ret`: a write puts
/// that many bytes behind the others.
pub open spec fn file_after(
    bytes: Seq<u8>,
    pending: InstallAction,
    file: Seq<u8>,
    ret: i64,
) -> Seq<u8> {
    match pending {
        InstallAction::Write(from) if ret >= 0 => file + bytes.subrange(from as int, from + ret),
        _ => file,
    }
}

/// Whether the memory file is as far as it should be.
pub open spec fn file_in_step(bytes: Seq<u8>, pending: InstallAction, file: Seq<u8>) -> bool {
    match pending {
        InstallAction::Create => file.len() == 0,
        InstallAction::Write(from) => from < bytes.len() && file == bytes.take(from as int),
        InstallAction::Rewind | InstallAction::Ready => file == bytes,
        InstallAction::Failed => true,
    }
}

/// However little each write takes, the file is in step at first and stays so:
/// when it is ready it holds the whole program, byte for byte.
pub proof fn law_ready_file_is_complete(
    bytes: Seq<u8>,
    pending: InstallAction,
    file: Seq<u8>,
    ret: i64,
)
    requires
        bytes.len() <= usize::MAX,
        file_in_step(bytes, pending, file),
        pending matches InstallAction::Write(from) ==> ret <= bytes.len() - from,
    ensures
        file_in_step(bytes, InstallAction::Create, Seq::empty()),
        file_in_step(
            bytes,
            install_next(bytes.len(), pending, ret),
            file_after(bytes, pending, file, ret),
        ),
{
    match pending {
        InstallAction::Create => {
            if ret >= 0 {
                assert(file =~= bytes.take(0));
                assert(bytes.len() == 0 ==> file =~= bytes);
            }
        },
        InstallAction::Write(from) => {
            if ret >= 0 {
                assert(file_after(bytes, pending, file, ret) =~= bytes.take(from + ret));
                assert(bytes.take(bytes.len() as int) =~= bytes);
            }
        },
        _ => {},
    }
}

/// The five instructions that filters are made of do what classic BPF says: 0x20
/// loads a word, 0x15, 0x35 and 0x45 jump where the accumulator equals `k`, is at
/// least `k`, or shares a bit with it, and 0x06 returns. The words are the number at
/// 0, the architecture at 4 and the low half of the first argument at 16.
pub proof fn law_instructions_do_what_bpf_says(p: Seq<SockFilter>, pc: int, a: u32, c: Call)
    requires
        0 <= pc < p.len(),
    ensures
        p[pc].code == 0x20 && p[pc].k == 0 ==> eval_from(p, pc, a, c) == eval_from(
            p,
            pc + 1,
            c.nr,
            c,
        ),
        p[pc].code == 0x20 && p[pc].k == 4 ==> eval_from(p, pc, a, c) == eval_from(
            p,
            pc + 1,
            c.arch,
            c,
        ),
        p[pc].code == 0x20 && p[pc].k == 16 ==> eval_from(p, pc, a, c) == eval_from(
            p,
            pc + 1,
            (c.arg0 % 0x1_0000_0000) as u32,
            c,
        ),
        p[pc].code == 0x15 ==> eval_from(p, pc, a, c) == eval_from(
            p,
            pc + 1 + (if a == p[pc].k { p[pc].jt as int } else { p[pc].jf as int }),
            a,
            c,
        ),
        p[pc].code == 0x35 ==> eval_from(p, pc, a, c) == eval_from(
            p,
            pc + 1 + (if a >= p[pc].k { p[pc].jt as int } else { p[pc].jf as int }),
            a,
            c,
        ),
        p[pc].code == 0x45 ==> eval_from(p, pc, a, c) == eval_from(
            p,
            pc + 1 + (if a & p[pc].k != 0 { p[pc].jt as int } else { p[pc].jf as int }),
            a,
            c,
        ),
        p[pc].code == 0x06 ==> eval_from(p, pc, a, c) == Some(p[pc].k),
        ![0x20u16, 0x15, 0x35, 0x45, 0x06]@.contains(p[pc].code) ==> eval_from(p, pc, a, c) is None,
{
    let arg0 = c.arg0;
    assert((arg0 & 0xffff_ffff) == arg0 % 0x1_0000_0000) by (bit_vector);
    let codes = [0x20u16, 0x15, 0x35, 0x45, 0x06];
    assert(codes@[0] == 0x20 && codes@[1] == 0x15 && codes@[2] == 0x35 && codes@[3] == 0x45
        && codes@[4] == 0x06);
}

proof fn lemma_verdict_numbers(arg0: u64)
    ensures
        eperm_verdict() == 0x5_0001,
        enosys_verdict() == 0x5_0026,
        ((arg0 & 0xffff_ffff) as u32) & newuser_bit() != 0 <==> arg0 / 0x1000_0000 % 2 == 1,
{
    assert(0x0005_0000u32 | (1i32 as u32 & 0xffffu32) == 0x5_0001) by (bit_vector);
    assert(0x0005_0000u32 | (38i32 as u32 & 0xffffu32) == 0x5_0026) by (bit_vector);
    assert(((arg0 & 0xffff_ffff) as u32) & 0x1000_0000u32 != 0 <==> arg0 / 0x1000_0000 % 2 == 1)
        by (bit_vector);
}

/// What running the filter returns for any tables: 0x80000000, which kills, for
/// another architecture and for numbers from the second numbering's bit on;
/// 0x50001, which is EPERM, for `clone` with the bit 0x10000000 in its flags and for
/// the numbers of the first table; 0x50026, which is ENOSYS, for those that only the
/// second table has; and 0x7fff0000, which lets the call through, for all others.
pub proof fn law_filter_decides(t: Tables, c: Call)
    ensures
        ({
            let v = eval(program(t), c);
            let foreign = c.arch != t.audit_arch || (t.x32_bit is Some && c.nr >= t.x32_bit->0);
            let nests = c.nr == t.clone_nr as u32 && c.arg0 / 0x1000_0000 % 2 == 1;
            let first = exists|j: int| 0 <= j < t.eperm.len() && (#[trigger] t.eperm[j]) as u32
                == c.nr;
            let second = exists|j: int|
                0 <= j < t.enosys.len() && (#[trigger] t.enosys[j]) as u32 == c.nr;
            &&& v == Some(0x8000_0000u32) <==> foreign
            &&& v == Some(0x5_0001u32) <==> !foreign && (nests || first)
            &&& v == Some(0x5_0026u32) <==> !foreign && !nests && !first && second
            &&& v == Some(0x7fff_0000u32) <==> !foreign && !nests && !first && !second
        }),
{
    law_filter_verdict(t, c);
    lemma_verdict_numbers(c.arg0);
}

/// The calls that get EPERM, by number.
pub open spec fn denied() -> Seq<u32> {
    seq![
        101u32, 310, 311, 312, 438, 165, 166, 155, 161, 429,
        428, 430, 431, 432, 433, 442, 304, 308, 272, 321,
        323, 298, 250, 248, 249, 212, 103, 175, 313, 176,
        246, 169, 167, 168, 163, 179, 320, 172, 173, 154,
    ]
}

/// On x86-64 the filter kills foreign calls and x32 numbers, denies the forty calls
/// of `denied` and `clone` into a new user namespace with EPERM, answers clone3 and
/// the three calls of io_uring with ENOSYS, and lets every other call through.
pub proof fn law_native_filter_decides(c: Call)
    ensures
        ({
            let v = eval(program(native_tables()), c);
            let foreign = c.arch != 0xc000_003e || c.nr >= 0x4000_0000;
            let nests = c.nr == 56 && c.arg0 / 0x1000_0000 % 2 == 1;
            let probed = c.nr == 435 || c.nr == 425 || c.nr == 426 || c.nr == 427;
            &&& foreign ==> v == Some(0x8000_0000u32)
            &&& !foreign && (nests || denied().contains(c.nr)) ==> v == Some(0x5_0001u32)
            &&& !foreign && probed ==> v == Some(0x5_0026u32)
            &&& !foreign && !nests && !denied().contains(c.nr) && !probed ==> v == Some(
                0x7fff_0000u32,
            )
        }),
{
    law_filter_decides(native_tables(), c);
    let e = eperm_numbers();
    let d = denied();
    let f = sys::fallback_numbers();
    assert(e.len() == 40);
    assert(d.len() == 40);
    assert forall|j: int| 0 <= j < 40 implies (#[trigger] e[j]) as u32 == d[j] by {}
    if d.contains(c.nr) {
        let j = choose|j: int| 0 <= j < d.len() && d[j] == c.nr;
        assert(e[j] as u32 == c.nr);
    }
    assert(f[0] as u32 == 435 && f[1] as u32 == 425 && f[2] as u32 == 426 && f[3] as u32 == 427);
}

/// A failed call ends the installation, and nothing else does before the file is
/// ready; it is ready only once rewinding worked; and each write goes on where the
/// one before stopped, until no byte is left.
pub proof fn law_install_goes_on(len: nat, pending: InstallAction, ret: i64)
    requires
        len <= usize::MAX,
        pending matches InstallAction::Write(from) ==> from < len,
    ensures
        ({
            let next = install_next(len, pending, ret);
            let over = pending == InstallAction::Ready || pending == InstallAction::Failed;
            &&& over ==> next == pending
            &&& !over && ret < 0 ==> next == InstallAction::Failed
            &&& !over && ret == 0 ==> next != InstallAction::Failed
            &&& !over && next == InstallAction::Ready ==> pending == InstallAction::Rewind && ret
                == 0
            &&& pending == InstallAction::Rewind && ret == 0 ==> next == InstallAction::Ready
            &&& pending == InstallAction::Rewind && ret > 0 ==> next == InstallAction::Failed
            &&& pending == InstallAction::Create && ret >= 0 && len > 0 ==> next
                == InstallAction::Write(0)
            &&& pending matches InstallAction::Write(from) ==> ret >= 0 ==> if from + ret < len {
                next matches InstallAction::Write(n) && n == from + ret
            } else {
                next == InstallAction::Rewind
            }
        }),
{
}

/// Each instruction stands in eight bytes of its own: its code in the first two, the
/// lowest first, the two jumps, the one for yes first, and the operand in the last
/// four, the lowest first.
pub proof fn law_bytes_stand_in_place(p: Seq<SockFilter>, i: int)
    requires
        0 <= i < p.len(),
    ensures
        ({
            let b = image(p);
            &&& b.len() == 8 * p.len()
            &&& b[8 * i] == p[i].code % 256
            &&& b[8 * i + 1] == p[i].code / 256
            &&& b[8 * i + 2] == p[i].jt
            &&& b[8 * i + 3] == p[i].jf
            &&& b[8 * i + 4] == p[i].k % 256
            &&& b[8 * i + 5] == p[i].k / 256 % 256
            &&& b[8 * i + 6] == p[i].k / 65536 % 256
            &&& b[8 * i + 7] == p[i].k / 16777216
        }),
    decreases p.len(),
{
    let front = p.drop_last();
    let x = p.last();
    let b = insn_bytes(x);
    reveal_with_fuel(bytes::numbers, 4);
    bytes::law_lowest_byte_first(x.code as nat, 2, 0);
    bytes::law_lowest_byte_first(x.code as nat, 2, 1);
    bytes::law_lowest_byte_first(x.k as nat, 4, 0);
    bytes::law_lowest_byte_first(x.k as nat, 4, 1);
    bytes::law_lowest_byte_first(x.k as nat, 4, 2);
    bytes::law_lowest_byte_first(x.k as nat, 4, 3);
    if front.len() > 0 {
        law_bytes_stand_in_place(front, if i < front.len() { i } else { 0 });
    }
    if i < front.len() {
        assert(front[i] == p[i]);
    } else {
        assert(i == front.len());
        let n = image(front).len() as int;
        assert(n == 8 * i);
        assert forall|j: int| 0 <= j < 8 implies image(p)[n + j] == #[trigger] b[j] by {}
        assert(b[0] == bytes::le(x.code as nat, 2)[0]);
        assert(b[1] == bytes::le(x.code as nat, 2)[1]);
        assert(b[4] == bytes::le(x.k as nat, 4)[0]);
        assert(b[5] == bytes::le(x.k as nat, 4)[1]);
        assert(b[6] == bytes::le(x.k as nat, 4)[2]);
        assert(b[7] == bytes::le(x.k as nat, 4)[3]);
    }
}

} // verus!
