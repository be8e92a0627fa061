//! Whether a fresh procfs can be mounted here, the way bwrap `--proc` does.
//!
//! A hardened container whose `/proc` has locked masking mounts refuses it (the
//! kernel's `mount_too_revealing` check). mountinfo doesn't show which submounts
//! are locked, so the probe tries the mount the way bwrap would: a throwaway
//! child unshares a user namespace (for the capabilities), a PID namespace
//! (procfs needs one) and a mount namespace, then forks a process into the new
//! PID namespace to attempt the mount. Both exit right away and are reaped.
//!
//! All three processes follow the same table, each from the point where a fork
//! told it which one it is.

use crate::sys;
use crate::sys::{mount_flags, namespace_flags};
use vstd::prelude::*;

verus! {

/// What the probe asks for next.
#[derive(Debug, Clone, Copy, PartialEq, Eq, Structural)]
pub enum Probe {
    /// Fork the child.
    Fork,
    /// Wait for the child.
    Wait,
    /// In the child: leave the namespaces. Only later children enter the new
    /// PID namespace, and the mount has to happen from inside it.
    Unshare { flags: i32 },
    /// In the child: fork the grandchild.
    ForkInner,
    /// In the child: wait for the grandchild.
    WaitInner,
    /// In the grandchild: keep the probe mount from propagating to the host.
    MakePrivate { propagation: u64 },
    /// In the grandchild: mount procfs.
    MountProc,
    /// In the child or the grandchild: exit with this code.
    Exit { code: i32 },
    /// In the parent: whether a fresh procfs can be mounted.
    Report { available: bool },
}

/// New user, mount and PID namespaces.
pub open spec fn unshare_flags() -> i32 {
    (0x1000_0000i32 | 0x2_0000) | 0x2000_0000
}

/// Private, for the whole tree.
pub open spec fn private_flags() -> u64 {
    0x4000u64 | 0x4_0000
}

/// What follows `step` when its system call returned `ret`, or, for a wait, when
/// it found the status `ret`.
pub open spec fn probe_after(step: Probe, ret: i32) -> Probe {
    match step {
        Probe::Fork => if ret == -1 {
            Probe::Report { available: false }
        } else if ret == 0 {
            Probe::Unshare { flags: unshare_flags() }
        } else {
            Probe::Wait
        },
        Probe::Wait => Probe::Report {
            available: sys::exited(ret) && sys::exit_code_of(ret) == 0,
        },
        Probe::Unshare { .. } => if ret != 0 {
            Probe::Exit { code: 2 }
        } else {
            Probe::ForkInner
        },
        Probe::ForkInner => if ret == -1 {
            Probe::Exit { code: 2 }
        } else if ret == 0 {
            Probe::MakePrivate { propagation: private_flags() }
        } else {
            Probe::WaitInner
        },
        Probe::WaitInner => Probe::Exit {
            code: if sys::exited(ret) {
                sys::exit_code_of(ret)
            } else {
                3
            },
        },
        Probe::MakePrivate { .. } => Probe::MountProc,
        Probe::MountProc => Probe::Exit {
            code: if ret == 0 {
                0
            } else {
                1
            },
        },
        Probe::Exit { code } => Probe::Exit { code },
        Probe::Report { available } => Probe::Report { available },
    }
}

/// Starts to find out whether a fresh procfs can be mounted here.
pub fn fresh_proc_available() -> (r: Probe)
    ensures
        r == Probe::Fork,
{
    Probe::Fork
}

/// Goes on with the probe. It allocates nothing, so that a forked child may
/// call it.
pub fn next_probe(step: Probe, ret: i32) -> (r: Probe)
    ensures
        r == probe_after(step, ret),
{
    match step {
        // can't probe, so fall back to the bind
        Probe::Fork => if ret == -1 {
            Probe::Report { available: false }
        } else if ret == 0 {
            let f: [i32; 3] = namespace_flags();
            Probe::Unshare { flags: f[0] | f[1] | f[2] }
        } else {
            Probe::Wait
        },
        Probe::Wait => Probe::Report {
            available: libc::WIFEXITED(ret) && libc::WEXITSTATUS(ret) == 0,
        },
        // no unprivileged user namespaces, so bwrap can't run either
        Probe::Unshare { flags: _ } => if ret != 0 {
            Probe::Exit { code: 2 }
        } else {
            Probe::ForkInner
        },
        Probe::ForkInner => if ret == -1 {
            Probe::Exit { code: 2 }
        } else if ret == 0 {
            let f: [u64; 2] = mount_flags();
            Probe::MakePrivate { propagation: f[0] | f[1] }
        } else {
            Probe::WaitInner
        },
        Probe::WaitInner => Probe::Exit {
            code: if libc::WIFEXITED(ret) {
                libc::WEXITSTATUS(ret)
            } else {
                3
            },
        },
        Probe::MakePrivate { propagation: _ } => Probe::MountProc,
        Probe::MountProc => Probe::Exit {
            code: if ret == 0 {
                0
            } else {
                1
            },
        },
        Probe::Exit { code } => Probe::Exit { code },
        Probe::Report { available } => Probe::Report { available },
    }
}

/// Whether `status` is what waiting finds for a process that did `step`.
pub open spec fn ended_as(step: Probe, status: i32) -> bool {
    step matches Probe::Exit { code } && sys::exited(status) && sys::exit_code_of(status) == code
}

/// Whether `status` is what waiting finds for a process that a signal ended.
pub open spec fn ended_by_signal(status: i32) -> bool {
    sys::signaled(status)
}

/// The probe says yes exactly when the grandchild's mount worked: `mounted` is
/// what it returned, and the two statuses are what the waits found.
pub proof fn law_probe_tells_the_mount(mounted: i32, inner_status: i32, status: i32)
    requires
        ended_as(probe_after(Probe::MountProc, mounted), inner_status),
        ended_as(probe_after(Probe::WaitInner, inner_status), status),
    ensures
        probe_after(Probe::Wait, status) == (Probe::Report { available: mounted == 0 }),
{
}

/// Where the child cannot get that far, or one of the two is killed, the probe
/// says no.
pub proof fn law_probe_doubts(ret: i32, inner_status: i32, status: i32)
    ensures
        probe_after(Probe::Fork, -1i32) == (Probe::Report { available: false }),
        ret != 0 && ended_as(
            probe_after((Probe::Unshare { flags: unshare_flags() }), ret),
            status,
        ) ==> probe_after(Probe::Wait, status) == (Probe::Report { available: false }),
        ended_as(probe_after(Probe::ForkInner, -1i32), status) ==> probe_after(Probe::Wait, status)
            == (Probe::Report { available: false }),
        ended_by_signal(inner_status) && ended_as(
            probe_after(Probe::WaitInner, inner_status),
            status,
        ) ==> probe_after(Probe::Wait, status) == (Probe::Report { available: false }),
        ended_by_signal(status) ==> probe_after(Probe::Wait, status) == (Probe::Report {
            available: false,
        }),
{
}

/// Each step of the probe has its place: the parent waits for a child, and only the
/// child leaves all three namespaces; once it has, it waits for a grandchild, and
/// only the grandchild makes its mounts private, all of them, and mounts procfs after
/// that. Exits are theirs, and the report is the parent's.
pub proof fn law_probe_keeps_its_order(step: Probe, ret: i32)
    requires
        !(step is Exit) && !(step is Report),
    ensures
        ({
            let next = probe_after(step, ret);
            &&& next is Wait ==> step == Probe::Fork && ret != 0 && ret != -1
            &&& next matches Probe::Unshare { flags } ==> step == Probe::Fork && ret == 0 && flags
                == 0x3002_0000
            &&& next is ForkInner ==> step is Unshare && ret == 0
            &&& next is WaitInner ==> step == Probe::ForkInner && ret != 0 && ret != -1
            &&& next matches Probe::MakePrivate { propagation } ==> step == Probe::ForkInner && ret
                == 0 && propagation == 0x4_4000
            &&& next is MountProc ==> step is MakePrivate
            &&& step is MakePrivate ==> next is MountProc
            &&& next is Report ==> step == Probe::Wait || (step == Probe::Fork && ret == -1)
            &&& next is Exit ==> step is Unshare || step == Probe::ForkInner || step
                == Probe::WaitInner || step == Probe::MountProc
            &&& !(next is Fork)
        }),
{
    assert((0x1000_0000i32 | 0x2_0000) | 0x2000_0000 == 0x3002_0000) by (bit_vector);
    assert(0x4000u64 | 0x4_0000 == 0x4_4000) by (bit_vector);
}

/// The codes that the probe's processes exit with: 0 where procfs could be mounted
/// and 1 where not, 2 where it did not get that far; the child hands on the code
/// of the grandchild, or exits with 3 where that died by a signal. The parent reports
/// yes for a child that exited with 0 and no for any other end.
pub proof fn law_probe_codes(ret: i32, flags: i32, n: i32)
    ensures
        probe_after(Probe::MountProc, 0i32) == (Probe::Exit { code: 0 }),
        ret != 0 ==> probe_after(Probe::MountProc, ret) == (Probe::Exit { code: 1 }),
        ret != 0 ==> probe_after(Probe::Unshare { flags }, ret) == (Probe::Exit { code: 2 }),
        probe_after(Probe::ForkInner, -1i32) == (Probe::Exit { code: 2 }),
        0 <= n <= 255 && ret == n * 256 ==> probe_after(Probe::WaitInner, ret) == (Probe::Exit {
            code: n,
        }),
        0 < n < 127 && (ret == n || ret == n + 128) ==> probe_after(Probe::WaitInner, ret) == (
        Probe::Exit { code: 3 }),
        probe_after(Probe::Wait, 0i32) == (Probe::Report { available: true }),
        0 < n <= 255 && ret == n * 256 ==> probe_after(Probe::Wait, ret) == (Probe::Report {
            available: false,
        }),
        0 < n < 127 && (ret == n || ret == n + 128) ==> probe_after(Probe::Wait, ret) == (
        Probe::Report { available: false }),
        probe_after(Probe::Fork, -1i32) == (Probe::Report { available: false }),
{
    assert(0 <= n <= 255 && ret == n * 256 ==> ret & 0x7f == 0 && (ret >> 8) & 0xff == n)
        by (bit_vector);
    assert(0 < n < 127 && (ret == n || ret == n + 128) ==> ret & 0x7f == n) by (bit_vector);
    assert(0i32 & 0x7f == 0 && (0i32 >> 8) & 0xff == 0) by (bit_vector);
}

} // verus!
