//! What the crate takes from `libc`: numbers of the x86-64 Linux interface,
//! and the macros that read a wait status.
//!
//! Everything here is believed, not proved: each contract repeats what the
//! `libc` crate defines for `x86_64-unknown-linux-gnu` and `-musl`.

use vstd::prelude::*;

verus! {

/// The numbers of ptrace, process_vm_readv, process_vm_writev, kcmp and
/// pidfd_getfd.
pub open spec fn tracing_numbers() -> Seq<i64> {
    seq![101, 310, 311, 312, 438]
}

/// The numbers of mount, umount2, pivot_root, chroot, move_mount, open_tree,
/// fsopen, fsconfig, fsmount, fspick, mount_setattr and open_by_handle_at.
pub open spec fn mount_numbers() -> Seq<i64> {
    seq![165, 166, 155, 161, 429, 428, 430, 431, 432, 433, 442, 304]
}

/// The numbers of setns and unshare.
pub open spec fn namespace_numbers() -> Seq<i64> {
    seq![308, 272]
}

/// The numbers of bpf, userfaultfd, perf_event_open, keyctl, add_key,
/// request_key, lookup_dcookie and syslog.
pub open spec fn kernel_numbers() -> Seq<i64> {
    seq![321, 323, 298, 250, 248, 249, 212, 103]
}

/// The numbers of init_module, finit_module, delete_module, kexec_load,
/// reboot, swapon, swapoff, acct and quotactl.
pub open spec fn admin_numbers() -> Seq<i64> {
    seq![175, 313, 176, 246, 169, 167, 168, 163, 179]
}

/// The numbers of kexec_file_load, iopl, ioperm and modify_ldt.
pub open spec fn x86_numbers() -> Seq<i64> {
    seq![320, 172, 173, 154]
}

/// The numbers of clone3, io_uring_setup, io_uring_enter and
/// io_uring_register.
pub open spec fn fallback_numbers() -> Seq<i64> {
    seq![435, 425, 426, 427]
}

/// The constants `SYS_*` of `libc` for tracing and for the memory and the
/// descriptors of other processes have the numbers of `tracing_numbers`.
#[verifier::external_body]
pub(crate) fn tracing_calls() -> (r: [i64; 5])
    ensures
        r@ == tracing_numbers(),
{
    [
        libc::SYS_ptrace,
        libc::SYS_process_vm_readv,
        libc::SYS_process_vm_writev,
        libc::SYS_kcmp,
        libc::SYS_pidfd_getfd,
    ]
}

/// The constants `SYS_*` of `libc` for mounting, and for leaving a root
/// directory, have the numbers of `mount_numbers`.
#[verifier::external_body]
pub(crate) fn mount_calls() -> (r: [i64; 12])
    ensures
        r@ == mount_numbers(),
{
    [
        libc::SYS_mount, libc::SYS_umount2, libc::SYS_pivot_root, libc::SYS_chroot,
        libc::SYS_move_mount, libc::SYS_open_tree, libc::SYS_fsopen, libc::SYS_fsconfig,
        libc::SYS_fsmount, libc::SYS_fspick, libc::SYS_mount_setattr,
        libc::SYS_open_by_handle_at,
    ]
}

/// The constants `SYS_*` of `libc` for namespaces have the numbers of
/// `namespace_numbers`.
#[verifier::external_body]
pub(crate) fn namespace_calls() -> (r: [i64; 2])
    ensures
        r@ == namespace_numbers(),
{
    [libc::SYS_setns, libc::SYS_unshare]
}

/// The constants `SYS_*` of `libc` for optional kernel interfaces have the
/// numbers of `kernel_numbers`.
#[verifier::external_body]
pub(crate) fn kernel_calls() -> (r: [i64; 8])
    ensures
        r@ == kernel_numbers(),
{
    [
        libc::SYS_bpf, libc::SYS_userfaultfd, libc::SYS_perf_event_open, libc::SYS_keyctl,
        libc::SYS_add_key, libc::SYS_request_key, libc::SYS_lookup_dcookie, libc::SYS_syslog,
    ]
}

/// The constants `SYS_*` of `libc` for modules, kexec, swap, accounting and
/// quota have the numbers of `admin_numbers`.
#[verifier::external_body]
pub(crate) fn admin_calls() -> (r: [i64; 9])
    ensures
        r@ == admin_numbers(),
{
    [
        libc::SYS_init_module, libc::SYS_finit_module, libc::SYS_delete_module,
        libc::SYS_kexec_load, libc::SYS_reboot, libc::SYS_swapon, libc::SYS_swapoff,
        libc::SYS_acct, libc::SYS_quotactl,
    ]
}

/// The constants `SYS_*` of `libc` that the denylist has on x86 alone, or
/// takes there from `libc`, have the numbers of `x86_numbers`.
#[verifier::external_body]
pub(crate) fn x86_calls() -> (r: [i64; 4])
    ensures
        r@ == x86_numbers(),
{
    [libc::SYS_kexec_file_load, libc::SYS_iopl, libc::SYS_ioperm, libc::SYS_modify_ldt]
}

/// The constants `SYS_*` of `libc` for calls that runtimes probe have the
/// numbers of `fallback_numbers`.
#[verifier::external_body]
pub(crate) fn fallback_calls() -> (r: [i64; 4])
    ensures
        r@ == fallback_numbers(),
{
    [
        libc::SYS_clone3,
        libc::SYS_io_uring_setup,
        libc::SYS_io_uring_enter,
        libc::SYS_io_uring_register,
    ]
}

/// `libc::SYS_clone` is 56.
#[verifier::external_body]
pub(crate) fn clone_call() -> (r: i64)
    ensures
        r == 56,
{
    libc::SYS_clone
}

/// `libc::CLONE_NEWUSER`, `CLONE_NEWNS` and `CLONE_NEWPID` are these bits.
#[verifier::external_body]
pub(crate) fn namespace_flags() -> (r: [i32; 3])
    ensures
        r@ == seq![0x1000_0000i32, 0x2_0000, 0x2000_0000],
{
    [libc::CLONE_NEWUSER, libc::CLONE_NEWNS, libc::CLONE_NEWPID]
}

/// `libc::EPERM`, `ENOSYS`, `ELOOP` and `EEXIST` are 1, 38, 40 and 17.
#[verifier::external_body]
pub(crate) fn errnos() -> (r: [i32; 4])
    ensures
        r@ == seq![1i32, 38, 40, 17],
{
    [libc::EPERM, libc::ENOSYS, libc::ELOOP, libc::EEXIST]
}

/// `libc::O_RDONLY`, `O_WRONLY`, `O_CREAT`, `O_TRUNC` and `O_NOFOLLOW` are
/// these bits.
#[verifier::external_body]
pub(crate) fn open_flags() -> (r: [i32; 5])
    ensures
        r@ == seq![0i32, 0x1, 0x40, 0x200, 0x2_0000],
{
    [libc::O_RDONLY, libc::O_WRONLY, libc::O_CREAT, libc::O_TRUNC, libc::O_NOFOLLOW]
}

/// `libc::RLIMIT_CPU`, `RLIMIT_AS`, `RLIMIT_NPROC`, `RLIMIT_FSIZE` and
/// `RLIMIT_NOFILE` are 0, 9, 6, 1 and 7.
#[verifier::external_body]
pub(crate) fn rlimit_resources() -> (r: [i32; 5])
    ensures
        r@ == seq![0i32, 9, 6, 1, 7],
{
    [
        libc::RLIMIT_CPU as i32,
        libc::RLIMIT_AS as i32,
        libc::RLIMIT_NPROC as i32,
        libc::RLIMIT_FSIZE as i32,
        libc::RLIMIT_NOFILE as i32,
    ]
}

/// `libc::MS_REC` and `MS_PRIVATE` are these bits.
#[verifier::external_body]
pub(crate) fn mount_flags() -> (r: [u64; 2])
    ensures
        r@ == seq![0x4000u64, 0x4_0000],
{
    [libc::MS_REC, libc::MS_PRIVATE]
}

/// `libc::SIGKILL` is 9.
#[verifier::external_body]
pub(crate) fn sigkill() -> (r: i32)
    ensures
        r == 9,
{
    libc::SIGKILL
}

/// Whether a process with this wait status exited.
pub open spec fn exited(status: i32) -> bool {
    status & 0x7f == 0
}

/// The exit code of a process that exited.
pub open spec fn exit_code_of(status: i32) -> i32 {
    (status >> 8) & 0xff
}

/// Whether a process with this wait status was terminated by a signal: its low
/// seven bits are neither 0, for an exit, nor 0x7f, for a stop.
pub open spec fn signaled(status: i32) -> bool {
    status & 0x7f != 0 && status & 0x7f != 0x7f
}

/// The signal that terminated the process.
pub open spec fn signal_of(status: i32) -> i32 {
    status & 0x7f
}

/// `libc::WIFEXITED` tells an exit by the low seven bits being 0.
pub assume_specification[ libc::WIFEXITED ](status: i32) -> (r: bool)
    ensures
        r == exited(status),
;

/// `libc::WEXITSTATUS` is the second byte.
pub assume_specification[ libc::WEXITSTATUS ](status: i32) -> (r: i32)
    ensures
        r == exit_code_of(status),
;

/// `libc::WIFSIGNALED` adds one to the low seven bits and asks whether that,
/// as a signed byte, is at least 2: so for every value but 0 and 0x7f.
pub assume_specification[ libc::WIFSIGNALED ](status: i32) -> (r: bool)
    ensures
        r == signaled(status),
;

/// `libc::WTERMSIG` is the low seven bits.
pub assume_specification[ libc::WTERMSIG ](status: i32) -> (r: i32)
    ensures
        r == signal_of(status),
;

} // verus!
