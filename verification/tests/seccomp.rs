//! What the filter decides, and how it gets into a file.

use tallyrun::seccomp::{
    assemble, deny_enosys, deny_eperm, encode, filter_program, insn, install_fd, native_target,
    ret_errno, FilterTarget, InstallAction, SockFilter, AUDIT_ARCH, JEQ_K, JGE_K, JSET_K, LD_W_ABS,
    MAX_INSNS, OFF_ARCH, OFF_ARG0_LO, OFF_NR, RET_ALLOW, RET_K, RET_KILL_PROCESS,
    X32_SYSCALL_BIT,
};

/// Runs the few opcodes the assembler emits, so tests can check what the
/// filter decides for a given syscall.
fn eval(prog: &[SockFilter], arch: u32, nr: u32, arg0: u64) -> u32 {
    let word = |off: u32| match off {
        OFF_NR => nr,
        OFF_ARCH => arch,
        OFF_ARG0_LO => (arg0 & 0xffff_ffff) as u32,
        _ => panic!("unmodeled seccomp_data offset {off}"),
    };
    let mut a: u32 = 0;
    let mut pc = 0usize;
    loop {
        let i = prog[pc];
        pc += 1;
        match i.code {
            LD_W_ABS => a = word(i.k),
            JEQ_K => pc += if a == i.k { i.jt } else { i.jf } as usize,
            JGE_K => pc += if a >= i.k { i.jt } else { i.jf } as usize,
            JSET_K => pc += if a & i.k != 0 { i.jt } else { i.jf } as usize,
            RET_K => return i.k,
            c => panic!("unmodeled opcode {c:#x}"),
        }
    }
}

fn run(nr: i64, arg0: u64) -> u32 {
    eval(&filter_program(), AUDIT_ARCH, nr as u32, arg0)
}

fn eperm() -> u32 {
    ret_errno(libc::EPERM)
}

fn enosys() -> u32 {
    ret_errno(libc::ENOSYS)
}

#[test]
fn jumps_stay_in_bounds_and_program_terminates() {
    let p = filter_program();
    assert!(p.len() <= 4096, "BPF_MAXINSNS");
    for (i, ins) in p.iter().enumerate() {
        if matches!(ins.code, JEQ_K | JGE_K | JSET_K) {
            assert!((i + 1 + ins.jt as usize) < p.len());
            assert!((i + 1 + ins.jf as usize) < p.len());
        }
    }
    assert_eq!(p.last().unwrap().code, RET_K);
    assert_eq!(p.last().unwrap().k, RET_ALLOW);
}

#[test]
fn ordinary_syscalls_are_allowed() {
    for nr in [
        libc::SYS_read,
        libc::SYS_write,
        libc::SYS_mmap,
        libc::SYS_execve,
        libc::SYS_futex,
        libc::SYS_exit_group,
    ] {
        assert_eq!(run(nr, 0), RET_ALLOW, "syscall {nr} should be allowed");
    }
}

#[test]
fn attack_surface_is_eperm() {
    for nr in deny_eperm() {
        assert_eq!(run(nr, 0), eperm(), "syscall {nr} should be EPERM");
    }
}

#[test]
fn probe_and_fallback_surface_is_enosys() {
    for nr in deny_enosys() {
        assert_eq!(run(nr, 0), enosys(), "syscall {nr} should be ENOSYS");
    }
}

#[test]
fn clone_flag_inspection() {
    let newuser = libc::CLONE_NEWUSER as u64;
    assert_eq!(run(libc::SYS_clone, newuser), eperm());
    assert_eq!(run(libc::SYS_clone, newuser | 0x11), eperm());
    // plain fork()/pthread_create() flag shapes stay allowed
    assert_eq!(run(libc::SYS_clone, libc::SIGCHLD as u64), RET_ALLOW);
    assert_eq!(run(libc::SYS_clone, 0x3d0f00), RET_ALLOW); // typical thread flags
}

#[test]
fn exhaustive_syscall_sweep_matches_the_deny_tables() {
    // Every syscall number gets exactly the verdict its table says. An
    // off-by-one jump anywhere would misroute a neighboring syscall.
    let p = filter_program();
    let denied: Vec<u32> = deny_eperm().iter().map(|&n| n as u32).collect();
    let missing: Vec<u32> = deny_enosys().iter().map(|&n| n as u32).collect();
    for nr in 0..1024u32 {
        let want = if denied.contains(&nr) {
            eperm()
        } else if missing.contains(&nr) {
            enosys()
        } else {
            RET_ALLOW
        };
        assert_eq!(eval(&p, AUDIT_ARCH, nr, 0), want, "syscall {nr}, arg0=0");
        // With CLONE_NEWUSER in arg0, only clone's verdict may change.
        let want_flagged = if nr == libc::SYS_clone as u32 {
            eperm()
        } else {
            want
        };
        assert_eq!(
            eval(&p, AUDIT_ARCH, nr, libc::CLONE_NEWUSER as u64),
            want_flagged,
            "syscall {nr}, arg0=CLONE_NEWUSER"
        );
    }
}

#[test]
fn foreign_arch_is_killed() {
    let p = filter_program();
    assert_eq!(
        eval(&p, 0xdead_beef, libc::SYS_read as u32, 0),
        RET_KILL_PROCESS
    );
}

#[test]
fn x32_numbering_is_killed() {
    assert_eq!(run(0x4000_0000 + 1, 0), RET_KILL_PROCESS);
}

#[test]
fn deny_tables_hold_the_numbers_of_the_c_library() {
    assert_eq!(
        deny_enosys(),
        vec![
            libc::SYS_clone3,
            libc::SYS_io_uring_setup,
            libc::SYS_io_uring_enter,
            libc::SYS_io_uring_register,
        ]
    );
    let table = deny_eperm();
    for nr in [
        libc::SYS_ptrace,
        libc::SYS_pidfd_getfd,
        libc::SYS_mount,
        libc::SYS_open_by_handle_at,
        libc::SYS_setns,
        libc::SYS_unshare,
        libc::SYS_bpf,
        libc::SYS_syslog,
        libc::SYS_init_module,
        libc::SYS_quotactl,
        libc::SYS_kexec_file_load,
        libc::SYS_modify_ldt,
    ] {
        assert!(table.contains(&nr), "syscall {nr}");
    }
    assert_eq!(table.len(), 40);
}

#[test]
fn denials_carry_the_errno() {
    assert_eq!(ret_errno(1), 0x0005_0001);
    assert_eq!(ret_errno(38), 0x0005_0026);
    // Only the low sixteen bits are data.
    assert_eq!(ret_errno(0x1_0002), 0x0005_0002);
}

#[test]
fn an_instruction_is_its_fields() {
    let i = insn(JEQ_K, 1, 2, 3);
    assert_eq!((i.code, i.jt, i.jf, i.k), (JEQ_K, 1, 2, 3));
}

#[test]
fn the_program_starts_with_the_architecture() {
    let p = filter_program();
    let head: Vec<(u16, u8, u8, u32)> = p[..3].iter().map(|i| (i.code, i.jt, i.jf, i.k)).collect();
    assert_eq!(
        head,
        vec![
            (LD_W_ABS, 0, 0, OFF_ARCH),
            (JEQ_K, 1, 0, AUDIT_ARCH),
            (RET_K, 0, 0, RET_KILL_PROCESS),
        ]
    );
    assert!(p.len() <= MAX_INSNS);
}

#[test]
fn a_target_without_x32_has_no_second_numbering() {
    let t = FilterTarget {
        audit_arch: 0xc000_00b7,
        x32_bit: None,
        clone_nr: 220,
        eperm: vec![117, 97],
        enosys: vec![435],
    };
    let p = assemble(&t);
    assert_eq!(eval(&p, 0xc000_00b7, 63, 0), RET_ALLOW);
    assert_eq!(eval(&p, 0xc000_00b7, X32_SYSCALL_BIT + 1, 0), RET_ALLOW);
    assert_eq!(eval(&p, 0xc000_00b7, 117, 0), eperm());
    assert_eq!(eval(&p, 0xc000_00b7, 97, 0), eperm());
    assert_eq!(eval(&p, 0xc000_00b7, 435, 0), enosys());
    assert_eq!(eval(&p, 0xc000_00b7, 220, 0x1000_0000), eperm());
    assert_eq!(eval(&p, 0xc000_00b7, 220, 0x11), RET_ALLOW);
    assert_eq!(eval(&p, AUDIT_ARCH, 63, 0), RET_KILL_PROCESS);
    assert_eq!(assemble(&native_target()).len(), filter_program().len());
}

#[test]
fn only_the_low_half_of_the_clone_flags_counts() {
    assert_eq!(run(libc::SYS_clone, 0x1000_0000 << 32), RET_ALLOW);
}

#[test]
fn instructions_are_eight_bytes() {
    let one = [insn(0x15, 1, 2, 0x0403_0201)];
    assert_eq!(encode(&one), vec![0x15, 0, 1, 2, 1, 2, 3, 4]);
    let p = filter_program();
    assert_eq!(encode(&p).len(), 8 * p.len());
    assert_eq!(encode(&[]), Vec::<u8>::new());
}

#[test]
fn the_image_reads_back() {
    let p = filter_program();
    let bytes = encode(&p);
    for (i, ins) in p.iter().enumerate() {
        let b = &bytes[8 * i..8 * i + 8];
        assert_eq!(u16::from_le_bytes([b[0], b[1]]), ins.code);
        assert_eq!((b[2], b[3]), (ins.jt, ins.jf));
        assert_eq!(u32::from_le_bytes([b[4], b[5], b[6], b[7]]), ins.k);
    }
}

#[test]
fn installing_writes_everything_then_rewinds() {
    let mut i = install_fd();
    let len = i.bytes.len();
    assert_eq!(i.bytes, encode(&filter_program()));
    assert_eq!(i.pending, InstallAction::Create);
    i.advance(7);
    assert_eq!(i.pending, InstallAction::Write(0));
    i.advance(100);
    assert_eq!(i.pending, InstallAction::Write(100));
    i.advance(0);
    assert_eq!(i.pending, InstallAction::Write(100));
    i.advance(len as i64 - 100);
    assert_eq!(i.pending, InstallAction::Rewind);
    i.advance(0);
    assert_eq!(i.pending, InstallAction::Ready);
    i.advance(-1);
    assert_eq!(i.pending, InstallAction::Ready);
}

#[test]
fn short_writes_put_the_whole_program_into_the_file() {
    let mut i = install_fd();
    let mut file: Vec<u8> = Vec::new();
    i.advance(3);
    while let InstallAction::Write(from) = i.pending {
        let n = (i.bytes.len() - from).min(13);
        file.extend_from_slice(&i.bytes[from..from + n]);
        i.advance(n as i64);
    }
    assert_eq!(i.pending, InstallAction::Rewind);
    assert_eq!(file, i.bytes);
}

#[test]
fn installing_fails_with_any_of_its_calls() {
    let mut create = install_fd();
    create.advance(-1);
    assert_eq!(create.pending, InstallAction::Failed);
    let mut write = install_fd();
    write.advance(7);
    write.advance(-1);
    assert_eq!(write.pending, InstallAction::Failed);
    let mut rewind = install_fd();
    rewind.advance(7);
    rewind.advance(1 << 20);
    rewind.advance(-1);
    assert_eq!(rewind.pending, InstallAction::Failed);
    rewind.advance(0);
    assert_eq!(rewind.pending, InstallAction::Failed);
}
