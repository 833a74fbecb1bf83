//! System calls: the registers that `syscall` and `sysret` go by, and the
//! calls that the kernel answers.

use vstd::prelude::*;
use crate::arch::cpu::{Cpu, MsrWrite, EFER_SCE, IA32_FMASK, IA32_LSTAR, IA32_STAR, RFLAGS_IF};
use crate::bits::set_bits_u64;
use crate::console::{Console, LogLevel, TerminalState, spec_write_bytes};
use crate::interrupts::{KERN_CS_SEL, USER_CS_SEL};

verus! {

#[allow(non_camel_case_types)]
#[derive(Debug, Clone, Copy, PartialEq, Eq, Structural)]
pub enum Syscall {
    NONE,
    FORK,
    EXIT,
    WAIT,
    PIPE,
    READ,
    KILL,
    EXEC,
    FSTAT,
    CHDIR,
    DUP,
    GETPID,
    SBRK,
    SLEEP,
    UPTIME,
    OPEN,
    WRITE,
    MKNOD,
    UNLINK,
    LINK,
    MKDIR,
    CLOSE,
    MOUNT,
    UMOUNT,
    GETPPID,
    MMAP,
    READDIR,
    DUP2,
    KDUMP,
    LSEEK,
    STAT,
    LSTAT,
    SIGNAL,
    SIGACTION,
    SIGPENDING,
    SIGPROCMASK,
    SIGSUSPEND,
    SIGRETURN,
    WAITPID,
    FCHDIR,
    GETCWD,
    NR_SYSCALL,
}

impl Syscall {
    pub open spec fn spec_number(self) -> u64 {
        match self {
            Syscall::NONE => 0,
            Syscall::FORK => 1,
            Syscall::EXIT => 2,
            Syscall::WAIT => 3,
            Syscall::PIPE => 4,
            Syscall::READ => 5,
            Syscall::KILL => 6,
            Syscall::EXEC => 7,
            Syscall::FSTAT => 8,
            Syscall::CHDIR => 9,
            Syscall::DUP => 10,
            Syscall::GETPID => 11,
            Syscall::SBRK => 12,
            Syscall::SLEEP => 13,
            Syscall::UPTIME => 14,
            Syscall::OPEN => 15,
            Syscall::WRITE => 16,
            Syscall::MKNOD => 17,
            Syscall::UNLINK => 18,
            Syscall::LINK => 19,
            Syscall::MKDIR => 20,
            Syscall::CLOSE => 21,
            Syscall::MOUNT => 22,
            Syscall::UMOUNT => 23,
            Syscall::GETPPID => 24,
            Syscall::MMAP => 25,
            Syscall::READDIR => 26,
            Syscall::DUP2 => 27,
            Syscall::KDUMP => 28,
            Syscall::LSEEK => 29,
            Syscall::STAT => 30,
            Syscall::LSTAT => 31,
            Syscall::SIGNAL => 32,
            Syscall::SIGACTION => 33,
            Syscall::SIGPENDING => 34,
            Syscall::SIGPROCMASK => 35,
            Syscall::SIGSUSPEND => 36,
            Syscall::SIGRETURN => 37,
            Syscall::WAITPID => 38,
            Syscall::FCHDIR => 39,
            Syscall::GETCWD => 40,
            Syscall::NR_SYSCALL => 41,
        }
    }

    pub fn number(self) -> (n: u64)
        ensures
            n == self.spec_number(),
    {
        match self {
            Syscall::NONE => 0,
            Syscall::FORK => 1,
            Syscall::EXIT => 2,
            Syscall::WAIT => 3,
            Syscall::PIPE => 4,
            Syscall::READ => 5,
            Syscall::KILL => 6,
            Syscall::EXEC => 7,
            Syscall::FSTAT => 8,
            Syscall::CHDIR => 9,
            Syscall::DUP => 10,
            Syscall::GETPID => 11,
            Syscall::SBRK => 12,
            Syscall::SLEEP => 13,
            Syscall::UPTIME => 14,
            Syscall::OPEN => 15,
            Syscall::WRITE => 16,
            Syscall::MKNOD => 17,
            Syscall::UNLINK => 18,
            Syscall::LINK => 19,
            Syscall::MKDIR => 20,
            Syscall::CLOSE => 21,
            Syscall::MOUNT => 22,
            Syscall::UMOUNT => 23,
            Syscall::GETPPID => 24,
            Syscall::MMAP => 25,
            Syscall::READDIR => 26,
            Syscall::DUP2 => 27,
            Syscall::KDUMP => 28,
            Syscall::LSEEK => 29,
            Syscall::STAT => 30,
            Syscall::LSTAT => 31,
            Syscall::SIGNAL => 32,
            Syscall::SIGACTION => 33,
            Syscall::SIGPENDING => 34,
            Syscall::SIGPROCMASK => 35,
            Syscall::SIGSUSPEND => 36,
            Syscall::SIGRETURN => 37,
            Syscall::WAITPID => 38,
            Syscall::FCHDIR => 39,
            Syscall::GETCWD => 40,
            Syscall::NR_SYSCALL => 41,
        }
    }

    /// The call with the number `id`; none for a number above `NR_SYSCALL`.
    pub fn from_number(id: u64) -> (r: Option<Syscall>)
        ensures
            r.is_some() == (id <= 41),
            r.is_some() ==> r.unwrap().spec_number() == id,
    {
        match id {
            0 => Some(Syscall::NONE),
            1 => Some(Syscall::FORK),
            2 => Some(Syscall::EXIT),
            3 => Some(Syscall::WAIT),
            4 => Some(Syscall::PIPE),
            5 => Some(Syscall::READ),
            6 => Some(Syscall::KILL),
            7 => Some(Syscall::EXEC),
            8 => Some(Syscall::FSTAT),
            9 => Some(Syscall::CHDIR),
            10 => Some(Syscall::DUP),
            11 => Some(Syscall::GETPID),
            12 => Some(Syscall::SBRK),
            13 => Some(Syscall::SLEEP),
            14 => Some(Syscall::UPTIME),
            15 => Some(Syscall::OPEN),
            16 => Some(Syscall::WRITE),
            17 => Some(Syscall::MKNOD),
            18 => Some(Syscall::UNLINK),
            19 => Some(Syscall::LINK),
            20 => Some(Syscall::MKDIR),
            21 => Some(Syscall::CLOSE),
            22 => Some(Syscall::MOUNT),
            23 => Some(Syscall::UMOUNT),
            24 => Some(Syscall::GETPPID),
            25 => Some(Syscall::MMAP),
            26 => Some(Syscall::READDIR),
            27 => Some(Syscall::DUP2),
            28 => Some(Syscall::KDUMP),
            29 => Some(Syscall::LSEEK),
            30 => Some(Syscall::STAT),
            31 => Some(Syscall::LSTAT),
            32 => Some(Syscall::SIGNAL),
            33 => Some(Syscall::SIGACTION),
            34 => Some(Syscall::SIGPENDING),
            35 => Some(Syscall::SIGPROCMASK),
            36 => Some(Syscall::SIGSUSPEND),
            37 => Some(Syscall::SIGRETURN),
            38 => Some(Syscall::WAITPID),
            39 => Some(Syscall::FCHDIR),
            40 => Some(Syscall::GETCWD),
            41 => Some(Syscall::NR_SYSCALL),
            _ => None,
        }
    }
}

/// The row of the console that system calls are reported in.
pub const SYSCALL_ROW: usize = 18;

/// What `IA32_STAR` is set to: the selector of the kernel's code segment in
/// bits 32..48, that of the user code segment in bits 48..64.
pub const STAR_VALUE: u64 = 0x0023_0008_0000_0000;

/// What `IA32_FMASK` is set to: `syscall` enters the kernel with interrupts off.
pub const FMASK_VALUE: u64 = 0x0200;

/// The writes that set up `syscall` and `sysret`, with the entry point at
/// `syscall_entry`.
pub open spec fn spec_syscall_msrs(syscall_entry: u64) -> Seq<MsrWrite> {
    seq![
        MsrWrite { msr: IA32_STAR, value: STAR_VALUE },
        MsrWrite { msr: IA32_LSTAR, value: syscall_entry },
        MsrWrite { msr: IA32_FMASK, value: FMASK_VALUE },
    ]
}

/// Sets up `syscall` and `sysret`: returns the writes to the three
/// registers that they go by, and enables them in `EFER`.
pub fn init(cpu: &mut Cpu, syscall_entry: u64) -> (w: Vec<MsrWrite>)
    ensures
        w@ == spec_syscall_msrs(syscall_entry),
        *final(cpu) == (Cpu { efer: old(cpu).efer | EFER_SCE, ..*old(cpu) }),
{
    proof {
        assert(crate::bits::fits_u64(8, 16) && crate::bits::fits_u64(35, 16) && (((0u64
            & !crate::bits::spec_mask_u64(32, 48)) | (8u64 << 32u64)) & !crate::bits::spec_mask_u64(
            48,
            64,
        )) | (35u64 << 48u64) == 0x0023_0008_0000_0000u64 && (1u64 << 9) == 0x200) by (bit_vector);
    }
    let star = set_bits_u64(0, 32, 48, KERN_CS_SEL as u64);
    let star = set_bits_u64(star, 48, 64, USER_CS_SEL as u64);
    let mut w: Vec<MsrWrite> = Vec::new();
    w.push(MsrWrite { msr: IA32_STAR, value: star });
    w.push(MsrWrite { msr: IA32_LSTAR, value: syscall_entry });
    w.push(MsrWrite { msr: IA32_FMASK, value: RFLAGS_IF });
    cpu.enable_sce_bit();
    assert(w@ =~= spec_syscall_msrs(syscall_entry));
    w
}

/// The console after `text` was logged at the level `Debug` from the start
/// of row `SYSCALL_ROW`, with the cursor and the colours put back.
pub open spec fn spec_logged(t: TerminalState, text: Seq<u8>, kdebug: bool) -> TerminalState {
    if kdebug {
        TerminalState {
            cursor: t.cursor,
            attr: t.attr,
            ..spec_write_bytes(
                TerminalState {
                    cursor: SYSCALL_ROW * t.cols,
                    attr: LogLevel::Debug.spec_attribute(),
                    ..t
                },
                text,
                0,
            )
        }
    } else {
        t
    }
}

/// `WRITE`: hands the bytes to the log, at the level `Debug`. Where such
/// messages are shown, the console must have row `SYSCALL_ROW`.
pub fn sys_write(con: &mut Console, fd: i64, buf: &[u8], kdebug: bool)
    requires
        old(con).wf(),
        kdebug ==> old(con)@.rows > SYSCALL_ROW,
    ensures
        final(con).wf(),
        final(con)@ == spec_logged(old(con)@, buf@, kdebug),
{
    proof {
        con.lemma_wf();
        let cols = con@.cols;
        let rows = con@.rows;
        assert(18 * cols <= 18 * (rows * cols)) by (nonlinear_arith)
            requires
                rows >= 1,
                cols >= 1,
        ;
    }
    con.with(SYSCALL_ROW, 0, LogLevel::Debug, buf, kdebug);
}

/// Answers the system call with the number `id`. Only `WRITE` is answered:
/// its bytes, which the caller has fetched from the task's memory, are
/// handed to the log.
pub fn syscall_dispatch(con: &mut Console, id: u64, args: &[u64; 6], buf: &[u8], kdebug: bool)
    requires
        old(con).wf(),
        kdebug ==> old(con)@.rows > SYSCALL_ROW,
        id == Syscall::WRITE.spec_number(),
    ensures
        final(con).wf(),
        final(con)@ == spec_logged(old(con)@, buf@, kdebug),
{
    sys_write(con, args[0] as i64, buf, kdebug);
}

} // verus!
