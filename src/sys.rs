//! The calls into nix and libc that the tracer makes, each with what it is
//! relied on to do.

use vstd::prelude::*;
use nix::errno::Errno;
use nix::unistd::Pid;
use crate::arch::RegisterFile;
use crate::page::{pieces_view, total_len};
use crate::tracee::OsTraceError;

verus! {

#[verifier::external_type_specification]
#[verifier::external_body]
pub struct ExPid(Pid);

#[verifier::external_type_specification]
#[verifier::external_body]
pub struct ExErrno(Errno);

/// Relies on nix::sys::ptrace::traceme: asks the parent to trace this process.
#[verifier::external_body]
pub(crate) fn ptrace_traceme() -> (r: Result<(), Errno>) {
    nix::sys::ptrace::traceme()
}

/// Relies on nix::sys::ptrace::setoptions: reports system-call stops as
/// their own kind of stop, and keeps tracing across an exec.
#[verifier::external_body]
pub(crate) fn ptrace_setoptions(pid: Pid) -> (r: Result<(), Errno>) {
    nix::sys::ptrace::setoptions(
        pid,
        nix::sys::ptrace::Options::PTRACE_O_TRACESYSGOOD
            | nix::sys::ptrace::Options::PTRACE_O_TRACEEXEC,
    )
}

/// Relies on nix::sys::ptrace::syscall: lets the process run to its next
/// system-call boundary, delivering no signal.
#[verifier::external_body]
pub(crate) fn ptrace_syscall(pid: Pid) -> (r: Result<(), Errno>) {
    nix::sys::ptrace::syscall(pid, None)
}

/// Relies on nix::sys::ptrace::getregs: reads the stopped process's
/// register file.
#[verifier::external_body]
pub(crate) fn ptrace_getregs(pid: Pid) -> (r: Result<RegisterFile, Errno>) {
    let regs = nix::sys::ptrace::getregs(pid)?;
    Ok(RegisterFile {
        orig_rax: regs.orig_rax,
        rax: regs.rax,
        rdi: regs.rdi,
        rsi: regs.rsi,
        rdx: regs.rdx,
        r10: regs.r10,
        r8: regs.r8,
        r9: regs.r9,
    })
}

/// Relies on nix::sys::uio::process_vm_readv, with one local buffer of
/// `total` bytes: on success the count it returns is always a whole number
/// of the remote pieces, read from the front. `EFAULT` (an address outside
/// the process's mappings) is told apart from the other errors.
#[verifier::external_body]
pub(crate) fn process_vm_readv(pid: Pid, pieces: &Vec<(usize, usize)>, total: usize) -> (r: Result<
    Vec<u8>,
    OsTraceError,
>)
    requires
        total == total_len(pieces_view(pieces@)),
    ensures
        r matches Ok(v) ==> exists|k: int|
            0 <= k <= pieces@.len() && v@.len() == total_len(
                #[trigger] pieces_view(pieces@).take(k),
            ),
{
    let mut buf = vec![0u8; total];
    let remote: Vec<nix::sys::uio::RemoteIoVec> =
        pieces.iter().map(|&(base, len)| nix::sys::uio::RemoteIoVec { base, len }).collect();
    let local = &mut [std::io::IoSliceMut::new(&mut buf)];
    match nix::sys::uio::process_vm_readv(pid, local, &remote) {
        Ok(n) => {
            buf.truncate(n);
            Ok(buf)
        },
        Err(Errno::EFAULT) => Err(OsTraceError::BadAddress),
        Err(e) => Err(OsTraceError::Sys(e)),
    }
}

/// Relies on libc::O_CREAT, the open flag that asks for creation
/// (0o100 on Linux x86-64).
#[verifier::external_body]
pub(crate) fn o_creat() -> (r: u64)
    ensures
        r == 64,
{
    libc::O_CREAT as u64
}

/// Relies on libc::UIO_MAXIOV, the most pieces that one vectored read
/// takes (1024 on Linux).
#[verifier::external_body]
pub(crate) fn max_iov() -> (r: usize)
    ensures
        r == 1024,
{
    libc::UIO_MAXIOV as usize
}

/// Relies on libc::PATH_MAX, the longest path the kernel takes (4096 on Linux).
#[verifier::external_body]
pub(crate) fn path_max() -> (r: usize)
    ensures
        r == 4096,
{
    libc::PATH_MAX as usize
}

} // verus!
