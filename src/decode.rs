//! Turning a system call at entry into a typed record.

use vstd::prelude::*;
use crate::arch::{RegisterFile, argument_location, syscall_number_location};
use crate::syscall::{Buffer, Syscall};
use crate::sys;
use crate::page::total_len;
use crate::tracee::{OsTraceError, Tracee, bounded_cstr, read_pieces};

verus! {

/// The longest path read for a call that takes one.
pub open spec fn path_bound() -> int {
    4096
}

/// The file-creation mode of an `open` call: its third argument when the
/// flags ask for creation (`O_CREAT`), and zero otherwise.
pub open spec fn open_mode(flags: u64, raw: u64) -> u64 {
    if flags & 64 != 0 {
        raw
    } else {
        0
    }
}

/// The mode of an `open` call is zero when the flags lack `O_CREAT`,
/// whatever the third argument holds, and is the third argument when they
/// have it.
pub proof fn lemma_open_mode(flags: u64, raw: u64)
    ensures
        flags & 64 == 0 ==> open_mode(flags, raw) == 0,
        flags & 64 != 0 ==> open_mode(flags, raw) == raw,
{
}

/// Whether decoding call `nr` reads the process's memory: the data of a
/// `write`, the path of an `open`, `stat` or `lstat`.
pub open spec fn reads_memory(nr: u64) -> bool {
    nr == 1 || nr == 2 || nr == 4 || nr == 6
}

/// Whether `nr` has a parser of its own (`read` to `lstat`, numbers 0 to 6).
pub open spec fn is_handled(nr: u64) -> bool {
    nr <= 6
}

/// The record of the call in `regs`, with `fetched` as the bytes read from
/// memory where the call needs any.
pub open spec fn record_of(regs: RegisterFile, fetched: Option<Vec<u8>>) -> Syscall {
    let nr = regs.orig_rax;
    if nr == 0 {
        Syscall::Read {
            fd: regs.arg(0),
            buf: Buffer { addr: regs.arg(1), data: None },
            count: regs.arg(2),
        }
    } else if nr == 1 {
        Syscall::Write {
            fd: regs.arg(0),
            buf: Buffer { addr: regs.arg(1), data: fetched },
            count: regs.arg(2),
        }
    } else if nr == 2 {
        Syscall::Open {
            pathname: Buffer { addr: regs.arg(0), data: fetched },
            flags: regs.arg(1),
            mode: open_mode(regs.arg(1), regs.arg(2)),
        }
    } else if nr == 3 {
        Syscall::Close { fd: regs.arg(0) }
    } else if nr == 4 {
        Syscall::Stat { pathname: Buffer { addr: regs.arg(0), data: fetched }, buf: regs.arg(1) }
    } else if nr == 5 {
        Syscall::Fstat { fd: regs.arg(0), buf: regs.arg(1) }
    } else if nr == 6 {
        Syscall::Lstat { pathname: Buffer { addr: regs.arg(0), data: fetched }, buf: regs.arg(1) }
    } else {
        Syscall::Unknown {
            nr: nr,
            a: regs.arg(0),
            b: regs.arg(1),
            c: regs.arg(2),
            d: regs.arg(3),
            e: regs.arg(4),
            f: regs.arg(5),
        }
    }
}

/// Whether `fetched` can be what was read from memory for the call in
/// `regs`: for a `write`, the bytes of whole leading pages of the `count`
/// bytes at its buffer's address; a bounded C string for a path; and
/// nothing for the other calls.
pub open spec fn fetched_ok(regs: RegisterFile, fetched: Option<Vec<u8>>) -> bool {
    let nr = regs.orig_rax;
    let pieces = read_pieces(regs.arg(1) as usize, regs.arg(2) as usize);
    if nr == 1 {
        fetched matches Some(d) && d@.len() <= regs.arg(2) && exists|k: int|
            0 <= k <= pieces.len() && d@.len() == total_len(#[trigger] pieces.take(k))
    } else if nr == 2 || nr == 4 || nr == 6 {
        fetched matches Some(d) && bounded_cstr(d@, path_bound())
    } else {
        fetched is None
    }
}

fn arg(regs: &RegisterFile, i: u8) -> (v: u64)
    requires
        i < 6,
    ensures
        v == regs.arg(i as int),
{
    regs.get(argument_location(i))
}

fn parse_read(regs: &RegisterFile) -> (s: Syscall)
    ensures
        s == (Syscall::Read {
            fd: regs.arg(0),
            buf: Buffer { addr: regs.arg(1), data: None },
            count: regs.arg(2),
        }),
{
    let fd = arg(regs, 0);
    let buf = Buffer { addr: arg(regs, 1), data: None };
    let count = arg(regs, 2);
    Syscall::Read { fd: fd, buf: buf, count: count }
}

fn parse_write(regs: &RegisterFile, data: Option<Vec<u8>>) -> (s: Syscall)
    ensures
        s == (Syscall::Write {
            fd: regs.arg(0),
            buf: Buffer { addr: regs.arg(1), data: data },
            count: regs.arg(2),
        }),
{
    let fd = arg(regs, 0);
    let addr = arg(regs, 1);
    let count = arg(regs, 2);
    Syscall::Write { fd: fd, buf: Buffer { addr: addr, data: data }, count: count }
}

fn parse_open(regs: &RegisterFile, path: Option<Vec<u8>>) -> (s: Syscall)
    ensures
        s == (Syscall::Open {
            pathname: Buffer { addr: regs.arg(0), data: path },
            flags: regs.arg(1),
            mode: open_mode(regs.arg(1), regs.arg(2)),
        }),
{
    let pathname = Buffer { addr: arg(regs, 0), data: path };
    let flags = arg(regs, 1);
    let mode = if flags & sys::o_creat() != 0 {
        arg(regs, 2)
    } else {
        0
    };
    Syscall::Open { pathname: pathname, flags: flags, mode: mode }
}

fn parse_close(regs: &RegisterFile) -> (s: Syscall)
    ensures
        s == (Syscall::Close { fd: regs.arg(0) }),
{
    Syscall::Close { fd: arg(regs, 0) }
}

fn parse_stat(regs: &RegisterFile, path: Option<Vec<u8>>) -> (s: Syscall)
    ensures
        s == (Syscall::Stat {
            pathname: Buffer { addr: regs.arg(0), data: path },
            buf: regs.arg(1),
        }),
{
    let pathname = Buffer { addr: arg(regs, 0), data: path };
    Syscall::Stat { pathname: pathname, buf: arg(regs, 1) }
}

fn parse_fstat(regs: &RegisterFile) -> (s: Syscall)
    ensures
        s == (Syscall::Fstat { fd: regs.arg(0), buf: regs.arg(1) }),
{
    let fd = arg(regs, 0);
    let buf = arg(regs, 1);
    Syscall::Fstat { fd: fd, buf: buf }
}

fn parse_lstat(regs: &RegisterFile, path: Option<Vec<u8>>) -> (s: Syscall)
    ensures
        s == (Syscall::Lstat {
            pathname: Buffer { addr: regs.arg(0), data: path },
            buf: regs.arg(1),
        }),
{
    let pathname = Buffer { addr: arg(regs, 0), data: path };
    Syscall::Lstat { pathname: pathname, buf: arg(regs, 1) }
}

fn parse_unknown(regs: &RegisterFile, nr: u64) -> (s: Syscall)
    ensures
        s == (Syscall::Unknown {
            nr: nr,
            a: regs.arg(0),
            b: regs.arg(1),
            c: regs.arg(2),
            d: regs.arg(3),
            e: regs.arg(4),
            f: regs.arg(5),
        }),
{
    Syscall::Unknown {
        nr: nr,
        a: arg(regs, 0),
        b: arg(regs, 1),
        c: arg(regs, 2),
        d: arg(regs, 3),
        e: arg(regs, 4),
        f: arg(regs, 5),
    }
}

/// Builds the record of the call in `regs`, given the bytes read from
/// memory for it, if any. Every call number gives a record: one that has
/// no parser of its own gives `Unknown` with the number and the six raw
/// arguments.
pub fn assemble(regs: &RegisterFile, fetched: Option<Vec<u8>>) -> (s: Syscall)
    ensures
        s == record_of(*regs, fetched),
        !is_handled(regs.orig_rax) ==> s == (Syscall::Unknown {
            nr: regs.orig_rax,
            a: regs.arg(0),
            b: regs.arg(1),
            c: regs.arg(2),
            d: regs.arg(3),
            e: regs.arg(4),
            f: regs.arg(5),
        }),
        s matches Syscall::Open { flags, mode, .. } ==> mode == open_mode(flags, regs.arg(2)),
{
    match regs.get(syscall_number_location()) {
        0 => parse_read(regs),
        1 => parse_write(regs, fetched),
        2 => parse_open(regs, fetched),
        3 => parse_close(regs),
        4 => parse_stat(regs, fetched),
        5 => parse_fstat(regs),
        6 => parse_lstat(regs, fetched),
        other => parse_unknown(regs, other),
    }
}

/// The bytes of a path read, whether or not the read was complete: a read
/// cut short by an unmapped page still gives a record. A failed read is
/// returned.
pub fn path_data(read: Result<(Vec<u8>, bool), OsTraceError>) -> (r: Result<
    Option<Vec<u8>>,
    OsTraceError,
>)
    ensures
        read is Ok ==> r == Ok::<Option<Vec<u8>>, OsTraceError>(Some(read->Ok_0.0)),
        read is Err ==> r == Err::<Option<Vec<u8>>, OsTraceError>(read->Err_0),
{
    match read {
        Ok((path, _complete)) => Ok(Some(path)),
        Err(e) => Err(e),
    }
}

/// Reads from the process's memory what the call in `regs` needs: the
/// `count` bytes that a `write` writes, or the path of an `open`, `stat`
/// or `lstat`.
fn fetch(tracee: &mut Tracee, regs: &RegisterFile) -> (r: Result<Option<Vec<u8>>, OsTraceError>)
    requires
        !old(tracee).exited(),
    ensures
        *final(tracee) == *old(tracee),
        r matches Ok(f) ==> fetched_ok(*regs, f),
        !reads_memory(regs.orig_rax) ==> r == Ok::<Option<Vec<u8>>, OsTraceError>(None),
{
    let nr = regs.get(syscall_number_location());
    if nr == 1 {
        let data = tracee.copy_from(arg(regs, 1) as usize, arg(regs, 2) as usize)?;
        Ok(Some(data))
    } else if nr == 2 || nr == 4 || nr == 6 {
        path_data(tracee.strncpy_from(arg(regs, 0) as usize, sys::path_max()))
    } else {
        Ok(None)
    }
}

/// Decodes the call in `regs`, reading from the process's memory what the
/// call needs. Fails only where that read fails.
pub fn decode_registers(tracee: &mut Tracee, regs: &RegisterFile) -> (r: Result<
    Syscall,
    OsTraceError,
>)
    requires
        !old(tracee).exited(),
    ensures
        *final(tracee) == *old(tracee),
        r matches Ok(s) ==> exists|f: Option<Vec<u8>>| fetched_ok(*regs, f) && s == record_of(*regs, f),
        !reads_memory(regs.orig_rax) ==> r == Ok::<Syscall, OsTraceError>(record_of(*regs, None)),
        r matches Ok(Syscall::Open { flags, mode, .. }) ==> flags == regs.arg(1) && mode
            == open_mode(regs.arg(1), regs.arg(2)),
{
    let fetched = fetch(tracee, regs)?;
    Ok(assemble(regs, fetched))
}

/// Decodes the system call at which the process is stopped; meaningful
/// right after a `SysEnter` event.
pub fn decode(tracee: &mut Tracee) -> (r: Result<Syscall, OsTraceError>)
    requires
        !old(tracee).exited(),
    ensures
        *final(tracee) == *old(tracee),
        r matches Ok(s) ==> exists|regs: RegisterFile, f: Option<Vec<u8>>|
            fetched_ok(regs, f) && s == record_of(regs, f),
{
    let regs = tracee.registers()?;
    decode_registers(tracee, &regs)
}

/// Completes a record at the exit of its call. Records need nothing from
/// the exit yet, so each is kept as it is.
pub fn fixup(syscall: Syscall) -> (r: Syscall)
    ensures
        r == syscall,
{
    syscall
}

} // verus!
