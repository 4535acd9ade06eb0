use gtrace::arch::RegisterFile;
use gtrace::decode::{assemble, fixup};
use gtrace::syscall::{radix, Buffer, Syscall};

fn regs(nr: u64, args: [u64; 6]) -> RegisterFile {
    RegisterFile {
        orig_rax: nr,
        rax: 0,
        rdi: args[0],
        rsi: args[1],
        rdx: args[2],
        r10: args[3],
        r8: args[4],
        r9: args[5],
    }
}

#[test]
fn unknown_numbers_keep_number_and_arguments() {
    for nr in [7u64, 62, 231, u64::MAX] {
        let s = assemble(&regs(nr, [1, 2, 3, 4, 5, 6]), None);
        assert_eq!(s, Syscall::Unknown { nr, a: 1, b: 2, c: 3, d: 4, e: 5, f: 6 });
    }
}

#[test]
fn open_mode_only_with_create_flag() {
    let path = Some(b"/tmp/x\0".to_vec());
    let s = assemble(&regs(2, [100, 0o1, 0o644, 9, 9, 9]), path.clone());
    assert_eq!(
        s,
        Syscall::Open { pathname: Buffer { addr: 100, data: path.clone() }, flags: 0o1, mode: 0 }
    );
    let s = assemble(&regs(2, [100, 0o101, 0o644, 9, 9, 9]), path.clone());
    assert_eq!(
        s,
        Syscall::Open { pathname: Buffer { addr: 100, data: path }, flags: 0o101, mode: 0o644 }
    );
}

#[test]
fn handled_calls_take_their_arguments() {
    assert_eq!(
        assemble(&regs(0, [3, 4096, 10, 0, 0, 0]), None),
        Syscall::Read { fd: 3, buf: Buffer { addr: 4096, data: None }, count: 10 }
    );
    assert_eq!(
        assemble(&regs(1, [1, 4096, 2, 0, 0, 0]), Some(b"hi".to_vec())),
        Syscall::Write { fd: 1, buf: Buffer { addr: 4096, data: Some(b"hi".to_vec()) }, count: 2 }
    );
    assert_eq!(assemble(&regs(3, [3, 0, 0, 0, 0, 0]), None), Syscall::Close { fd: 3 });
    assert_eq!(assemble(&regs(5, [4, 77, 0, 0, 0, 0]), None), Syscall::Fstat { fd: 4, buf: 77 });
    let p = Some(b"/\0".to_vec());
    assert_eq!(
        assemble(&regs(4, [8, 9, 0, 0, 0, 0]), p.clone()),
        Syscall::Stat { pathname: Buffer { addr: 8, data: p.clone() }, buf: 9 }
    );
    assert_eq!(
        assemble(&regs(6, [8, 9, 0, 0, 0, 0]), p.clone()),
        Syscall::Lstat { pathname: Buffer { addr: 8, data: p }, buf: 9 }
    );
}

#[test]
fn fixup_keeps_the_record() {
    assert_eq!(fixup(Syscall::Close { fd: 9 }), Syscall::Close { fd: 9 });
}

#[test]
fn close_renders_with_its_descriptor() {
    assert_eq!(Syscall::Close { fd: 3 }.to_text(), "close(3)");
}

#[test]
fn unknown_renders_with_its_number() {
    let s = Syscall::Unknown { nr: 62, a: 1, b: 20, c: 300, d: 0, e: 5, f: 18446744073709551615 };
    assert_eq!(s.to_text(), "syscall_62(1, 20, 300, 0, 5, 18446744073709551615)");
}

#[test]
fn buffers_render_as_text_or_address() {
    let read = Syscall::Read { fd: 0, buf: Buffer { addr: 0x7ffe10, data: None }, count: 64 };
    assert_eq!(read.to_text(), "read(0, 7ffe10, 64)");
    let write = Syscall::Write {
        fd: 1,
        buf: Buffer { addr: 0x10, data: Some(b"hi\n".to_vec()) },
        count: 3,
    };
    assert_eq!(write.to_text(), "write(1, \"hi\\n\", 3)");
    let open = Syscall::Open {
        pathname: Buffer { addr: 1, data: Some(vec![b'a', 0xff]) },
        flags: 64,
        mode: 420,
    };
    assert_eq!(open.to_text(), "open(\"a\u{fffd}\", 64, 420)");
    assert_eq!(Syscall::Fstat { fd: 2, buf: 255 }.to_text(), "fstat(2, 255)");
    let stat = Syscall::Stat { pathname: Buffer { addr: 1, data: Some(b"/".to_vec()) }, buf: 7 };
    assert_eq!(stat.to_text(), "stat(\"/\", 7)");
    let lstat = Syscall::Lstat { pathname: Buffer { addr: 255, data: None }, buf: 7 };
    assert_eq!(lstat.to_text(), "lstat(ff, 7)");
}

#[test]
fn numbers_in_decimal_and_hex() {
    assert_eq!(radix(0, 10), "0");
    assert_eq!(radix(1234567890, 10), "1234567890");
    assert_eq!(radix(0xdeadbeef, 16), "deadbeef");
    assert_eq!(radix(u64::MAX, 16), "ffffffffffffffff");
}
