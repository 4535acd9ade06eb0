//! Decoded system-call records and their text form.

use vstd::prelude::*;
use vstd::string::*;

verus! {

/// A region of the traced process's memory, with a copy of its bytes when
/// they were read.
#[derive(Clone, Debug, PartialEq, Eq)]
pub struct Buffer {
    pub addr: u64,
    pub data: Option<Vec<u8>>,
}

/// A decoded system call.
#[derive(Clone, Debug, PartialEq, Eq)]
#[allow(inconsistent_fields)]
pub enum Syscall {
    Read { fd: u64, buf: Buffer, count: u64 },
    Write { fd: u64, buf: Buffer, count: u64 },
    Open { pathname: Buffer, flags: u64, mode: u64 },
    Close { fd: u64 },
    Stat { pathname: Buffer, buf: u64 },
    Fstat { fd: u64, buf: u64 },
    Lstat { pathname: Buffer, buf: u64 },
    /// Any other call: its number and its six raw arguments.
    Unknown { nr: u64, a: u64, b: u64, c: u64, d: u64, e: u64, f: u64 },
}

/// A system call of a process together with its result.
#[derive(Clone, Debug, PartialEq, Eq)]
pub struct SyscallRecord {
    pub pid: u64,
    pub call: Syscall,
    pub result: u64,
}

/// The digit characters, by value.
pub open spec fn digit_chars() -> Seq<char> {
    "0123456789abcdef"@
}

/// `n` written in base `b` (2 to 16), most significant digit first, with
/// no leading zeros.
pub open spec fn radix_text(n: nat, b: nat) -> Seq<char>
    decreases n,
    via radix_text_decreases
{
    if b < 2 || n < b {
        seq![digit_chars()[n as int]]
    } else {
        radix_text(n / b, b).push(digit_chars()[(n % b) as int])
    }
}

#[via_fn]
proof fn radix_text_decreases(n: nat, b: nat) {
    if !(b < 2 || n < b) {
        vstd::arithmetic::div_mod::lemma_div_decreases(n as int, b as int);
    }
}

/// `n` in decimal.
pub open spec fn dec_text(n: u64) -> Seq<char> {
    radix_text(n as nat, 10)
}

/// `n` in lower-case hexadecimal, without prefix.
pub open spec fn hex_text(n: u64) -> Seq<char> {
    radix_text(n as nat, 16)
}

/// What std's `String::from_utf8_lossy` makes of `b`.
pub uninterp spec fn lossy_utf8(b: Seq<u8>) -> Seq<char>;

/// What std's `Debug` for `str` makes of `s`: quoted, with escapes.
pub uninterp spec fn debug_quoted(s: Seq<char>) -> Seq<char>;

/// Relies on std's String::from_utf8_lossy: decodes `b`, with U+FFFD for
/// each invalid sequence.
#[verifier::external_body]
fn utf8_lossy(b: &Vec<u8>) -> (r: String)
    ensures
        r@ == lossy_utf8(b@),
{
    String::from_utf8_lossy(b).into_owned()
}

/// Relies on std's `Debug` for `str`: `s` in double quotes, with escapes.
#[verifier::external_body]
fn quote(s: &String) -> (r: String)
    ensures
        r@ == debug_quoted(s@),
{
    format!("{:?}", s)
}

/// The digit of value `d` as a one-character string.
fn digit(d: u64) -> (r: &'static str)
    requires
        d < 16,
    ensures
        r@ == seq![digit_chars()[d as int]],
{
    proof {
        reveal_strlit("0123456789abcdef");
    }
    let r = "0123456789abcdef".substring_char(d as usize, d as usize + 1);
    assert(r@ =~= seq![digit_chars()[d as int]]);
    r
}

/// `n` written in base `b`.
pub fn radix(n: u64, b: u64) -> (r: String)
    requires
        2 <= b <= 16,
    ensures
        r@ == radix_text(n as nat, b as nat),
    decreases n,
{
    if n < b {
        String::from_str(digit(n))
    } else {
        proof {
            vstd::arithmetic::div_mod::lemma_div_decreases(n as int, b as int);
        }
        let mut s = radix(n / b, b);
        s.append(digit(n % b));
        s
    }
}

/// The text form of a buffer: its bytes, quoted, where they were read, or
/// else its address in hexadecimal.
pub open spec fn buffer_text(buf: Buffer) -> Seq<char> {
    match buf.data {
        Some(d) => debug_quoted(lossy_utf8(d@)),
        None => hex_text(buf.addr),
    }
}

/// `name(` followed by the fields, separated by `, `, and `)`.
pub open spec fn call_text(name: Seq<char>, fields: Seq<Seq<char>>) -> Seq<char> {
    name + "("@ + join_fields(fields) + ")"@
}

pub open spec fn join_fields(fields: Seq<Seq<char>>) -> Seq<char>
    decreases fields.len(),
{
    if fields.len() == 0 {
        seq![]
    } else if fields.len() == 1 {
        fields[0]
    } else {
        join_fields(fields.drop_last()) + ", "@ + fields.last()
    }
}

/// The name a call is written with: the lower-case variant name, or
/// `syscall_` and the number for an unknown call.
pub open spec fn syscall_name(s: Syscall) -> Seq<char> {
    match s {
        Syscall::Read { .. } => "read"@,
        Syscall::Write { .. } => "write"@,
        Syscall::Open { .. } => "open"@,
        Syscall::Close { .. } => "close"@,
        Syscall::Stat { .. } => "stat"@,
        Syscall::Fstat { .. } => "fstat"@,
        Syscall::Lstat { .. } => "lstat"@,
        Syscall::Unknown { nr, .. } => "syscall_"@ + dec_text(nr),
    }
}

/// The fields of a call as text, in declaration order; for an unknown
/// call, the six arguments.
pub open spec fn syscall_fields(s: Syscall) -> Seq<Seq<char>> {
    match s {
        Syscall::Read { fd, buf, count } => seq![dec_text(fd), buffer_text(buf), dec_text(count)],
        Syscall::Write { fd, buf, count } => seq![dec_text(fd), buffer_text(buf), dec_text(count)],
        Syscall::Open { pathname, flags, mode } => seq![
            buffer_text(pathname),
            dec_text(flags),
            dec_text(mode),
        ],
        Syscall::Close { fd } => seq![dec_text(fd)],
        Syscall::Stat { pathname, buf } => seq![buffer_text(pathname), dec_text(buf)],
        Syscall::Fstat { fd, buf } => seq![dec_text(fd), dec_text(buf)],
        Syscall::Lstat { pathname, buf } => seq![buffer_text(pathname), dec_text(buf)],
        Syscall::Unknown { nr, a, b, c, d, e, f } => seq![
            dec_text(a),
            dec_text(b),
            dec_text(c),
            dec_text(d),
            dec_text(e),
            dec_text(f),
        ],
    }
}

/// The text form of a call, as in `close(3)`.
pub open spec fn syscall_text(s: Syscall) -> Seq<char> {
    call_text(syscall_name(s), syscall_fields(s))
}

impl Buffer {
    /// The text form of the buffer.
    pub fn to_text(&self) -> (r: String)
        ensures
            r@ == buffer_text(*self),
    {
        match &self.data {
            Some(d) => quote(&utf8_lossy(d)),
            None => radix(self.addr, 16),
        }
    }
}

/// Writes `name(` and the fields, separated by `, `, and `)`.
fn write_call(name: String, fields: Vec<String>) -> (r: String)
    ensures
        r@ == call_text(name@, fields@.map_values(|f: String| f@)),
{
    let ghost views = fields@.map_values(|f: String| f@);
    let mut out = name;
    out.append("(");
    let mut i: usize = 0;
    while i < fields.len()
        invariant
            i <= fields@.len(),
            views == fields@.map_values(|f: String| f@),
            out@ == name@ + "("@ + join_fields(views.take(i as int)),
        decreases fields@.len() - i,
    {
        assert(views.take(i + 1).drop_last() =~= views.take(i as int));
        if i > 0 {
            out.append(", ");
        } else {
            assert(views.take(0) =~= Seq::<Seq<char>>::empty());
        }
        out.append(fields[i].as_str());
        i = i + 1;
    }
    assert(views.take(i as int) =~= views);
    out.append(")");
    out
}

impl Syscall {
    /// The text form of the call, as in `close(3)`.
    pub fn to_text(&self) -> (r: String)
        ensures
            r@ == syscall_text(*self),
    {
        let (name, fields) = match self {
            Syscall::Read { fd, buf, count } => (
                String::from_str("read"),
                vec![radix(*fd, 10), buf.to_text(), radix(*count, 10)],
            ),
            Syscall::Write { fd, buf, count } => (
                String::from_str("write"),
                vec![radix(*fd, 10), buf.to_text(), radix(*count, 10)],
            ),
            Syscall::Open { pathname, flags, mode } => (
                String::from_str("open"),
                vec![pathname.to_text(), radix(*flags, 10), radix(*mode, 10)],
            ),
            Syscall::Close { fd } => (String::from_str("close"), vec![radix(*fd, 10)]),
            Syscall::Stat { pathname, buf } => (
                String::from_str("stat"),
                vec![pathname.to_text(), radix(*buf, 10)],
            ),
            Syscall::Fstat { fd, buf } => (
                String::from_str("fstat"),
                vec![radix(*fd, 10), radix(*buf, 10)],
            ),
            Syscall::Lstat { pathname, buf } => (
                String::from_str("lstat"),
                vec![pathname.to_text(), radix(*buf, 10)],
            ),
            Syscall::Unknown { nr, a, b, c, d, e, f } => (
                String::from_str("syscall_").concat(radix(*nr, 10).as_str()),
                vec![
                    radix(*a, 10),
                    radix(*b, 10),
                    radix(*c, 10),
                    radix(*d, 10),
                    radix(*e, 10),
                    radix(*f, 10),
                ],
            ),
        };
        let ghost views = fields@.map_values(|f: String| f@);
        let r = write_call(name, fields);
        assert(views =~= syscall_fields(*self));
        r
    }
}

} // verus!
