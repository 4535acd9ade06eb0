//! Where the x86-64 system-call convention keeps the call number, the six
//! arguments and the return value. This is the one architecture-specific
//! surface of the tracer.

use vstd::prelude::*;

verus! {

/// Size of a memory page.
pub const PAGE_SIZE: usize = 4096;

/// The part of a stopped process's register file that system calls use.
#[derive(Clone, Copy, Debug, PartialEq, Eq, Structural)]
pub struct RegisterFile {
    pub orig_rax: u64,
    pub rax: u64,
    pub rdi: u64,
    pub rsi: u64,
    pub rdx: u64,
    pub r10: u64,
    pub r8: u64,
    pub r9: u64,
}

/// A register of [`RegisterFile`].
#[derive(Clone, Copy, Debug, PartialEq, Eq, Structural)]
pub enum Register {
    OrigRax,
    Rax,
    Rdi,
    Rsi,
    Rdx,
    R10,
    R8,
    R9,
}

/// The register that holds argument `i` of a system call.
pub open spec fn argument_register(i: int) -> Register {
    if i == 0 {
        Register::Rdi
    } else if i == 1 {
        Register::Rsi
    } else if i == 2 {
        Register::Rdx
    } else if i == 3 {
        Register::R10
    } else if i == 4 {
        Register::R8
    } else {
        Register::R9
    }
}

impl RegisterFile {
    pub open spec fn value(&self, r: Register) -> u64 {
        match r {
            Register::OrigRax => self.orig_rax,
            Register::Rax => self.rax,
            Register::Rdi => self.rdi,
            Register::Rsi => self.rsi,
            Register::Rdx => self.rdx,
            Register::R10 => self.r10,
            Register::R8 => self.r8,
            Register::R9 => self.r9,
        }
    }

    /// Argument `i` of the system call, as a raw register value.
    pub open spec fn arg(&self, i: int) -> u64 {
        self.value(argument_register(i))
    }

    pub fn get(&self, r: Register) -> (v: u64)
        ensures
            v == self.value(r),
    {
        match r {
            Register::OrigRax => self.orig_rax,
            Register::Rax => self.rax,
            Register::Rdi => self.rdi,
            Register::Rsi => self.rsi,
            Register::Rdx => self.rdx,
            Register::R10 => self.r10,
            Register::R8 => self.r8,
            Register::R9 => self.r9,
        }
    }
}

/// The register that holds the system-call number at entry.
pub fn syscall_number_location() -> (r: Register)
    ensures
        r == Register::OrigRax,
{
    Register::OrigRax
}

/// The register that holds argument `index`: the kernel's convention, in
/// which the fourth argument is in `r10` rather than `rcx`.
pub fn argument_location(index: u8) -> (r: Register)
    requires
        index < 6,
    ensures
        r == argument_register(index as int),
{
    match index {
        0 => Register::Rdi,
        1 => Register::Rsi,
        2 => Register::Rdx,
        3 => Register::R10,
        4 => Register::R8,
        _ => Register::R9,
    }
}

/// The register that holds the return value at exit.
pub fn return_value_location() -> (r: Register)
    ensures
        r == Register::Rax,
{
    Register::Rax
}

} // verus!
