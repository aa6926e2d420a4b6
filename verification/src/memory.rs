//! Errors of memory access to another process, and the checks made on the
//! byte counts that a read or a write reports.

use vstd::prelude::*;
use crate::numbers::{dec_digits, format_dec, format_hex, hex_digits};
use crate::text::{push_chars, push_str};

verus! {

/// Why an access to another process failed.
#[derive(Debug, Clone, Copy, PartialEq, Eq, Structural)]
pub enum MemoryError {
    /// The process could not be opened; the system error code.
    OpenProcessFailed(u32),
    /// A read at the address failed; the system error code, 0 for a short read.
    ReadFailed(usize, u32),
    /// A write at the address failed; the system error code, 0 for a short write.
    WriteFailed(usize, u32),
    /// The process handle is not valid.
    InvalidHandle,
}

impl MemoryError {
    /// The text that describes the error.
    pub open spec fn spec_message(self) -> Seq<char> {
        match self {
            MemoryError::OpenProcessFailed(code) => "Failed to open process: "@ + dec_digits(
                code as nat,
            ),
            MemoryError::ReadFailed(addr, code) => "Failed to read memory at "@ + hex_digits(
                addr as nat,
            ) + ": "@ + dec_digits(code as nat),
            MemoryError::WriteFailed(addr, code) => "Failed to write memory at "@ + hex_digits(
                addr as nat,
            ) + ": "@ + dec_digits(code as nat),
            MemoryError::InvalidHandle => "Invalid process handle"@,
        }
    }

    /// The text that describes the error.
    pub fn message(&self) -> (r: String)
        ensures
            r@ == self.spec_message(),
    {
        match self {
            MemoryError::OpenProcessFailed(code) => {
                let mut s = String::from_str("Failed to open process: ");
                push_chars(&mut s, &format_dec(*code as u64));
                s
            },
            MemoryError::ReadFailed(addr, code) => {
                let mut s = String::from_str("Failed to read memory at ");
                push_chars(&mut s, &format_hex(*addr as u64));
                push_str(&mut s, ": ");
                push_chars(&mut s, &format_dec(*code as u64));
                s
            },
            MemoryError::WriteFailed(addr, code) => {
                let mut s = String::from_str("Failed to write memory at ");
                push_chars(&mut s, &format_hex(*addr as u64));
                push_str(&mut s, ": ");
                push_chars(&mut s, &format_dec(*code as u64));
                s
            },
            MemoryError::InvalidHandle => String::from_str("Invalid process handle"),
        }
    }
}

/// The outcome of a read of `expected` bytes at `address` that transferred
/// `transferred` of them: anything short of the whole value fails.
pub fn check_read(address: usize, expected: usize, transferred: usize) -> (r: Result<(), MemoryError>)
    ensures
        r is Ok <==> transferred == expected,
        r is Err ==> r == Err::<(), MemoryError>(MemoryError::ReadFailed(address, 0)),
{
    if transferred != expected {
        Err(MemoryError::ReadFailed(address, 0))
    } else {
        Ok(())
    }
}

/// The outcome of a write of `expected` bytes at `address` that transferred
/// `transferred` of them: anything short of the whole value fails.
pub fn check_write(address: usize, expected: usize, transferred: usize) -> (r: Result<(), MemoryError>)
    ensures
        r is Ok <==> transferred == expected,
        r is Err ==> r == Err::<(), MemoryError>(MemoryError::WriteFailed(address, 0)),
{
    if transferred != expected {
        Err(MemoryError::WriteFailed(address, 0))
    } else {
        Ok(())
    }
}

} // verus!
