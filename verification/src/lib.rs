//! A deterministic user-mode MIPS32 big-endian emulator core: the bookkeeping
//! around the instruction interpreter (memory regions, shadow memory, loader,
//! calling convention, Linux system calls) and the generator of single-step
//! execution proofs.

pub mod errors;
pub mod utils;
pub mod memory;
pub mod engine;
pub mod registers;
pub mod stack;
pub mod cc;
pub mod arch;
pub mod loader;
pub mod os;
pub mod config;
pub mod emulator;
pub mod trie;
pub mod step_proof;

use crate::errors::EmulatorError;
use vstd::prelude::*;
use vstd::string::StringSliceAdditionalSpecFns;

verus! {

/// Size of a page of guest memory in bytes.
pub const PAGE_SIZE: u32 = 0x1000;

/// The byte `=`.
pub const EQUALS_SIGN: u8 = 61;

/// Splits `KEY=value` at its first `=` into the bytes of the key and the
/// bytes of the value. A string without `=` is refused.
pub fn parse_key_val(s: &str) -> (r: Result<(Vec<u8>, Vec<u8>), EmulatorError>)
    ensures
        match r {
            Ok(kv) => s.spec_bytes() == kv.0@.push(EQUALS_SIGN) + kv.1@ && !kv.0@.contains(
                EQUALS_SIGN,
            ),
            Err(e) => e == EmulatorError::InvalidArgument && !s.spec_bytes().contains(EQUALS_SIGN),
        },
{
    let b = s.as_bytes();
    let n = b.len();
    let mut pos: usize = 0;
    while pos < n && b[pos] != EQUALS_SIGN
        invariant
            0 <= pos <= n,
            n == b@.len(),
            forall|j: int| 0 <= j < pos ==> b@[j] != EQUALS_SIGN,
        decreases n - pos,
    {
        pos += 1;
    }
    if pos == n {
        return Err(EmulatorError::InvalidArgument);
    }
    let key = vstd::slice::slice_to_vec(vstd::slice::slice_subrange(b, 0, pos));
    let value = vstd::slice::slice_to_vec(vstd::slice::slice_subrange(b, pos + 1, n));
    assert(b@ =~= key@.push(EQUALS_SIGN) + value@);
    Ok((key, value))
}

} // verus!
