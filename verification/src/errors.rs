//! Error kinds surfaced by the emulator.

use vstd::prelude::*;

verus! {

/// Why a request to the memory layer was refused.
#[derive(Clone, Copy, Debug, PartialEq, Eq, Structural)]
pub enum MemoryFault {
    /// The range is empty or wraps around the address space.
    InvalidRange,
    /// An address or a length is not a multiple of the page size.
    Unaligned,
    /// Permission bits outside read, write and execute were given.
    BadPermissions,
    /// The range intersects a region that is already mapped.
    Overlap,
    /// No gap of the requested size lies below the end of the 32-bit space.
    OutOfMemory,
    /// The range is not entirely inside mapped memory.
    Unmapped,
}

/// Why a binary could not be loaded.
#[derive(Clone, Copy, Debug, PartialEq, Eq, Structural)]
pub enum LoaderFault {
    /// The bytes are not a well-formed ELF image.
    Malformed,
    /// The image is not an executable (`ET_EXEC`).
    NotExecutable,
    /// Two loadable segments intersect.
    SegmentIntersect,
    /// The image has no loadable segment.
    NoLoadableSegment,
    /// An address computed while loading leaves the 32-bit space.
    AddressOverflow,
}

/// Fault code of the interpreter for an invalid register or a stack pointer
/// that leaves the address space.
pub const UC_ERR_EXCEPTION: u32 = 21;

/// Fault code of the interpreter for an invalid argument.
pub const UC_ERR_ARG: u32 = 15;

/// The failures that stop emulation.
#[derive(Clone, Copy, Debug, PartialEq, Eq, Structural)]
pub enum EmulatorError {
    /// A fault raised by the interpreter, with its code.
    Execution(u32),
    /// A failure of the memory layer.
    Memory(MemoryFault),
    /// A failure of the loader.
    Loader(LoaderFault),
    /// A system call, by number, that has no handler.
    Syscall(u64),
    /// A host I/O failure, with its errno.
    Io(i32),
    /// An argument outside the supported range.
    InvalidArgument,
}

/// The errno that a negative raw system call result stands for.
pub open spec fn errno_of(ret: i64) -> i32 {
    if -(i32::MAX as int) <= ret as int && ret as int <= 0 {
        (-(ret as int)) as i32
    } else {
        i32::MAX
    }
}

/// Turns a raw (negative) system call result into the I/O error it denotes.
/// Values that are positive or below the 32-bit range saturate to `i32::MAX`.
pub fn from_raw_syscall_ret(ret: i64) -> (e: EmulatorError)
    ensures
        e == EmulatorError::Io(errno_of(ret)),
{
    if ret <= 0 && ret >= -(i32::MAX as i64) {
        EmulatorError::Io((-ret) as i32)
    } else {
        EmulatorError::Io(i32::MAX)
    }
}

} // verus!
