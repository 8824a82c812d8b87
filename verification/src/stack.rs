//! Stack operations of the machine.

use crate::engine::{is_write_of, EffectModel, Machine};
use crate::errors::{EmulatorError, MemoryFault, UC_ERR_EXCEPTION};
use crate::memory::range_mapped;
use crate::registers::{sp_moved, MIPS_REG_SP};
use crate::utils::{align, align_down_spec, is_pow2};
use vstd::prelude::*;
use vstd::string::StringSliceAdditionalSpecFns;

verus! {

/// The address that a buffer of `len` bytes pushed below `top` starts at, when
/// there is room for it.
pub open spec fn pushed_top(top: u64, len: int, alignment: u64) -> Option<u64> {
    if len <= top {
        Some(align_down_spec(top - len, alignment as int) as u64)
    } else {
        None
    }
}

impl Machine {
    /// The alignment that a push with `alignment` works with: the one given,
    /// or the machine's pointer size.
    pub open spec fn push_alignment(&self, alignment: Option<u32>) -> u64 {
        match alignment {
            Some(a) => a as u64,
            None => self.pointer_size as u64,
        }
    }

    /// Pushes `s` below the stack pointer, at an address aligned down to
    /// `alignment` (the pointer size when none is given), and moves the stack
    /// pointer there. Nothing changes when there is no room below the stack
    /// pointer or the target range is not mapped.
    pub fn aligned_push_bytes(&mut self, s: &[u8], alignment: Option<u32>) -> (r: Result<
        u64,
        EmulatorError,
    >)
        requires
            old(self).wf(),
            alignment matches Some(a) ==> is_pow2(a as u64),
        ensures
            final(self).wf(),
            final(self).memories@ == old(self).memories@,
            final(self).endian == old(self).endian,
            final(self).pointer_size == old(self).pointer_size,
            match pushed_top(old(self).sp_spec(), s@.len() as int, old(self).push_alignment(alignment)) {
                Some(top) => if old(self).write_ok(top, s@) {
                    &&& r == Ok::<u64, EmulatorError>(top)
                    &&& is_write_of(old(self).state.memory, final(self).state.memory, top, s@)
                    &&& final(self).regs@ == old(self).regs@.update(MIPS_REG_SP as int, top)
                    &&& final(self).log() == old(self).log().push(
                        EffectModel::Write { addr: top, data: s@ },
                    ).push(EffectModel::RegWrite { reg: MIPS_REG_SP, value: top })
                } else {
                    &&& r == Err::<u64, EmulatorError>(EmulatorError::Memory(MemoryFault::Unmapped))
                    &&& final(self).state.memory@ == old(self).state.memory@
                    &&& final(self).regs@ == old(self).regs@
                    &&& final(self).log() == old(self).log()
                },
                None => {
                    &&& r == Err::<u64, EmulatorError>(EmulatorError::Execution(UC_ERR_EXCEPTION))
                    &&& final(self).state.memory@ == old(self).state.memory@
                    &&& final(self).regs@ == old(self).regs@
                    &&& final(self).log() == old(self).log()
                },
            },
    {
        let alignment: u64 = match alignment {
            Some(a) => a as u64,
            None => {
                assert(is_pow2(4) && is_pow2(8)) by (bit_vector);
                self.pointer_size as u64
            },
        };
        let top = self.regs[MIPS_REG_SP as usize];
        if s.len() as u64 > top {
            return Err(EmulatorError::Execution(UC_ERR_EXCEPTION));
        }
        let top = align(top - s.len() as u64, alignment);
        let ghost before = self.state.memory;
        self.write(top, s)?;
        let ghost mid = self.state.memory;
        let _ = self.set_sp(top);
        assert forall|a: u64|
            self.state.memory.byte_at(a) == if top <= a && a - top < s@.len() {
                s@[a - top]
            } else {
                before.byte_at(a)
            } by {
            assert(self.state.memory.byte_at(a) == mid.byte_at(a));
        }
        Ok(top)
    }

    /// Pushes the bytes of `s` and a terminating zero, aligned to the pointer
    /// size.
    pub fn aligned_push_str(&mut self, s: &str) -> (r: Result<u64, EmulatorError>)
        requires
            old(self).wf(),
        ensures
            final(self).wf(),
            final(self).memories@ == old(self).memories@,
            final(self).endian == old(self).endian,
            final(self).pointer_size == old(self).pointer_size,
            match pushed_top(
                old(self).sp_spec(),
                (s.spec_bytes().len() + 1) as int,
                old(self).pointer_size as u64,
            ) {
                Some(top) => if old(self).write_ok(top, s.spec_bytes().push(0u8)) {
                    &&& r == Ok::<u64, EmulatorError>(top)
                    &&& is_write_of(
                        old(self).state.memory,
                        final(self).state.memory,
                        top,
                        s.spec_bytes().push(0u8),
                    )
                    &&& final(self).regs@ == old(self).regs@.update(MIPS_REG_SP as int, top)
                    &&& final(self).log() == old(self).log().push(
                        EffectModel::Write { addr: top, data: s.spec_bytes().push(0u8) },
                    ).push(EffectModel::RegWrite { reg: MIPS_REG_SP, value: top })
                } else {
                    &&& r == Err::<u64, EmulatorError>(EmulatorError::Memory(MemoryFault::Unmapped))
                    &&& final(self).state.memory@ == old(self).state.memory@
                    &&& final(self).regs@ == old(self).regs@
                    &&& final(self).log() == old(self).log()
                },
                None => {
                    &&& r == Err::<u64, EmulatorError>(EmulatorError::Execution(UC_ERR_EXCEPTION))
                    &&& final(self).state.memory@ == old(self).state.memory@
                    &&& final(self).regs@ == old(self).regs@
                    &&& final(self).log() == old(self).log()
                },
            },
    {
        let mut b = vstd::slice::slice_to_vec(s.as_bytes());
        b.push(0);
        assert(b@ == s.spec_bytes().push(0u8));
        self.aligned_push_bytes(b.as_slice(), None)
    }

    /// Pushes a pointer-sized value and returns the new top of the stack.
    pub fn stack_push(&mut self, pointer: u64) -> (r: Result<u64, EmulatorError>)
        requires
            old(self).wf(),
        ensures
            final(self).wf(),
            final(self).memories@ == old(self).memories@,
            final(self).endian == old(self).endian,
            final(self).pointer_size == old(self).pointer_size,
            match sp_moved(old(self).sp_spec(), -(old(self).pointer_size as int) as i64) {
                Some(top) => final(self).sp_spec() == top && (old(self).write_ok(
                    top,
                    old(self).packer(None).packed(pointer),
                ) ==> r == Ok::<u64, EmulatorError>(top) && is_write_of(
                    old(self).state.memory,
                    final(self).state.memory,
                    top,
                    old(self).packer(None).packed(pointer),
                ) && final(self).log() == old(self).log().push(
                    EffectModel::RegWrite { reg: MIPS_REG_SP, value: top },
                ).push(
                    EffectModel::Write { addr: top, data: old(self).packer(None).packed(pointer) },
                )) && (!old(self).write_ok(top, old(self).packer(None).packed(pointer)) ==> r
                    == Err::<u64, EmulatorError>(EmulatorError::Memory(MemoryFault::Unmapped))
                    && final(self).state.memory@ == old(self).state.memory@ && final(self).log()
                    == old(self).log().push(EffectModel::RegWrite { reg: MIPS_REG_SP, value: top })),
                None => r == Err::<u64, EmulatorError>(EmulatorError::Execution(UC_ERR_EXCEPTION))
                    && final(self).state.memory@ == old(self).state.memory@ && final(self).regs@
                    == old(self).regs@ && final(self).log() == old(self).log(),
            },
    {
        let ps = self.pointer_size;
        let ghost before = self.state.memory;
        let new_sp = self.incr_sp(-(ps as i64))?;
        let ghost mid = *self;
        assert(mid.packer(None) == old(self).packer(None));
        assert(mid.write_ok(new_sp, mid.packer(None).packed(pointer)) == old(self).write_ok(
            new_sp,
            old(self).packer(None).packed(pointer),
        ));
        self.write_ptr(new_sp, pointer, Some(ps))?;
        assert forall|a: u64|
            self.state.memory.byte_at(a) == if new_sp <= a && a - new_sp < old(self).packer(
                None,
            ).packed(pointer).len() {
                old(self).packer(None).packed(pointer)[a - new_sp]
            } else {
                old(self).state.memory.byte_at(a)
            } by {
            assert(mid.state.memory.byte_at(a) == old(self).state.memory.byte_at(a));
        }
        Ok(new_sp)
    }

    /// Pops the pointer-sized value at the top of the stack.
    pub fn stack_pop(&mut self) -> (r: Result<u64, EmulatorError>)
        requires
            old(self).wf(),
        ensures
            final(self).wf(),
            final(self).same_memory(old(self)),
            r matches Ok(v) ==> range_mapped(
                old(self).memories@,
                old(self).sp_spec(),
                old(self).pointer_size as usize,
            ) && v as nat == old(self).packer(None).unpacked(
                old(self).state.memory.read_spec(old(self).sp_spec(), old(self).pointer_size as nat),
            ) && sp_moved(old(self).sp_spec(), old(self).pointer_size as i64) == Some(
                final(self).sp_spec(),
            ),
            r is Err ==> final(self).regs@ == old(self).regs@ && final(self).log() == old(
                self,
            ).log(),
            r is Ok ==> final(self).log() == old(self).log().push(
                EffectModel::RegWrite { reg: MIPS_REG_SP, value: final(self).sp_spec() },
            ),
            r is Ok <==> range_mapped(
                old(self).memories@,
                old(self).sp_spec(),
                old(self).pointer_size as usize,
            ) && sp_moved(old(self).sp_spec(), old(self).pointer_size as i64).is_some(),
    {
        let ps = self.pointer_size;
        let sp = self.regs[MIPS_REG_SP as usize];
        let v = self.read_ptr(sp, Some(ps))?;
        let _ = self.incr_sp(ps as i64)?;
        Ok(v)
    }

    /// The address `offset` bytes from the top of the stack.
    pub open spec fn stack_slot(&self, offset: i64) -> Option<u64> {
        sp_moved(self.sp_spec(), offset)
    }

    /// Reads the pointer-sized value `offset` bytes from the top of the stack
    /// without moving the stack pointer.
    pub fn stack_read(&self, offset: i64) -> (r: Result<u64, EmulatorError>)
        requires
            self.wf(),
        ensures
            match self.stack_slot(offset) {
                Some(addr) => match r {
                    Ok(v) => range_mapped(self.memories@, addr, self.pointer_size as usize)
                        && v as nat == self.packer(None).unpacked(
                        self.state.memory.read_spec(addr, self.pointer_size as nat),
                    ),
                    Err(e) => !range_mapped(self.memories@, addr, self.pointer_size as usize) && e
                        == EmulatorError::Memory(MemoryFault::Unmapped),
                },
                None => r == Err::<u64, EmulatorError>(EmulatorError::Execution(UC_ERR_EXCEPTION)),
            },
    {
        let addr = match slot_address(self.regs[MIPS_REG_SP as usize], offset) {
            Some(a) => a,
            None => { return Err(EmulatorError::Execution(UC_ERR_EXCEPTION)); },
        };
        self.read_ptr(addr, None)
    }

    /// Writes the pointer-sized `value` `offset` bytes from the top of the
    /// stack without moving the stack pointer.
    pub fn stack_write(&mut self, offset: i64, value: u64) -> (r: Result<(), EmulatorError>)
        requires
            old(self).wf(),
        ensures
            final(self).wf(),
            final(self).same_frame(old(self)),
            match old(self).stack_slot(offset) {
                Some(addr) => if old(self).write_ok(addr, old(self).packer(None).packed(value)) {
                    r.is_ok() && is_write_of(
                        old(self).state.memory,
                        final(self).state.memory,
                        addr,
                        old(self).packer(None).packed(value),
                    ) && final(self).log() == old(self).log().push(
                        EffectModel::Write { addr, data: old(self).packer(None).packed(value) },
                    )
                } else {
                    r == Err::<(), EmulatorError>(EmulatorError::Memory(MemoryFault::Unmapped))
                        && final(self).state.memory@ == old(self).state.memory@
                        && final(self).log() == old(self).log()
                },
                None => r == Err::<(), EmulatorError>(EmulatorError::Execution(UC_ERR_EXCEPTION))
                    && final(self).state.memory@ == old(self).state.memory@ && final(self).log()
                    == old(self).log(),
            },
    {
        let addr = match slot_address(self.regs[MIPS_REG_SP as usize], offset) {
            Some(a) => a,
            None => { return Err(EmulatorError::Execution(UC_ERR_EXCEPTION)); },
        };
        self.write_ptr(addr, value, None)
    }
}

/// `sp + offset`, when that is an address.
pub fn slot_address(sp: u64, offset: i64) -> (r: Option<u64>)
    ensures
        r == sp_moved(sp, offset),
{
    if offset >= 0 {
        sp.checked_add(offset as u64)
    } else {
        let down: u64 = (-(offset + 1)) as u64 + 1;
        sp.checked_sub(down)
    }
}

} // verus!
