//! Calling conventions: where the arguments and the return value of a call
//! live.

use crate::engine::{is_write_of, EffectModel, Machine};
use crate::errors::{EmulatorError, MemoryFault, UC_ERR_EXCEPTION};
use crate::memory::range_mapped;
use crate::registers::{reg_valid, sp_moved, MIPS_REG_SP};
use vstd::prelude::*;

verus! {

/// Where an argument lives: in a register, or on the stack at a byte offset
/// from its top.
#[derive(Clone, Copy, Debug, PartialEq, Eq, Structural)]
pub enum ParamAccess {
    Reg(i32),
    Stack(u64),
}

/// The low `bits` bits of `v`; all of `v` when no width is given.
pub open spec fn masked(v: u64, argbits: Option<u64>) -> u64 {
    match argbits {
        None => v,
        Some(bits) => v & (((1u64 << bits) - 1) as u64),
    }
}

/// Upper bound on the slot counts of a calling convention, which keeps stack
/// offsets far from overflow.
pub const MAX_SLOTS: usize = 0x10000;

/// A calling convention described by its registers and stack slots.
#[derive(Debug)]
pub struct CallingConventionCommon {
    pub retreg: i32,
    pub argregs: Vec<i32>,
    pub arg_on_stack_num: usize,
    pub shadow: usize,
    pub retaddr_on_stack: bool,
    /// Native address size in bytes.
    pub address_size: u8,
}

impl CallingConventionCommon {
    /// The slot counts are small and the registers exist.
    pub open spec fn wf(&self) -> bool {
        &&& self.argregs@.len() <= MAX_SLOTS
        &&& self.arg_on_stack_num <= MAX_SLOTS
        &&& self.shadow <= MAX_SLOTS
        &&& reg_valid(self.retreg)
        &&& forall|i: int| 0 <= i < self.argregs@.len() ==> reg_valid(#[trigger] self.argregs@[i])
    }

    /// Whether the invariant holds of the convention as it stands.
    pub fn is_wf(&self) -> (r: bool)
        ensures
            r == self.wf(),
    {
        if self.argregs.len() > MAX_SLOTS || self.arg_on_stack_num > MAX_SLOTS || self.shadow
            > MAX_SLOTS || self.retreg <= 0 || self.retreg >= 142 {
            return false;
        }
        let n = self.argregs.len();
        let mut i: usize = 0;
        while i < n
            invariant
                n == self.argregs@.len(),
                0 <= i <= n,
                forall|j: int| 0 <= j < i ==> reg_valid(#[trigger] self.argregs@[j]),
            decreases n - i,
        {
            let r = self.argregs[i];
            if r <= 0 || r >= 142 {
                return false;
            }
            i += 1;
        }
        true
    }

    /// Number of arguments that the convention can address.
    pub open spec fn param_count(&self) -> int {
        self.arg_on_stack_num + self.argregs@.len()
    }

    /// Where argument `index` lives.
    pub open spec fn param_access(&self, index: int) -> ParamAccess {
        if index < self.argregs@.len() {
            ParamAccess::Reg(self.argregs@[index])
        } else {
            ParamAccess::Stack(
                (((if self.retaddr_on_stack {
                    1int
                } else {
                    0int
                }) + self.shadow + (index - self.argregs@.len())) * self.address_size) as u64,
            )
        }
    }

    pub fn new(
        ret_reg: i32,
        arg_regs: Vec<i32>,
        arg_on_stack: usize,
        shadow: usize,
        ret_addr_on_stack: bool,
        address_size: u8,
    ) -> (c: CallingConventionCommon)
        ensures
            c.retreg == ret_reg,
            c.argregs@ == arg_regs@,
            c.arg_on_stack_num == arg_on_stack,
            c.shadow == shadow,
            c.retaddr_on_stack == ret_addr_on_stack,
            c.address_size == address_size,
    {
        CallingConventionCommon {
            retreg: ret_reg,
            argregs: arg_regs,
            arg_on_stack_num: arg_on_stack,
            shadow,
            retaddr_on_stack: ret_addr_on_stack,
            address_size,
        }
    }

    /// The value of the return register.
    pub fn get_return_value(&self, core: &Machine) -> (r: Result<u64, EmulatorError>)
        requires
            self.wf(),
            core.wf(),
        ensures
            r == Ok::<u64, EmulatorError>(core.regs@[self.retreg as int]),
    {
        core.reg_read(self.retreg)
    }

    /// Writes the return register.
    pub fn set_return_value(&self, core: &mut Machine, val: u64) -> (r: Result<(), EmulatorError>)
        requires
            self.wf(),
            old(core).wf(),
        ensures
            final(core).wf(),
            final(core).same_memory(old(core)),
            r.is_ok(),
            final(core).regs@ == old(core).regs@.update(self.retreg as int, val),
            final(core).log() == old(core).log().push(
                EffectModel::RegWrite { reg: self.retreg, value: val },
            ),
    {
        core.reg_write(self.retreg, val)
    }

    /// The distance by which `reserve` lowers the stack pointer.
    pub open spec fn frame_size(&self) -> int {
        (self.shadow + self.arg_on_stack_num) * self.address_size
    }

    /// Stages a new frame: lowers the stack pointer by the shadow space and
    /// the stack slots of the convention.
    pub fn reserve(&self, core: &mut Machine, nslots: usize) -> (r: Result<(), EmulatorError>)
        requires
            self.wf(),
            old(core).wf(),
            nslots < self.param_count(),
        ensures
            final(core).wf(),
            final(core).same_memory(old(core)),
            match sp_moved(old(core).sp_spec(), (-self.frame_size()) as i64) {
                Some(n) => r.is_ok() && final(core).regs@ == old(core).regs@.update(
                    MIPS_REG_SP as int,
                    n,
                ) && final(core).log() == old(core).log().push(
                    EffectModel::RegWrite { reg: MIPS_REG_SP, value: n },
                ),
                None => r == Err::<(), EmulatorError>(EmulatorError::Execution(UC_ERR_EXCEPTION))
                    && final(core).regs@ == old(core).regs@ && final(core).log() == old(
                    core,
                ).log(),
            },
    {
        let si = self.arg_on_stack_num;
        assert((self.shadow + si) * self.address_size <= 0x20000 * 255) by (nonlinear_arith)
            requires
                self.shadow <= 0x10000,
                si <= 0x10000,
                self.address_size <= 255,
        ;
        let sp_change = ((self.shadow + si) * self.address_size as usize) as i64;
        match core.incr_sp(-sp_change) {
            Ok(_) => Ok(()),
            Err(e) => Err(e),
        }
    }

    /// Where argument `index` lives.
    pub fn get_param_access(&self, index: usize) -> (r: ParamAccess)
        requires
            self.wf(),
            index < self.param_count(),
        ensures
            r == self.param_access(index as int),
    {
        if index < self.argregs.len() {
            return ParamAccess::Reg(self.argregs[index]);
        }
        let si = index - self.argregs.len();
        let ra: usize = if self.retaddr_on_stack { 1 } else { 0 };
        assert((ra + self.shadow + si) * self.address_size <= 0x20001 * 255) by (nonlinear_arith)
            requires
                ra <= 1,
                self.shadow <= 0x10000,
                si <= 0x10000,
                self.address_size <= 255,
        ;
        ParamAccess::Stack((ra + self.shadow + si) as u64 * self.address_size as u64)
    }

    /// The raw value of argument `index` as the machine `core` holds it.
    pub open spec fn raw_param(&self, core: &Machine, index: int) -> Option<u64> {
        match self.param_access(index) {
            ParamAccess::Reg(reg) => Some(core.regs@[reg as int]),
            ParamAccess::Stack(off) => match core.stack_slot(off as i64) {
                Some(addr) => if range_mapped(core.memories@, addr, core.pointer_size as usize) {
                    Some(
                        core.packer(None).unpacked(
                            core.state.memory.read_spec(addr, core.pointer_size as nat),
                        ) as u64,
                    )
                } else {
                    None
                },
                None => None,
            },
        }
    }

    /// The stack slot at `off` exists and a write of `v` there is accepted.
    pub open spec fn stack_param_writable(&self, core: &Machine, off: u64, v: u64) -> bool {
        match core.stack_slot(off as i64) {
            Some(addr) => core.write_ok(addr, core.packer(None).packed(v)),
            None => false,
        }
    }

    /// Why argument `index` cannot be read: its stack slot lies beyond the
    /// address space, or in unmapped memory.
    pub open spec fn param_fault(&self, core: &Machine, index: int) -> EmulatorError {
        match self.param_access(index) {
            ParamAccess::Stack(off) => match core.stack_slot(off as i64) {
                Some(_) => EmulatorError::Memory(MemoryFault::Unmapped),
                None => EmulatorError::Execution(UC_ERR_EXCEPTION),
            },
            ParamAccess::Reg(_) => EmulatorError::InvalidArgument,
        }
    }

    /// Reads argument `index`, masked to `argbits` bits when a width is given.
    /// An index beyond the arguments of the convention is refused.
    pub fn get_ram_param(&self, core: &Machine, index: usize, argbits: Option<u64>) -> (r: Result<
        u64,
        EmulatorError,
    >)
        requires
            self.wf(),
            core.wf(),
            argbits matches Some(b) ==> b < 64,
        ensures
            index >= self.param_count() ==> r == Err::<u64, EmulatorError>(
                EmulatorError::InvalidArgument,
            ),
            index < self.param_count() ==> match self.raw_param(core, index as int) {
                Some(v) => r == Ok::<u64, EmulatorError>(masked(v, argbits)),
                None => r == Err::<u64, EmulatorError>(self.param_fault(core, index as int)),
            },
    {
        if index >= self.arg_on_stack_num + self.argregs.len() {
            return Err(EmulatorError::InvalidArgument);
        }
        let v = match self.get_param_access(index) {
            ParamAccess::Reg(reg) => core.reg_read(reg)?,
            ParamAccess::Stack(s) => core.stack_read(s as i64)?,
        };
        Ok(
            match argbits {
                None => v,
                Some(bits) => {
                    assert((1u64 << bits) >= 1) by (bit_vector)
                        requires
                            bits < 64,
                    ;
                    let mask: u64 = (1u64 << bits) - 1;
                    v & mask
                },
            },
        )
    }

    /// Writes argument `index`, masked to `argbits` bits when a width is
    /// given. An index beyond the arguments of the convention is refused.
    pub fn set_raw_param(
        &self,
        core: &mut Machine,
        index: usize,
        value: u64,
        argbits: Option<u64>,
    ) -> (r: Result<(), EmulatorError>)
        requires
            self.wf(),
            old(core).wf(),
            argbits matches Some(b) ==> b < 64,
        ensures
            final(core).wf(),
            final(core).memories@ == old(core).memories@,
            index >= self.param_count() ==> r == Err::<(), EmulatorError>(
                EmulatorError::InvalidArgument,
            ) && final(core).regs@ == old(core).regs@ && final(core).state.memory@ == old(
                core,
            ).state.memory@ && final(core).log() == old(core).log(),
            index < self.param_count() ==> match self.param_access(index as int) {
                ParamAccess::Reg(reg) => r.is_ok() && final(core).regs@ == old(core).regs@.update(
                    reg as int,
                    masked(value, argbits),
                ) && final(core).state.memory@ == old(core).state.memory@ && final(core).log()
                    == old(core).log().push(
                    EffectModel::RegWrite { reg, value: masked(value, argbits) },
                ),
                ParamAccess::Stack(off) => final(core).regs@ == old(core).regs@ && (r.is_ok()
                    <==> self.stack_param_writable(old(core), off, masked(value, argbits)))
                    && (r.is_ok() ==> final(core).log() == old(core).log().push(
                    EffectModel::Write {
                        addr: old(core).stack_slot(off as i64).unwrap(),
                        data: old(core).packer(None).packed(masked(value, argbits)),
                    },
                )) && (r is Err ==> final(core).log() == old(core).log()) && (r.is_ok()
                    ==> is_write_of(
                    old(core).state.memory,
                    final(core).state.memory,
                    old(core).stack_slot(off as i64).unwrap(),
                    old(core).packer(None).packed(masked(value, argbits)),
                )) && (r is Err ==> final(core).state.memory@ == old(core).state.memory@),
            },
    {
        if index >= self.arg_on_stack_num + self.argregs.len() {
            return Err(EmulatorError::InvalidArgument);
        }
        let v = match argbits {
            None => value,
            Some(bits) => {
                assert((1u64 << bits) >= 1) by (bit_vector)
                    requires
                        bits < 64,
                ;
                let mask: u64 = (1u64 << bits) - 1;
                value & mask
            },
        };
        match self.get_param_access(index) {
            ParamAccess::Reg(reg) => core.reg_write(reg, v),
            ParamAccess::Stack(s) => core.stack_write(s as i64, v),
        }
    }
}

/// What every calling convention offers.
pub trait CallingConvention {
    /// The invariant of the convention.
    spec fn cc_wf(&self) -> bool;

    /// Number of slots that an argument of `argbits` bits takes.
    fn get_num_slots(argbits: u64) -> u64;

    /// Reads the raw value of argument slot `slot`.
    fn get_raw_param(&self, mach: &Machine, slot: u64, argbits: Option<u64>) -> (r: Result<
        u64,
        EmulatorError,
    >)
        requires
            self.cc_wf(),
            mach.wf(),
            argbits matches Some(b) ==> b < 64,
    ;

    /// Writes argument slot `slot`.
    fn set_raw_param(&self, mach: &mut Machine, slot: u64, value: u64, argbits: Option<u64>) -> (r:
        Result<(), EmulatorError>)
        requires
            self.cc_wf(),
            old(mach).wf(),
            argbits matches Some(b) ==> b < 64,
        ensures
            final(mach).wf(),
    ;

    /// Reads the return value.
    fn get_return_value(&self, mach: &Machine) -> (r: Result<u64, EmulatorError>)
        requires
            self.cc_wf(),
            mach.wf(),
    ;

    /// Writes the return value.
    fn set_return_value(&self, mach: &mut Machine, val: u64) -> (r: Result<(), EmulatorError>)
        requires
            self.cc_wf(),
            old(mach).wf(),
        ensures
            final(mach).wf(),
    ;
}

} // verus!
