//! The MIPS architecture profile and its O32 calling convention.

use crate::cc::{masked, CallingConvention, CallingConventionCommon, ParamAccess};
use crate::engine::{EffectModel, Machine};
use crate::errors::EmulatorError;
use crate::registers::{
    MIPS_REG_A0, MIPS_REG_A1, MIPS_REG_A2, MIPS_REG_A3, MIPS_REG_RA, MIPS_REG_V0,
};
use crate::utils::Endian;
use vstd::prelude::*;

verus! {

/// Interpreter mode bit: 32-bit MIPS.
pub const MODE_MIPS32: u32 = 4;

/// Interpreter mode bit: 64-bit MIPS.
pub const MODE_MIPS64: u32 = 8;

/// Interpreter mode bit: big-endian.
pub const MODE_BIG_ENDIAN: u32 = 0x4000_0000;

/// Word size and byte order of the guest.
#[derive(Copy, Clone, Debug, PartialEq, Eq, Structural)]
pub struct MipsProfile {
    pub mode32: bool,
    pub endian: Endian,
}

impl MipsProfile {
    /// The profile of this emulator: 32-bit, big-endian.
    pub fn new() -> (p: MipsProfile)
        ensures
            p.mode32,
            p.endian == Endian::Big,
    {
        MipsProfile { mode32: true, endian: Endian::Big }
    }

    /// The mode bits to start the interpreter with.
    pub fn mode(&self) -> (m: u32)
        ensures
            m == (if self.mode32 {
                MODE_MIPS32
            } else {
                MODE_MIPS64
            }) + (if self.endian == Endian::Big {
                MODE_BIG_ENDIAN
            } else {
                0u32
            }),
    {
        let word: u32 = if self.mode32 { MODE_MIPS32 } else { MODE_MIPS64 };
        match self.endian {
            Endian::Little => word,
            Endian::Big => word + MODE_BIG_ENDIAN,
        }
    }

    pub fn pointer_size(&self) -> (r: u8)
        ensures
            r == (if self.mode32 {
                4u8
            } else {
                8u8
            }),
    {
        if self.mode32 {
            4
        } else {
            8
        }
    }
}

impl Default for MipsProfile {
    fn default() -> (p: MipsProfile)
        ensures
            p.mode32,
            p.endian == Endian::Big,
    {
        MipsProfile::new()
    }
}

/// Number of arguments of the O32 convention that live on the stack.
pub const ARG_ON_STACK: usize = 12;

/// Shadow slots that the O32 convention reserves for the register arguments.
pub const SHADOW: usize = 4;

/// The MIPS O32 calling convention: return value in `V0`, error flag in `A3`,
/// arguments in `A0..A3` and then on the stack.
#[derive(Debug)]
pub struct MipsCC {
    pub inner: CallingConventionCommon,
}

impl MipsCC {
    /// The convention is the O32 one for the given address size.
    pub open spec fn is_o32(&self) -> bool {
        &&& self.inner.retreg == MIPS_REG_V0
        &&& self.inner.argregs@ == seq![MIPS_REG_A0, MIPS_REG_A1, MIPS_REG_A2, MIPS_REG_A3]
        &&& self.inner.arg_on_stack_num == ARG_ON_STACK
        &&& self.inner.shadow == SHADOW
        &&& !self.inner.retaddr_on_stack
    }

    pub fn new(pointer_size: u8) -> (c: MipsCC)
        ensures
            c.is_o32(),
            c.inner.address_size == pointer_size,
            c.inner.wf(),
    {
        let mut regs: Vec<i32> = Vec::new();
        regs.push(MIPS_REG_A0);
        regs.push(MIPS_REG_A1);
        regs.push(MIPS_REG_A2);
        regs.push(MIPS_REG_A3);
        assert(regs@ =~= seq![MIPS_REG_A0, MIPS_REG_A1, MIPS_REG_A2, MIPS_REG_A3]);
        MipsCC {
            inner: CallingConventionCommon::new(
                MIPS_REG_V0,
                regs,
                ARG_ON_STACK,
                SHADOW,
                false,
                pointer_size,
            ),
        }
    }

    /// Whether the convention is the O32 one and its invariant holds.
    pub fn is_valid(&self) -> (r: bool)
        ensures
            r == (self.is_o32() && self.inner.wf()),
    {
        let c = &self.inner;
        if c.retreg != MIPS_REG_V0 || c.argregs.len() != 4 || c.arg_on_stack_num != ARG_ON_STACK
            || c.shadow != SHADOW || c.retaddr_on_stack {
            return false;
        }
        if c.argregs[0] != MIPS_REG_A0 || c.argregs[1] != MIPS_REG_A1 || c.argregs[2]
            != MIPS_REG_A2 || c.argregs[3] != MIPS_REG_A3 {
            return false;
        }
        assert(c.argregs@ =~= seq![MIPS_REG_A0, MIPS_REG_A1, MIPS_REG_A2, MIPS_REG_A3]);
        c.is_wf()
    }

    /// Writes `val` to `V0` and clears the error flag `A3`.
    pub fn write_return(&self, mach: &mut Machine, val: u64) -> (r: Result<(), EmulatorError>)
        requires
            self.is_o32(),
            self.inner.wf(),
            old(mach).wf(),
        ensures
            final(mach).wf(),
            final(mach).same_memory(old(mach)),
            r.is_ok(),
            final(mach).regs@ == old(mach).regs@.update(MIPS_REG_V0 as int, val).update(
                MIPS_REG_A3 as int,
                0,
            ),
            final(mach).log() == old(mach).log().push(
                EffectModel::RegWrite { reg: MIPS_REG_V0, value: val },
            ).push(EffectModel::RegWrite { reg: MIPS_REG_A3, value: 0 }),
    {
        let _ = self.inner.set_return_value(mach, val);
        mach.reg_write(MIPS_REG_A3, 0)
    }

    /// The return address of the current frame.
    pub fn unwind(&self, mach: &Machine, _nslots: u64) -> (r: Result<u64, EmulatorError>)
        requires
            mach.wf(),
        ensures
            r == Ok::<u64, EmulatorError>(mach.regs@[MIPS_REG_RA as int]),
    {
        mach.reg_read(MIPS_REG_RA)
    }

    /// Reads argument `slot` of a call.
    pub fn read_param(&self, mach: &Machine, slot: u64, argbits: Option<u64>) -> (r: Result<
        u64,
        EmulatorError,
    >)
        requires
            self.is_o32(),
            self.inner.wf(),
            mach.wf(),
            argbits matches Some(b) ==> b < 64,
        ensures
            slot >= 16 ==> r == Err::<u64, EmulatorError>(EmulatorError::InvalidArgument),
            slot < 16 ==> match self.inner.raw_param(mach, slot as int) {
                Some(v) => r == Ok::<u64, EmulatorError>(masked(v, argbits)),
                None => r == Err::<u64, EmulatorError>(self.inner.param_fault(mach, slot as int)),
            },
    {
        if slot >= 16 {
            return Err(EmulatorError::InvalidArgument);
        }
        self.inner.get_ram_param(mach, slot as usize, argbits)
    }
}

impl CallingConvention for MipsCC {
    open spec fn cc_wf(&self) -> bool {
        self.is_o32() && self.inner.wf()
    }

    fn get_num_slots(_argbits: u64) -> (r: u64)
        ensures
            r == 1,
    {
        1
    }

    fn get_raw_param(&self, mach: &Machine, slot: u64, argbits: Option<u64>) -> (r: Result<
        u64,
        EmulatorError,
    >)
        ensures
            slot >= 16 ==> r == Err::<u64, EmulatorError>(EmulatorError::InvalidArgument),
            slot < 16 ==> match self.inner.raw_param(mach, slot as int) {
                Some(v) => r == Ok::<u64, EmulatorError>(masked(v, argbits)),
                None => r == Err::<u64, EmulatorError>(self.inner.param_fault(mach, slot as int)),
            },
    {
        self.read_param(mach, slot, argbits)
    }

    fn set_raw_param(&self, mach: &mut Machine, slot: u64, value: u64, argbits: Option<u64>) -> (r:
        Result<(), EmulatorError>)
        ensures
            final(mach).memories@ == old(mach).memories@,
            slot >= 16 ==> r == Err::<(), EmulatorError>(EmulatorError::InvalidArgument)
                && final(mach).regs@ == old(mach).regs@ && final(mach).state.memory@ == old(
                mach,
            ).state.memory@ && final(mach).log() == old(mach).log(),
            slot < 16 ==> match self.inner.param_access(slot as int) {
                ParamAccess::Reg(reg) => r.is_ok() && final(mach).regs@ == old(mach).regs@.update(
                    reg as int,
                    masked(value, argbits),
                ) && final(mach).state.memory@ == old(mach).state.memory@,
                ParamAccess::Stack(off) => final(mach).regs@ == old(mach).regs@ && (r.is_ok()
                    <==> self.inner.stack_param_writable(old(mach), off, masked(value, argbits))),
            },
    {
        if slot >= 16 {
            return Err(EmulatorError::InvalidArgument);
        }
        self.inner.set_raw_param(mach, slot as usize, value, argbits)
    }

    fn get_return_value(&self, mach: &Machine) -> (r: Result<u64, EmulatorError>)
        ensures
            r == Ok::<u64, EmulatorError>(mach.regs@[MIPS_REG_V0 as int]),
    {
        self.inner.get_return_value(mach)
    }

    fn set_return_value(&self, mach: &mut Machine, val: u64) -> (r: Result<(), EmulatorError>)
        ensures
            final(mach).same_memory(old(mach)),
            r.is_ok(),
            final(mach).regs@ == old(mach).regs@.update(MIPS_REG_V0 as int, val).update(
                MIPS_REG_A3 as int,
                0,
            ),
            final(mach).log() == old(mach).log().push(
                EffectModel::RegWrite { reg: MIPS_REG_V0, value: val },
            ).push(EffectModel::RegWrite { reg: MIPS_REG_A3, value: 0 }),
    {
        self.write_return(mach, val)
    }
}

/// The MIPS architecture: its calling convention.
#[derive(Debug)]
pub struct MIPS {
    pub cc: MipsCC,
}

impl MIPS {
    /// MIPS with the O32 convention for pointers of `pointer_size` bytes.
    pub fn new(pointer_size: u8) -> (m: MIPS)
        ensures
            m.cc.is_o32(),
            m.cc.inner.address_size == pointer_size,
            m.cc.inner.wf(),
    {
        MIPS { cc: MipsCC::new(pointer_size) }
    }
}

} // verus!
