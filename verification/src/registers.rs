//! The register mirror of the machine and typed access to PC and SP.

use crate::engine::{Effect, EffectModel, Machine, REG_COUNT};
use crate::errors::{EmulatorError, UC_ERR_ARG, UC_ERR_EXCEPTION};
use vstd::prelude::*;

verus! {

/// Program counter.
pub const MIPS_REG_PC: i32 = 1;

/// Return value and system call number.
pub const MIPS_REG_V0: i32 = 4;

pub const MIPS_REG_A0: i32 = 6;

pub const MIPS_REG_A1: i32 = 7;

pub const MIPS_REG_A2: i32 = 8;

/// Fourth argument, and error flag of a system call.
pub const MIPS_REG_A3: i32 = 9;

/// Stack pointer.
pub const MIPS_REG_SP: i32 = 31;

/// Return address.
pub const MIPS_REG_RA: i32 = 33;

pub const MIPS_REG_CP0_CONFIG3: i32 = 137;

/// Thread-local storage pointer.
pub const MIPS_REG_CP0_USERLOCAL: i32 = 138;

/// The registers that hold the program counter and the stack pointer.
#[derive(Copy, Clone, Debug, PartialEq, Eq, Structural)]
pub struct RegisterInfo {
    pub pc: i32,
    pub sp: i32,
}

impl RegisterInfo {
    pub fn new(pc_reg: i32, sp_reg: i32) -> (r: RegisterInfo)
        ensures
            r.pc == pc_reg,
            r.sp == sp_reg,
    {
        RegisterInfo { pc: pc_reg, sp: sp_reg }
    }
}

/// `reg` names a register of the machine.
pub open spec fn reg_valid(reg: i32) -> bool {
    0 < reg < REG_COUNT
}

/// `cur + delta`, when that is an address.
pub open spec fn sp_moved(cur: u64, delta: i64) -> Option<u64> {
    if 0 <= cur + delta <= u64::MAX {
        Some((cur + delta) as u64)
    } else {
        None
    }
}

/// The non-zero registers among those with an identifier below `n`, in order.
pub open spec fn nonzero_regs(regs: Seq<u64>, n: int) -> Seq<(i32, u64)>
    decreases n,
{
    if n <= 1 {
        Seq::empty()
    } else if regs[n - 1] != 0 {
        nonzero_regs(regs, n - 1).push(((n - 1) as i32, regs[n - 1]))
    } else {
        nonzero_regs(regs, n - 1)
    }
}

impl Machine {
    /// The mirrored value of register `reg`; an unknown register is a fault.
    pub fn reg_read(&self, reg: i32) -> (r: Result<u64, EmulatorError>)
        requires
            self.wf(),
        ensures
            reg_valid(reg) ==> r == Ok::<u64, EmulatorError>(self.regs@[reg as int]),
            !reg_valid(reg) ==> r == Err::<u64, EmulatorError>(EmulatorError::Execution(UC_ERR_ARG)),
    {
        if reg <= 0 || reg as usize >= REG_COUNT {
            return Err(EmulatorError::Execution(UC_ERR_ARG));
        }
        Ok(self.regs[reg as usize])
    }

    /// Writes a register, in the mirror and, through the effect log, in the
    /// interpreter; an unknown register is a fault and changes nothing.
    pub fn reg_write(&mut self, reg: i32, value: u64) -> (r: Result<(), EmulatorError>)
        requires
            old(self).wf(),
        ensures
            final(self).wf(),
            final(self).same_memory(old(self)),
            reg_valid(reg) ==> r.is_ok() && final(self).regs@ == old(self).regs@.update(
                reg as int,
                value,
            ) && final(self).log() == old(self).log().push(EffectModel::RegWrite { reg, value }),
            !reg_valid(reg) ==> r == Err::<(), EmulatorError>(EmulatorError::Execution(UC_ERR_ARG))
                && final(self).regs@ == old(self).regs@ && final(self).log() == old(self).log(),
    {
        if reg <= 0 || reg as usize >= REG_COUNT {
            return Err(EmulatorError::Execution(UC_ERR_ARG));
        }
        self.regs.set(reg as usize, value);
        self.emit(Effect::RegWrite { reg, value });
        Ok(())
    }

    /// Brings the mirror of register `reg` up to date with the value that the
    /// interpreter holds. Nothing is logged; an unknown register is ignored.
    pub fn sync_reg(&mut self, reg: i32, value: u64)
        ensures
            old(self).wf() ==> final(self).wf(),
            final(self).same_memory(old(self)),
            final(self).log() == old(self).log(),
            final(self).regs@.len() == old(self).regs@.len(),
            reg_valid(reg) && reg < old(self).regs@.len() ==> final(self).regs@ == old(
                self,
            ).regs@.update(reg as int, value),
            !(reg_valid(reg) && reg < old(self).regs@.len()) ==> final(self).regs@ == old(
                self,
            ).regs@,
    {
        if reg > 0 && (reg as usize) < REG_COUNT && (reg as usize) < self.regs.len() {
            self.regs.set(reg as usize, value);
        }
    }

    pub fn pc(&self) -> (r: Result<u64, EmulatorError>)
        requires
            self.wf(),
        ensures
            r == Ok::<u64, EmulatorError>(self.regs@[MIPS_REG_PC as int]),
    {
        self.reg_read(MIPS_REG_PC)
    }

    pub fn set_pc(&mut self, value: u64) -> (r: Result<(), EmulatorError>)
        requires
            old(self).wf(),
        ensures
            final(self).wf(),
            final(self).same_memory(old(self)),
            r.is_ok(),
            final(self).regs@ == old(self).regs@.update(MIPS_REG_PC as int, value),
            final(self).log() == old(self).log().push(
                EffectModel::RegWrite { reg: MIPS_REG_PC, value },
            ),
    {
        self.reg_write(MIPS_REG_PC, value)
    }

    pub fn sp(&self) -> (r: Result<u64, EmulatorError>)
        requires
            self.wf(),
        ensures
            r == Ok::<u64, EmulatorError>(self.regs@[MIPS_REG_SP as int]),
    {
        self.reg_read(MIPS_REG_SP)
    }

    pub fn set_sp(&mut self, value: u64) -> (r: Result<(), EmulatorError>)
        requires
            old(self).wf(),
        ensures
            final(self).wf(),
            final(self).same_memory(old(self)),
            r.is_ok(),
            final(self).regs@ == old(self).regs@.update(MIPS_REG_SP as int, value),
            final(self).log() == old(self).log().push(
                EffectModel::RegWrite { reg: MIPS_REG_SP, value },
            ),
    {
        self.reg_write(MIPS_REG_SP, value)
    }

    /// The stack pointer of the mirror.
    pub open spec fn sp_spec(&self) -> u64 {
        self.regs@[MIPS_REG_SP as int]
    }

    /// Moves the stack pointer by `delta` and returns the new value. A move
    /// out of the address space is a fault and changes nothing.
    pub fn incr_sp(&mut self, delta: i64) -> (r: Result<u64, EmulatorError>)
        requires
            old(self).wf(),
        ensures
            final(self).wf(),
            final(self).same_memory(old(self)),
            match sp_moved(old(self).sp_spec(), delta) {
                Some(n) => r == Ok::<u64, EmulatorError>(n) && final(self).regs@ == old(
                    self,
                ).regs@.update(MIPS_REG_SP as int, n) && final(self).log() == old(self).log().push(
                    EffectModel::RegWrite { reg: MIPS_REG_SP, value: n },
                ),
                None => r == Err::<u64, EmulatorError>(EmulatorError::Execution(UC_ERR_EXCEPTION))
                    && final(self).regs@ == old(self).regs@ && final(self).log() == old(
                    self,
                ).log(),
            },
    {
        let cur = self.regs[MIPS_REG_SP as usize];
        let moved = if delta >= 0 {
            cur.checked_add(delta as u64)
        } else {
            let down: u64 = (-(delta + 1)) as u64 + 1;
            cur.checked_sub(down)
        };
        match moved {
            Some(new_sp) => {
                let _ = self.reg_write(MIPS_REG_SP, new_sp);
                Ok(new_sp)
            },
            None => Err(EmulatorError::Execution(UC_ERR_EXCEPTION)),
        }
    }

    /// The registers that do not hold zero, with their identifiers, in
    /// increasing order of identifier.
    pub fn save_registers(&self) -> (r: Vec<(i32, u64)>)
        requires
            self.wf(),
        ensures
            r@ == nonzero_regs(self.regs@, REG_COUNT as int),
    {
        let mut out: Vec<(i32, u64)> = Vec::new();
        let mut i: usize = 1;
        while i < REG_COUNT
            invariant
                1 <= i <= REG_COUNT,
                self.regs@.len() == REG_COUNT,
                out@ == nonzero_regs(self.regs@, i as int),
            decreases REG_COUNT - i,
        {
            let v = self.regs[i];
            if v != 0 {
                out.push((i as i32, v));
            }
            i += 1;
        }
        out
    }
}

/// A saved register list names each non-zero register once, with its value,
/// and no register that holds zero.
pub proof fn lemma_nonzero_regs(regs: Seq<u64>, n: int)
    requires
        1 <= n <= regs.len(),
        n <= i32::MAX,
    ensures
        forall|k: int|
            0 <= k < nonzero_regs(regs, n).len() ==> {
                let e = #[trigger] nonzero_regs(regs, n)[k];
                1 <= e.0 < n && e.1 == regs[e.0 as int] && e.1 != 0
            },
        forall|id: int|
            1 <= id < n && regs[id] != 0 ==> nonzero_regs(regs, n).contains(
                (id as i32, #[trigger] regs[id]),
            ),
        forall|a: int, b: int|
            0 <= a < b < nonzero_regs(regs, n).len() ==> (#[trigger] nonzero_regs(regs, n)[a]).0
                < (#[trigger] nonzero_regs(regs, n)[b]).0,
    decreases n,
{
    if n > 1 {
        lemma_nonzero_regs(regs, n - 1);
        let prev = nonzero_regs(regs, n - 1);
        let cur = nonzero_regs(regs, n);
        if regs[n - 1] != 0 {
            assert(cur == prev.push(((n - 1) as i32, regs[n - 1])));
            assert(cur[prev.len() as int] == ((n - 1) as i32, regs[n - 1]));
            assert forall|id: int| 1 <= id < n && regs[id] != 0 implies cur.contains(
                (id as i32, #[trigger] regs[id]),
            ) by {
                if id < n - 1 {
                    let k = choose|k: int| 0 <= k < prev.len() && prev[k] == (id as i32, regs[id]);
                    assert(cur[k] == prev[k]);
                }
            }
            assert forall|a: int, b: int| 0 <= a < b < cur.len() implies (#[trigger] cur[a]).0 < (
            #[trigger] cur[b]).0 by {
                if b < prev.len() {
                    assert(cur[a] == prev[a] && cur[b] == prev[b]);
                } else {
                    assert(cur[a] == prev[a]);
                }
            }
        }
    }
}

} // verus!
