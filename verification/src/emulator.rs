//! The orchestrator: loads a program, mirrors the writes of the interpreter,
//! takes snapshots, and plans the runs that produce a recorded step.

use crate::arch::{MipsCC, MipsProfile};
use crate::config::OmoConfig;
use crate::engine::{is_snapshot_of, is_write_of, Machine, MemoryState};
use crate::errors::EmulatorError;
use crate::loader::{ElfLoader, LoadInfo};
use crate::os::linux::LinuxRunner;
use crate::registers::{nonzero_regs, MIPS_REG_PC};
use crate::utils::be_bytes;
use vstd::prelude::*;

verus! {

/// The registers that do not hold zero, by identifier.
pub type RegisterState = Vec<(i32, u64)>;

/// A snapshot of the machine: its non-zero registers and its non-zero memory
/// words.
#[derive(Debug)]
pub struct EmulatorState {
    pub regs: RegisterState,
    pub memories: MemoryState,
}

/// One memory access of a recorded step.
#[derive(Debug, Clone, Copy, PartialEq, Eq, Structural)]
pub struct MemAccess {
    /// Write (`true`) or read.
    pub write: bool,
    pub addr: u64,
    pub size: usize,
    pub value: i64,
}

impl MemAccess {
    /// The access is an aligned access to one word.
    pub open spec fn is_word(self) -> bool {
        self.size == 4 && self.addr % 4 == 0
    }

    /// Whether the access is an aligned access to one word.
    pub fn is_word_access(&self) -> (r: bool)
        ensures
            r == self.is_word(),
    {
        self.size == 4 && self.addr % 4 == 0
    }
}

/// The states before and after one step, and the accesses of that step in the
/// order in which the instruction made them.
#[derive(Debug)]
pub struct StateChange {
    pub state_before: EmulatorState,
    pub state_after: EmulatorState,
    pub step: u64,
    pub access: Vec<MemAccess>,
}

/// The address at which a run ends when none is given: the top of the address
/// lane of the pointer size.
pub fn default_exitpoint(point_size: u8) -> (r: u64)
    requires
        point_size == 2 || point_size == 4 || point_size == 8,
    ensures
        point_size == 2 ==> r == 0xfffff,
        point_size == 4 ==> r == 0x8fffffff,
        point_size == 8 ==> r == 0xffffffffffffffff,
{
    if point_size == 2 {
        0xfffff
    } else if point_size == 4 {
        0x8fffffff
    } else {
        0xffffffffffffffff
    }
}

/// A request to the interpreter to run: from `begin` until `until`, for at
/// most `timeout` microseconds and `count` instructions, zero meaning no
/// limit.
#[derive(Debug, Clone, Copy, PartialEq, Eq, Structural)]
pub struct EmuStart {
    pub begin: u64,
    pub until: u64,
    pub timeout: u64,
    pub count: usize,
}

/// Where a run to a recorded step stands.
#[derive(Debug)]
pub enum RunUntilState {
    /// Nothing has run yet.
    Init { entrypoint: u64, exitpoint: Option<u64>, limit: Option<u64>, count: usize },
    /// The run to the checkpoint is under way.
    Running { until: u64, timeout: u64, count: usize },
    /// The recorded step is under way.
    Recording { count: usize, before: EmulatorState },
    /// The change was handed out.
    Done,
}

/// What the driver of the interpreter is told to do next.
#[derive(Debug)]
pub enum RunUntilAction {
    /// Run without recording.
    Run(EmuStart),
    /// Attach the access recorder, run one instruction, detach the recorder.
    RecordOne(EmuStart),
    /// The run is over; this is its result.
    Finish(StateChange),
}

/// What the driver of the interpreter reports.
#[derive(Debug)]
pub enum RunEvent {
    /// The run is to begin.
    Begin,
    /// The interpreter stopped.
    Stopped,
    /// The recorded instruction is over; these are its accesses.
    Recorded { access: Vec<MemAccess> },
}

/// The emulator: configuration, machine, calling convention and Linux runner.
#[derive(Debug)]
pub struct Emulator {
    pub config: OmoConfig,
    pub core: Machine,
    pub cc: MipsCC,
    pub os: LinuxRunner,
}

impl Emulator {
    /// The invariant of the emulator.
    pub open spec fn wf(&self) -> bool {
        &&& self.core.wf()
        &&& self.cc.is_o32()
        &&& self.cc.inner.wf()
    }

    /// Whether the invariant holds of the emulator as it stands.
    pub fn is_wf(&self) -> (r: bool)
        ensures
            r == self.wf(),
    {
        self.core.is_wf() && self.cc.is_valid()
    }

    /// The machine.
    pub fn engine(&self) -> (r: &Machine)
        ensures
            *r == self.core,
    {
        &self.core
    }

    /// The Linux runner.
    pub fn runner(&self) -> (r: &LinuxRunner)
        ensures
            *r == self.os,
    {
        &self.os
    }

    /// An emulator with an empty machine for the profile `arch`.
    pub fn new(conf: OmoConfig, arch: MipsProfile, os: LinuxRunner) -> (e: Emulator)
        ensures
            e.wf(),
            e.config == conf,
            e.core.endian == arch.endian,
            e.core.pointer_size == (if arch.mode32 {
                4u8
            } else {
                8u8
            }),
            e.core.memories@ == Seq::<crate::memory::RegionModel>::empty(),
            e.core.state.memory@ == Map::<u64, Seq<u8>>::empty(),
            e.os == os,
    {
        let ps = arch.pointer_size();
        Emulator { config: conf, core: Machine::create(arch.endian, ps), cc: MipsCC::new(ps), os }
    }

    /// Loads `binary` and hands the program break to the runner. What the
    /// parser makes of the bytes decides: bytes that it refuses are refused,
    /// and an image that it accepts is loaded exactly when `load_spec` says
    /// so, with the result that it names; the runner then holds the program
    /// break of the image. A failure leaves the runner as it was.
    pub fn load(&mut self, binary: &[u8], argv: &Vec<String>, env: &Vec<(String, String)>) -> (r:
        Result<LoadInfo, EmulatorError>)
        requires
            old(self).wf(),
        ensures
            final(self).wf(),
            final(self).config == old(self).config,
            match crate::loader::parsed_elf(binary@) {
                Some(img) => crate::loader::load_outcome(
                    r,
                    crate::loader::load_spec(
                        &old(self).core,
                        &old(self).config.os,
                        binary@.len() as int,
                        img,
                        argv@,
                        env@,
                    ),
                ) && (r is Ok ==> crate::loader::loaded(
                    &old(self).core,
                    &final(self).core,
                    &old(self).config.os,
                    binary@,
                    img,
                    argv@,
                    env@,
                )),
                None => r == Err::<LoadInfo, EmulatorError>(
                    EmulatorError::Loader(crate::errors::LoaderFault::Malformed),
                ) && final(self).core.memories@ == old(self).core.memories@
                    && final(self).core.state.memory@ == old(self).core.state.memory@,
            },
            r matches Ok(info) ==> final(self).os.brk_address == info.brk_address,
            r matches Ok(info) ==> final(self).os.mmap_address == old(self).os.mmap_address,
            r matches Ok(info) ==> final(self).os.sigaction_act@ == old(self).os.sigaction_act@,
            r matches Ok(info) ==> info.mmap_address == old(self).config.os.mmap_address,
            r matches Ok(info) ==> crate::loader::parsed_elf(binary@) matches Some(img)
                && info.entrypoint == img.e_entry,
            r is Err ==> final(self).os.same_as(&old(self).os),
            crate::loader::parsed_elf(binary@).is_none() ==> r is Err,
    {
        let load_result = ElfLoader::load(&self.config.os, binary, argv, env, &mut self.core)?;
        self.os.on_load(load_result);
        Ok(load_result)
    }

    /// The run that `run` asks of the interpreter: to the default exit point
    /// and without limits where none is given.
    pub fn run(
        &self,
        entrypoint: u64,
        exitpoint: Option<u64>,
        timeout: Option<u64>,
        count: Option<usize>,
    ) -> (r: EmuStart)
        requires
            self.wf(),
        ensures
            r.begin == entrypoint,
            r.until == exit_or_default(exitpoint, self.core.pointer_size),
            r.timeout == (match timeout {
                Some(t) => t,
                None => 0,
            }),
            r.count == (match count {
                Some(c) => c,
                None => 0,
            }),
    {
        let until = match exitpoint {
            Some(e) => e,
            None => default_exitpoint(self.core.pointer_size),
        };
        EmuStart {
            begin: entrypoint,
            until,
            timeout: match timeout {
                Some(t) => t,
                None => 0,
            },
            count: match count {
                Some(c) => c,
                None => 0,
            },
        }
    }

    /// Mirrors a write of the interpreter into the shadow memory: the low
    /// `size` bytes of `value`, big-endian, at `addr`. Reading the range back
    /// gives those bytes. A write of more than four bytes, or beyond the end
    /// of the address space, is not a write of this machine and is refused.
    pub fn on_mem_write(&mut self, addr: u64, size: usize, value: i64) -> (ok: bool)
        ensures
            old(self).wf() ==> final(self).wf(),
            final(self).core.same_frame(&old(self).core),
            final(self).core.log() == old(self).core.log(),
            ok == (size <= 4 && addr + size <= u64::MAX),
            ok ==> is_write_of(
                old(self).core.state.memory,
                final(self).core.state.memory,
                addr,
                be_bytes(crate::engine::low_word(value) as u64, size as nat),
            ) && final(self).core.state.memory.read_spec(addr, size as nat) == be_bytes(
                crate::engine::low_word(value) as u64,
                size as nat,
            ),
            !ok ==> final(self).core.state.memory@ == old(self).core.state.memory@,
    {
        if size > 4 || size as u64 > u64::MAX - addr {
            return false;
        }
        self.core.state.memory.write_value(addr, size, value);
        proof {
            crate::engine::lemma_read_after_write(
                old(self).core.state.memory,
                self.core.state.memory,
                addr,
                be_bytes(crate::engine::low_word(value) as u64, size as nat),
            );
        }
        true
    }

    /// Whether the shadow memory holds at `addr` the low `size` bytes of
    /// `value`, as a read of the interpreter reported them.
    pub fn check_mem_read(&self, addr: u64, size: usize, value: i64) -> (ok: bool)
        ensures
            ok == (size <= 4 && addr + size <= u64::MAX && self.core.state.memory.read_spec(
                addr,
                size as nat,
            ) == be_bytes(crate::engine::low_word(value) as u64, size as nat)),
    {
        if size > 4 || size as u64 > u64::MAX - addr {
            return false;
        }
        let have = self.core.state.memory.read_bytes(addr, size);
        let want = crate::engine::word_bytes_of(value);
        let mut i: usize = 0;
        while i < size
            invariant
                0 <= i <= size <= 4,
                have@.len() == size,
                have@ == self.core.state.memory.read_spec(addr, size as nat),
                want@ == be_bytes(crate::engine::low_word(value) as u64, 4),
                forall|j: int| 0 <= j < i ==> have@[j] == want@[4 - size + j],
            decreases size - i,
        {
            if have[i] != want[4 - size + i] {
                proof {
                    crate::engine::lemma_be_bytes_tail(crate::engine::low_word(value), size as nat);
                    assert(be_bytes(crate::engine::low_word(value) as u64, size as nat)[i as int]
                        == want@[4 - size + i]);
                    assert(have@[i as int] != be_bytes(
                        crate::engine::low_word(value) as u64,
                        size as nat,
                    )[i as int]);
                }
                return false;
            }
            i += 1;
        }
        proof {
            crate::engine::lemma_be_bytes_tail(crate::engine::low_word(value), size as nat);
            assert(have@ =~= be_bytes(crate::engine::low_word(value) as u64, size as nat));
        }
        true
    }

    /// A snapshot: the registers that do not hold zero and the memory words
    /// that are not zero. The snapshot reads at every address as the live
    /// memory does.
    pub fn save(&self) -> (r: Result<EmulatorState, EmulatorError>)
        requires
            self.wf(),
        ensures
            r matches Ok(s) && s.regs@ == nonzero_regs(self.core.regs@, crate::engine::REG_COUNT as int)
                && s.memories.wf() && is_snapshot_of(self.core.state.memory, s.memories),
    {
        let regs = self.core.save_registers();
        let memories = self.core.state.memory.snapshot();
        Ok(EmulatorState { regs, memories })
    }

    /// One move of a run to a recorded step. From `Init`, a count of zero
    /// takes the snapshot *before* at once and asks for the recorded
    /// instruction, which is the one at the entry point; a larger count asks
    /// for the run to the checkpoint first. When that run has stopped, the
    /// snapshot *before* is taken and the recorded instruction, which starts
    /// at the program counter, is asked for. When its accesses come in, the
    /// snapshot *after* is taken and the change is handed out with `step` one
    /// above the count. Any other pairing of state and event is refused.
    pub fn run_until(&self, state: RunUntilState, event: RunEvent) -> (r: Result<
        (RunUntilState, RunUntilAction),
        EmulatorError,
    >)
        requires
            self.wf(),
        ensures
            match (state, event) {
                (RunUntilState::Init { entrypoint, exitpoint, limit: timeout, count }, RunEvent::Begin) => {
                    let until = exit_or_default(exitpoint, self.core.pointer_size);
                    let limit = match timeout {
                        Some(t) => t,
                        None => 0,
                    };
                    if count == 0 {
                        r matches Ok((RunUntilState::Recording { count: c, before }, RunUntilAction::RecordOne(s)))
                            && c == 0 && self.is_saved(before) && s == (EmuStart {
                            begin: entrypoint,
                            until,
                            timeout: limit,
                            count: 1,
                        })
                    } else {
                        r matches Ok((RunUntilState::Running { until: u, timeout: t, count: c }, RunUntilAction::Run(s)))
                            && u == until && t == limit && c == count && s == (EmuStart {
                            begin: entrypoint,
                            until,
                            timeout: limit,
                            count,
                        })
                    }
                },
                (RunUntilState::Running { until, timeout, count }, RunEvent::Stopped) => {
                    r matches Ok((RunUntilState::Recording { count: c, before }, RunUntilAction::RecordOne(s)))
                        && c == count && self.is_saved(before) && s == (EmuStart {
                        begin: self.core.regs@[MIPS_REG_PC as int],
                        until,
                        timeout,
                        count: 1,
                    })
                },
                (RunUntilState::Recording { count, before }, RunEvent::Recorded { access }) => {
                    if count as u64 == u64::MAX {
                        r == Err::<(RunUntilState, RunUntilAction), EmulatorError>(
                            EmulatorError::InvalidArgument,
                        )
                    } else {
                        r matches Ok((RunUntilState::Done, RunUntilAction::Finish(change)))
                            && change.step == count + 1 && change.access@ == access@
                            && change.state_before == before && self.is_saved(change.state_after)
                    }
                },
                _ => r == Err::<(RunUntilState, RunUntilAction), EmulatorError>(
                    EmulatorError::InvalidArgument,
                ),
            },
    {
        match (state, event) {
            (RunUntilState::Init { entrypoint, exitpoint, limit: timeout, count }, RunEvent::Begin) => {
                let plan = self.run(entrypoint, exitpoint, timeout, Some(count));
                if count == 0 {
                    let before = self.save()?;
                    Ok(
                        (
                            RunUntilState::Recording { count, before },
                            RunUntilAction::RecordOne(
                                EmuStart {
                                    begin: entrypoint,
                                    until: plan.until,
                                    timeout: plan.timeout,
                                    count: 1,
                                },
                            ),
                        ),
                    )
                } else {
                    Ok(
                        (
                            RunUntilState::Running {
                                until: plan.until,
                                timeout: plan.timeout,
                                count,
                            },
                            RunUntilAction::Run(plan),
                        ),
                    )
                }
            },
            (RunUntilState::Running { until, timeout, count }, RunEvent::Stopped) => {
                let before = self.save()?;
                let pc = self.core.regs[MIPS_REG_PC as usize];
                Ok(
                    (
                        RunUntilState::Recording { count, before },
                        RunUntilAction::RecordOne(EmuStart { begin: pc, until, timeout, count: 1 }),
                    ),
                )
            },
            (RunUntilState::Recording { count, before }, RunEvent::Recorded { access }) => {
                if count as u64 == u64::MAX {
                    return Err(EmulatorError::InvalidArgument);
                }
                let state_after = self.save()?;
                Ok(
                    (
                        RunUntilState::Done,
                        RunUntilAction::Finish(
                            StateChange {
                                state_before: before,
                                state_after,
                                step: count as u64 + 1,
                                access,
                            },
                        ),
                    ),
                )
            },
            _ => Err(EmulatorError::InvalidArgument),
        }
    }

    /// `s` is a snapshot of this emulator as it stands.
    pub open spec fn is_saved(&self, s: EmulatorState) -> bool {
        &&& s.regs@ == nonzero_regs(self.core.regs@, crate::engine::REG_COUNT as int)
        &&& s.memories.wf()
        &&& is_snapshot_of(self.core.state.memory, s.memories)
    }
}

/// Emulators whose registers and memory read the same give the same
/// snapshot: the same registers and the same memory words.
pub proof fn lemma_equal_states_equal_snapshots(
    e1: Emulator,
    e2: Emulator,
    s1: EmulatorState,
    s2: EmulatorState,
)
    requires
        e1.wf(),
        e2.wf(),
        e1.core.regs@ == e2.core.regs@,
        forall|a: u64| e1.core.state.memory.byte_at(a) == e2.core.state.memory.byte_at(a),
        e1.is_saved(s1),
        e2.is_saved(s2),
    ensures
        s1.regs@ == s2.regs@,
        s1.memories@ == s2.memories@,
{
    crate::engine::lemma_snapshot_canonical(
        e1.core.state.memory,
        e2.core.state.memory,
        s1.memories,
        s2.memories,
    );
}

/// The exit point of a run: the one given, or the default for the pointer
/// size.
pub open spec fn exit_or_default(exitpoint: Option<u64>, pointer_size: u8) -> u64 {
    match exitpoint {
        Some(e) => e,
        None => if pointer_size == 4 {
            0x8fffffff
        } else if pointer_size == 2 {
            0xfffff
        } else {
            0xffffffffffffffff
        },
    }
}

} // verus!
