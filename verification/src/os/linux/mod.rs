//! The Linux system call layer of the guest: the runner state and one
//! handler per system call.

pub mod syscall;

use crate::arch::MipsCC;
use crate::engine::{is_write_of, Effect, EffectModel, Machine};
use crate::errors::{EmulatorError, MemoryFault};
use crate::loader::LoadInfo;
use crate::memory::{range_mapped, MemRegion};
use crate::os::linux::syscall::{Rlimit, Stat64MIPS, StatMIPS, StatX8664, SysCalls, SysInfoMIPS};
use crate::registers::{
    MIPS_REG_A3, MIPS_REG_CP0_CONFIG3, MIPS_REG_CP0_USERLOCAL, MIPS_REG_V0,
};
use crate::utils::{
    align, align_up, align_up_spec, be_bytes, is_pow2, is_string_at, no_string_at, read_string,
    Endian, Packer, Permission,
};
use std::collections::BTreeMap;
use vstd::prelude::*;
use vstd::string::StringSliceAdditionalSpecFns;
use vstd::std_specs::btree::*;

verus! {

broadcast use vstd::std_specs::btree::group_btree_axioms;

/// Errno: bad file descriptor.
pub const EBADF: i64 = 9;

/// What a call on a bad file descriptor returns.
pub const NEG_EBADF: i64 = -9;

/// The interrupt number with which MIPS raises a system call.
pub const MIPS_SYSCALL_SIGNAL: u32 = 17;

/// The thread identifier that every guest sees.
pub const FAKE_TID: i64 = 42;

/// Result of a failed `mmap2`.
pub const MAP_FAILED: i64 = -1;

pub const MAP_SHARED: u64 = 0x01;

pub const MAP_FIXED: u64 = 0x10;

pub const MAP_ANONYMOUS: u64 = 0x20;

/// Bit of `CP0_CONFIG3` that enables the user-local register.
pub const CONFIG3_ULR: u64 = 0x2000;

/// The stack limit that the guest is told: 192 KiB.
pub const STACK_LIMIT: u32 = 196608;

/// Resource number of the stack limit.
pub const RLIMIT_STACK: u64 = 3;

/// The signed value that the register value `v` stands for.
pub open spec fn ret_of(v: u64) -> i64 {
    if v <= i64::MAX {
        v as i64
    } else {
        (v - 0x1_0000_0000_0000_0000) as i64
    }
}

/// The register value that stands for the signed value `r`.
pub open spec fn raw_of(r: i64) -> u64 {
    if r >= 0 {
        r as u64
    } else {
        (r + 0x1_0000_0000_0000_0000) as u64
    }
}

/// Reads a register value as a signed number, in two's complement.
pub fn as_ret(v: u64) -> (r: i64)
    ensures
        r == ret_of(v),
        raw_of(r) == v,
{
    if v <= i64::MAX as u64 {
        v as i64
    } else {
        -((u64::MAX - v) as i64) - 1
    }
}

/// Writes a signed number as a register value, in two's complement.
pub fn as_raw(r: i64) -> (v: u64)
    ensures
        v == raw_of(r),
        ret_of(v) == r,
{
    if r >= 0 {
        r as u64
    } else {
        u64::MAX - ((-(r + 1)) as u64)
    }
}

/// The limit that the guest is told for resource `res`.
pub fn get_rlimit(res: u64) -> (r: Rlimit)
    ensures
        r.max == u32::MAX,
        r.cur == (if res == RLIMIT_STACK {
            STACK_LIMIT
        } else {
            u32::MAX
        }),
{
    let mut r0: u32 = u32::MAX;
    if res == RLIMIT_STACK {
        r0 = STACK_LIMIT;
    }
    Rlimit { cur: r0, max: u32::MAX }
}

/// Byte `i` of the fixed sequence that `getrandom` hands out.
pub open spec fn rand_byte_spec(i: int) -> u8 {
    (((i % 251) * 37 + 11) % 256) as u8
}

/// Byte `i` of the fixed sequence that `getrandom` hands out.
pub fn rand_byte(i: u64) -> (r: u8)
    ensures
        r == rand_byte_spec(i as int),
{
    (((i % 251) * 37 + 11) % 256) as u8
}

/// The state of the Linux personality: the program break, the bump pointer of
/// anonymous mappings, and the signal actions that the guest installed.
#[derive(Debug)]
pub struct LinuxRunner {
    pub sigaction_act: BTreeMap<u64, [u64; 5]>,
    pub mmap_address: u64,
    pub brk_address: u64,
}

/// The size in whole pages of a mapping of `length` bytes asked for at
/// `addr`, when it fits the 32-bit address space.
pub open spec fn mmap_size_spec(addr: u64, length: u64) -> Option<u64> {
    let skew = addr % 4096;
    if skew <= length && length - skew <= 0xffff_f000 {
        Some(align_up_spec(length as int - skew as int, 4096) as u64)
    } else {
        None
    }
}

/// The page that holds the low 32 bits of `addr`.
pub open spec fn mmap_base_spec(addr: u64) -> u64 {
    crate::utils::align_down_spec(addr as int % 0x1_0000_0000, 4096) as u64
}

/// The new program break for a request `inp`, when rounding it up to a page
/// does not leave the address space.
pub open spec fn brk_target(inp: u64) -> Option<u64> {
    if inp + 4095 <= u64::MAX {
        Some(align_up_spec(inp as int, 4096) as u64)
    } else {
        None
    }
}

impl LinuxRunner {
    /// A runner whose anonymous mappings start at `mmap_address`.
    pub fn new(mmap_address: u64) -> (r: LinuxRunner)
        ensures
            r.mmap_address == mmap_address,
            r.brk_address == 0,
            r.sigaction_act@ == Map::<u64, [u64; 5]>::empty(),
    {
        LinuxRunner { sigaction_act: BTreeMap::new(), mmap_address, brk_address: 0 }
    }

    /// Takes over the program break that the loader computed.
    pub fn on_load(&mut self, load_info: LoadInfo)
        ensures
            final(self).brk_address == load_info.brk_address,
            final(self).mmap_address == old(self).mmap_address,
            final(self).sigaction_act@ == old(self).sigaction_act@,
    {
        self.brk_address = load_info.brk_address;
    }

    /// The runner state is as in `o`.
    pub open spec fn same_as(&self, o: &LinuxRunner) -> bool {
        &&& self.mmap_address == o.mmap_address
        &&& self.brk_address == o.brk_address
        &&& self.sigaction_act@ == o.sigaction_act@
    }

    /// Stores the thread pointer in `CP0_USERLOCAL`, sets the bit that enables
    /// it in `CP0_CONFIG3`, and clears `V0` and `A3`.
    pub fn set_thread_area(&mut self, core: &mut Machine, u_info_addr: u64) -> (r: Result<
        i64,
        EmulatorError,
    >)
        requires
            old(core).wf(),
        ensures
            set_thread_area_post(old(self), final(self), old(core), final(core), u_info_addr, r),
    {
        let config3 = core.regs[MIPS_REG_CP0_CONFIG3 as usize];
        let _ = core.reg_write(MIPS_REG_CP0_CONFIG3, config3 | CONFIG3_ULR);
        let _ = core.reg_write(MIPS_REG_CP0_USERLOCAL, u_info_addr);
        let _ = core.reg_write(MIPS_REG_V0, 0);
        let _ = core.reg_write(MIPS_REG_A3, 0);
        Ok(0)
    }

    /// Returns the constant thread identifier.
    pub fn set_tid_address(&mut self, _core: &mut Machine, _tidptr: u64) -> (r: Result<
        i64,
        EmulatorError,
    >)
        ensures
            set_tid_address_post(old(self), final(self), old(_core), final(_core), _tidptr, r),
    {
        Ok(FAKE_TID)
    }

    /// With `inp == 0` returns the program break and changes nothing.
    /// Otherwise moves the break to `inp` rounded up to a page: a higher break
    /// maps `[old, new)` with full access under `[brk]`, a lower one unmaps
    /// `[new, old)`. A request that cannot be rounded up returns the break
    /// unchanged.
    pub fn brk(&mut self, core: &mut Machine, inp: u64) -> (r: Result<i64, EmulatorError>)
        requires
            old(core).wf(),
        ensures
            brk_post(old(self), final(self), old(core), final(core), inp, r),
    {
        if inp != 0 && inp <= u64::MAX - 4095 {
            let cur_brk_addr = self.brk_address;
            assert(is_pow2(4096)) by (bit_vector);
            let new_brk_addr = align_up(inp, 4096);
            if inp > cur_brk_addr {
                core.mem_map(
                    MemRegion { begin: cur_brk_addr, end: new_brk_addr, perms: Permission::all() },
                    Some("[brk]".to_owned()),
                )?;
            } else if inp < cur_brk_addr && new_brk_addr < cur_brk_addr {
                if cur_brk_addr - new_brk_addr > usize::MAX as u64 {
                    return Err(EmulatorError::Memory(MemoryFault::InvalidRange));
                }
                core.mem_unmap(new_brk_addr, (cur_brk_addr - new_brk_addr) as usize)?;
            }
            self.brk_address = new_brk_addr;
        }
        proof {
            assert(core.log() =~= old(core).log() + brk_log(old(self).brk_address, inp));
        }
        Ok(as_ret(self.brk_address))
    }

    /// No-op: memory is not remapped; the call fails with -1.
    pub fn mremap(
        &mut self,
        _core: &mut Machine,
        _old_addr: u64,
        _old_size: u64,
        _new_size: u64,
        _flags: u64,
        _new_addr: u64,
    ) -> (r: Result<i64, EmulatorError>)
        ensures
            mremap_post(old(self), final(self), old(_core), final(_core), _old_addr, _old_size, _new_size, _flags, _new_addr, r),
    {
        Ok(-1)
    }

    /// Unmaps `length` bytes, rounded up to pages, at `addr`.
    pub fn munmap(&mut self, core: &mut Machine, addr: u64, length: u64) -> (r: Result<
        i64,
        EmulatorError,
    >)
        requires
            old(core).wf(),
        ensures
            munmap_post(old(self), final(self), old(core), final(core), addr, length, r),
    {
        if length > 0xffff_f000 {
            return Err(EmulatorError::Memory(MemoryFault::InvalidRange));
        }
        assert(is_pow2(4096)) by (bit_vector);
        let length = align_up(length, 4096);
        core.mem_unmap(addr, length as usize)?;
        Ok(0)
    }

    /// Changes the access rights of the pages that `[addr, addr + size)`
    /// touches. A size that does not reach the page of `addr`, or leaves the
    /// 32-bit space, is refused with -1.
    pub fn mprotect(&mut self, core: &mut Machine, addr: u64, size: u64, prot: u64) -> (r: Result<
        i64,
        EmulatorError,
    >)
        requires
            old(core).wf(),
        ensures
            mprotect_post(old(self), final(self), old(core), final(core), addr, size, prot, r),
    {
        assert(is_pow2(4096)) by (bit_vector);
        let mmap_base = align(addr % 0x1_0000_0000, 4096);
        let skew = addr % 4096;
        if skew > size || size - skew > 0xffff_f000 {
            return Ok(-1);
        }
        let mmap_size = align_up(size - skew, 4096);
        let perms = Permission::from_bits_truncate((prot % 0x1_0000_0000) as u32);
        core.mprotect(mmap_base, mmap_size as usize, perms)?;
        Ok(0)
    }

    /// Maps anonymous memory. With `MAP_FIXED` the address must be
    /// page-aligned, and a range that is already mapped only has its access
    /// rights changed. Without a usable hint the mapping is placed at the bump
    /// pointer, which then moves up by the size of the mapping. Fresh memory
    /// is zero-filled.
    pub fn mmap2(
        &mut self,
        core: &mut Machine,
        addr: u64,
        length: u64,
        prot: u64,
        flags: u64,
        _fd: u64,
        _pgoffset: u64,
        _ver: u8,
    ) -> (r: Result<i64, EmulatorError>)
        requires
            old(core).wf(),
        ensures
            mmap2_post(old(self), final(self), old(core), final(core), addr, length, prot, flags, _fd, _pgoffset, _ver, r),
    {
        assert(is_pow2(4096)) by (bit_vector);
        let perms = Permission::from_bits_truncate((prot % 0x1_0000_0000) as u32);
        let mut mmap_base = align(addr % 0x1_0000_0000, 4096);
        if flags & MAP_FIXED != 0 && mmap_base != addr {
            return Ok(MAP_FAILED);
        }
        let skew = addr % 4096;
        if skew > length || length - skew > 0xffff_f000 {
            return Ok(MAP_FAILED);
        }
        let mmap_size = align_up(length - skew, 4096);
        let mut need_map = true;
        if mmap_base != 0 {
            if core.is_mapped(mmap_base, mmap_size as usize) {
                if flags & MAP_FIXED != 0 {
                    core.mprotect(mmap_base, mmap_size as usize, perms)?;
                    need_map = false;
                } else {
                    mmap_base = 0;
                }
            }
        }
        if need_map {
            let bump = mmap_base == 0;
            if bump {
                mmap_base = self.mmap_address;
            }
            let end = match mmap_base.checked_add(mmap_size) {
                Some(e) => e,
                None => { return Err(EmulatorError::Memory(MemoryFault::InvalidRange)); },
            };
            let label = "[syscall_mmap2]".to_owned();
            let ghost lab = label@;
            core.mem_map(MemRegion { begin: mmap_base, end, perms }, Some(label))?;
            if bump {
                self.mmap_address = end;
            }
            let fill = zero_bytes(mmap_size as usize);
            proof {
                lemma_region_mapped(core.memories@, old(core).memories@, mmap_base, end, perms, lab);
            }
            core.write(mmap_base, fill.as_slice())?;
            proof {
                assert(perms == mmap_perms(prot));
                assert(mmap_mapped(old(core), core, mmap_base, mmap_size, prot));
            }
        }
        Ok(as_ret(mmap_base))
    }

    /// A system call that does nothing and succeeds.
    pub fn noop(&mut self, _core: &mut Machine) -> (r: Result<i64, EmulatorError>)
        ensures
            noop_post(old(self), final(self), old(_core), final(_core), r),
    {
        Ok(0)
    }

    /// Asks the interpreter to stop after the current instruction.
    pub fn exit(&mut self, core: &mut Machine, _code: u64) -> (r: Result<i64, EmulatorError>)
        requires
            old(core).wf(),
        ensures
            exit_post(old(self), final(self), old(core), final(core), _code, r),
    {
        core.emit(Effect::Stop);
        Ok(0)
    }

    /// Asks the interpreter to stop after the current instruction.
    pub fn exit_group(&mut self, core: &mut Machine, code: u64) -> (r: Result<i64, EmulatorError>)
        requires
            old(core).wf(),
        ensures
            final(core).wf(),
            r == Ok::<i64, EmulatorError>(0),
            final(self).same_as(old(self)),
            final(core).same_memory(old(core)),
            final(core).regs@ == old(core).regs@,
            final(core).log() == old(core).log().push(EffectModel::Stop),
            exit_post(old(self), final(self), old(core), final(core), code, r),
    {
        self.exit(core, code)
    }

    /// Writes `data` into guest memory at `addr` and returns `ret`.
    fn put(&mut self, core: &mut Machine, addr: u64, data: &Vec<u8>, ret: i64) -> (r: Result<
        i64,
        EmulatorError,
    >)
        requires
            old(core).wf(),
        ensures
            final(core).wf(),
            final(core).same_frame(old(core)),
            final(self).same_as(old(self)),
            old(core).write_ok(addr, data@) ==> r == Ok::<i64, EmulatorError>(ret) && is_write_of(
                old(core).state.memory,
                final(core).state.memory,
                addr,
                data@,
            ) && final(core).log() == old(core).log().push(
                EffectModel::Write { addr, data: data@ },
            ),
            !old(core).write_ok(addr, data@) ==> r == Err::<i64, EmulatorError>(
                EmulatorError::Memory(MemoryFault::Unmapped),
            ) && final(core).state.memory@ == old(core).state.memory@ && final(core).log() == old(
                core,
            ).log(),
    {
        core.write(addr, data.as_slice())?;
        Ok(ret)
    }

    /// Fills `buf_len` bytes at `buf` from the fixed sequence, so that every
    /// run sees the same bytes.
    pub fn get_random(&mut self, core: &mut Machine, buf: u64, buf_len: u64) -> (r: Result<
        i64,
        EmulatorError,
    >)
        requires
            old(core).wf(),
        ensures
            get_random_post(old(self), final(self), old(core), final(core), buf, buf_len, r),
    {
        if buf_len > u32::MAX as u64 {
            return Err(EmulatorError::InvalidArgument);
        }
        let mut data: Vec<u8> = Vec::new();
        let mut i: u64 = 0;
        while i < buf_len
            invariant
                0 <= i <= buf_len,
                data@ == rand_bytes(i as nat),
            decreases buf_len - i,
        {
            data.push(rand_byte(i));
            assert(data@ =~= rand_bytes((i + 1) as nat));
            i += 1;
        }
        self.put(core, buf, &data, buf_len as i64)
    }

    /// Writes the limit of resource `res` at `rlim`.
    pub fn getrlimit(&mut self, core: &mut Machine, res: u64, rlim: u64) -> (r: Result<
        i64,
        EmulatorError,
    >)
        requires
            old(core).wf(),
        ensures
            getrlimit_post(old(self), final(self), old(core), final(core), res, rlim, r),
    {
        let data = get_rlimit(res).encode();
        self.put(core, rlim, &data, 0)
    }

    /// For the calling process and without a new limit, writes the limit of
    /// resource `res` at `old_limit` as two 64-bit words; otherwise fails with
    /// -1.
    pub fn prlimit64(
        &mut self,
        core: &mut Machine,
        pid: u64,
        res: u64,
        new_limit: u64,
        old_limit: u64,
    ) -> (r: Result<i64, EmulatorError>)
        requires
            old(core).wf(),
        ensures
            prlimit64_post(old(self), final(self), old(core), final(core), pid, res, new_limit, old_limit, r),
    {
        if pid == 0 && new_limit == 0 {
            let rlimit = get_rlimit(res);
            let mut data: Vec<u8> = Vec::new();
            crate::os::linux::syscall::push_be(&mut data, rlimit.cur as u64, 8);
            crate::os::linux::syscall::push_be(&mut data, rlimit.max as u64, 8);
            assert(data@ =~= rlimit64_bytes(res));
            return self.put(core, old_limit, &data, 0);
        }
        Ok(-1)
    }

    /// Writes the constant system information at `info`.
    pub fn sysinfo(&mut self, core: &mut Machine, info: u64) -> (r: Result<i64, EmulatorError>)
        requires
            old(core).wf(),
        ensures
            sysinfo_post(old(self), final(self), old(core), final(core), info, r),
    {
        let data = SysInfoMIPS::new().encode();
        self.put(core, info, &data, 0)
    }

    /// Writes a time of zero seconds and zero nanoseconds at `tp`.
    pub fn clock_gettime(&mut self, core: &mut Machine, _clock_id: u64, tp: u64) -> (r: Result<
        i64,
        EmulatorError,
    >)
        requires
            old(core).wf(),
        ensures
            clock_gettime_post(old(self), final(self), old(core), final(core), _clock_id, tp, r),
    {
        let data = zero_bytes(8);
        self.put(core, tp, &data, 0)
    }

    /// Writes `count` bytes of guest memory at `buf` to standard output
    /// (`fd == 1`) or standard error (`fd == 2`) and returns `count`. Any other
    /// descriptor is refused with `-EBADF`, and nothing is read or written.
    pub fn write(&mut self, core: &mut Machine, fd: u64, buf: u64, count: u64) -> (r: Result<
        i64,
        EmulatorError,
    >)
        requires
            old(core).wf(),
        ensures
            write_post(old(self), final(self), old(core), final(core), fd, buf, count, r),
    {
        if fd != 1 && fd != 2 {
            return Ok(NEG_EBADF);
        }
        if count > u32::MAX as u64 {
            return Err(EmulatorError::InvalidArgument);
        }
        let data = core.read(buf, count as usize)?;
        core.emit(Effect::HostWrite { fd, data });
        Ok(count as i64)
    }

    /// Writes each of the `vlen` buffers that the vector at `vec` lists to
    /// standard output or standard error, and returns the sum of their
    /// lengths. Any other descriptor is refused with `-EBADF`. A vector of
    /// more than 65536 buffers, or a buffer of 4 GiB or more, is refused.
    pub fn writev(&mut self, core: &mut Machine, fd: u64, vec: u64, vlen: u64) -> (r: Result<
        i64,
        EmulatorError,
    >)
        requires
            old(core).wf(),
        ensures
            writev_post(old(self), final(self), old(core), final(core), fd, vec, vlen, r),
    {
        if fd != 1 && fd != 2 {
            return Ok(NEG_EBADF);
        }
        if vlen > 0x10000 {
            return Err(EmulatorError::InvalidArgument);
        }
        let ps = core.pointer_size as u64;
        let mut ret: i64 = 0;
        let mut i: u64 = 0;
        assert(core.log() + Seq::<EffectModel>::empty() =~= core.log());
        while i < vlen
            invariant
                0 <= i <= vlen <= 0x10000,
                fd == 1 || fd == 2,
                self.same_as(old(self)),
                ps == core.pointer_size,
                core.wf(),
                core.same_memory(old(core)),
                core.regs@ == old(core).regs@,
                0 <= ret <= i * 0xffff_ffff,
                ret == writev_total(old(core), vec, i as int),
                core.log() == old(core).log() + writev_log(old(core), fd, vec, i as int),
                writev_ok(old(core), vec, i as int),
            decreases vlen - i,
        {
            proof {
                lemma_writev_ok_prefix(old(core), vec, i + 1, vlen as int);
            }
            assert(i * (ps * 2) <= 0x10000 * 16) by (nonlinear_arith)
                requires
                    i <= 0x10000,
                    ps <= 8,
            ;
            let slot = match vec.checked_add(i * (ps * 2)) {
                Some(a) => a,
                None => { return Err(EmulatorError::Memory(MemoryFault::Unmapped)); },
            };
            let addr = core.read_ptr(slot, None)?;
            let lslot = match slot.checked_add(ps) {
                Some(a) => a,
                None => { return Err(EmulatorError::Memory(MemoryFault::Unmapped)); },
            };
            let l = core.read_ptr(lslot, None)?;
            proof {
                let o = old(core);
                crate::engine::lemma_same_reads(core.state.memory, o.state.memory, slot, ps as nat);
                crate::engine::lemma_same_reads(core.state.memory, o.state.memory, lslot, ps as nat);
                assert(core.packer(None) == o.packer(None));
                assert(iov_word(o, vec + i * (2 * ps)) == addr);
                assert(iov_word(o, vec + i * (2 * ps) + ps) == l);
            }
            if l > u32::MAX as u64 {
                return Err(EmulatorError::InvalidArgument);
            }
            let data = core.read(addr, l as usize)?;
            proof {
                assert(iov_entry_ok(old(core), vec, i as int));
                let o = old(core);
                crate::engine::lemma_same_reads(core.state.memory, o.state.memory, slot, ps as nat);
                crate::engine::lemma_same_reads(core.state.memory, o.state.memory, lslot, ps as nat);
                crate::engine::lemma_same_reads(core.state.memory, o.state.memory, addr, l as nat);
                assert(core.packer(None) == o.packer(None));
                assert(iov_word(o, vec + i * (2 * ps)) == addr);
                assert(iov_word(o, vec + i * (2 * ps) + ps) == l);
            }
            let ghost before = core.log();
            core.emit(Effect::HostWrite { fd, data });
            proof {
                let o = old(core);
                assert(core.log() =~= o.log() + writev_log(o, fd, vec, i + 1));
            }
            ret = ret + l as i64;
            i += 1;
        }
        Ok(ret)
    }

    /// Hands the guest the action recorded for `signum` when `oldact` is not
    /// null, then records the five words at `act` when `act` is not null.
    pub fn rt_sigaction(&mut self, core: &mut Machine, signum: u64, act: u64, oldact: u64) -> (r:
        Result<i64, EmulatorError>)
        requires
            old(core).wf(),
        ensures
            rt_sigaction_post(old(self), final(self), old(core), final(core), signum, act, oldact, r),
    {
        if oldact != 0 {
            let arr: [u64; 5] = match self.sigaction_act.get(&signum) {
                Some(a) => *a,
                None => [0u64; 5],
            };
            assert(arr@ =~= old_action(self, signum));
            let packer = Packer::new(core.endian, 4);
            let mut data: Vec<u8> = Vec::new();
            let mut i: usize = 0;
            assert(arr@.take(0) =~= Seq::<u64>::empty());
            while i < 5
                invariant
                    0 <= i <= 5,
                    packer.pointer_size == 4,
                    packer.endian == core.endian,
                    *core == *old(core),
                    self.same_as(old(self)),
                    data@ == crate::loader::pack_words(packer, arr@.take(i as int)),
                decreases 5 - i,
            {
                let mut b = packer.pack(arr[i]);
                data.append(&mut b);
                proof {
                    assert(arr@.take(i + 1).drop_last() =~= arr@.take(i as int));
                    assert(arr@.take(i + 1).last() == arr@[i as int]);
                }
                i += 1;
            }
            assert(arr@.take(5) =~= arr@);
            assert(data@ == action_bytes(old(self), signum, old(core).endian));
            core.write(oldact, data.as_slice())?;
        }
        if act != 0 {
            let mut words: [u64; 5] = [0u64; 5];
            let mut i: usize = 0;
            while i < 5
                invariant
                    0 <= i <= 5,
                    core.wf(),
                    act != 0,
                    core.same_frame(old(core)),
                    self.same_as(old(self)),
                    forall|k: int|
                        0 <= k < i ==> act + 4 * k <= u64::MAX && (#[trigger] words@[k]) as nat
                            == action_word(core, act, k),
                    forall|k: int| 0 <= k < i ==> #[trigger] word_readable(old(core), act, k),
                    oldact != 0 ==> old(core).write_ok(
                        oldact,
                        action_bytes(old(self), signum, old(core).endian),
                    ) && is_write_of(
                        old(core).state.memory,
                        core.state.memory,
                        oldact,
                        action_bytes(old(self), signum, old(core).endian),
                    ) && core.log() == old(core).log().push(
                        EffectModel::Write {
                            addr: oldact,
                            data: action_bytes(old(self), signum, old(core).endian),
                        },
                    ),
                    oldact == 0 ==> core.state.memory@ == old(core).state.memory@ && core.log()
                        == old(core).log(),
                decreases 5 - i,
            {
                let at = match act.checked_add(i as u64 * 4) {
                    Some(a) => a,
                    None => {
                        assert(!word_readable(old(core), act, i as int));
                        return Err(EmulatorError::Memory(MemoryFault::Unmapped));
                    },
                };
                let w = match core.read_ptr(at, Some(4)) {
                    Ok(w) => w,
                    Err(e) => {
                        assert(!word_readable(old(core), act, i as int));
                        return Err(e);
                    },
                };
                assert(word_readable(old(core), act, i as int));
                words[i] = w;
                i += 1;
            }
            self.sigaction_act.insert(signum, words);
            proof {
                assert(self.sigaction_act@[signum] == words);
                assert(stored_action(self, signum) == words@);
                assert forall|k: int| 0 <= k < 5 implies (#[trigger] stored_action(
                    self,
                    signum,
                )[k]) as nat == action_word(core, act, k) by {
                    assert(words@[k] as nat == action_word(core, act, k));
                }
            }
        }
        Ok(0)
    }

    /// Prepares `open`: drops `O_ASYNC` from the flags, adds `O_CREAT` when
    /// the file is opened for writing, and reads the path. An empty path fails
    /// with -1 at once.
    pub fn open(&mut self, core: &mut Machine, filename: u64, flags: u64, mode: u64) -> (r: Result<
        SyscallStep,
        EmulatorError,
    >)
        requires
            old(core).wf(),
        ensures
            *final(core) == *old(core),
            final(self).same_as(old(self)),
            r matches Err(e) ==> e == EmulatorError::Memory(MemoryFault::Unmapped),
            r is Err <==> no_string_at(old(core), filename, 0),
            r matches Ok(SyscallStep::Done(v)) ==> v == MAP_FAILED && is_string_at(
                old(core),
                filename,
                0,
                Seq::<u8>::empty(),
            ),
            r matches Ok(SyscallStep::Host(q)) ==> q@ == (HostRequestModel::Open {
                path: q.path_spec(),
                flags: open_flags_spec(flags),
                mode,
            }) && q.path_spec().len() > 0 && is_string_at(old(core), filename, 0, q.path_spec()),
            r matches Ok(SyscallStep::Host(HostRequest::Open { path, flags: f, mode: m })) ==> f
                == open_flags_spec(flags) && m == mode && path@.len() > 0 && path@ == old(
                core,
            ).state.memory.read_spec(filename, path@.len()),
            r matches Ok(SyscallStep::Host(q)) ==> q is Open,
    {
        let mut flags = flags;
        flags = flags & !0x2000u64;
        if flags & 1 == 1 || flags & 2 == 2 {
            flags = flags | 0x40;
        }
        let path = read_string(core, filename, 0)?;
        if path.len() == 0 {
            assert(path@ =~= Seq::<u8>::empty());
            return Ok(SyscallStep::Done(-1));
        }
        Ok(SyscallStep::Host(HostRequest::Open { path, flags, mode }))
    }

    /// Reads the path at `path_name` for a host call; an empty path fails
    /// with -1 at once.
    fn path_arg(&self, core: &Machine, path_name: u64) -> (r: Result<Option<Vec<u8>>, EmulatorError>)
        requires
            core.wf(),
        ensures
            r is Err <==> no_string_at(core, path_name, 0),
            r matches Err(e) ==> e == EmulatorError::Memory(MemoryFault::Unmapped),
            r matches Ok(None) ==> is_string_at(core, path_name, 0, Seq::<u8>::empty()),
            r matches Ok(Some(p)) ==> p@.len() > 0 && is_string_at(core, path_name, 0, p@),
            r matches Ok(Some(p)) ==> p@.len() > 0 && p@ == core.state.memory.read_spec(
                path_name,
                p@.len(),
            ),
    {
        let path = read_string(core, path_name, 0)?;
        if path.len() == 0 {
            assert(path@ =~= Seq::<u8>::empty());
            return Ok(None);
        }
        Ok(Some(path))
    }
}

/// The five words that the runner hands out for `signum`: the action it
/// holds, or zeros.
pub open spec fn old_action(r: &LinuxRunner, signum: u64) -> Seq<u64> {
    if r.sigaction_act@.contains_key(signum) {
        r.sigaction_act@[signum]@
    } else {
        Seq::new(5, |i: int| 0u64)
    }
}

/// The bytes that the runner hands out for `signum`: five words of four
/// bytes in the guest's byte order.
pub open spec fn action_bytes(r: &LinuxRunner, signum: u64, endian: Endian) -> Seq<u8> {
    crate::loader::pack_words(Packer { endian, pointer_size: 4 }, old_action(r, signum))
}

/// Word `k` of an action at `act` can be read.
pub open spec fn word_readable(core: &Machine, act: u64, k: int) -> bool {
    act + 4 * k <= u64::MAX && range_mapped(core.memories@, (act + 4 * k) as u64, 4)
}

/// The five words of an action at `act` can be read.
pub open spec fn action_readable(core: &Machine, act: u64) -> bool {
    forall|k: int| 0 <= k < 5 ==> #[trigger] word_readable(core, act, k)
}

/// The five words of the action that the runner holds for `signum`.
pub open spec fn stored_action(r: &LinuxRunner, signum: u64) -> Seq<u64> {
    r.sigaction_act@[signum]@
}

/// The pointer-sized word that the guest holds at address `at`.
pub open spec fn iov_word(core: &Machine, at: int) -> nat {
    core.packer(None).unpacked(
        core.state.memory.read_spec(at as u64, core.pointer_size as nat),
    )
}

/// Entry `k` of the vector at `vec` can be written: its two words are
/// readable, its length is below 4 GiB, and its buffer is readable.
pub open spec fn iov_entry_ok(core: &Machine, vec: u64, k: int) -> bool {
    let ps = core.pointer_size as int;
    let slot = vec + k * (2 * ps);
    &&& slot + ps <= u64::MAX
    &&& range_mapped(core.memories@, slot as u64, core.pointer_size as usize)
    &&& range_mapped(core.memories@, (slot + ps) as u64, core.pointer_size as usize)
    &&& iov_word(core, slot + ps) <= u32::MAX
    &&& range_mapped(
        core.memories@,
        iov_word(core, slot) as u64,
        iov_word(core, slot + ps) as usize,
    )
}

/// The first `n` entries of the vector at `vec` can be written.
pub open spec fn writev_ok(core: &Machine, vec: u64, n: int) -> bool
    decreases n,
{
    if n <= 0 {
        true
    } else {
        writev_ok(core, vec, n - 1) && iov_entry_ok(core, vec, n - 1)
    }
}

/// Where the first `n` entries can be written, so can the first `k` of them.
pub proof fn lemma_writev_ok_prefix(core: &Machine, vec: u64, k: int, n: int)
    requires
        0 <= k <= n,
    ensures
        writev_ok(core, vec, n) ==> writev_ok(core, vec, k),
    decreases n - k,
{
    if k < n {
        lemma_writev_ok_prefix(core, vec, k, n - 1);
    }
}

/// The sum of the lengths of the first `n` buffers of the vector at `vec`.
pub open spec fn writev_total(core: &Machine, vec: u64, n: int) -> int
    decreases n,
{
    if n <= 0 {
        0
    } else {
        writev_total(core, vec, n - 1) + iov_word(
            core,
            vec + (n - 1) * (2 * core.pointer_size) + core.pointer_size,
        )
    }
}

/// The writes to the host stream `fd` of the first `n` buffers of the vector
/// at `vec`, in order.
pub open spec fn writev_log(core: &Machine, fd: u64, vec: u64, n: int) -> Seq<EffectModel>
    decreases n,
{
    if n <= 0 {
        Seq::empty()
    } else {
        let at = vec + (n - 1) * (2 * core.pointer_size);
        writev_log(core, fd, vec, n - 1).push(
            EffectModel::HostWrite {
                fd,
                data: core.state.memory.read_spec(
                    iov_word(core, at) as u64,
                    iov_word(core, at + core.pointer_size),
                ),
            },
        )
    }
}

/// Word `k` of the signal action that the guest holds at `act`.
pub open spec fn action_word(core: &Machine, act: u64, k: int) -> nat {
    core.packer(Some(4u8)).unpacked(core.state.memory.read_spec((act + 4 * k) as u64, 4))
}

/// The flags that `open` hands to the host: without `O_ASYNC`, and with
/// `O_CREAT` when the access mode asks for writing.
pub open spec fn open_flags_spec(flags: u64) -> u64 {
    let f = flags & !0x2000u64;
    if f & 1 == 1 || f & 2 == 2 {
        f | 0x40
    } else {
        f
    }
}

/// The first `n` bytes of the fixed sequence of `getrandom`.
pub open spec fn rand_bytes(n: nat) -> Seq<u8> {
    Seq::new(n, |i: int| rand_byte_spec(i))
}

/// The limit that the guest is told for resource `res`.
pub open spec fn rlimit_spec(res: u64) -> Rlimit {
    Rlimit {
        cur: if res == RLIMIT_STACK {
            STACK_LIMIT
        } else {
            u32::MAX
        },
        max: u32::MAX,
    }
}

/// The limit of resource `res` as two 64-bit words.
pub open spec fn rlimit64_bytes(res: u64) -> Seq<u8> {
    be_bytes(rlimit_spec(res).cur as u64, 8) + be_bytes(rlimit_spec(res).max as u64, 8)
}

/// What the host is asked to do for a system call that the library cannot
/// answer by itself.
#[derive(Debug)]
pub enum HostRequest {
    Open { path: Vec<u8>, flags: u64, mode: u64 },
    Read { fd: u64, buf: u64, len: u64 },
    Close { fd: u64 },
    Lseek { fd: u64, offset: u64, whence: u64 },
    Llseek { fd: u64, offset: u64, whence: u64, result: u64 },
    Fcntl { fd: u64, cmd: u64, arg: u64 },
    Readlink { path: Vec<u8>, buf: u64, buf_size: u64 },
    Stat { path: Vec<u8>, stat_buf: u64, wide: bool, follow: bool },
    Fstat { fd: u64, stat_buf: u64, wide: bool },
    Fstatat { dir_fd: u64, path: Vec<u8>, stat_buf: u64, flags: u64 },
    Getcwd { buf: u64, size: u64 },
    Ioctl { fd: u64, cmd: u64, arg: u64 },
}

/// What a request to the host is, mathematically.
pub enum HostRequestModel {
    Open { path: Seq<u8>, flags: u64, mode: u64 },
    Read { fd: u64, buf: u64, len: u64 },
    Close { fd: u64 },
    Lseek { fd: u64, offset: u64, whence: u64 },
    Llseek { fd: u64, offset: u64, whence: u64, result: u64 },
    Fcntl { fd: u64, cmd: u64, arg: u64 },
    Readlink { path: Seq<u8>, buf: u64, buf_size: u64 },
    Stat { path: Seq<u8>, stat_buf: u64, wide: bool, follow: bool },
    Fstat { fd: u64, stat_buf: u64, wide: bool },
    Fstatat { dir_fd: u64, path: Seq<u8>, stat_buf: u64, flags: u64 },
    Getcwd { buf: u64, size: u64 },
    Ioctl { fd: u64, cmd: u64, arg: u64 },
}

impl HostRequest {
    pub open spec fn view(&self) -> HostRequestModel {
        match *self {
            HostRequest::Open { path, flags, mode } => HostRequestModel::Open {
                path: path@,
                flags,
                mode,
            },
            HostRequest::Read { fd, buf, len } => HostRequestModel::Read { fd, buf, len },
            HostRequest::Close { fd } => HostRequestModel::Close { fd },
            HostRequest::Lseek { fd, offset, whence } => HostRequestModel::Lseek {
                fd,
                offset,
                whence,
            },
            HostRequest::Llseek { fd, offset, whence, result } => HostRequestModel::Llseek {
                fd,
                offset,
                whence,
                result,
            },
            HostRequest::Fcntl { fd, cmd, arg } => HostRequestModel::Fcntl { fd, cmd, arg },
            HostRequest::Readlink { path, buf, buf_size } => HostRequestModel::Readlink {
                path: path@,
                buf,
                buf_size,
            },
            HostRequest::Stat { path, stat_buf, wide, follow } => HostRequestModel::Stat {
                path: path@,
                stat_buf,
                wide,
                follow,
            },
            HostRequest::Fstat { fd, stat_buf, wide } => HostRequestModel::Fstat {
                fd,
                stat_buf,
                wide,
            },
            HostRequest::Fstatat { dir_fd, path, stat_buf, flags } => HostRequestModel::Fstatat {
                dir_fd,
                path: path@,
                stat_buf,
                flags,
            },
            HostRequest::Getcwd { buf, size } => HostRequestModel::Getcwd { buf, size },
            HostRequest::Ioctl { fd, cmd, arg } => HostRequestModel::Ioctl { fd, cmd, arg },
        }
    }

    /// The path that the request names, if it names one.
    pub open spec fn path_spec(&self) -> Seq<u8> {
        match *self {
            HostRequest::Open { path, .. } => path@,
            HostRequest::Readlink { path, .. } => path@,
            HostRequest::Stat { path, .. } => path@,
            HostRequest::Fstatat { path, .. } => path@,
            _ => Seq::empty(),
        }
    }
}

/// The argument that holds the address of the path of a call, if the call
/// names a path.
pub open spec fn path_arg_index(syscall: SysCalls) -> Option<int> {
    match syscall {
        SysCalls::OPEN | SysCalls::READLINK | SysCalls::STAT | SysCalls::STAT64
        | SysCalls::LSTAT64 => Some(0int),
        SysCalls::FSTATAT64 => Some(1int),
        _ => None,
    }
}

/// The request that a call with the first four arguments `a`, the fifth
/// argument `fifth` and the path `path` makes of the host.
pub open spec fn request_spec(syscall: SysCalls, a: Seq<u64>, fifth: u64, path: Seq<u8>) -> HostRequestModel {
    match syscall {
        SysCalls::OPEN => HostRequestModel::Open { path, flags: open_flags_spec(a[1]), mode: a[2] },
        SysCalls::READ => HostRequestModel::Read { fd: a[0], buf: a[1], len: a[2] },
        SysCalls::CLOSE => HostRequestModel::Close { fd: a[0] },
        SysCalls::LSEEK => HostRequestModel::Lseek { fd: a[0], offset: a[1], whence: a[2] },
        SysCalls::_LLSEEK => HostRequestModel::Llseek {
            fd: a[0],
            offset: (a[1] << 32) | a[2],
            whence: fifth,
            result: a[3],
        },
        SysCalls::FCNTL | SysCalls::FCNTL64 => HostRequestModel::Fcntl {
            fd: a[0],
            cmd: a[1],
            arg: a[2],
        },
        SysCalls::IOCTL => HostRequestModel::Ioctl { fd: a[0], cmd: a[1], arg: a[2] },
        SysCalls::GETCWD => HostRequestModel::Getcwd { buf: a[0], size: a[1] },
        SysCalls::FSTAT => HostRequestModel::Fstat { fd: a[0], stat_buf: a[1], wide: false },
        SysCalls::FSTAT64 => HostRequestModel::Fstat { fd: a[0], stat_buf: a[1], wide: true },
        SysCalls::READLINK => HostRequestModel::Readlink { path, buf: a[1], buf_size: a[2] },
        SysCalls::STAT => HostRequestModel::Stat {
            path,
            stat_buf: a[1],
            wide: false,
            follow: true,
        },
        SysCalls::STAT64 => HostRequestModel::Stat { path, stat_buf: a[1], wide: true, follow: true },
        SysCalls::LSTAT64 => HostRequestModel::Stat {
            path,
            stat_buf: a[1],
            wide: true,
            follow: false,
        },
        _ => HostRequestModel::Fstatat { dir_fd: a[0], path, stat_buf: a[2], flags: a[3] },
    }
}

/// The first four arguments of a call.
pub open spec fn first_args(core: &Machine, cc: &MipsCC) -> Seq<u64> {
    Seq::new(4, |i: int| call_arg(core, cc, i))
}

/// What the host answers: the result of the call, negative on failure, and
/// the bytes or the file status it produced.
#[derive(Debug)]
pub struct HostReply {
    pub ret: i64,
    pub data: Vec<u8>,
    pub stat: StatX8664,
}

/// How far a system call got: it is done, with its result, or it waits for
/// the host.
#[derive(Debug)]
pub enum SyscallStep {
    Done(i64),
    Host(HostRequest),
}

/// The system calls of one architecture by number.
#[derive(Debug)]
pub struct SyscallTable {
    pub calls: BTreeMap<u64, SysCalls>,
}

impl SyscallTable {
    /// An empty table.
    pub fn new() -> (t: SyscallTable)
        ensures
            t.calls@ == Map::<u64, SysCalls>::empty(),
    {
        SyscallTable { calls: BTreeMap::new() }
    }

    /// Enters the call that is spelled `name` under `number`. A name that the
    /// emulator does not know is not entered, and `false` is returned.
    pub fn add(&mut self, number: u64, name: &str) -> (r: bool)
        ensures
            match crate::os::linux::syscall::call_named(name.spec_bytes()) {
                Some(c) => r && final(self).calls@ == old(self).calls@.insert(number, c),
                None => !r && final(self).calls@ == old(self).calls@,
            },
            r ==> exists|c: SysCalls|
                #[trigger] c.name_spec() == name.spec_bytes() && final(self).calls@ == old(
                    self,
                ).calls@.insert(number, c),
            !r ==> (forall|c: SysCalls| #[trigger] c.name_spec() != name.spec_bytes())
                && final(self).calls@ == old(self).calls@,
    {
        match SysCalls::from_name(name) {
            Some(c) => {
                self.calls.insert(number, c);
                assert(c.name_spec() == name.spec_bytes() && self.calls@ == old(
                    self,
                ).calls@.insert(number, c));
                true
            },
            None => false,
        }
    }

    /// The call entered under `number`.
    pub fn get(&self, number: u64) -> (r: Option<SysCalls>)
        ensures
            match r {
                Some(c) => self.calls@.contains_key(number) && self.calls@[number] == c,
                None => !self.calls@.contains_key(number),
            },
    {
        match self.calls.get(&number) {
            Some(c) => Some(*c),
            None => None,
        }
    }
}

impl SysCalls {
    /// The call needs the host to finish.
    pub open spec fn needs_host(self) -> bool {
        matches!(
            self,
            SysCalls::OPEN | SysCalls::READ | SysCalls::CLOSE | SysCalls::LSEEK | SysCalls::_LLSEEK
                | SysCalls::FCNTL | SysCalls::FCNTL64 | SysCalls::READLINK | SysCalls::STAT
                | SysCalls::STAT64 | SysCalls::FSTAT | SysCalls::FSTAT64 | SysCalls::LSTAT64
                | SysCalls::FSTATAT64 | SysCalls::GETCWD | SysCalls::IOCTL
        )
    }

    /// Whether the call needs the host to finish.
    pub fn is_host_call(self) -> (r: bool)
        ensures
            r == self.needs_host(),
    {
        match self {
            SysCalls::OPEN
            | SysCalls::READ
            | SysCalls::CLOSE
            | SysCalls::LSEEK
            | SysCalls::_LLSEEK
            | SysCalls::FCNTL
            | SysCalls::FCNTL64
            | SysCalls::READLINK
            | SysCalls::STAT
            | SysCalls::STAT64
            | SysCalls::FSTAT
            | SysCalls::FSTAT64
            | SysCalls::LSTAT64
            | SysCalls::FSTATAT64
            | SysCalls::GETCWD
            | SysCalls::IOCTL => true,
            _ => false,
        }
    }

    /// The number of arguments that the handler of the call reads.
    pub fn arity_of(self) -> (r: usize)
        ensures
            r == self.arity(),
            r <= 6,
    {
        match self {
            SysCalls::GETPID
            | SysCalls::GETTIMEOFDAY
            | SysCalls::SIGRETURN
            | SysCalls::RT_SIGRETURN
            | SysCalls::SCHED_YIELD => 0,
            SysCalls::SET_THREAD_AREA
            | SysCalls::SET_TID_ADDRESS
            | SysCalls::BRK
            | SysCalls::EXIT_GROUP
            | SysCalls::EXIT
            | SysCalls::SYSINFO => 1,
            SysCalls::SIGALTSTACK
            | SysCalls::SYSCALL_SIGNAL
            | SysCalls::GETRANDOM
            | SysCalls::CLOCK_GETTIME
            | SysCalls::MUNMAP
            | SysCalls::GETRLIMIT
            | SysCalls::SET_ROBUST_LIST => 2,
            SysCalls::POLL
            | SysCalls::RT_SIGACTION
            | SysCalls::SCHED_GETAFFINITY
            | SysCalls::TKILL
            | SysCalls::MPROTECT
            | SysCalls::MADVISE
            | SysCalls::WRITE
            | SysCalls::WRITEV => 3,
            SysCalls::MREMAP => 5,
            SysCalls::FUTEX | SysCalls::MMAP2 => 6,
            _ => 4,
        }
    }

    /// The call has no handler.
    pub open spec fn unhandled(self) -> bool {
        matches!(self, SysCalls::GETPID | SysCalls::GETTIMEOFDAY)
    }

    /// The number of arguments that the handler of the call reads before it
    /// does anything else.
    pub open spec fn arity(self) -> int {
        match self {
            SysCalls::GETPID | SysCalls::GETTIMEOFDAY | SysCalls::SIGRETURN
            | SysCalls::RT_SIGRETURN | SysCalls::SCHED_YIELD => 0,
            SysCalls::SET_THREAD_AREA | SysCalls::SET_TID_ADDRESS | SysCalls::BRK
            | SysCalls::EXIT_GROUP | SysCalls::EXIT | SysCalls::SYSINFO => 1,
            SysCalls::SIGALTSTACK | SysCalls::SYSCALL_SIGNAL | SysCalls::GETRANDOM
            | SysCalls::CLOCK_GETTIME | SysCalls::MUNMAP | SysCalls::GETRLIMIT
            | SysCalls::SET_ROBUST_LIST => 2,
            SysCalls::POLL | SysCalls::RT_SIGACTION | SysCalls::SCHED_GETAFFINITY
            | SysCalls::TKILL | SysCalls::MPROTECT | SysCalls::MADVISE | SysCalls::WRITE
            | SysCalls::WRITEV => 3,
            SysCalls::MREMAP => 5,
            SysCalls::FUTEX | SysCalls::MMAP2 => 6,
            _ => 4,
        }
    }

    /// The result of the calls that return the same value whatever their
    /// arguments, and change neither memory nor the runner.
    pub open spec fn fixed_result(self) -> Option<i64> {
        match self {
            SysCalls::SET_TID_ADDRESS => Some(FAKE_TID),
            SysCalls::MREMAP => Some(MAP_FAILED),
            SysCalls::SET_THREAD_AREA | SysCalls::POLL | SysCalls::RT_SIGPROCMASK
            | SysCalls::SIGALTSTACK | SysCalls::SYSCALL_SIGNAL | SysCalls::SIGRETURN
            | SysCalls::RT_SIGRETURN | SysCalls::EXIT_GROUP | SysCalls::EXIT
            | SysCalls::SCHED_GETAFFINITY | SysCalls::SCHED_YIELD | SysCalls::TKILL
            | SysCalls::FUTEX | SysCalls::MADVISE | SysCalls::SET_ROBUST_LIST => Some(0i64),
            _ => None,
        }
    }
}

/// The architectures whose system call conventions are known.
#[derive(Debug, Clone, Copy, PartialEq, Eq, Structural)]
pub enum Arch {
    MIPS,
    RISCV,
    ARM,
    ARM64,
}

/// The interrupt number with which an architecture raises a system call.
pub fn intr_signal(arch: Arch) -> (r: u32)
    ensures
        r == match arch {
            Arch::MIPS => MIPS_SYSCALL_SIGNAL,
            Arch::RISCV => 8u32,
            Arch::ARM => 2u32,
            Arch::ARM64 => 2u32,
        },
{
    match arch {
        Arch::MIPS => MIPS_SYSCALL_SIGNAL,
        Arch::RISCV => 8,
        Arch::ARM => 2,
        Arch::ARM64 => 2,
    }
}

/// The register that holds the number of a system call; known for MIPS.
pub fn syscall_id_reg(arch: Arch) -> (r: Option<i32>)
    ensures
        r == (if arch == Arch::MIPS {
            Some(MIPS_REG_V0)
        } else {
            None
        }),
{
    match arch {
        Arch::MIPS => Some(MIPS_REG_V0),
        _ => None,
    }
}

/// One architecture of a system call table: its name and its calls by number.
pub type ArchCalls = (String, Vec<(u64, String)>);

/// What an architecture of a system call table holds.
pub open spec fn arch_calls_view(a: ArchCalls) -> (Seq<char>, Seq<(u64, Seq<char>)>) {
    (a.0@, calls_view(a.1@))
}

/// What a list of calls holds: numbers and names.
pub open spec fn calls_view(calls: Seq<(u64, String)>) -> Seq<(u64, Seq<char>)> {
    calls.map_values(|c: (u64, String)| (c.0, c.1@))
}

/// The emulator knows a call of the name `n`.
pub open spec fn known_name(n: Seq<char>) -> bool {
    exists|c: SysCalls| c.name_spec() == vstd::utf8::encode_utf8(n)
}

/// The entries of the table made of the first `k` calls of `list`: each call
/// whose name the emulator knows stands under its number; of two calls with
/// one number the later stands.
pub open spec fn table_map(list: Seq<(u64, Seq<char>)>, k: int) -> Map<u64, SysCalls>
    decreases k,
{
    if k <= 0 {
        Map::empty()
    } else {
        match crate::os::linux::syscall::call_named(vstd::utf8::encode_utf8(list[k - 1].1)) {
            Some(c) => table_map(list, k - 1).insert(list[k - 1].0, c),
            None => table_map(list, k - 1),
        }
    }
}

/// The table `t` is made of the list `list`: every entry of the table is a
/// call of the list under its number and of its name, and every call of the
/// list whose name the emulator knows has an entry.
pub open spec fn is_table_of(t: SyscallTable, list: Seq<(u64, Seq<char>)>) -> bool {
    &&& forall|n: u64| #[trigger]
        t.calls@.contains_key(n) ==> exists|i: int|
            0 <= i < list.len() && (#[trigger] list[i]).0 == n && t.calls@[n].name_spec()
                == vstd::utf8::encode_utf8(list[i].1)
    &&& forall|i: int|
        0 <= i < list.len() && known_name((#[trigger] list[i]).1) ==> t.calls@.contains_key(
            list[i].0,
        )
}

/// The name spells `mips`, in letters of either case.
pub open spec fn mips_name(n: Seq<char>) -> bool {
    let b = vstd::utf8::encode_utf8(n);
    b.len() == 4 && lower(b[0]) == 109 && lower(b[1]) == 105 && lower(b[2]) == 112 && lower(b[3])
        == 115
}

/// The first architecture of `all`, from `k` on, whose name spells `mips`.
pub open spec fn first_mips(all: Seq<(Seq<char>, Seq<(u64, Seq<char>)>)>, k: int) -> Option<int>
    decreases all.len() - k,
{
    if k < 0 || k >= all.len() {
        None
    } else if mips_name(all[k].0) {
        Some(k)
    } else {
        first_mips(all, k + 1)
    }
}

/// The result `r` is what the parsed text `parsed` owes: the table of the
/// first architecture that spells `mips`, or a refusal where the text is no
/// table or holds no such architecture.
pub open spec fn table_outcome(
    r: Result<SyscallTable, EmulatorError>,
    parsed: Option<Seq<(Seq<char>, Seq<(u64, Seq<char>)>)>>,
) -> bool {
    match parsed {
        None => r matches Err(e) && e == EmulatorError::InvalidArgument,
        Some(all) => match first_mips(all, 0) {
            Some(i) => r matches Ok(t) && is_table_of(t, all[i].1) && t.calls@ == table_map(
                all[i].1,
                all[i].1.len() as int,
            ),
            None => r matches Err(e) && e == EmulatorError::InvalidArgument,
        },
    }
}

/// What a system call table holds.
pub open spec fn table_view(t: Seq<ArchCalls>) -> Seq<(Seq<char>, Seq<(u64, Seq<char>)>)> {
    t.map_values(|a: ArchCalls| arch_calls_view(a))
}

/// What `serde_json` makes of the text of a system call table, a JSON object
/// of objects: the architectures in order of name, each with its calls in
/// order of number; nothing when the text is no such table.
pub uninterp spec fn json_table(data: Seq<char>) -> Option<
    Seq<(Seq<char>, Seq<(u64, Seq<char>)>)>,
>;

/// `serde_json::from_str` on `data`, read as a map from architecture name to a
/// map from call number to call name, with the entries copied out in the order
/// of the maps. The contract only names the result.
#[verifier::external_body]
fn parse_table_json(data: &str) -> (r: Option<Vec<ArchCalls>>)
    ensures
        match r {
            Some(t) => json_table(data@) == Some(table_view(t@)),
            None => json_table(data@).is_none(),
        },
{
    let parsed: Result<BTreeMap<String, BTreeMap<u64, String>>, serde_json::Error> =
        serde_json::from_str(data);
    match parsed {
        Ok(m) => Some(m.into_iter().map(|(k, v)| (k, v.into_iter().collect())).collect()),
        Err(_) => None,
    }
}

/// Whether `name` spells `mips`, in letters of either case.
pub fn is_mips(name: &str) -> (r: bool)
    ensures
        r == (name.spec_bytes().len() == 4 && lower(name.spec_bytes()[0]) == 109 && lower(
            name.spec_bytes()[1],
        ) == 105 && lower(name.spec_bytes()[2]) == 112 && lower(name.spec_bytes()[3]) == 115),
{
    let b = name.as_bytes();
    b.len() == 4 && to_lower(b[0]) == 109 && to_lower(b[1]) == 105 && to_lower(b[2]) == 112
        && to_lower(b[3]) == 115
}

/// The lower-case form of an ASCII letter; any other byte is itself.
pub open spec fn lower(b: u8) -> u8 {
    if 65 <= b <= 90 {
        (b + 32) as u8
    } else {
        b
    }
}

/// The lower-case form of an ASCII letter; any other byte is itself.
pub fn to_lower(b: u8) -> (r: u8)
    ensures
        r == lower(b),
{
    if 65 <= b && b <= 90 {
        b + 32
    } else {
        b
    }
}

/// The table of the MIPS calls that `calls` lists: each call whose name the
/// emulator knows, under its number; of two calls with one number the later.
pub fn table_of(calls: &Vec<(u64, String)>) -> (t: SyscallTable)
    ensures
        forall|n: u64| #[trigger]
            t.calls@.contains_key(n) ==> exists|i: int|
                0 <= i < calls@.len() && (#[trigger] calls@[i]).0 == n && t.calls@[n].name_spec()
                    == vstd::utf8::encode_utf8(calls@[i].1@),
        forall|i: int|
            0 <= i < calls@.len() && (exists|c: SysCalls|
                c.name_spec() == vstd::utf8::encode_utf8((#[trigger] calls@[i]).1@))
                ==> t.calls@.contains_key(calls@[i].0),
        is_table_of(t, calls_view(calls@)),
        t.calls@ == table_map(calls_view(calls@), calls@.len() as int),
{
    let mut t = SyscallTable::new();
    let n = calls.len();
    let mut i: usize = 0;
    while i < n
        invariant
            n == calls@.len(),
            0 <= i <= n,
            t.calls@ == table_map(calls_view(calls@), i as int),
            forall|k: u64| #[trigger]
                t.calls@.contains_key(k) ==> exists|j: int|
                    0 <= j < i && (#[trigger] calls@[j]).0 == k && t.calls@[k].name_spec()
                        == vstd::utf8::encode_utf8(calls@[j].1@),
            forall|j: int|
                0 <= j < i && (exists|c: SysCalls|
                    c.name_spec() == vstd::utf8::encode_utf8((#[trigger] calls@[j]).1@))
                    ==> t.calls@.contains_key(calls@[j].0),
        decreases n - i,
    {
        let ghost before = t.calls@;
        let added = t.add(calls[i].0, calls[i].1.as_str());
        proof {
            assert(calls_view(calls@)[i as int] == (calls@[i as int].0, calls@[i as int].1@));
            assert(t.calls@ == table_map(calls_view(calls@), i + 1));
            assert forall|k: u64| #[trigger] t.calls@.contains_key(k) implies exists|j: int|
                0 <= j < i + 1 && (#[trigger] calls@[j]).0 == k && t.calls@[k].name_spec()
                    == vstd::utf8::encode_utf8(calls@[j].1@) by {
                if added && k == calls@[i as int].0 {
                    assert(calls@[i as int].0 == k);
                } else {
                    assert(before.contains_key(k));
                    let j = choose|j: int|
                        0 <= j < i && (#[trigger] calls@[j]).0 == k && before[k].name_spec()
                            == vstd::utf8::encode_utf8(calls@[j].1@);
                    assert(calls@[j].0 == k);
                }
            }
        }
        i += 1;
    }
    proof {
        let list = calls_view(calls@);
        assert forall|k: u64| #[trigger] t.calls@.contains_key(k) implies exists|j: int|
            0 <= j < list.len() && (#[trigger] list[j]).0 == k && t.calls@[k].name_spec()
                == vstd::utf8::encode_utf8(list[j].1) by {
            let j = choose|j: int|
                0 <= j < n && (#[trigger] calls@[j]).0 == k && t.calls@[k].name_spec()
                    == vstd::utf8::encode_utf8(calls@[j].1@);
            assert(list[j] == (calls@[j].0, calls@[j].1@));
        }
        assert forall|j: int| 0 <= j < list.len() && known_name((#[trigger] list[j]).1) implies t.calls@.contains_key(
            list[j].0,
        ) by {
            assert(list[j] == (calls@[j].0, calls@[j].1@));
            let c = choose|c: SysCalls| c.name_spec() == vstd::utf8::encode_utf8(list[j].1);
            assert(c.name_spec() == vstd::utf8::encode_utf8(calls@[j].1@));
        }
    }
    t
}

/// Reads a system call table from its JSON text and makes the table of the
/// MIPS calls: of the first architecture whose name spells `mips`. A text
/// that is no table, or holds no such architecture, is refused.
pub fn parse_syscall_table(data: &str) -> (r: Result<SyscallTable, EmulatorError>)
    ensures
        table_outcome(r, json_table(data@)),
        r matches Err(e) ==> e == EmulatorError::InvalidArgument,
        r matches Ok(t) ==> json_table(data@).is_some() && made_from(json_table(data@).unwrap(), t),
{
    let all = match parse_table_json(data) {
        Some(a) => a,
        None => { return Err(EmulatorError::InvalidArgument); },
    };
    let ghost views = table_view(all@);
    let n = all.len();
    let mut i: usize = 0;
    while i < n
        invariant
            n == all@.len(),
            0 <= i <= n,
            views == table_view(all@),
            json_table(data@) == Some(views),
            first_mips(views, 0) == first_mips(views, i as int),
        decreases n - i,
    {
        proof {
            assert(views.len() == all@.len());
            assert(views[i as int] == arch_calls_view(all@[i as int]));
        }
        if is_mips(all[i].0.as_str()) {
            let t = table_of(&all[i].1);
            proof {
                assert(mips_name(views[i as int].0));
                assert(first_mips(views, 0) == Some(i as int));
                let list = views[i as int].1;
                assert(list == calls_view(all@[i as int].1@));
                assert(is_table_of(t, list));
                assert forall|k: u64| #[trigger] t.calls@.contains_key(k) implies exists|j: int|
                    0 <= j < list.len() && (#[trigger] list[j]).0 == k by {}
                assert(listed_in(t, views[i as int].1));
                assert(made_from(views, t));
            }
            return Ok(t);
        }
        proof {
            assert(!mips_name(views[i as int].0));
        }
        i += 1;
    }
    Err(EmulatorError::InvalidArgument)
}

/// The table `t` holds calls of one architecture of the parsed text `all`.
pub open spec fn made_from(all: Seq<(Seq<char>, Seq<(u64, Seq<char>)>)>, t: SyscallTable) -> bool {
    exists|i: int| 0 <= i < all.len() && listed_in(t, (#[trigger] all[i]).1)
}

/// Every number of the table is a number of the list `calls`.
pub open spec fn listed_in(t: SyscallTable, calls: Seq<(u64, Seq<char>)>) -> bool {
    forall|k: u64| #[trigger]
        t.calls@.contains_key(k) ==> exists|j: int|
            0 <= j < calls.len() && (#[trigger] calls[j]).0 == k
}

/// What became of an interrupt: it was not a system call, or the system call
/// got as far as the step says.
#[derive(Debug)]
pub enum TrapOutcome {
    Ignored,
    Step(SyscallStep),
}

/// What the guest gets back for a host call: -1 when the host failed, else
/// the host's result, or zero for the calls that only report success.
pub open spec fn host_result_spec(req: HostRequest, ret: i64) -> i64 {
    if ret < 0 {
        MAP_FAILED
    } else {
        match req {
            HostRequest::Close { .. } => 0,
            HostRequest::Llseek { .. } => 0,
            HostRequest::Stat { .. } => 0,
            HostRequest::Fstat { .. } => 0,
            HostRequest::Fstatat { .. } => 0,
            HostRequest::Getcwd { .. } => 0,
            _ => ret,
        }
    }
}

impl LinuxRunner {
    /// Reads the first `n` arguments of the system call; the others are zero.
    pub fn args(&self, core: &Machine, cc: &MipsCC, n: usize) -> (r: Result<[u64; 6], EmulatorError>)
        requires
            core.wf(),
            cc.is_o32(),
            cc.inner.wf(),
            n <= 6,
        ensures
            r matches Ok(a) ==> forall|i: int|
                0 <= i < 6 ==> #[trigger] a@[i] == (if i < n {
                    cc.inner.raw_param(core, i).unwrap()
                } else {
                    0u64
                }),
            r matches Ok(a) ==> forall|i: int|
                0 <= i < n ==> (#[trigger] cc.inner.raw_param(core, i)).is_some(),
            (forall|i: int| 0 <= i < n ==> (#[trigger] cc.inner.raw_param(core, i)).is_some())
                ==> r is Ok,
    {
        let mut a: [u64; 6] = [0u64; 6];
        let mut i: usize = 0;
        while i < n
            invariant
                0 <= i <= n <= 6,
                core.wf(),
                cc.is_o32(),
                cc.inner.wf(),
                forall|j: int|
                    0 <= j < 6 ==> #[trigger] a@[j] == (if j < i {
                        cc.inner.raw_param(core, j).unwrap()
                    } else {
                        0u64
                    }),
                forall|j: int| 0 <= j < i ==> (#[trigger] cc.inner.raw_param(core, j)).is_some(),
            decreases n - i,
        {
            let v = cc.read_param(core, i as u64, None)?;
            a[i] = v;
            i += 1;
        }
        Ok(a)
    }

    /// Reads the first `n` arguments of the system call; a failure is never
    /// reported as a missing handler.
    pub fn args_checked(&self, core: &Machine, cc: &MipsCC, n: usize) -> (r: Result<
        [u64; 6],
        EmulatorError,
    >)
        requires
            core.wf(),
            cc.is_o32(),
            cc.inner.wf(),
            n <= 6,
        ensures
            !(r matches Err(EmulatorError::Syscall(_))),
            (forall|i: int| 0 <= i < n ==> (#[trigger] cc.inner.raw_param(core, i)).is_some())
                <==> r is Ok,
            r matches Ok(a) ==> forall|i: int|
                0 <= i < 6 ==> #[trigger] a@[i] == (if i < n {
                    cc.inner.raw_param(core, i).unwrap()
                } else {
                    0u64
                }),
    {
        no_syscall_fault(self.args(core, cc, n))
    }

    /// Runs the handler of `syscall` on the arguments that the calling
    /// convention holds: runner, machine and result are what the handler
    /// promises on those arguments. A call that is done then has its result
    /// written to `V0`, with the error flag `A3` cleared, and an error of the
    /// handler is passed on. A call that needs the host is handed back as a
    /// request and has changed nothing yet; a call without a handler is an
    /// error.
    pub fn handle_syscall(&mut self, core: &mut Machine, cc: &MipsCC, syscall: SysCalls) -> (r:
        Result<SyscallStep, EmulatorError>)
        requires
            old(core).wf(),
            cc.is_o32(),
            cc.inner.wf(),
        ensures
            handle_syscall_post(old(self), final(self), old(core), final(core), cc, syscall, r),
    {
        match syscall {
            SysCalls::GETPID => {
                return Err(EmulatorError::Syscall(0));
            },
            SysCalls::GETTIMEOFDAY => {
                return Err(EmulatorError::Syscall(17));
            },
            _ => {},
        }
        if syscall.is_host_call() {
            return self.host_request(core, cc, syscall);
        }
        let n = syscall.arity_of();
        let p = self.args_checked(core, cc, n)?;
        assert(p@ =~= call_args(core, cc, n as int));
        let hr: Result<i64, EmulatorError> = match syscall {
            SysCalls::SET_THREAD_AREA => self.set_thread_area(core, p[0]),
            SysCalls::SET_TID_ADDRESS => self.set_tid_address(core, p[0]),
            SysCalls::RT_SIGACTION => self.rt_sigaction(core, p[0], p[1], p[2]),
            SysCalls::BRK => self.brk(core, p[0]),
            SysCalls::EXIT_GROUP => self.exit_group(core, p[0]),
            SysCalls::EXIT => self.exit(core, p[0]),
            SysCalls::GETRANDOM => self.get_random(core, p[0], p[1]),
            SysCalls::CLOCK_GETTIME => self.clock_gettime(core, p[0], p[1]),
            SysCalls::MMAP2 => self.mmap2(core, p[0], p[1], p[2], p[3], p[4], p[5], 2),
            SysCalls::MREMAP => self.mremap(core, p[0], p[1], p[2], p[3], p[4]),
            SysCalls::MUNMAP => self.munmap(core, p[0], p[1]),
            SysCalls::MPROTECT => self.mprotect(core, p[0], p[1], p[2]),
            SysCalls::GETRLIMIT => self.getrlimit(core, p[0], p[1]),
            SysCalls::SYSINFO => self.sysinfo(core, p[0]),
            SysCalls::PRLIMIT64 => self.prlimit64(core, p[0], p[1], p[2], p[3]),
            SysCalls::WRITE => self.write(core, p[0], p[1], p[2]),
            SysCalls::WRITEV => self.writev(core, p[0], p[1], p[2]),
            SysCalls::POLL
            | SysCalls::RT_SIGPROCMASK
            | SysCalls::SIGALTSTACK
            | SysCalls::SYSCALL_SIGNAL
            | SysCalls::SIGRETURN
            | SysCalls::RT_SIGRETURN
            | SysCalls::SCHED_GETAFFINITY
            | SysCalls::SCHED_YIELD
            | SysCalls::TKILL
            | SysCalls::FUTEX
            | SysCalls::MADVISE
            | SysCalls::SET_ROBUST_LIST => self.noop(core),
            _ => Err(EmulatorError::InvalidArgument),
        };
        let ghost mid = *core;
        assert(handled(old(self), self, old(core), &mid, syscall, p@, hr));
        let out: Result<SyscallStep, EmulatorError> = match hr {
            Ok(v) => {
                let _ = cc.write_return(core, as_raw(v));
                Ok(SyscallStep::Done(v))
            },
            Err(e) => match e {
                EmulatorError::Syscall(_) => Err(EmulatorError::InvalidArgument),
                other => Err(other),
            },
        };
        proof {
            assert(returned(&mid, core, hr, out));
            assert(handled(old(self), self, old(core), &mid, syscall, p@, hr) && returned(
                &mid,
                core,
                hr,
                out,
            ));
            assert(dispatched(old(self), self, old(core), core, syscall, p@, out));
        }
        out
    }

    /// Prepares a system call that the host has to carry out: reads its
    /// arguments and the path it names. An empty path fails with -1 at once,
    /// which is written to `V0`.
    pub fn host_request(&mut self, core: &mut Machine, cc: &MipsCC, syscall: SysCalls) -> (r: Result<
        SyscallStep,
        EmulatorError,
    >)
        requires
            old(core).wf(),
            cc.is_o32(),
            cc.inner.wf(),
            syscall.needs_host(),
        ensures
            host_request_post(old(self), final(self), old(core), final(core), cc, syscall, r),
    {
        let p = self.args_checked(core, cc, 4)?;
        assert(p@.take(4) =~= first_args(core, cc));
        let req: Option<HostRequest> = match syscall {
            SysCalls::OPEN => match no_syscall_fault(self.open(core, p[0], p[1], p[2]))? {
                SyscallStep::Host(q) => Some(q),
                SyscallStep::Done(_) => None,
            },
            SysCalls::READ => Some(HostRequest::Read { fd: p[0], buf: p[1], len: p[2] }),
            SysCalls::CLOSE => Some(HostRequest::Close { fd: p[0] }),
            SysCalls::LSEEK => Some(HostRequest::Lseek { fd: p[0], offset: p[1], whence: p[2] }),
            SysCalls::_LLSEEK => {
                let whence = no_syscall_fault(cc.read_param(core, 4, None))?;
                Some(
                    HostRequest::Llseek {
                        fd: p[0],
                        offset: llseek_offset(p[1], p[2]),
                        whence,
                        result: p[3],
                    },
                )
            },
            SysCalls::FCNTL => Some(HostRequest::Fcntl { fd: p[0], cmd: p[1], arg: p[2] }),
            SysCalls::FCNTL64 => Some(HostRequest::Fcntl { fd: p[0], cmd: p[1], arg: p[2] }),
            SysCalls::IOCTL => Some(HostRequest::Ioctl { fd: p[0], cmd: p[1], arg: p[2] }),
            SysCalls::GETCWD => Some(HostRequest::Getcwd { buf: p[0], size: p[1] }),
            SysCalls::FSTAT => Some(HostRequest::Fstat { fd: p[0], stat_buf: p[1], wide: false }),
            SysCalls::FSTAT64 => Some(HostRequest::Fstat { fd: p[0], stat_buf: p[1], wide: true }),
            SysCalls::READLINK => match no_syscall_fault(self.path_arg(core, p[0]))? {
                Some(path) => Some(HostRequest::Readlink { path, buf: p[1], buf_size: p[2] }),
                None => None,
            },
            SysCalls::STAT => match no_syscall_fault(self.path_arg(core, p[0]))? {
                Some(path) => Some(
                    HostRequest::Stat { path, stat_buf: p[1], wide: false, follow: true },
                ),
                None => None,
            },
            SysCalls::STAT64 => match no_syscall_fault(self.path_arg(core, p[0]))? {
                Some(path) => Some(
                    HostRequest::Stat { path, stat_buf: p[1], wide: true, follow: true },
                ),
                None => None,
            },
            SysCalls::LSTAT64 => match no_syscall_fault(self.path_arg(core, p[0]))? {
                Some(path) => Some(
                    HostRequest::Stat { path, stat_buf: p[1], wide: true, follow: false },
                ),
                None => None,
            },
            _ => match no_syscall_fault(self.path_arg(core, p[1]))? {
                Some(path) => Some(
                    HostRequest::Fstatat { dir_fd: p[0], path, stat_buf: p[2], flags: p[3] },
                ),
                None => None,
            },
        };
        match req {
            Some(q) => Ok(SyscallStep::Host(q)),
            None => {
                let _ = cc.write_return(core, as_raw(-1));
                Ok(SyscallStep::Done(-1))
            },
        }
    }

    /// Finishes a system call with the answer of the host: copies what the
    /// host produced into guest memory, file status in the guest layout, and
    /// writes the result to `V0`. A failed host call gives -1 and leaves guest
    /// memory alone.
    pub fn complete_host_call(
        &mut self,
        core: &mut Machine,
        cc: &MipsCC,
        req: &HostRequest,
        reply: &HostReply,
    ) -> (r: Result<i64, EmulatorError>)
        requires
            old(core).wf(),
            cc.is_o32(),
            cc.inner.wf(),
        ensures
            final(core).wf(),
            final(core).memories@ == old(core).memories@,
            final(core).endian == old(core).endian,
            final(core).pointer_size == old(core).pointer_size,
            final(self).same_as(old(self)),
            r matches Ok(v) ==> v == host_result_spec(*req, reply.ret) && final(core).regs@
                == old(core).regs@.update(MIPS_REG_V0 as int, raw_of(v)).update(
                MIPS_REG_A3 as int,
                0,
            ),
            r is Err ==> reply.ret >= 0,
            reply.ret < 0 ==> r is Ok && final(core).state.memory@ == old(core).state.memory@,
            r is Ok && reply.ret >= 0 ==> match host_write_spec(*req, *reply) {
                Some(w) => is_write_of(old(core).state.memory, final(core).state.memory, w.0, w.1),
                None => final(core).state.memory@ == old(core).state.memory@,
            },
            r is Ok <==> reply.ret < 0 || host_writable(old(core), *req, *reply),
            r is Err ==> final(core).state.memory@ == old(core).state.memory@ && final(core).regs@
                == old(core).regs@ && final(core).log() == old(core).log(),
            r matches Ok(v) ==> final(core).log() == (old(core).log() + host_log(
                *req,
                *reply,
            )).push(EffectModel::RegWrite { reg: MIPS_REG_V0, value: raw_of(v) }).push(
                EffectModel::RegWrite { reg: MIPS_REG_A3, value: 0 },
            ),
    {
        assert(core.log() + Seq::<EffectModel>::empty() =~= core.log());
        let ret: i64 = if reply.ret < 0 {
            -1
        } else {
            match host_write(req, reply) {
                Some(w) => self.put(core, w.0, &w.1, host_result(req, reply.ret))?,
                None => host_result(req, reply.ret),
            }
        };
        let ghost mid = core.state.memory;
        let _ = cc.write_return(core, as_raw(ret));
        proof {
            assert forall|a: u64| core.state.memory.byte_at(a) == mid.byte_at(a) by {}
            if reply.ret >= 0 {
                match host_write_spec(*req, *reply) {
                    Some(w) => {
                        assert forall|a: u64|
                            core.state.memory.byte_at(a) == if w.0 <= a && a - w.0 < w.1.len() {
                                w.1[a - w.0]
                            } else {
                                old(core).state.memory.byte_at(a)
                            } by {
                            assert(core.state.memory.byte_at(a) == mid.byte_at(a));
                        }
                    },
                    None => {},
                }
            }
        }
        Ok(ret)
    }

    /// Handles an interrupt of the interpreter. Only the system call signal of
    /// MIPS is acted on: the call number is read from `V0`, looked up in
    /// `table` and dispatched, with the outcome of `handle_syscall` on the
    /// call. A number that the table does not hold is an error.
    pub fn on_interrupt(
        &mut self,
        core: &mut Machine,
        cc: &MipsCC,
        table: &SyscallTable,
        s: u32,
    ) -> (r: Result<TrapOutcome, EmulatorError>)
        requires
            old(core).wf(),
            cc.is_o32(),
            cc.inner.wf(),
        ensures
            final(core).wf(),
            s != MIPS_SYSCALL_SIGNAL ==> (r matches Ok(TrapOutcome::Ignored)) && *final(core)
                == *old(core) && final(self).same_as(old(self)),
            s == MIPS_SYSCALL_SIGNAL && !table.calls@.contains_key(
                old(core).regs@[MIPS_REG_V0 as int],
            ) ==> r == Err::<TrapOutcome, EmulatorError>(
                EmulatorError::Syscall(old(core).regs@[MIPS_REG_V0 as int]),
            ) && *final(core) == *old(core) && final(self).same_as(old(self)),
            r matches Ok(TrapOutcome::Step(SyscallStep::Done(v))) ==> done_returned(final(core), v),
            r matches Ok(TrapOutcome::Ignored) ==> s != MIPS_SYSCALL_SIGNAL,
            s == MIPS_SYSCALL_SIGNAL && table.calls@.contains_key(
                old(core).regs@[MIPS_REG_V0 as int],
            ) ==> handle_syscall_post(
                old(self),
                final(self),
                old(core),
                final(core),
                cc,
                table.calls@[old(core).regs@[MIPS_REG_V0 as int]],
                step_of(r),
            ),
    {
        if s != MIPS_SYSCALL_SIGNAL {
            return Ok(TrapOutcome::Ignored);
        }
        let syscall_no = core.regs[MIPS_REG_V0 as usize];
        match table.get(syscall_no) {
            None => Err(EmulatorError::Syscall(syscall_no)),
            Some(call) => {
                let step = self.handle_syscall(core, cc, call)?;
                Ok(TrapOutcome::Step(step))
            },
        }
    }
}

/// The address and the bytes that the answer of the host puts into guest
/// memory, if any.
pub open spec fn host_write_spec(req: HostRequest, reply: HostReply) -> Option<(u64, Seq<u8>)> {
    match req {
        HostRequest::Stat { stat_buf, wide, .. } => Some(
            (stat_buf, guest_stat_bytes(reply.stat, wide)),
        ),
        HostRequest::Fstat { stat_buf, wide, .. } => Some(
            (stat_buf, guest_stat_bytes(reply.stat, wide)),
        ),
        HostRequest::Fstatat { stat_buf, .. } => Some(
            (stat_buf, guest_stat_bytes(reply.stat, true)),
        ),
        HostRequest::Read { buf, .. } => Some((buf, reply.data@)),
        HostRequest::Readlink { buf, .. } => Some((buf, reply.data@)),
        HostRequest::Getcwd { buf, .. } => Some((buf, reply.data@)),
        HostRequest::Llseek { result, .. } => Some((result, be_bytes(reply.ret as u64, 8))),
        _ => None,
    }
}

/// The address and the bytes that the answer of the host puts into guest
/// memory, if any.
pub fn host_write(req: &HostRequest, reply: &HostReply) -> (r: Option<(u64, Vec<u8>)>)
    requires
        reply.ret >= 0,
    ensures
        match host_write_spec(*req, *reply) {
            Some(w) => r matches Some(x) && x.0 == w.0 && x.1@ == w.1,
            None => r is None,
        },
{
    match req {
        HostRequest::Stat { stat_buf, wide, .. } => Some((*stat_buf, guest_stat(&reply.stat, *wide))),
        HostRequest::Fstat { stat_buf, wide, .. } => Some(
            (*stat_buf, guest_stat(&reply.stat, *wide)),
        ),
        HostRequest::Fstatat { stat_buf, .. } => Some((*stat_buf, guest_stat(&reply.stat, true))),
        HostRequest::Read { buf, .. } => Some(
            (*buf, vstd::slice::slice_to_vec(reply.data.as_slice())),
        ),
        HostRequest::Readlink { buf, .. } => Some(
            (*buf, vstd::slice::slice_to_vec(reply.data.as_slice())),
        ),
        HostRequest::Getcwd { buf, .. } => Some(
            (*buf, vstd::slice::slice_to_vec(reply.data.as_slice())),
        ),
        HostRequest::Llseek { result, .. } => {
            let mut data: Vec<u8> = Vec::new();
            crate::os::linux::syscall::push_be(&mut data, reply.ret as u64, 8);
            assert(data@ =~= be_bytes(reply.ret as u64, 8));
            Some((*result, data))
        },
        _ => None,
    }
}

/// What the guest gets back for a host call.
pub fn host_result(req: &HostRequest, ret: i64) -> (r: i64)
    ensures
        r == host_result_spec(*req, ret),
{
    if ret < 0 {
        -1
    } else {
        match req {
            HostRequest::Close { .. } => 0,
            HostRequest::Llseek { .. } => 0,
            HostRequest::Stat { .. } => 0,
            HostRequest::Fstat { .. } => 0,
            HostRequest::Fstatat { .. } => 0,
            HostRequest::Getcwd { .. } => 0,
            _ => ret,
        }
    }
}

/// The call is done and returned `v`.
pub open spec fn is_done(r: Result<SyscallStep, EmulatorError>, v: i64) -> bool {
    r matches Ok(SyscallStep::Done(x)) && x == v
}

/// The first `n` arguments of a call can be read.
pub open spec fn args_readable(core: &Machine, cc: &MipsCC, n: int) -> bool {
    forall|i: int| 0 <= i < n ==> (#[trigger] cc.inner.raw_param(core, i)).is_some()
}

/// Argument `i` of a call.
pub open spec fn call_arg(core: &Machine, cc: &MipsCC, i: int) -> u64 {
    cc.inner.raw_param(core, i).unwrap()
}

/// Everything that `host_request` promises of its result and of the runner
/// and the machine before and after it.
pub open spec fn host_request_post(
    s0: &LinuxRunner,
    s1: &LinuxRunner,
    c0: &Machine,
    c1: &Machine,
    cc: &MipsCC,
    syscall: SysCalls,
    r: Result<SyscallStep, EmulatorError>,
) -> bool {
    &&& (c1.wf())
    &&& (c1.endian == c0.endian)
    &&& (c1.pointer_size == c0.pointer_size)
    &&& (s1.same_as(s0))
    &&& (r matches Ok(SyscallStep::Done(v)) ==> v == MAP_FAILED && c1.regs@[MIPS_REG_V0 as int]
            == raw_of(v) && c1.regs@[MIPS_REG_A3 as int] == 0)
    &&& (r matches Ok(SyscallStep::Host(_)) ==> *c1 == *c0)
    &&& (!(r matches Err(EmulatorError::Syscall(_))))
    &&& (r matches Ok(SyscallStep::Host(q)) ==> q@ == request_spec(
            syscall,
            first_args(c0, cc),
            call_arg(c0, cc, 4),
            q.path_spec(),
        ))
    &&& (r matches Ok(SyscallStep::Host(q)) ==> (path_arg_index(syscall) matches Some(i)
            ==> q.path_spec().len() > 0 && q.path_spec() == c0.state.memory.read_spec(
            first_args(c0, cc)[i],
            q.path_spec().len(),
        )))
    &&& (r is Err <==> host_unreadable(c0, cc, syscall))
    &&& (r is Err ==> *c1 == *c0)
    &&& (r matches Ok(SyscallStep::Done(v)) ==> (path_arg_index(syscall) matches Some(i)
            && is_string_at(c0, first_args(c0, cc)[i], 0, Seq::<u8>::empty())))
    &&& (r matches Ok(SyscallStep::Done(v)) ==> returned_from(c0, c1, v))
    &&& (r matches Ok(SyscallStep::Host(q)) ==> (path_arg_index(syscall) matches Some(i)
            ==> is_string_at(c0, first_args(c0, cc)[i], 0, q.path_spec())))
}

/// The outcome of an interrupt as the result of the dispatcher: the step of
/// the call, or the error.
pub open spec fn step_of(r: Result<TrapOutcome, EmulatorError>) -> Result<SyscallStep, EmulatorError> {
    match r {
        Ok(TrapOutcome::Step(step)) => Ok(step),
        Ok(TrapOutcome::Ignored) => Err(EmulatorError::InvalidArgument),
        Err(e) => Err(e),
    }
}

/// Everything that `handle_syscall` promises of its result and of the runner
/// and the machine before and after it.
pub open spec fn handle_syscall_post(
    s0: &LinuxRunner,
    s1: &LinuxRunner,
    c0: &Machine,
    c1: &Machine,
    cc: &MipsCC,
    syscall: SysCalls,
    r: Result<SyscallStep, EmulatorError>,
) -> bool {
    &&& (c1.wf())
    &&& (c1.endian == c0.endian)
    &&& (c1.pointer_size == c0.pointer_size)
    &&& (syscall.unhandled() ==> r == Err::<SyscallStep, EmulatorError>(
            EmulatorError::Syscall(syscall.index_spec() as u64),
        ) && *c1 == *c0 && s1.same_as(s0))
    &&& (r matches Ok(SyscallStep::Done(v)) ==> c1.regs@[MIPS_REG_V0 as int] == raw_of(
            v,
        ) && c1.regs@[MIPS_REG_A3 as int] == 0)
    &&& (r matches Ok(SyscallStep::Host(_)) ==> syscall.needs_host() && *c1 == *c0 && s1.same_as(s0))
    &&& (r matches Err(EmulatorError::Syscall(_)) ==> syscall.unhandled())
    &&& (r matches Ok(SyscallStep::Host(q)) ==> q@ == request_spec(
            syscall,
            first_args(c0, cc),
            call_arg(c0, cc, 4),
            q.path_spec(),
        ))
    &&& (!syscall.unhandled() && !args_readable(c0, cc, syscall.arity()) ==> r is Err
            && *c1 == *c0 && s1.same_as(s0))
    &&& (args_readable(c0, cc, syscall.arity()) ==> match syscall.fixed_result() {
            Some(v) => is_done(r, v) && s1.same_as(
                s0,
            ) && c1.memories@ == c0.memories@ && c1.state.memory@
                == c0.state.memory@,
            None => true,
        })
    &&& (syscall == SysCalls::BRK && args_readable(c0, cc, 1) && call_arg(
            c0,
            cc,
            0,
        ) == 0 ==> is_done(r, ret_of(s0.brk_address)) && s1.same_as(s0) && c1.memories@ == c0.memories@ && c1.state.memory@ == c0.state.memory@)
    &&& (syscall == SysCalls::WRITE && args_readable(c0, cc, 3) && call_arg(
            c0,
            cc,
            0,
        ) != 1 && call_arg(c0, cc, 0) != 2 ==> is_done(r, NEG_EBADF)
            && s1.same_as(s0) && c1.memories@ == c0.memories@ && c1.state.memory@ == c0.state.memory@)
    &&& (syscall == SysCalls::MMAP2 && args_readable(c0, cc, 6) && call_arg(
            c0,
            cc,
            0,
        ) == 0 && !mmap_refused(0, call_arg(c0, cc, 1), call_arg(c0, cc, 3))
            ==> (r matches Ok(SyscallStep::Done(x)) ==> x == ret_of(s0.mmap_address)
            && s1.mmap_address == bumped(
            s0.mmap_address,
            call_arg(c0, cc, 1),
        )))
    &&& (!syscall.unhandled() && !syscall.needs_host() && args_readable(
            c0,
            cc,
            syscall.arity(),
        ) ==> dispatched(
            s0,
            s1,
            c0,
            c1,
            syscall,
            call_args(c0, cc, syscall.arity()),
            r,
        ))
    &&& (syscall.needs_host() ==> host_request_post(
            s0,
            s1,
            c0,
            c1,
            cc,
            syscall,
            r,
        ))
}

/// The first `n` arguments of a call, followed by zeros, six in all.
pub open spec fn call_args(core: &Machine, cc: &MipsCC, n: int) -> Seq<u64> {
    Seq::new(
        6,
        |i: int|
            if i < n {
                call_arg(core, cc, i)
            } else {
                0u64
            },
    )
}

/// The handler of `syscall`, run on the arguments `a`, took the runner from
/// `s0` to `s1` and the machine from `c0` to `c1` and gave `hr`: all that the
/// handler promises holds of them.
pub open spec fn handled(
    s0: &LinuxRunner,
    s1: &LinuxRunner,
    c0: &Machine,
    c1: &Machine,
    syscall: SysCalls,
    a: Seq<u64>,
    hr: Result<i64, EmulatorError>,
) -> bool {
    match syscall {
        SysCalls::SET_THREAD_AREA => set_thread_area_post(s0, s1, c0, c1, a[0], hr),
        SysCalls::SET_TID_ADDRESS => set_tid_address_post(s0, s1, c0, c1, a[0], hr),
        SysCalls::RT_SIGACTION => rt_sigaction_post(s0, s1, c0, c1, a[0], a[1], a[2], hr),
        SysCalls::BRK => brk_post(s0, s1, c0, c1, a[0], hr),
        SysCalls::EXIT_GROUP => exit_post(s0, s1, c0, c1, a[0], hr),
        SysCalls::EXIT => exit_post(s0, s1, c0, c1, a[0], hr),
        SysCalls::GETRANDOM => get_random_post(s0, s1, c0, c1, a[0], a[1], hr),
        SysCalls::CLOCK_GETTIME => clock_gettime_post(s0, s1, c0, c1, a[0], a[1], hr),
        SysCalls::MMAP2 => mmap2_post(s0, s1, c0, c1, a[0], a[1], a[2], a[3], a[4], a[5], 2u8, hr),
        SysCalls::MREMAP => mremap_post(s0, s1, c0, c1, a[0], a[1], a[2], a[3], a[4], hr),
        SysCalls::MUNMAP => munmap_post(s0, s1, c0, c1, a[0], a[1], hr),
        SysCalls::MPROTECT => mprotect_post(s0, s1, c0, c1, a[0], a[1], a[2], hr),
        SysCalls::GETRLIMIT => getrlimit_post(s0, s1, c0, c1, a[0], a[1], hr),
        SysCalls::SYSINFO => sysinfo_post(s0, s1, c0, c1, a[0], hr),
        SysCalls::PRLIMIT64 => prlimit64_post(s0, s1, c0, c1, a[0], a[1], a[2], a[3], hr),
        SysCalls::WRITE => write_post(s0, s1, c0, c1, a[0], a[1], a[2], hr),
        SysCalls::WRITEV => writev_post(s0, s1, c0, c1, a[0], a[1], a[2], hr),
        SysCalls::POLL
        | SysCalls::RT_SIGPROCMASK
        | SysCalls::SIGALTSTACK
        | SysCalls::SYSCALL_SIGNAL
        | SysCalls::SIGRETURN
        | SysCalls::RT_SIGRETURN
        | SysCalls::SCHED_GETAFFINITY
        | SysCalls::SCHED_YIELD
        | SysCalls::TKILL
        | SysCalls::FUTEX
        | SysCalls::MADVISE
        | SysCalls::SET_ROBUST_LIST => noop_post(s0, s1, c0, c1, hr),
        _ => false,
    }
}

/// The dispatcher took the runner from `s0` to `s1` and the machine from `c0`
/// to `c1` and gave `r` for `syscall` on the arguments `a`: the handler ran
/// and left some machine and result, all that it promises holds of them, and
/// the dispatcher turned them into `c1` and `r`.
pub open spec fn dispatched(
    s0: &LinuxRunner,
    s1: &LinuxRunner,
    c0: &Machine,
    c1: &Machine,
    syscall: SysCalls,
    a: Seq<u64>,
    r: Result<SyscallStep, EmulatorError>,
) -> bool {
    exists|mid: Machine, hr: Result<i64, EmulatorError>| #[trigger]
        handled(s0, s1, c0, &mid, syscall, a, hr) && returned(&mid, c1, hr, r)
}

/// The error that the dispatcher passes on for a handler's error: a handler
/// never reports a missing handler.
pub open spec fn passed_on(e: EmulatorError) -> EmulatorError {
    match e {
        EmulatorError::Syscall(_) => EmulatorError::InvalidArgument,
        other => other,
    }
}

/// The dispatcher turned what the handler left, the machine `mid` and the
/// result `hr`, into the machine `after` and the result `r`: a value is
/// written to `V0` with `A3` cleared, an error is passed on and nothing is
/// written.
pub open spec fn returned(
    mid: &Machine,
    after: &Machine,
    hr: Result<i64, EmulatorError>,
    r: Result<SyscallStep, EmulatorError>,
) -> bool {
    match hr {
        Ok(v) => is_done(r, v) && returned_from(mid, after, v),
        Err(e) => r matches Err(x) && x == passed_on(e) && *after == *mid,
    }
}

/// The machine `after` is `before` with the result `v` of a call written:
/// `V0` holds it, `A3` is clear, and the log holds the two register writes.
pub open spec fn returned_from(before: &Machine, after: &Machine, v: i64) -> bool {
    &&& after.same_memory(before)
    &&& after.regs@ == before.regs@.update(MIPS_REG_V0 as int, raw_of(v)).update(
        MIPS_REG_A3 as int,
        0,
    )
    &&& after.log() == before.log().push(
        EffectModel::RegWrite { reg: MIPS_REG_V0, value: raw_of(v) },
    ).push(EffectModel::RegWrite { reg: MIPS_REG_A3, value: 0 })
}

/// What the answer of the host puts into guest memory can be written there.
pub open spec fn host_writable(core: &Machine, req: HostRequest, reply: HostReply) -> bool {
    match host_write_spec(req, reply) {
        Some(w) => core.write_ok(w.0, w.1),
        None => true,
    }
}

/// The write into guest memory that finishing a host call logs, if any.
pub open spec fn host_log(req: HostRequest, reply: HostReply) -> Seq<EffectModel> {
    if reply.ret < 0 {
        Seq::empty()
    } else {
        match host_write_spec(req, reply) {
            Some(w) => seq![EffectModel::Write { addr: w.0, data: w.1 }],
            None => Seq::empty(),
        }
    }
}

/// A call that needs the host cannot be prepared: one of its arguments, or
/// the path it names, cannot be read.
pub open spec fn host_unreadable(core: &Machine, cc: &MipsCC, syscall: SysCalls) -> bool {
    ||| !args_readable(core, cc, 4)
    ||| (syscall == SysCalls::_LLSEEK && cc.inner.raw_param(core, 4).is_none())
    ||| match path_arg_index(syscall) {
        Some(i) => no_string_at(core, call_arg(core, cc, i), 0),
        None => false,
    }
}

/// The result `v` of a call stands in `V0`, and the error flag `A3` is clear.
pub open spec fn done_returned(core: &Machine, v: i64) -> bool {
    core.regs@[MIPS_REG_V0 as int] == raw_of(v) && core.regs@[MIPS_REG_A3 as int] == 0
}

/// The file status `h` in the layout of the guest: `stat64` when `wide`,
/// `stat` otherwise.
pub open spec fn guest_stat_bytes(h: StatX8664, wide: bool) -> Seq<u8> {
    if wide {
        (Stat64MIPS { st_ino: h.st_ino, st_mode: h.st_mode, st_size: h.st_size as u64 }).encoded()
    } else {
        (StatMIPS {
            st_ino: crate::os::linux::syscall::low32(h.st_ino),
            st_mode: h.st_mode,
            st_size: crate::os::linux::syscall::low32(h.st_size as u64),
        }).encoded()
    }
}

/// The file status `h` in the layout of the guest.
pub fn guest_stat(h: &StatX8664, wide: bool) -> (r: Vec<u8>)
    ensures
        r@ == guest_stat_bytes(*h, wide),
{
    if wide {
        Stat64MIPS::from_host(h).encode()
    } else {
        StatMIPS::from_host(h).encode()
    }
}

/// The 64-bit offset of `_llseek` from its two halves.
pub fn llseek_offset(high: u64, low: u64) -> (r: u64)
    ensures
        r == (high << 32) | low,
{
    (high << 32) | low
}

/// Passes a handler's result on; a handler never reports a missing handler,
/// so such an error is turned into an invalid argument.
pub fn no_syscall_fault<T>(r: Result<T, EmulatorError>) -> (o: Result<T, EmulatorError>)
    ensures
        r is Ok ==> o == r,
        r is Err <==> o is Err,
        !(o matches Err(EmulatorError::Syscall(_))),
        r matches Err(e) && !(e is Syscall) ==> o == r,
{
    match r {
        Ok(v) => Ok(v),
        Err(EmulatorError::Syscall(_)) => Err(EmulatorError::InvalidArgument),
        Err(e) => Err(e),
    }
}

/// The bump pointer after an anonymous mapping of `length` bytes was placed
/// at it.
pub open spec fn bumped(mmap_address: u64, length: u64) -> int {
    mmap_address + mmap_size_spec(0, length).unwrap()
}

/// Two mappings placed at the bump pointer one after the other lie side by
/// side: the second starts where the first, of `s` bytes in whole pages,
/// ends.
pub proof fn lemma_second_mmap_follows(first: u64, s: u64, second: u64)
    requires
        s % 4096 == 0,
        s <= 0xffff_f000,
        second == bumped(first, s),
    ensures
        second == first + s,
{
    assert(mmap_size_spec(0, s) == Some(s)) by {
        assert(align_up_spec(s as int, 4096) == s) by {
            assert((s + 4095) % 4096 == 4095) by (nonlinear_arith)
                requires
                    s % 4096 == 0,
            ;
        }
    }
}

/// Everything that `set_thread_area` promises of its result and of the runner and the
/// machine before and after it.
pub open spec fn set_thread_area_post(
    s0: &LinuxRunner,
    s1: &LinuxRunner,
    c0: &Machine,
    c1: &Machine,
    u_info_addr: u64,
    r: Result<i64, EmulatorError>,
) -> bool {
    &&& (c1.wf())
    &&& (c1.same_memory(c0))
    &&& (s1.same_as(s0))
    &&& (r == Ok::<i64, EmulatorError>(0))
    &&& (c1.regs@ == c0.regs@.update(
            MIPS_REG_CP0_CONFIG3 as int,
            c0.regs@[MIPS_REG_CP0_CONFIG3 as int] | CONFIG3_ULR,
        ).update(MIPS_REG_CP0_USERLOCAL as int, u_info_addr).update(
            MIPS_REG_V0 as int,
            0,
        ).update(MIPS_REG_A3 as int, 0))
    &&& (c1.log() == c0.log().push(
            EffectModel::RegWrite {
                reg: MIPS_REG_CP0_CONFIG3,
                value: c0.regs@[MIPS_REG_CP0_CONFIG3 as int] | CONFIG3_ULR,
            },
        ).push(EffectModel::RegWrite { reg: MIPS_REG_CP0_USERLOCAL, value: u_info_addr }).push(
            EffectModel::RegWrite { reg: MIPS_REG_V0, value: 0 },
        ).push(EffectModel::RegWrite { reg: MIPS_REG_A3, value: 0 }))
}

/// Everything that `set_tid_address` promises of its result and of the runner and the
/// machine before and after it.
pub open spec fn set_tid_address_post(
    s0: &LinuxRunner,
    s1: &LinuxRunner,
    c0: &Machine,
    c1: &Machine,
    _tidptr: u64,
    r: Result<i64, EmulatorError>,
) -> bool {
    &&& (r == Ok::<i64, EmulatorError>(FAKE_TID))
    &&& (s1.same_as(s0))
    &&& (*c1 == *c0)
}

/// Everything that `brk` promises of its result and of the runner and the
/// machine before and after it.
pub open spec fn brk_post(
    s0: &LinuxRunner,
    s1: &LinuxRunner,
    c0: &Machine,
    c1: &Machine,
    inp: u64,
    r: Result<i64, EmulatorError>,
) -> bool {
    &&& (c1.wf())
    &&& (c1.endian == c0.endian)
    &&& (c1.pointer_size == c0.pointer_size)
    &&& (c1.state.memory@ == c0.state.memory@)
    &&& (c1.regs@ == c0.regs@)
    &&& (s1.mmap_address == s0.mmap_address)
    &&& (s1.sigaction_act@ == s0.sigaction_act@)
    &&& (inp == 0 ==> r == Ok::<i64, EmulatorError>(ret_of(s0.brk_address))
            && s1.brk_address == s0.brk_address && c1.memories@
            == c0.memories@ && c1.log() == c0.log())
    &&& (r matches Ok(v) ==> v == ret_of(s1.brk_address))
    &&& (r is Ok && inp != 0 ==> s1.brk_address == match brk_target(inp) {
            Some(n) => n,
            None => s0.brk_address,
        })
    &&& (r is Err ==> s1.brk_address == s0.brk_address && c1.memories@
            == c0.memories@ && c1.log() == c0.log())
    &&& ((r is Err) <==> inp != 0 && brk_target(inp).is_some() && brk_fault(
            c0,
            s0.brk_address,
            inp,
        ))
    &&& (r is Ok ==> c1.memories@ == brk_regions(
            c0.memories@,
            s0.brk_address,
            inp,
        ) && c1.log() == c0.log() + brk_log(s0.brk_address, inp))
}

/// Everything that `mremap` promises of its result and of the runner and the
/// machine before and after it.
pub open spec fn mremap_post(
    s0: &LinuxRunner,
    s1: &LinuxRunner,
    c0: &Machine,
    c1: &Machine,
    _old_addr: u64,
    _old_size: u64,
    _new_size: u64,
    _flags: u64,
    _new_addr: u64,
    r: Result<i64, EmulatorError>,
) -> bool {
    &&& (r == Ok::<i64, EmulatorError>(MAP_FAILED))
    &&& (s1.same_as(s0))
    &&& (*c1 == *c0)
}

/// Everything that `munmap` promises of its result and of the runner and the
/// machine before and after it.
pub open spec fn munmap_post(
    s0: &LinuxRunner,
    s1: &LinuxRunner,
    c0: &Machine,
    c1: &Machine,
    addr: u64,
    length: u64,
    r: Result<i64, EmulatorError>,
) -> bool {
    &&& (c1.wf())
    &&& (c1.endian == c0.endian)
    &&& (c1.pointer_size == c0.pointer_size)
    &&& (s1.same_as(s0))
    &&& (c1.state.memory@ == c0.state.memory@)
    &&& (c1.regs@ == c0.regs@)
    &&& (r matches Ok(v) ==> v == 0 && length <= 0xffff_f000 && c1.memories@
            == crate::memory::trim_all(
            c0.memories@,
            addr,
            (addr + align_up_spec(length as int, 4096)) as u64,
        ))
    &&& (r is Err ==> c1.memories@ == c0.memories@ && c1.log() == c0.log())
    &&& (r is Ok <==> length <= 0xffff_f000 && crate::memory::unmap_fault(
            addr,
            align_up_spec(length as int, 4096) as usize,
        ).is_none())
}

/// Everything that `mprotect` promises of its result and of the runner and the
/// machine before and after it.
pub open spec fn mprotect_post(
    s0: &LinuxRunner,
    s1: &LinuxRunner,
    c0: &Machine,
    c1: &Machine,
    addr: u64,
    size: u64,
    prot: u64,
    r: Result<i64, EmulatorError>,
) -> bool {
    &&& (c1.wf())
    &&& (s1.same_as(s0))
    &&& (c1.same_memory(c0))
    &&& (c1.regs@ == c0.regs@)
    &&& (match mmap_size_spec(addr, size) {
            Some(n) => r == Ok::<i64, EmulatorError>(0) && c1.log() == c0.log().push(
                EffectModel::Protect {
                    addr: mmap_base_spec(addr),
                    size: n as usize,
                    perms: Permission { bits: (prot % 0x1_0000_0000) as u32 & 7 },
                },
            ),
            None => r == Ok::<i64, EmulatorError>(MAP_FAILED) && c1.log() == c0.log(),
        })
}

/// Everything that `mmap2` promises of its result and of the runner and the
/// machine before and after it.
pub open spec fn mmap2_post(
    s0: &LinuxRunner,
    s1: &LinuxRunner,
    c0: &Machine,
    c1: &Machine,
    addr: u64,
    length: u64,
    prot: u64,
    flags: u64,
    _fd: u64,
    _pgoffset: u64,
    _ver: u8,
    r: Result<i64, EmulatorError>,
) -> bool {
    &&& (c1.wf())
    &&& (c1.endian == c0.endian)
    &&& (c1.pointer_size == c0.pointer_size)
    &&& (c1.regs@ == c0.regs@)
    &&& (s1.brk_address == s0.brk_address)
    &&& (s1.sigaction_act@ == s0.sigaction_act@)
    &&& (r is Err ==> s1.mmap_address == s0.mmap_address)
    &&& (r is Err <==> !mmap_refused(addr, length, flags) && mmap_fault(
            c0,
            s0.mmap_address,
            addr,
            length,
            flags,
            prot,
        ))
    &&& (mmap_refused(addr, length, flags) ==> r == Ok::<i64, EmulatorError>(MAP_FAILED)
            && s1.mmap_address == s0.mmap_address && c1.memories@
            == c0.memories@ && c1.state.memory@ == c0.state.memory@
            && c1.log() == c0.log())
    &&& (!mmap_refused(addr, length, flags) && r is Ok ==> {
            let size = mmap_size_spec(addr, length).unwrap();
            let base = mmap_base_spec(addr);
            if base != 0 && range_mapped(c0.memories@, base, size as usize) && flags
                & MAP_FIXED != 0 {
                &&& r == Ok::<i64, EmulatorError>(ret_of(base))
                &&& s1.mmap_address == s0.mmap_address
                &&& c1.memories@ == c0.memories@
                &&& c1.state.memory@ == c0.state.memory@
                &&& c1.log() == c0.log().push(
                    EffectModel::Protect {
                        addr: base,
                        size: size as usize,
                        perms: mmap_perms(prot),
                    },
                )
            } else if base != 0 && !range_mapped(c0.memories@, base, size as usize) {
                &&& r == Ok::<i64, EmulatorError>(ret_of(base))
                &&& s1.mmap_address == s0.mmap_address
                &&& range_mapped(c1.memories@, base, size as usize)
                &&& mmap_mapped(c0, c1, base, size, prot)
                &&& is_write_of(
                    c0.state.memory,
                    c1.state.memory,
                    base,
                    crate::os::linux::syscall::zeros(size as nat),
                )
            } else {
                &&& r == Ok::<i64, EmulatorError>(ret_of(s0.mmap_address))
                &&& s1.mmap_address == s0.mmap_address + size
                &&& addr == 0 ==> s1.mmap_address == bumped(
                    s0.mmap_address,
                    length,
                )
                &&& range_mapped(
                    c1.memories@,
                    s0.mmap_address,
                    size as usize,
                )
                &&& mmap_mapped(c0, c1, s0.mmap_address, size, prot)
                &&& is_write_of(
                    c0.state.memory,
                    c1.state.memory,
                    s0.mmap_address,
                    crate::os::linux::syscall::zeros(size as nat),
                )
            }
        })
}

/// Everything that `noop` promises of its result and of the runner and the
/// machine before and after it.
pub open spec fn noop_post(
    s0: &LinuxRunner,
    s1: &LinuxRunner,
    c0: &Machine,
    c1: &Machine,
    r: Result<i64, EmulatorError>,
) -> bool {
    &&& (r == Ok::<i64, EmulatorError>(0))
    &&& (s1.same_as(s0))
    &&& (*c1 == *c0)
}

/// Everything that `exit` promises of its result and of the runner and the
/// machine before and after it.
pub open spec fn exit_post(
    s0: &LinuxRunner,
    s1: &LinuxRunner,
    c0: &Machine,
    c1: &Machine,
    _code: u64,
    r: Result<i64, EmulatorError>,
) -> bool {
    &&& (c1.wf())
    &&& (r == Ok::<i64, EmulatorError>(0))
    &&& (s1.same_as(s0))
    &&& (c1.same_memory(c0))
    &&& (c1.regs@ == c0.regs@)
    &&& (c1.log() == c0.log().push(EffectModel::Stop))
}

/// Everything that `get_random` promises of its result and of the runner and the
/// machine before and after it.
pub open spec fn get_random_post(
    s0: &LinuxRunner,
    s1: &LinuxRunner,
    c0: &Machine,
    c1: &Machine,
    buf: u64,
    buf_len: u64,
    r: Result<i64, EmulatorError>,
) -> bool {
    &&& (c1.wf())
    &&& (c1.same_frame(c0))
    &&& (s1.same_as(s0))
    &&& (buf_len > u32::MAX ==> r == Err::<i64, EmulatorError>(EmulatorError::InvalidArgument))
    &&& (buf_len <= u32::MAX && c0.write_ok(buf, rand_bytes(buf_len as nat)) ==> r
            == Ok::<i64, EmulatorError>(buf_len as i64) && is_write_of(
            c0.state.memory,
            c1.state.memory,
            buf,
            rand_bytes(buf_len as nat),
        ))
    &&& (buf_len <= u32::MAX && !c0.write_ok(buf, rand_bytes(buf_len as nat)) ==> r
            == Err::<i64, EmulatorError>(EmulatorError::Memory(MemoryFault::Unmapped)))
}

/// Everything that `getrlimit` promises of its result and of the runner and the
/// machine before and after it.
pub open spec fn getrlimit_post(
    s0: &LinuxRunner,
    s1: &LinuxRunner,
    c0: &Machine,
    c1: &Machine,
    res: u64,
    rlim: u64,
    r: Result<i64, EmulatorError>,
) -> bool {
    &&& (c1.wf())
    &&& (c1.same_frame(c0))
    &&& (s1.same_as(s0))
    &&& (c0.write_ok(rlim, rlimit_spec(res).encoded()) ==> r == Ok::<i64, EmulatorError>(
            0,
        ) && is_write_of(
            c0.state.memory,
            c1.state.memory,
            rlim,
            rlimit_spec(res).encoded(),
        ))
    &&& (!c0.write_ok(rlim, rlimit_spec(res).encoded()) ==> r is Err)
}

/// Everything that `prlimit64` promises of its result and of the runner and the
/// machine before and after it.
pub open spec fn prlimit64_post(
    s0: &LinuxRunner,
    s1: &LinuxRunner,
    c0: &Machine,
    c1: &Machine,
    pid: u64,
    res: u64,
    new_limit: u64,
    old_limit: u64,
    r: Result<i64, EmulatorError>,
) -> bool {
    &&& (c1.wf())
    &&& (c1.same_frame(c0))
    &&& (s1.same_as(s0))
    &&& (!(pid == 0 && new_limit == 0) ==> r == Ok::<i64, EmulatorError>(MAP_FAILED)
            && c1.state.memory@ == c0.state.memory@ && c1.log()
            == c0.log())
    &&& (pid == 0 && new_limit == 0 && c0.write_ok(old_limit, rlimit64_bytes(res)) ==> r
            == Ok::<i64, EmulatorError>(0) && is_write_of(
            c0.state.memory,
            c1.state.memory,
            old_limit,
            rlimit64_bytes(res),
        ))
    &&& (pid == 0 && new_limit == 0 && !c0.write_ok(old_limit, rlimit64_bytes(res)) ==> r
            is Err)
}

/// Everything that `sysinfo` promises of its result and of the runner and the
/// machine before and after it.
pub open spec fn sysinfo_post(
    s0: &LinuxRunner,
    s1: &LinuxRunner,
    c0: &Machine,
    c1: &Machine,
    info: u64,
    r: Result<i64, EmulatorError>,
) -> bool {
    &&& (c1.wf())
    &&& (c1.same_frame(c0))
    &&& (s1.same_as(s0))
    &&& (c0.write_ok(info, SysInfoMIPS::synthetic().encoded()) ==> r == Ok::<
            i64,
            EmulatorError,
        >(0) && is_write_of(
            c0.state.memory,
            c1.state.memory,
            info,
            SysInfoMIPS::synthetic().encoded(),
        ))
    &&& (!c0.write_ok(info, SysInfoMIPS::synthetic().encoded()) ==> r is Err)
}

/// Everything that `clock_gettime` promises of its result and of the runner and the
/// machine before and after it.
pub open spec fn clock_gettime_post(
    s0: &LinuxRunner,
    s1: &LinuxRunner,
    c0: &Machine,
    c1: &Machine,
    _clock_id: u64,
    tp: u64,
    r: Result<i64, EmulatorError>,
) -> bool {
    &&& (c1.wf())
    &&& (c1.same_frame(c0))
    &&& (s1.same_as(s0))
    &&& (c0.write_ok(tp, crate::os::linux::syscall::zeros(8)) ==> r == Ok::<
            i64,
            EmulatorError,
        >(0) && is_write_of(
            c0.state.memory,
            c1.state.memory,
            tp,
            crate::os::linux::syscall::zeros(8),
        ))
    &&& (!c0.write_ok(tp, crate::os::linux::syscall::zeros(8)) ==> r is Err)
}

/// Everything that `write` promises of its result and of the runner and the
/// machine before and after it.
pub open spec fn write_post(
    s0: &LinuxRunner,
    s1: &LinuxRunner,
    c0: &Machine,
    c1: &Machine,
    fd: u64,
    buf: u64,
    count: u64,
    r: Result<i64, EmulatorError>,
) -> bool {
    &&& (c1.wf())
    &&& (c1.same_memory(c0))
    &&& (c1.regs@ == c0.regs@)
    &&& (s1.same_as(s0))
    &&& (fd != 1 && fd != 2 ==> r == Ok::<i64, EmulatorError>(NEG_EBADF) && c1.log()
            == c0.log())
    &&& ((fd == 1 || fd == 2) && count > u32::MAX ==> r == Err::<i64, EmulatorError>(
            EmulatorError::InvalidArgument,
        ) && c1.log() == c0.log())
    &&& ((fd == 1 || fd == 2) && count <= u32::MAX ==> if range_mapped(
            c0.memories@,
            buf,
            count as usize,
        ) {
            r == Ok::<i64, EmulatorError>(count as i64) && c1.log() == c0.log().push(
                EffectModel::HostWrite {
                    fd,
                    data: c0.state.memory.read_spec(buf, count as nat),
                },
            )
        } else {
            r == Err::<i64, EmulatorError>(EmulatorError::Memory(MemoryFault::Unmapped))
                && c1.log() == c0.log()
        })
}

/// Everything that `writev` promises of its result and of the runner and the
/// machine before and after it.
pub open spec fn writev_post(
    s0: &LinuxRunner,
    s1: &LinuxRunner,
    c0: &Machine,
    c1: &Machine,
    fd: u64,
    vec: u64,
    vlen: u64,
    r: Result<i64, EmulatorError>,
) -> bool {
    &&& (c1.wf())
    &&& (c1.same_memory(c0))
    &&& (c1.regs@ == c0.regs@)
    &&& (s1.same_as(s0))
    &&& (fd != 1 && fd != 2 ==> r == Ok::<i64, EmulatorError>(NEG_EBADF) && c1.log()
            == c0.log())
    &&& ((fd == 1 || fd == 2) && vlen == 0 ==> r == Ok::<i64, EmulatorError>(0)
            && c1.log() == c0.log())
    &&& ((fd == 1 || fd == 2) ==> (r matches Ok(n) ==> n == writev_total(
            c0,
            vec,
            vlen as int,
        ) && c1.log() == c0.log() + writev_log(
            c0,
            fd,
            vec,
            vlen as int,
        )))
    &&& ((fd == 1 || fd == 2) ==> (r is Ok <==> vlen <= 0x10000 && writev_ok(
            c0,
            vec,
            vlen as int,
        )))
}

/// Everything that `rt_sigaction` promises of its result and of the runner and the
/// machine before and after it.
pub open spec fn rt_sigaction_post(
    s0: &LinuxRunner,
    s1: &LinuxRunner,
    c0: &Machine,
    c1: &Machine,
    signum: u64,
    act: u64,
    oldact: u64,
    r: Result<i64, EmulatorError>,
) -> bool {
    &&& (c1.wf())
    &&& (c1.same_frame(c0))
    &&& (s1.mmap_address == s0.mmap_address)
    &&& (s1.brk_address == s0.brk_address)
    &&& (r matches Ok(v) ==> v == 0)
    &&& (act == 0 ==> s1.sigaction_act@ == s0.sigaction_act@)
    &&& (act == 0 && oldact == 0 ==> r is Ok && c1.state.memory@ == c0.state.memory@ && c1.log() == c0.log())
    &&& (r is Ok && act != 0 ==> s1.sigaction_act@.dom() == s0.sigaction_act@.dom().insert(signum))
    &&& (r is Ok && act != 0 ==> forall|k: int|
            0 <= k < 5 ==> (#[trigger] stored_action(s1, signum)[k]) as nat == action_word(c1, act, k))
    &&& (r is Ok && act != 0 ==> forall|s: u64|
            s != signum && s0.sigaction_act@.contains_key(s) ==> #[trigger] s1.sigaction_act@[s]
                == s0.sigaction_act@[s])
    &&& (r is Err ==> s1.sigaction_act@ == s0.sigaction_act@)
    &&& (r is Ok <==> (oldact == 0 || c0.write_ok(
            oldact,
            action_bytes(s0, signum, c0.endian),
        )) && (act == 0 || action_readable(c0, act)))
    &&& (oldact != 0 && c0.write_ok(
            oldact,
            action_bytes(s0, signum, c0.endian),
        ) ==> is_write_of(
            c0.state.memory,
            c1.state.memory,
            oldact,
            action_bytes(s0, signum, c0.endian),
        ) && c1.log() == c0.log().push(
            EffectModel::Write {
                addr: oldact,
                data: action_bytes(s0, signum, c0.endian),
            },
        ))
    &&& (oldact == 0 || !c0.write_ok(
            oldact,
            action_bytes(s0, signum, c0.endian),
        ) ==> c1.state.memory@ == c0.state.memory@ && c1.log()
            == c0.log())
}

/// The access rights that `mmap2` and `mprotect` take from `prot`.
pub open spec fn mmap_perms(prot: u64) -> Permission {
    Permission { bits: (prot % 0x1_0000_0000) as u32 & 7 }
}

/// The machine `after` is `before` with `size` bytes at `base` freshly
/// mapped by `mmap2`: the region is recorded under `[syscall_mmap2]` with the
/// rights of `prot`, all other regions stay, and the log holds the mapping
/// and the zero fill.
pub open spec fn mmap_mapped(before: &Machine, after: &Machine, base: u64, size: u64, prot: u64) -> bool {
    &&& after.memories@ == crate::memory::mapped_list(
        before.memories@,
        MemRegion { begin: base, end: (base + size) as u64, perms: mmap_perms(prot) },
        "[syscall_mmap2]"@,
    )
    &&& after.log() == before.log().push(
        EffectModel::MapRegion { begin: base, end: (base + size) as u64, perms: mmap_perms(prot) },
    ).push(EffectModel::Write { addr: base, data: crate::os::linux::syscall::zeros(size as nat) })
}

/// `mmap2` refuses the request without touching anything: a fixed address
/// that is not page-aligned, or a length that does not reach the page of the
/// address or leaves the 32-bit space.
pub open spec fn mmap_refused(addr: u64, length: u64, flags: u64) -> bool {
    (flags & MAP_FIXED != 0 && mmap_base_spec(addr) != addr) || mmap_size_spec(addr, length).is_none()
}

/// The mapping that `mmap2` has to make is refused by the memory layer: the
/// request is not one that only changes access rights, and the region at the
/// chosen base leaves the address space or cannot be mapped.
pub open spec fn mmap_fault(
    core: &Machine,
    mmap_address: u64,
    addr: u64,
    length: u64,
    flags: u64,
    prot: u64,
) -> bool {
    let size = mmap_size_spec(addr, length).unwrap();
    let hint = mmap_base_spec(addr);
    let taken = hint != 0 && range_mapped(core.memories@, hint, size as usize);
    let base = if hint == 0 || taken {
        mmap_address
    } else {
        hint
    };
    !(taken && flags & MAP_FIXED != 0) && (base + size > u64::MAX || crate::memory::map_fault(
        core.memories@,
        MemRegion {
            begin: base,
            end: (base + size) as u64,
            perms: Permission { bits: (prot % 0x1_0000_0000) as u32 & 7 },
        },
    ).is_some())
}

/// The region list after the break moved from `cur` to the page above `inp`:
/// with `[cur, new)` mapped under `[brk]` with full access where the break
/// grows, with `[new, cur)` cut out where it shrinks, else as it was.
pub open spec fn brk_regions(s: Seq<crate::memory::RegionModel>, cur: u64, inp: u64) -> Seq<
    crate::memory::RegionModel,
> {
    match brk_target(inp) {
        Some(new) => if inp == 0 {
            s
        } else if inp > cur {
            crate::memory::mapped_list(
                s,
                MemRegion { begin: cur, end: new, perms: Permission { bits: 7 } },
                "[brk]"@,
            )
        } else if inp < cur && new < cur {
            crate::memory::trim_all(s, new, cur)
        } else {
            s
        },
        None => s,
    }
}

/// The effects of moving the break from `cur` to the page above `inp`.
pub open spec fn brk_log(cur: u64, inp: u64) -> Seq<EffectModel> {
    match brk_target(inp) {
        Some(new) => if inp == 0 {
            Seq::empty()
        } else if inp > cur {
            seq![EffectModel::MapRegion { begin: cur, end: new, perms: Permission { bits: 7 } }]
        } else if inp < cur && new < cur {
            seq![EffectModel::Unmap { addr: new, size: (cur - new) as usize }]
        } else {
            Seq::empty()
        },
        None => Seq::empty(),
    }
}

/// Moving the break from `cur` to the page above `inp` is refused by the
/// memory layer.
pub open spec fn brk_fault(core: &Machine, cur: u64, inp: u64) -> bool {
    let new = align_up_spec(inp as int, 4096) as u64;
    if inp > cur {
        crate::memory::map_fault(
            core.memories@,
            MemRegion { begin: cur, end: new, perms: Permission { bits: 7 } },
        ).is_some()
    } else if inp < cur && new < cur {
        cur - new > usize::MAX || crate::memory::unmap_fault(new, (cur - new) as usize).is_some()
    } else {
        false
    }
}

/// A vector of `n` zero bytes.
pub fn zero_bytes(n: usize) -> (r: Vec<u8>)
    ensures
        r@ == crate::os::linux::syscall::zeros(n as nat),
{
    let mut v: Vec<u8> = Vec::new();
    crate::os::linux::syscall::push_zeros(&mut v, n);
    assert(v@ =~= crate::os::linux::syscall::zeros(n as nat));
    v
}

/// A region that was just added to the list is mapped from end to end.
pub proof fn lemma_region_mapped(
    after: Seq<crate::memory::RegionModel>,
    before: Seq<crate::memory::RegionModel>,
    begin: u64,
    end: u64,
    perms: Permission,
    label: Seq<char>,
)
    requires
        begin < end,
        exists|k: int|
            0 <= k <= before.len() && after == before.insert(
                k,
                #[trigger] crate::memory::inserted(MemRegion { begin, end, perms }, label, k),
            ),
    ensures
        range_mapped(after, begin, (end - begin) as usize),
{
    let k = choose|k: int|
        0 <= k <= before.len() && after == before.insert(
            k,
            #[trigger] crate::memory::inserted(MemRegion { begin, end, perms }, label, k),
        );
    assert(after[k].begin == begin && after[k].end == end);
    assert forall|a: u64| begin <= a && a - begin < (end - begin) as usize implies crate::memory::mapped_at(
        after,
        a,
    ) by {
        assert(after[k].begin <= a < after[k].end);
    }
    assert(after[k].begin <= begin < after[k].end);
}

} // verus!
