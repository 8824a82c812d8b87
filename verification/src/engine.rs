//! The shadow memory: a deterministic mirror of every guest memory word that
//! has been written, and the machine state built around it.

use crate::memory::MemoryManager;
use crate::utils::{Endian, Permission};
use std::collections::BTreeMap;
use vstd::prelude::*;
use vstd::std_specs::btree::*;
use vstd::std_specs::cmp::OrdSpec;
use vstd::std_specs::iter::IteratorSpec;

verus! {

broadcast use vstd::std_specs::btree::group_btree_axioms;

/// Four bytes of guest memory at a 4-byte aligned address.
#[derive(Clone, Copy, Debug)]
pub struct Chunk(pub [u8; 4]);

impl Chunk {
    /// True when all four bytes are zero.
    pub fn is_zero(&self) -> (r: bool)
        ensures
            r == is_zero_chunk(self.0@),
    {
        self.0[0] == 0 && self.0[1] == 0 && self.0[2] == 0 && self.0[3] == 0
    }
}

/// All bytes of the chunk are zero.
pub open spec fn is_zero_chunk(c: Seq<u8>) -> bool {
    forall|i: int| 0 <= i < c.len() ==> c[i] == 0
}

/// The address of the chunk that holds address `a`.
pub open spec fn chunk_base(a: u64) -> u64 {
    (a - a % 4) as u64
}

/// The byte that the chunk map `m` holds at address `a`; memory that was never
/// written reads as zero.
pub open spec fn byte_of(m: Map<u64, Seq<u8>>, a: u64) -> u8 {
    if m.contains_key(chunk_base(a)) {
        m[chunk_base(a)][a as int % 4]
    } else {
        0
    }
}

/// Every chunk sits at an aligned address and holds four bytes.
pub open spec fn chunks_wf(m: Map<u64, Seq<u8>>) -> bool {
    forall|k: u64| #[trigger] m.contains_key(k) ==> k % 4 == 0 && m[k].len() == 4
}

/// The written words of guest memory, by aligned address.
#[derive(Clone, Debug)]
pub struct MemoryState {
    data: BTreeMap<u64, Chunk>,
}

impl MemoryState {
    /// The chunks by address.
    pub closed spec fn view(&self) -> Map<u64, Seq<u8>> {
        self.data@.map_values(|c: Chunk| c.0@)
    }

    /// The invariant of the chunk map.
    pub open spec fn wf(&self) -> bool {
        chunks_wf(self@)
    }

    /// The byte read at address `a`.
    pub open spec fn byte_at(&self, a: u64) -> u8 {
        byte_of(self@, a)
    }

    /// The `size` bytes read at `addr`.
    pub open spec fn read_spec(&self, addr: u64, size: nat) -> Seq<u8> {
        Seq::new(size, |i: int| self.byte_at((addr + i) as u64))
    }

    /// A memory in which nothing has been written.
    pub fn new() -> (m: MemoryState)
        ensures
            m@ == Map::<u64, Seq<u8>>::empty(),
            m.wf(),
    {
        let m = MemoryState { data: BTreeMap::new() };
        assert(m@ =~= Map::<u64, Seq<u8>>::empty());
        m
    }

    /// Whether the invariant holds of the memory as it stands.
    pub fn is_wf(&self) -> (r: bool)
        ensures
            r == self.wf(),
    {
        let ghost src = self.data@;
        let ghost v = spec_btree_map_iter(&self.data).remaining();
        for kv in it: self.data.iter()
            invariant
                src == self.data@,
                it.seq() == v,
                forall|i: int| 0 <= i < it.index() ==> *(#[trigger] v[i]).0 % 4 == 0,
        {
            let (k, _c) = kv;
            if *k % 4 != 0 {
                proof {
                    assert(src.contains_key(*k));
                    assert(self@.contains_key(*k));
                }
                return false;
            }
        }
        proof {
            assert forall|k: u64| #[trigger] self@.contains_key(k) implies k % 4 == 0
                && self@[k].len() == 4 by {
                assert(src.contains_key(k));
                assert(v.contains((&k, &src[k])));
                let i = choose|i: int| 0 <= i < v.len() && v[i] == (&k, &src[k]);
                assert(*v[i].0 % 4 == 0);
            }
        }
        true
    }

    /// The chunk stored at the aligned address `base`, or zeros when none is.
    fn index_chunk(&self, base: u64) -> (c: Chunk)
        ensures
            self@.contains_key(base) ==> c.0@ == self@[base],
            !self@.contains_key(base) ==> c.0@ == seq![0u8, 0u8, 0u8, 0u8],
            c.0@.len() == 4,
    {
        match self.data.get(&base) {
            Some(c) => *c,
            None => {
                let c = Chunk([0u8; 4]);
                assert(c.0@ =~= seq![0u8, 0u8, 0u8, 0u8]);
                c
            },
        }
    }

    /// Writes one byte, creating its chunk zeroed when it is missing.
    fn write_byte(&mut self, addr: u64, b: u8)
        ensures
            old(self).wf() ==> final(self).wf(),
            final(self)@ == old(self)@.insert(
                chunk_base(addr),
                chunk_or_zero(old(self)@, chunk_base(addr)).update(addr as int % 4, b),
            ),
            forall|a: u64|
                final(self).byte_at(a) == if a == addr {
                    b
                } else {
                    old(self).byte_at(a)
                },
    {
        let base = addr - addr % 4;
        let off = (addr % 4) as usize;
        let mut c = self.index_chunk(base);
        let ghost before = c.0@;
        c.0[off] = b;
        assert(c.0@ =~= before.update(off as int, b));
        assert(before == chunk_or_zero(self@, base));
        let ghost old_view = self@;
        self.data.insert(base, c);
        assert(self@ =~= old_view.insert(base, c.0@));
        assert forall|a: u64|
            self.byte_at(a) == if a == addr {
                b
            } else {
                byte_of(old_view, a)
            } by {
            if chunk_base(a) == base {
                assert(a as int % 4 != addr as int % 4 || a == addr);
            }
        }
    }

    /// Writes `bytes` at `addr`. The range may straddle chunks; missing chunks
    /// are created zeroed, and only the bytes of the range change.
    pub fn write_bytes(&mut self, addr: u64, bytes: &[u8])
        requires
            addr + bytes@.len() <= u64::MAX,
        ensures
            old(self).wf() ==> final(self).wf(),
            forall|a: u64|
                final(self).byte_at(a) == if addr <= a && a - addr < bytes@.len() {
                    bytes@[a - addr]
                } else {
                    old(self).byte_at(a)
                },
            forall|k: u64|
                final(self)@.contains_key(k) <==> old(self)@.contains_key(k) || (k % 4 == 0 && k
                    < addr + bytes@.len() && addr < k + 4 && bytes@.len() > 0),
    {
        let n = bytes.len();
        let mut i: usize = 0;
        while i < n
            invariant
                n == bytes@.len(),
                addr + n <= u64::MAX,
                0 <= i <= n,
                old(self).wf() ==> self.wf(),
                forall|a: u64|
                    self.byte_at(a) == if addr <= a && a - addr < i {
                        bytes@[a - addr]
                    } else {
                        old(self).byte_at(a)
                    },
                forall|k: u64|
                    self@.contains_key(k) <==> old(self)@.contains_key(k) || (k % 4 == 0 && k
                        < addr + i && addr < k + 4 && i > 0),
            decreases n - i,
        {
            let a = addr + i as u64;
            self.write_byte(a, bytes[i]);
            i += 1;
        }
    }

    /// Writes the low `size` bytes of the big-endian encoding of `value`
    /// truncated to 32 bits.
    pub fn write_value(&mut self, addr: u64, size: usize, value: i64)
        requires
            size <= 4,
            addr + size <= u64::MAX,
        ensures
            old(self).wf() ==> final(self).wf(),
            forall|a: u64|
                final(self).byte_at(a) == if addr <= a && a - addr < size {
                    crate::utils::be_bytes(low_word(value) as u64, size as nat)[a - addr]
                } else {
                    old(self).byte_at(a)
                },
            forall|k: u64|
                final(self)@.contains_key(k) <==> old(self)@.contains_key(k) || (k % 4 == 0 && k
                    < addr + size && addr < k + 4 && size > 0),
    {
        let v: u32 = (value & 0xffff_ffff) as u32;
        let all = word_bytes(v);
        let part = vstd::slice::slice_subrange(all.as_slice(), 4 - size, 4);
        proof {
            assert(part@ =~= crate::utils::be_bytes(v as u64, size as nat)) by {
                lemma_be_bytes_suffix(v, size as nat);
            }
        }
        self.write_bytes(addr, part);
    }

    /// Reads `size` bytes at `addr`; memory that was never written reads as
    /// zero.
    pub fn read_bytes(&self, addr: u64, size: usize) -> (r: Vec<u8>)
        requires
            addr + size <= u64::MAX,
        ensures
            r@ == self.read_spec(addr, size as nat),
    {
        let mut result: Vec<u8> = Vec::with_capacity(size);
        let mut i: usize = 0;
        while i < size
            invariant
                addr + size <= u64::MAX,
                0 <= i <= size,
                result@.len() == i,
                forall|j: int| 0 <= j < i ==> result@[j] == self.byte_at((addr + j) as u64),
            decreases size - i,
        {
            let a = addr + i as u64;
            let c = self.index_chunk(a - a % 4);
            result.push(c.0[(a % 4) as usize]);
            i += 1;
        }
        assert(result@ =~= self.read_spec(addr, size as nat));
        result
    }

    /// The chunks in increasing order of address.
    pub fn entries(&self) -> (r: Vec<(u64, [u8; 4])>)
        requires
            self.wf(),
        ensures
            r@.len() == self@.dom().len(),
            forall|i: int|
                0 <= i < r@.len() ==> self@.contains_key(#[trigger] r@[i].0) && self@[r@[i].0]
                    == r@[i].1@,
            forall|k: u64|
                self@.contains_key(k) ==> exists|i: int| 0 <= i < r@.len() && #[trigger] r@[i].0 == k,
            forall|i: int, j: int| 0 <= i < j < r@.len() ==> #[trigger] r@[i].0 < #[trigger] r@[j].0,
    {
        let mut out: Vec<(u64, [u8; 4])> = Vec::new();
        let ghost src = self.data@;
        let ghost v = spec_btree_map_iter(&self.data).remaining();
        for kv in it: self.data.iter()
            invariant
                src == self.data@,
                it.seq() == v,
                out@.len() == it.index(),
                forall|i: int| 0 <= i < out@.len() ==> #[trigger] out@[i] == entry_of(it.seq()[i]),
        {
            let (k, c) = kv;
            out.push((*k, c.0));
        }
        proof {
            assert(out@.len() == v.len());
            assert(self@.dom() =~= src.dom());
            assert forall|i: int| 0 <= i < out@.len() implies self@.contains_key(
                #[trigger] out@[i].0,
            ) && self@[out@[i].0] == out@[i].1@ by {
                assert(out@[i] == entry_of(v[i]));
                assert(src.contains_key(*v[i].0));
            }
            assert forall|k: u64| self@.contains_key(k) implies exists|i: int|
                0 <= i < out@.len() && #[trigger] out@[i].0 == k by {
                assert(src.contains_key(k));
                assert(v.contains((&k, &src[k])));
                let i = choose|i: int| 0 <= i < v.len() && v[i] == (&k, &src[k]);
                assert(out@[i] == entry_of(v[i]));
                assert(out@[i].0 == k);
            }
            let keys = v.map_values(|kv: (&u64, &Chunk)| *kv.0);
            assert(increasing_seq(keys));
            lemma_increasing_keys(keys);
            assert forall|i: int, j: int| 0 <= i < j < out@.len() implies #[trigger] out@[i].0
                < #[trigger] out@[j].0 by {
                assert(out@[i] == entry_of(v[i]));
                assert(out@[j] == entry_of(v[j]));
                assert(keys[i] == out@[i].0);
                assert(keys[j] == out@[j].0);
            }
        }
        out
    }

    /// A copy without the chunks that hold only zeros. Every address reads
    /// the same in the copy as in this memory.
    pub fn snapshot(&self) -> (s: MemoryState)
        requires
            self.wf(),
        ensures
            s.wf(),
            forall|k: u64|
                s@.contains_key(k) <==> self@.contains_key(k) && !is_zero_chunk(self@[k]),
            forall|k: u64| s@.contains_key(k) ==> s@[k] == self@[k],
            forall|a: u64| s.byte_at(a) == self.byte_at(a),
    {
        let mut out: BTreeMap<u64, Chunk> = BTreeMap::new();
        let ghost src = self.data@;
        for kv in it: self.data.iter()
            invariant
                src == self.data@,
                forall|k: u64| #[trigger]
                    out@.contains_key(k) ==> src.contains_key(k) && out@[k] == src[k]
                        && !is_zero_chunk(src[k].0@),
                forall|i: int|
                    0 <= i < it.index() ==> (!is_zero_chunk(src[*it.seq()[i].0].0@)
                        ==> out@.contains_key(*it.seq()[i].0)),
        {
            let (k, c) = kv;
            if !c.is_zero() {
                out.insert(*k, *c);
            }
        }
        let s = MemoryState { data: out };
        proof {
            assert forall|k: u64| #[trigger] s@.contains_key(k) implies self@.contains_key(k)
                && s@[k] == self@[k] && !is_zero_chunk(self@[k]) && k % 4 == 0 && s@[k].len()
                == 4 by {
                assert(out@.contains_key(k));
                assert(self@.contains_key(k));
            }
            assert forall|k: u64| self@.contains_key(k) && !is_zero_chunk(
                self@[k],
            ) implies s@.contains_key(k) by {
                assert(src.contains_key(k));
            }
            assert forall|a: u64| s.byte_at(a) == self.byte_at(a) by {
                let k = chunk_base(a);
                if self@.contains_key(k) && !s@.contains_key(k) {
                    assert(is_zero_chunk(self@[k]));
                }
            }
        }
        s
    }

    /// Drops the chunks that hold only zeros.
    fn shrink(&mut self)
        requires
            old(self).wf(),
        ensures
            final(self).wf(),
            forall|k: u64|
                final(self)@.contains_key(k) <==> old(self)@.contains_key(k) && !is_zero_chunk(
                    old(self)@[k],
                ),
            forall|k: u64| final(self)@.contains_key(k) ==> final(self)@[k] == old(self)@[k],
            forall|a: u64| final(self).byte_at(a) == old(self).byte_at(a),
    {
        let s = self.snapshot();
        self.data = s.data;
    }
}

impl Default for MemoryState {
    fn default() -> (m: MemoryState)
        ensures
            m@ == Map::<u64, Seq<u8>>::empty(),
            m.wf(),
    {
        MemoryState::new()
    }
}

/// The state of the machine that is mirrored outside the interpreter.
#[derive(Debug)]
pub struct MachineState {
    pub memory: MemoryState,
}

impl MachineState {
    /// A state with empty memory.
    pub fn new() -> (s: MachineState)
        ensures
            s.memory@ == Map::<u64, Seq<u8>>::empty(),
            s.memory.wf(),
    {
        MachineState { memory: MemoryState::new() }
    }

    /// A copy whose memory holds no all-zero chunk and reads the same at every
    /// address.
    pub fn snapshot(&self) -> (s: MachineState)
        requires
            self.memory.wf(),
        ensures
            s.memory.wf(),
            forall|k: u64|
                s.memory@.contains_key(k) <==> self.memory@.contains_key(k) && !is_zero_chunk(
                    self.memory@[k],
                ),
            forall|k: u64| s.memory@.contains_key(k) ==> s.memory@[k] == self.memory@[k],
            forall|a: u64| s.memory.byte_at(a) == self.memory.byte_at(a),
    {
        MachineState { memory: self.memory.snapshot() }
    }
}

/// Something the library has decided and the interpreter must be told of, or
/// the host must do.
#[derive(Debug)]
pub enum Effect {
    /// Map a region of guest memory.
    MapRegion { begin: u64, end: u64, perms: Permission },
    /// Release a range of guest memory.
    Unmap { addr: u64, size: usize },
    /// Change the access rights of a range.
    Protect { addr: u64, size: usize, perms: Permission },
    /// Write bytes into guest memory.
    Write { addr: u64, data: Vec<u8> },
    /// Write a register.
    RegWrite { reg: i32, value: u64 },
    /// Stop emulation after the current instruction.
    Stop,
    /// Write bytes to a host stream: 1 is standard output, 2 standard error.
    HostWrite { fd: u64, data: Vec<u8> },
}

/// What an effect is, mathematically.
pub enum EffectModel {
    MapRegion { begin: u64, end: u64, perms: Permission },
    Unmap { addr: u64, size: usize },
    Protect { addr: u64, size: usize, perms: Permission },
    Write { addr: u64, data: Seq<u8> },
    RegWrite { reg: i32, value: u64 },
    Stop,
    HostWrite { fd: u64, data: Seq<u8> },
}

impl Effect {
    pub open spec fn view(&self) -> EffectModel {
        match *self {
            Effect::MapRegion { begin, end, perms } => EffectModel::MapRegion { begin, end, perms },
            Effect::Unmap { addr, size } => EffectModel::Unmap { addr, size },
            Effect::Protect { addr, size, perms } => EffectModel::Protect { addr, size, perms },
            Effect::Write { addr, data } => EffectModel::Write { addr, data: data@ },
            Effect::RegWrite { reg, value } => EffectModel::RegWrite { reg, value },
            Effect::Stop => EffectModel::Stop,
            Effect::HostWrite { fd, data } => EffectModel::HostWrite { fd, data: data@ },
        }
    }
}

/// Number of register identifiers of the MIPS interpreter.
pub const REG_COUNT: usize = 142;

/// The machine as the library sees it: the region list, the shadow memory, a
/// mirror of the register file, and the effects that are yet to be carried
/// out on the interpreter.
#[derive(Debug)]
pub struct Machine {
    pub memories: MemoryManager,
    pub state: MachineState,
    pub regs: Vec<u64>,
    pub effects: Vec<Effect>,
    pub endian: Endian,
    pub pointer_size: u8,
}

impl Machine {
    /// The invariant of the machine.
    pub open spec fn wf(&self) -> bool {
        &&& self.memories.wf()
        &&& self.state.memory.wf()
        &&& self.regs@.len() == REG_COUNT
        &&& (self.pointer_size == 4 || self.pointer_size == 8)
    }

    /// Whether the invariant holds of the machine as it stands.
    pub fn is_wf(&self) -> (r: bool)
        ensures
            r == self.wf(),
    {
        self.memories.is_wf() && self.state.memory.is_wf() && self.regs.len() == REG_COUNT && (
        self.pointer_size == 4 || self.pointer_size == 8)
    }

    /// The pending effects.
    pub open spec fn log(&self) -> Seq<EffectModel> {
        self.effects@.map_values(|e: Effect| e@)
    }

    /// Everything but the register mirror and the effect log is as in `o`.
    pub open spec fn same_memory(&self, o: &Machine) -> bool {
        &&& self.memories@ == o.memories@
        &&& self.state.memory@ == o.state.memory@
        &&& self.endian == o.endian
        &&& self.pointer_size == o.pointer_size
    }

    /// Everything but the shadow memory and the effect log is as in `o`.
    pub open spec fn same_frame(&self, o: &Machine) -> bool {
        &&& self.memories@ == o.memories@
        &&& self.regs@ == o.regs@
        &&& self.endian == o.endian
        &&& self.pointer_size == o.pointer_size
    }

    /// A machine with nothing mapped, nothing written and all registers zero.
    pub fn create(endian: Endian, pointer_size: u8) -> (m: Machine)
        requires
            pointer_size == 4 || pointer_size == 8,
        ensures
            m.wf(),
            m.memories@ == Seq::<crate::memory::RegionModel>::empty(),
            m.state.memory@ == Map::<u64, Seq<u8>>::empty(),
            m.regs@ == Seq::new(REG_COUNT as nat, |i: int| 0u64),
            m.log() == Seq::<EffectModel>::empty(),
            m.endian == endian,
            m.pointer_size == pointer_size,
    {
        let mut regs: Vec<u64> = Vec::new();
        let mut i: usize = 0;
        while i < REG_COUNT
            invariant
                0 <= i <= REG_COUNT,
                regs@.len() == i,
                forall|j: int| 0 <= j < i ==> regs@[j] == 0,
            decreases REG_COUNT - i,
        {
            regs.push(0);
            i += 1;
        }
        let m = Machine {
            memories: MemoryManager::new(),
            state: MachineState::new(),
            regs,
            effects: Vec::new(),
            endian,
            pointer_size,
        };
        assert(m.regs@ =~= Seq::new(REG_COUNT as nat, |i: int| 0u64));
        assert(m.log() =~= Seq::<EffectModel>::empty());
        m
    }

    /// Hands out the pending effects, in the order in which they arose, and
    /// clears the log.
    pub fn take_effects(&mut self) -> (r: Vec<Effect>)
        ensures
            r@.map_values(|e: Effect| e@) == old(self).log(),
            final(self).log() == Seq::<EffectModel>::empty(),
            final(self).same_memory(old(self)),
            final(self).regs@ == old(self).regs@,
    {
        let mut out: Vec<Effect> = Vec::new();
        std::mem::swap(&mut self.effects, &mut out);
        assert(self.log() =~= Seq::<EffectModel>::empty());
        out
    }

    /// Appends an effect to the log.
    pub fn emit(&mut self, e: Effect)
        ensures
            final(self).log() == old(self).log().push(e@),
            final(self).same_memory(old(self)),
            final(self).regs@ == old(self).regs@,
    {
        self.effects.push(e);
        assert(self.log() =~= old(self).log().push(e@));
    }
}

/// `after` is `before` with `bytes` written at `addr`: the bytes of the range
/// read as written, all others as before.
pub open spec fn is_write_of(
    before: MemoryState,
    after: MemoryState,
    addr: u64,
    bytes: Seq<u8>,
) -> bool {
    forall|a: u64|
        after.byte_at(a) == if addr <= a && a - addr < bytes.len() {
            bytes[a - addr]
        } else {
            before.byte_at(a)
        }
}

/// Reading back a range right after it was written gives the bytes written.
pub proof fn lemma_read_after_write(
    before: MemoryState,
    after: MemoryState,
    addr: u64,
    bytes: Seq<u8>,
)
    requires
        is_write_of(before, after, addr, bytes),
        addr + bytes.len() <= u64::MAX,
    ensures
        after.read_spec(addr, bytes.len()) == bytes,
{
    assert(after.read_spec(addr, bytes.len()) =~= bytes);
}

/// A write leaves what is read outside its range unchanged.
pub proof fn lemma_write_frame(
    before: MemoryState,
    after: MemoryState,
    addr: u64,
    bytes: Seq<u8>,
    other: u64,
    size: nat,
)
    requires
        is_write_of(before, after, addr, bytes),
        other + size <= u64::MAX,
        other + size <= addr || addr + bytes.len() <= other,
    ensures
        after.read_spec(other, size) == before.read_spec(other, size),
{
    assert(after.read_spec(other, size) =~= before.read_spec(other, size));
}

/// Memories with the same chunks read the same.
pub proof fn lemma_same_reads(m1: MemoryState, m2: MemoryState, addr: u64, size: nat)
    requires
        m1@ == m2@,
    ensures
        m1.read_spec(addr, size) == m2.read_spec(addr, size),
{
    assert(m1.read_spec(addr, size) =~= m2.read_spec(addr, size));
}

/// `snap` holds the chunks of `live` that are not all zero, unchanged.
pub open spec fn is_snapshot_of(live: MemoryState, snap: MemoryState) -> bool {
    &&& forall|k: u64|
        snap@.contains_key(k) <==> live@.contains_key(k) && !is_zero_chunk(live@[k])
    &&& forall|k: u64| snap@.contains_key(k) ==> snap@[k] == live@[k]
}

/// Every read from a snapshot gives what the live memory gives.
pub proof fn lemma_snapshot_reads(live: MemoryState, snap: MemoryState, addr: u64, size: nat)
    requires
        live.wf(),
        is_snapshot_of(live, snap),
    ensures
        snap.read_spec(addr, size) == live.read_spec(addr, size),
{
    assert forall|a: u64| snap.byte_at(a) == live.byte_at(a) by {
        let k = chunk_base(a);
        if live@.contains_key(k) && !snap@.contains_key(k) {
            assert(is_zero_chunk(live@[k]));
        }
    }
    assert(snap.read_spec(addr, size) =~= live.read_spec(addr, size));
}

/// Two memories that read the same at every address have the same snapshot,
/// whatever the order of the writes that produced them.
pub proof fn lemma_snapshot_canonical(
    m1: MemoryState,
    m2: MemoryState,
    s1: MemoryState,
    s2: MemoryState,
)
    requires
        m1.wf(),
        m2.wf(),
        is_snapshot_of(m1, s1),
        is_snapshot_of(m2, s2),
        forall|a: u64| m1.byte_at(a) == m2.byte_at(a),
    ensures
        s1@ == s2@,
{
    assert forall|k: u64| s1@.contains_key(k) implies s2@.contains_key(k) && s1@[k] == s2@[k] by {
        lemma_snapshot_key(m1, m2, s1, s2, k);
    }
    assert forall|k: u64| s2@.contains_key(k) implies s1@.contains_key(k) by {
        lemma_snapshot_key(m2, m1, s2, s1, k);
    }
    assert(s1@ =~= s2@);
}

proof fn lemma_snapshot_key(
    m1: MemoryState,
    m2: MemoryState,
    s1: MemoryState,
    s2: MemoryState,
    k: u64,
)
    requires
        m1.wf(),
        m2.wf(),
        is_snapshot_of(m1, s1),
        is_snapshot_of(m2, s2),
        forall|a: u64| m1.byte_at(a) == m2.byte_at(a),
        s1@.contains_key(k),
    ensures
        s2@.contains_key(k),
        s1@[k] == s2@[k],
{
    assert(m1@.contains_key(k));
    assert(k % 4 == 0 && m1@[k].len() == 4);
    let c = m1@[k];
    let i = choose|i: int| 0 <= i < c.len() && c[i] != 0;
    assert(k <= u64::MAX - 3) by {
        assert(k % 4 == 0);
    }
    assert forall|j: int| 0 <= j < 4 implies m1.byte_at((k + j) as u64) == c[j] by {
        assert(chunk_base((k + j) as u64) == k);
    }
    assert(m2.byte_at((k + i) as u64) == c[i]);
    assert(chunk_base((k + i) as u64) == k);
    assert(m2@.contains_key(k));
    assert(m2@[k].len() == 4);
    assert forall|j: int| 0 <= j < 4 implies m2@[k][j] == c[j] by {
        assert(chunk_base((k + j) as u64) == k);
        assert(m2.byte_at((k + j) as u64) == m1.byte_at((k + j) as u64));
    }
    assert(m2@[k] =~= c);
    assert(!is_zero_chunk(m2@[k]));
}

/// Keys that a tree map hands out in increasing order grow strictly.
proof fn lemma_increasing_keys(keys: Seq<u64>)
    requires
        increasing_seq(keys),
    ensures
        forall|i: int, j: int| 0 <= i < j < keys.len() ==> keys[i] < keys[j],
{
    broadcast use vstd::laws_cmp::group_laws_cmp;

    vstd::std_specs::btree::axiom_increasing_seq_meaning(keys);
    assert forall|i: int, j: int| 0 <= i < j < keys.len() implies keys[i] < keys[j] by {
        assert(keys[i].cmp_spec(&keys[j]) is Less);
    }
}

/// The address and bytes of a stored chunk.
pub open spec fn entry_of(kv: (&u64, &Chunk)) -> (u64, [u8; 4]) {
    (*kv.0, kv.1.0)
}

/// The chunk of `m` at `base`, or four zero bytes.
pub open spec fn chunk_or_zero(m: Map<u64, Seq<u8>>, base: u64) -> Seq<u8> {
    if m.contains_key(base) {
        m[base]
    } else {
        seq![0u8, 0u8, 0u8, 0u8]
    }
}

/// The low 32 bits of `value`.
pub open spec fn low_word(value: i64) -> u32 {
    (value & 0xffff_ffff) as u32
}

/// The four bytes of `v`, most significant first.
fn word_bytes(v: u32) -> (r: [u8; 4])
    ensures
        r@ == crate::utils::be_bytes(v as u64, 4),
{
    let r = [
        ((v / 0x100_0000) % 256) as u8,
        ((v / 0x1_0000) % 256) as u8,
        ((v / 0x100) % 256) as u8,
        (v % 256) as u8,
    ];
    proof {
        reveal_with_fuel(crate::utils::pow256, 5);
        assert(crate::utils::pow256(0) == 1);
        assert(crate::utils::pow256(1) == 0x100);
        assert(crate::utils::pow256(2) == 0x1_0000);
        assert(crate::utils::pow256(3) == 0x100_0000);
        let e = crate::utils::be_bytes(v as u64, 4);
        assert(e[0] == ((v as nat / crate::utils::pow256(3)) % 256) as u8);
        assert(e[1] == ((v as nat / crate::utils::pow256(2)) % 256) as u8);
        assert(e[2] == ((v as nat / crate::utils::pow256(1)) % 256) as u8);
        assert(e[3] == ((v as nat / crate::utils::pow256(0)) % 256) as u8);
        assert(r@[0] == e[0]);
        assert(r@[1] == e[1]);
        assert(r@[2] == e[2]);
        assert(r@[3] == e[3]);
        assert(r@ =~= e);
    }
    r
}

/// The four big-endian bytes of the low 32 bits of `value`.
pub fn word_bytes_of(value: i64) -> (r: [u8; 4])
    ensures
        r@ == crate::utils::be_bytes(low_word(value) as u64, 4),
{
    let v: u32 = (value & 0xffff_ffff) as u32;
    word_bytes(v)
}

/// Byte `i` of the big-endian encoding of the low `n` bytes of a word is byte
/// `4 - n + i` of the encoding of the whole word.
pub proof fn lemma_be_bytes_tail(v: u32, n: nat)
    requires
        n <= 4,
    ensures
        forall|i: int|
            0 <= i < n ==> #[trigger] crate::utils::be_bytes(v as u64, n)[i] == crate::utils::be_bytes(
                v as u64,
                4,
            )[4 - n + i],
{
}

/// The last `n` of the four big-endian bytes of a word are the big-endian
/// encoding of its low `n` bytes.
proof fn lemma_be_bytes_suffix(v: u32, n: nat)
    requires
        n <= 4,
    ensures
        crate::utils::be_bytes(v as u64, 4).subrange(4 - n, 4) =~= crate::utils::be_bytes(
            v as u64,
            n,
        ),
{
}

} // verus!
