//! Alignment helpers, access rights of segments and integer packing.

use crate::engine::Machine;
use crate::errors::{EmulatorError, MemoryFault};
use crate::memory::range_mapped;
use vstd::prelude::*;

verus! {

/// Byte order of the guest.
#[derive(Clone, Copy, Debug, PartialEq, Eq, Structural)]
pub enum Endian {
    Little,
    Big,
}

/// Access rights of a memory region, as a set of bits.
#[derive(Clone, Copy, Debug, PartialEq, Eq, Structural)]
pub struct Permission {
    pub bits: u32,
}

pub const PERM_NONE: u32 = 0;

pub const PERM_READ: u32 = 1;

pub const PERM_WRITE: u32 = 2;

pub const PERM_EXEC: u32 = 4;

pub const PERM_ALL: u32 = 7;

/// ELF segment flag: executable.
pub const PF_X: u32 = 1;

/// ELF segment flag: writable.
pub const PF_W: u32 = 2;

/// ELF segment flag: readable.
pub const PF_R: u32 = 4;

impl Permission {
    /// True when only read, write and execute bits are set.
    pub open spec fn valid(self) -> bool {
        self.bits <= PERM_ALL
    }

    pub open spec fn readable(self) -> bool {
        self.bits & PERM_READ != 0
    }

    pub open spec fn writable(self) -> bool {
        self.bits & PERM_WRITE != 0
    }

    pub open spec fn executable(self) -> bool {
        self.bits & PERM_EXEC != 0
    }

    /// Keeps the read, write and execute bits of `bits` and drops the rest.
    pub fn from_bits_truncate(bits: u32) -> (p: Permission)
        ensures
            p.bits == bits & PERM_ALL,
            p.valid(),
    {
        assert(bits & 7 <= 7) by (bit_vector);
        Permission { bits: bits & PERM_ALL }
    }

    pub fn all() -> (p: Permission)
        ensures
            p.bits == PERM_ALL,
            p.valid(),
    {
        Permission { bits: PERM_ALL }
    }
}

/// A power of two, the only kind of alignment boundary.
pub open spec fn is_pow2(a: u64) -> bool {
    a != 0 && a & ((a - 1) as u64) == 0
}

/// `value` rounded down to a multiple of `alignment`.
pub open spec fn align_down_spec(value: int, alignment: int) -> int {
    value - value % alignment
}

/// `value` rounded up to a multiple of `alignment`.
pub open spec fn align_up_spec(value: int, alignment: int) -> int {
    align_down_spec(value + alignment - 1, alignment)
}

/// Aligns `value` down to the boundary `alignment`, which must be a power of
/// two. An aligned value is returned unchanged.
pub fn align(value: u64, alignment: u64) -> (r: u64)
    requires
        is_pow2(alignment),
    ensures
        r as int == align_down_spec(value as int, alignment as int),
        r <= value,
        r as int % alignment as int == 0,
        value - r < alignment,
{
    proof {
        vstd::arithmetic::div_mod::lemma_fundamental_div_mod(value as int, alignment as int);
        vstd::arithmetic::div_mod::lemma_mod_multiples_basic(
            value as int / alignment as int,
            alignment as int,
        );
        assert(alignment as int * (value as int / alignment as int) == (value as int
            / alignment as int) * alignment as int) by (nonlinear_arith);
    }
    value - value % alignment
}

/// Aligns `value` up to the boundary `alignment`, which must be a power of
/// two. An aligned value is returned unchanged.
pub fn align_up(value: u64, alignment: u64) -> (r: u64)
    requires
        is_pow2(alignment),
        value + alignment - 1 <= u64::MAX,
    ensures
        r as int == align_up_spec(value as int, alignment as int),
        r >= value,
        r as int % alignment as int == 0,
        r - value < alignment,
{
    let mask: u64 = alignment - 1;
    let r = align((value + mask) as u64, alignment);
    r
}

/// The access rights that the ELF segment flags `perm` ask for.
pub open spec fn seg_perm_spec(perm: u32) -> u32 {
    (if perm & PF_X != 0 { PERM_EXEC } else { 0u32 })
    | (if perm & PF_W != 0 { PERM_WRITE } else { 0u32 })
    | (if perm & PF_R != 0 { PERM_READ } else { 0u32 })
}

/// The access rights of a memory region for the flags of an ELF segment.
pub fn seg_perm_to_uc_prot(perm: u32) -> (p: Permission)
    ensures
        p.bits == seg_perm_spec(perm),
        p.valid(),
        p.executable() <==> perm & PF_X != 0,
        p.writable() <==> perm & PF_W != 0,
        p.readable() <==> perm & PF_R != 0,
{
    let x: u32 = if perm & PF_X != 0 { PERM_EXEC } else { 0 };
    let w: u32 = if perm & PF_W != 0 { PERM_WRITE } else { 0 };
    let r: u32 = if perm & PF_R != 0 { PERM_READ } else { 0 };
    let bits: u32 = x | w | r;
    assert(bits <= 7 && (bits & 4 != 0 <==> x != 0) && (bits & 2 != 0 <==> w != 0) && (bits & 1
        != 0 <==> r != 0)) by (bit_vector)
        requires
            bits == x | w | r,
            x == 4 || x == 0,
            w == 2 || w == 0,
            r == 1 || r == 0,
    ;
    Permission { bits }
}

/// 256 to the power `n`.
pub open spec fn pow256(n: nat) -> nat
    decreases n,
{
    if n == 0 {
        1
    } else {
        256 * pow256((n - 1) as nat)
    }
}

/// The low `n` bytes of `v`, most significant first.
pub open spec fn be_bytes(v: u64, n: nat) -> Seq<u8> {
    Seq::new(n, |i: int| ((v as nat / pow256((n - 1 - i) as nat)) % 256) as u8)
}

/// The low `n` bytes of `v`, least significant first.
pub open spec fn le_bytes(v: u64, n: nat) -> Seq<u8> {
    Seq::new(n, |i: int| ((v as nat / pow256(i as nat)) % 256) as u8)
}

/// The number that the bytes `s` spell, most significant first.
pub open spec fn be_value(s: Seq<u8>) -> nat
    decreases s.len(),
{
    if s.len() == 0 {
        0
    } else {
        be_value(s.drop_last()) * 256 + s.last() as nat
    }
}

/// The number that the bytes `s` spell, least significant first.
pub open spec fn le_value(s: Seq<u8>) -> nat
    decreases s.len(),
{
    if s.len() == 0 {
        0
    } else {
        s[0] as nat + 256 * le_value(s.drop_first())
    }
}

/// `bytes::BufMut::put_uint` on an empty `BytesMut`: the buffer then holds the
/// low `nbytes` bytes of `v` in big-endian order. The call panics for more than
/// eight bytes, which `requires` leaves out.
#[verifier::external_body]
fn put_uint_be(v: u64, nbytes: usize) -> (r: Vec<u8>)
    requires
        nbytes <= 8,
    ensures
        r@ == be_bytes(v, nbytes as nat),
{
    let mut buf = bytes::BytesMut::new();
    bytes::BufMut::put_uint(&mut buf, v, nbytes);
    buf.to_vec()
}

/// `bytes::BufMut::put_uint_le` on an empty `BytesMut`: the buffer then holds
/// the low `nbytes` bytes of `v` in little-endian order. The call panics for
/// more than eight bytes, which `requires` leaves out.
#[verifier::external_body]
fn put_uint_le(v: u64, nbytes: usize) -> (r: Vec<u8>)
    requires
        nbytes <= 8,
    ensures
        r@ == le_bytes(v, nbytes as nat),
{
    let mut buf = bytes::BytesMut::new();
    bytes::BufMut::put_uint_le(&mut buf, v, nbytes);
    buf.to_vec()
}

/// `bytes::Buf::get_uint` on a `Bytes` made of `data`: the first `nbytes` bytes
/// read as a big-endian number. The call panics for more than eight bytes or
/// when fewer than `nbytes` bytes are there, which `requires` leaves out.
#[verifier::external_body]
fn get_uint_be(data: Vec<u8>, nbytes: usize) -> (r: u64)
    requires
        nbytes <= 8,
        nbytes <= data@.len(),
    ensures
        r as nat == be_value(data@.take(nbytes as int)),
{
    let mut data = bytes::Bytes::from(data);
    bytes::Buf::get_uint(&mut data, nbytes)
}

/// `bytes::Buf::get_uint_le` on a `Bytes` made of `data`: the first `nbytes`
/// bytes read as a little-endian number. The call panics for more than eight
/// bytes or when fewer than `nbytes` bytes are there, which `requires` leaves
/// out.
#[verifier::external_body]
fn get_uint_le(data: Vec<u8>, nbytes: usize) -> (r: u64)
    requires
        nbytes <= 8,
        nbytes <= data@.len(),
    ensures
        r as nat == le_value(data@.take(nbytes as int)),
{
    let mut data = bytes::Bytes::from(data);
    bytes::Buf::get_uint_le(&mut data, nbytes)
}

/// Packs and unpacks pointer-sized integers in the guest's byte order.
pub struct Packer {
    pub endian: Endian,
    pub pointer_size: usize,
}

impl Packer {
    pub fn new(endian: Endian, pointer_size: u8) -> (p: Packer)
        ensures
            p.endian == endian,
            p.pointer_size == pointer_size as usize,
    {
        Packer { endian, pointer_size: pointer_size as usize }
    }

    /// The bytes that `pack` gives for `v`.
    pub open spec fn packed(&self, v: u64) -> Seq<u8> {
        match self.endian {
            Endian::Little => le_bytes(v, self.pointer_size as nat),
            Endian::Big => be_bytes(v, self.pointer_size as nat),
        }
    }

    /// The number that `unpack` reads from the front of `data`.
    pub open spec fn unpacked(&self, data: Seq<u8>) -> nat {
        match self.endian {
            Endian::Little => le_value(data.take(self.pointer_size as int)),
            Endian::Big => be_value(data.take(self.pointer_size as int)),
        }
    }

    /// The low `pointer_size` bytes of `v` in the guest's byte order.
    pub fn pack(&self, v: u64) -> (r: Vec<u8>)
        requires
            self.pointer_size <= 8,
        ensures
            r@ == self.packed(v),
            r@.len() == self.pointer_size,
    {
        match self.endian {
            Endian::Little => put_uint_le(v, self.pointer_size),
            Endian::Big => put_uint_be(v, self.pointer_size),
        }
    }

    /// Reads the first `pointer_size` bytes of `data` in the guest's byte order.
    pub fn unpack(&self, data: Vec<u8>) -> (r: u64)
        requires
            self.pointer_size <= 8,
            self.pointer_size <= data@.len(),
        ensures
            r as nat == self.unpacked(data@),
    {
        match self.endian {
            Endian::Little => get_uint_le(data, self.pointer_size),
            Endian::Big => get_uint_be(data, self.pointer_size),
        }
    }
}

/// The bytes `s` are the string at `address`: they stand there in mapped
/// memory, none of them is `terminator`, and the byte behind them is
/// `terminator` and mapped too.
pub open spec fn is_string_at(core: &Machine, address: u64, terminator: u8, s: Seq<u8>) -> bool {
    &&& address + s.len() < u64::MAX
    &&& s == core.state.memory.read_spec(address, s.len())
    &&& forall|i: int| 0 <= i < s.len() ==> s[i] != terminator
    &&& core.state.memory.byte_at((address + s.len()) as u64) == terminator
    &&& forall|i: int|
        0 <= i <= s.len() ==> crate::memory::mapped_at(
            core.memories@,
            #[trigger] ((address + i) as u64),
        )
}

/// No string can be read at `address`: unmapped memory comes before any
/// `terminator`.
pub open spec fn no_string_at(core: &Machine, address: u64, terminator: u8) -> bool {
    exists|n: int|
        0 <= n && address + n <= u64::MAX && !crate::memory::mapped_at(
            core.memories@,
            #[trigger] ((address + n) as u64),
        ) && forall|i: int|
            0 <= i < n ==> #[trigger] core.state.memory.byte_at((address + i) as u64) != terminator
}

/// Where a string stands, unmapped memory does not come first.
pub proof fn lemma_string_readable(core: &Machine, address: u64, terminator: u8, s: Seq<u8>)
    requires
        is_string_at(core, address, terminator, s),
    ensures
        !no_string_at(core, address, terminator),
{
    if no_string_at(core, address, terminator) {
        let n = choose|n: int|
            0 <= n && address + n <= u64::MAX && !crate::memory::mapped_at(
                core.memories@,
                #[trigger] ((address + n) as u64),
            ) && forall|i: int|
                0 <= i < n ==> #[trigger] core.state.memory.byte_at((address + i) as u64)
                    != terminator;
        if n <= s.len() {
            assert(crate::memory::mapped_at(core.memories@, (address + n) as u64));
        } else {
            assert(core.state.memory.byte_at((address + s.len()) as u64) != terminator);
        }
    }
}

/// At most one string stands at an address.
pub proof fn lemma_string_unique(
    core: &Machine,
    address: u64,
    terminator: u8,
    s1: Seq<u8>,
    s2: Seq<u8>,
)
    requires
        is_string_at(core, address, terminator, s1),
        is_string_at(core, address, terminator, s2),
    ensures
        s1 == s2,
{
    if s1.len() < s2.len() {
        assert(s2[s1.len() as int] == core.state.memory.read_spec(address, s2.len())[s1.len() as int]);
        assert(s2[s1.len() as int] != terminator);
    } else if s2.len() < s1.len() {
        assert(s1[s2.len() as int] == core.state.memory.read_spec(address, s1.len())[s2.len() as int]);
        assert(s1[s2.len() as int] != terminator);
    }
    assert(s1 =~= s2);
}

/// Reads the bytes of guest memory from `address` up to, and without, the
/// first byte equal to `terminator`. The read fails exactly when unmapped
/// memory comes before a terminator.
pub fn read_string(core: &Machine, address: u64, terminator: u8) -> (r: Result<
    Vec<u8>,
    EmulatorError,
>)
    requires
        core.wf(),
    ensures
        match r {
            Ok(s) => is_string_at(core, address, terminator, s@),
            Err(e) => e == EmulatorError::Memory(MemoryFault::Unmapped) && no_string_at(
                core,
                address,
                terminator,
            ),
        },
        r is Err <==> no_string_at(core, address, terminator),
{
    let mut result: Vec<u8> = Vec::new();
    let mut cur = address;
    loop
        invariant
            core.wf(),
            cur == address + result@.len(),
            result@ == core.state.memory.read_spec(address, result@.len()),
            forall|i: int| 0 <= i < result@.len() ==> result@[i] != terminator,
            forall|i: int|
                0 <= i < result@.len() ==> crate::memory::mapped_at(
                    core.memories@,
                    #[trigger] ((address + i) as u64),
                ),
            cur <= u64::MAX,
        decreases u64::MAX - cur,
    {
        let one = match core.read(cur, 1) {
            Ok(v) => v,
            Err(e) => {
                proof {
                    let n = result@.len() as int;
                    assert(!crate::memory::mapped_at(core.memories@, (address + n) as u64));
                    assert forall|i: int| 0 <= i < n implies #[trigger] core.state.memory.byte_at(
                        (address + i) as u64,
                    ) != terminator by {
                        assert(result@[i] == core.state.memory.byte_at((address + i) as u64));
                    }
                }
                return Err(e);
            },
        };
        proof {
            crate::memory::lemma_mapped_range_fits(core.memories@, cur, 1);
            assert(one@[0] == core.state.memory.byte_at(cur));
        }
        let b = one[0];
        if b == terminator {
            proof {
                assert(crate::memory::mapped_at(core.memories@, cur));
                assert(is_string_at(core, address, terminator, result@));
                lemma_string_readable(core, address, terminator, result@);
            }
            return Ok(result);
        }
        let ghost prev = result@;
        result.push(b);
        assert(result@ =~= core.state.memory.read_spec(address, result@.len())) by {
            assert forall|i: int| 0 <= i < result@.len() implies result@[i]
                == core.state.memory.byte_at((address + i) as u64) by {
                if i < prev.len() {
                    assert(prev[i] == core.state.memory.read_spec(address, prev.len())[i]);
                }
            }
        }
        cur = cur + 1;
    }
}

} // verus!
