//! The memory manager: the sorted list of mapped regions of the guest.

use crate::engine::{is_write_of, Effect, EffectModel, Machine};
use crate::errors::{EmulatorError, MemoryFault};
use crate::utils::{Packer, Permission};
use vstd::prelude::*;

verus! {

/// Width of a guest pointer in bytes.
pub type PointerSizeT = u8;

/// A half-open range of guest addresses with its access rights.
#[derive(Clone, Copy, Debug, PartialEq, Eq, Structural)]
pub struct MemRegion {
    pub begin: u64,
    pub end: u64,
    pub perms: Permission,
}

/// A mapped region and the label it was mapped under.
#[derive(Clone, Debug)]
pub struct MapInfo {
    pub info: MemRegion,
    pub label: String,
}

/// What a mapped region is, mathematically.
pub struct RegionModel {
    pub begin: u64,
    pub end: u64,
    pub perms: Permission,
    pub label: Seq<char>,
}

impl MapInfo {
    pub open spec fn view(&self) -> RegionModel {
        RegionModel {
            begin: self.info.begin,
            end: self.info.end,
            perms: self.info.perms,
            label: self.label@,
        }
    }
}

/// Page size as a 64-bit address quantity.
pub open spec fn page() -> int {
    4096
}

/// A region is non-empty, page-aligned and carries only known permissions.
pub open spec fn region_ok(r: RegionModel) -> bool {
    &&& r.begin < r.end
    &&& r.begin as int % page() == 0
    &&& r.end as int % page() == 0
    &&& r.perms.valid()
}

/// The region list is sorted by `begin` and no two regions overlap.
pub open spec fn sorted_disjoint(s: Seq<RegionModel>) -> bool {
    forall|i: int, j: int| 0 <= i < j < s.len() ==> (#[trigger] s[i]).end <= (#[trigger] s[j]).begin
}

/// The invariant of the region list.
pub open spec fn regions_wf(s: Seq<RegionModel>) -> bool {
    &&& forall|i: int| 0 <= i < s.len() ==> region_ok(#[trigger] s[i])
    &&& sorted_disjoint(s)
}

/// Address `a` lies in some region of `s`.
pub open spec fn mapped_at(s: Seq<RegionModel>, a: u64) -> bool {
    exists|i: int| 0 <= i < s.len() && (#[trigger] s[i]).begin <= a < s[i].end
}

/// The range `[begin, end)` meets some region of `s`.
pub open spec fn overlaps(s: Seq<RegionModel>, begin: u64, end: u64) -> bool {
    exists|i: int| 0 <= i < s.len() && begin < (#[trigger] s[i]).end && s[i].begin < end
}

/// Why mapping `region` into `s` is refused, if it is.
pub open spec fn map_fault(s: Seq<RegionModel>, region: MemRegion) -> Option<MemoryFault> {
    if region.begin >= region.end {
        Some(MemoryFault::InvalidRange)
    } else if region.begin as int % page() != 0 || region.end as int % page() != 0 {
        Some(MemoryFault::Unaligned)
    } else if !region.perms.valid() {
        Some(MemoryFault::BadPermissions)
    } else if overlaps(s, region.begin, region.end) {
        Some(MemoryFault::Overlap)
    } else {
        None
    }
}

/// Why unmapping `size` bytes at `addr` is refused, if it is.
pub open spec fn unmap_fault(addr: u64, size: usize) -> Option<MemoryFault> {
    if addr + size > u64::MAX {
        Some(MemoryFault::InvalidRange)
    } else if addr as int % page() != 0 || size as int % page() != 0 {
        Some(MemoryFault::Unaligned)
    } else {
        None
    }
}

/// What is left of region `r` once `[b, e)` is cut out of it: nothing, the
/// part below `b`, the part from `e` on, or both.
pub open spec fn trim_one(r: RegionModel, b: u64, e: u64) -> Seq<RegionModel> {
    if b < e && r.begin < e && b < r.end {
        let left = if r.begin < b {
            seq![RegionModel { end: b, ..r }]
        } else {
            Seq::empty()
        };
        let right = if e < r.end {
            seq![RegionModel { begin: e, ..r }]
        } else {
            Seq::empty()
        };
        left + right
    } else {
        seq![r]
    }
}

/// The region list `s` with `[b, e)` cut out of every region.
pub open spec fn trim_all(s: Seq<RegionModel>, b: u64, e: u64) -> Seq<RegionModel>
    decreases s.len(),
{
    if s.len() == 0 {
        Seq::empty()
    } else {
        trim_all(s.drop_last(), b, e) + trim_one(s.last(), b, e)
    }
}

/// The address that the search for a gap of `size` bytes arrives at, having
/// reached region `k` with candidate `addr`: a region that ends at or below
/// the candidate is passed over, a region that begins at or above the end of
/// the candidate range ends the search, and any other region moves the
/// candidate to its end.
pub open spec fn gap_walk(s: Seq<RegionModel>, k: int, addr: int, size: int) -> int
    decreases s.len() - k,
{
    if k < 0 || k >= s.len() {
        addr
    } else if s[k].end <= addr {
        gap_walk(s, k + 1, addr, size)
    } else if addr + size <= s[k].begin {
        addr
    } else {
        gap_walk(s, k + 1, s[k].end as int, size)
    }
}

/// The range of `size` bytes at `c` meets a region of `s`, or, for an empty
/// range, `c` lies inside one.
pub open spec fn blocked(s: Seq<RegionModel>, c: int, size: int) -> bool {
    exists|j: int| 0 <= j < s.len() && c < (#[trigger] s[j]).end && s[j].begin < c + size
}

/// The first address at or above `base` at which `size` bytes are free.
pub open spec fn first_gap(s: Seq<RegionModel>, base: u64, size: usize) -> int {
    gap_walk(s, 0, base as int, size as int)
}

/// Highest end that a fresh anonymous mapping may have.
pub open spec fn mmap_limit() -> int {
    0xffff_ffff
}

/// The sorted, non-overlapping list of mapped regions.
#[derive(Debug)]
pub struct MemoryManager {
    map_info: Vec<MapInfo>,
}

impl MemoryManager {
    /// The regions in address order.
    pub closed spec fn view(&self) -> Seq<RegionModel> {
        self.map_info@.map_values(|m: MapInfo| m@)
    }

    /// The invariant: regions are well-formed, sorted and disjoint.
    pub open spec fn wf(&self) -> bool {
        regions_wf(self@)
    }

    /// A manager with nothing mapped.
    pub fn new() -> (m: MemoryManager)
        ensures
            m@ == Seq::<RegionModel>::empty(),
            m.wf(),
    {
        let m = MemoryManager { map_info: Vec::new() };
        assert(m@ =~= Seq::<RegionModel>::empty());
        m
    }

    /// Number of mapped regions.
    pub fn len(&self) -> (n: usize)
        ensures
            n == self@.len(),
    {
        self.map_info.len()
    }

    /// The `i`-th region in address order.
    pub fn region(&self, i: usize) -> (r: MemRegion)
        requires
            i < self@.len(),
        ensures
            r.begin == self@[i as int].begin,
            r.end == self@[i as int].end,
            r.perms == self@[i as int].perms,
    {
        self.map_info[i].info
    }

    /// Whether the invariant holds of the list as it stands.
    pub fn is_wf(&self) -> (r: bool)
        ensures
            r == self.wf(),
    {
        let n = self.map_info.len();
        let mut i: usize = 0;
        let ghost s = self@;
        while i < n
            invariant
                n == self.map_info.len(),
                s == self@,
                0 <= i <= n,
                forall|j: int| 0 <= j < i ==> region_ok(#[trigger] s[j]),
                forall|j: int| 0 < j < i ==> (#[trigger] s[j - 1]).end <= s[j].begin,
            decreases n - i,
        {
            let r = &self.map_info[i].info;
            assert(s[i as int].begin == r.begin && s[i as int].end == r.end && s[i as int].perms
                == r.perms);
            if r.begin >= r.end || r.begin % 4096 != 0 || r.end % 4096 != 0 || r.perms.bits > 7 {
                assert(!region_ok(s[i as int]));
                return false;
            }
            if i > 0 && self.map_info[i - 1].info.end > r.begin {
                assert(s[i - 1].end > s[i as int].begin);
                return false;
            }
            i += 1;
        }
        proof {
            assert forall|a: int, b: int| 0 <= a < b < s.len() implies (#[trigger] s[a]).end <= (
            #[trigger] s[b]).begin by {
                lemma_chain_sorted(s, a, b);
            }
        }
        true
    }

    /// Records `mem_info` under `label`, keeping the list sorted by `begin`.
    /// The caller has checked that the region is well-formed and free.
    pub fn add_mapinfo(&mut self, mem_info: MemRegion, label: String)
        requires
            old(self).wf(),
            map_fault(old(self)@, mem_info).is_none(),
        ensures
            final(self).wf(),
            final(self)@ == mapped_list(old(self)@, mem_info, label@),
            exists|k: int|
                0 <= k <= old(self)@.len() && final(self)@ == old(self)@.insert(
                    k,
                    #[trigger] inserted(mem_info, label@, k),
                ),
    {
        let ghost before = self@;
        let n = self.map_info.len();
        let mut k: usize = 0;
        while k < n && self.map_info[k].info.begin < mem_info.begin
            invariant
                n == self.map_info.len(),
                self@ == before,
                0 <= k <= n,
                forall|j: int| 0 <= j < k ==> (#[trigger] before[j]).begin < mem_info.begin,
                insert_pos(before, mem_info.begin, 0) == insert_pos(
                    before,
                    mem_info.begin,
                    k as int,
                ),
            decreases n - k,
        {
            k += 1;
        }
        let ghost new_model = inserted(mem_info, label@, k as int);
        self.map_info.insert(k, MapInfo { info: mem_info, label });
        proof {
            let after = self@;
            assert(after =~= before.insert(k as int, new_model));
            assert forall|i: int| 0 <= i < after.len() implies region_ok(#[trigger] after[i]) by {
                if i < k {
                    assert(after[i] == before[i]);
                } else if i > k {
                    assert(after[i] == before[i - 1]);
                }
            }
            assert forall|i: int, j: int| 0 <= i < j < after.len() implies (#[trigger] after[i]).end
                <= (#[trigger] after[j]).begin by {
                let bi = if i < k { i } else { i - 1 };
                let bj = if j < k { j } else { j - 1 };
                if i != k && j != k {
                    assert(after[i] == before[bi]);
                    assert(after[j] == before[bj]);
                } else if i == k {
                    assert(after[j] == before[bj]);
                    assert(before[k as int].begin >= mem_info.begin);
                    if k < bj {
                        assert(before[k as int].end <= before[bj].begin);
                    }
                    assert(!(mem_info.begin < before[bj].end && before[bj].begin < mem_info.end));
                } else {
                    assert(after[i] == before[bi]);
                    assert(!(mem_info.begin < before[bi].end && before[bi].begin < mem_info.end));
                }
            }
        }
    }

    /// Whether `[begin, end)` meets a mapped region.
    fn intersects(&self, begin: u64, end: u64) -> (r: bool)
        ensures
            r == overlaps(self@, begin, end),
    {
        let n = self.map_info.len();
        let mut i: usize = 0;
        while i < n
            invariant
                n == self.map_info.len(),
                0 <= i <= n,
                forall|j: int|
                    0 <= j < i ==> !(begin < (#[trigger] self@[j]).end && self@[j].begin < end),
            decreases n - i,
        {
            let r = &self.map_info[i].info;
            assert(self@[i as int].end == r.end && self@[i as int].begin == r.begin);
            if begin < r.end && r.begin < end {
                return true;
            }
            i += 1;
        }
        false
    }

    /// Maps `region` under the label `info`, or `[mapped]` when none is given.
    /// The request is refused, and nothing changes, when the range is empty,
    /// not page-aligned, carries unknown permission bits, or overlaps a mapped
    /// region.
    pub fn mem_map(&mut self, region: MemRegion, info: Option<String>) -> (r: Result<
        (),
        EmulatorError,
    >)
        requires
            old(self).wf(),
        ensures
            final(self).wf(),
            match map_fault(old(self)@, region) {
                Some(f) => r == Err::<(), EmulatorError>(EmulatorError::Memory(f)) && final(self)@
                    == old(self)@,
                None => r.is_ok() && final(self)@ == mapped_list(
                    old(self)@,
                    region,
                    label_or_default(info),
                ) && exists|k: int|
                    0 <= k <= old(self)@.len() && final(self)@ == old(self)@.insert(
                        k,
                        #[trigger] inserted(region, label_or_default(info), k),
                    ),
            },
    {
        if region.begin >= region.end {
            return Err(EmulatorError::Memory(MemoryFault::InvalidRange));
        }
        if region.begin % 4096 != 0 || region.end % 4096 != 0 {
            return Err(EmulatorError::Memory(MemoryFault::Unaligned));
        }
        if region.perms.bits > 7 {
            return Err(EmulatorError::Memory(MemoryFault::BadPermissions));
        }
        if self.intersects(region.begin, region.end) {
            return Err(EmulatorError::Memory(MemoryFault::Overlap));
        }
        let label = match info {
            Some(l) => l,
            None => "[mapped]".to_owned(),
        };
        assert(label@ == label_or_default(info));
        assert(map_fault(self@, region).is_none());
        self.add_mapinfo(region, label);
        Ok(())
    }

    /// Unmaps `[addr, addr + size)`: regions inside the range disappear,
    /// regions that straddle an end of it are trimmed, and a region that
    /// contains it is split in two. The request is refused, and nothing
    /// changes, when the range wraps around or is not page-aligned.
    pub fn mem_unmap(&mut self, addr: u64, size: usize) -> (r: Result<(), EmulatorError>)
        requires
            old(self).wf(),
        ensures
            final(self).wf(),
            match unmap_fault(addr, size) {
                Some(f) => r == Err::<(), EmulatorError>(EmulatorError::Memory(f)) && final(self)@
                    == old(self)@,
                None => r.is_ok() && final(self)@ == trim_all(
                    old(self)@,
                    addr,
                    (addr + size) as u64,
                ),
            },
    {
        if size as u64 > u64::MAX - addr {
            return Err(EmulatorError::Memory(MemoryFault::InvalidRange));
        }
        if addr % 4096 != 0 || size % 4096 != 0 {
            return Err(EmulatorError::Memory(MemoryFault::Unaligned));
        }
        let begin = addr;
        let end = addr + size as u64;
        let ghost before = self@;
        let n = self.map_info.len();
        let mut out: Vec<MapInfo> = Vec::new();
        let mut i: usize = 0;
        assert(before.take(0) =~= Seq::<RegionModel>::empty());
        assert(out@.map_values(|m: MapInfo| m@) =~= Seq::<RegionModel>::empty());
        while i < n
            invariant
                n == self.map_info.len(),
                self@ == before,
                regions_wf(before),
                0 <= i <= n,
                begin as int % page() == 0,
                end as int % page() == 0,
                out@.map_values(|m: MapInfo| m@) == trim_all(before.take(i as int), begin, end),
                regions_wf(out@.map_values(|m: MapInfo| m@)),
                forall|k: int|
                    0 <= k < out@.len() && i > 0 ==> (#[trigger] out@[k]).info.end <= before[i
                        - 1].end,
                i == 0 ==> out@.len() == 0,
            decreases n - i,
        {
            let ghost prev = out@.map_values(|m: MapInfo| m@);
            let cur = &self.map_info[i];
            let info = cur.info;
            assert(before[i as int] == cur@);
            assert(region_ok(before[i as int]));
            assert(before.take(i as int + 1).drop_last() =~= before.take(i as int));
            assert(before.take(i as int + 1).last() == before[i as int]);
            assert forall|k: int| 0 <= k < out@.len() implies (#[trigger] out@[k]).info.end
                <= info.begin by {
                assert(before[i - 1].end <= before[i as int].begin);
            }
            if begin < end && info.begin < end && begin < info.end {
                if info.begin < begin {
                    out.push(
                        MapInfo {
                            info: MemRegion { begin: info.begin, end: begin, perms: info.perms },
                            label: cur.label.clone(),
                        },
                    );
                }
                if end < info.end {
                    out.push(
                        MapInfo {
                            info: MemRegion { begin: end, end: info.end, perms: info.perms },
                            label: cur.label.clone(),
                        },
                    );
                }
            } else {
                out.push(MapInfo { info, label: cur.label.clone() });
            }
            proof {
                let now = out@.map_values(|m: MapInfo| m@);
                assert(now =~= prev + trim_one(before[i as int], begin, end));
                assert forall|k: int| 0 <= k < now.len() implies region_ok(#[trigger] now[k]) by {
                    if k < prev.len() {
                        assert(now[k] == prev[k]);
                    }
                }
                assert forall|a: int, b: int| 0 <= a < b < now.len() implies (#[trigger] now[a]).end
                    <= (#[trigger] now[b]).begin by {
                    if b < prev.len() {
                        assert(now[a] == prev[a] && now[b] == prev[b]);
                    } else if a < prev.len() {
                        assert(now[a] == prev[a]);
                        assert(out@[a].info.end <= info.begin);
                    }
                }
            }
            i += 1;
        }
        assert(before.take(n as int) =~= before);
        self.map_info = out;
        Ok(())
    }

    /// Whether the range of `size` bytes at `addr` lies inside mapped memory:
    /// `addr` itself is mapped and so is every other address of the range.
    pub fn is_mapped(&self, addr: u64, size: usize) -> (r: bool)
        requires
            self.wf(),
        ensures
            r == (mapped_at(self@, addr) && forall|a: u64|
                addr <= a && a - addr < size ==> mapped_at(self@, a)),
    {
        let ghost s = self@;
        if size as u64 > u64::MAX - addr {
            proof {
                assert(!mapped_at(s, u64::MAX));
                assert(addr <= u64::MAX && u64::MAX - addr < size);
            }
            return false;
        }
        let end = addr + size as u64;
        let n = self.map_info.len();
        let mut cur = addr;
        let mut i: usize = 0;
        while i < n
            invariant
                n == self.map_info.len(),
                s == self@,
                regions_wf(s),
                0 <= i <= n,
                end == addr + size,
                addr <= cur <= end,
                cur < end || cur == addr,
                forall|a: u64| addr <= a < cur ==> mapped_at(s, a),
                forall|j: int| 0 <= j < i ==> (#[trigger] s[j]).end <= cur,
            decreases n - i,
        {
            let r = &self.map_info[i].info;
            assert(s[i as int].begin == r.begin && s[i as int].end == r.end);
            if r.end <= cur {
                i += 1;
                continue;
            }
            if cur < r.begin {
                proof {
                    assert forall|j: int| 0 <= j < s.len() implies !((#[trigger] s[j]).begin <= cur
                        < s[j].end) by {
                        if j > i {
                            assert(s[i as int].end <= s[j].begin);
                        }
                    }
                    assert(!mapped_at(s, cur));
                }
                return false;
            }
            if end <= r.end {
                proof {
                    assert forall|a: u64| addr <= a && a - addr < size implies mapped_at(s, a) by {
                        if a >= cur {
                            assert(s[i as int].begin <= a < s[i as int].end);
                        }
                    }
                    if cur == addr {
                        assert(s[i as int].begin <= addr < s[i as int].end);
                    } else {
                        assert(mapped_at(s, addr));
                    }
                }
                return true;
            }
            proof {
                assert forall|a: u64| addr <= a < r.end implies mapped_at(s, a) by {
                    if a >= cur {
                        assert(s[i as int].begin <= a < s[i as int].end);
                    }
                }
                assert forall|j: int| 0 <= j < i + 1 implies (#[trigger] s[j]).end <= r.end by {
                    if j < i {
                        assert(s[j].end <= s[i as int].begin);
                    }
                }
            }
            cur = r.end;
            i += 1;
        }
        proof {
            assert forall|j: int| 0 <= j < s.len() implies !((#[trigger] s[j]).begin <= cur
                < s[j].end) by {}
            assert(!mapped_at(s, cur));
        }
        false
    }

    /// Chooses the address of a fresh mapping of `size` bytes: the first
    /// address at or above `base_address` at which `size` bytes meet no
    /// region. The request fails exactly when that range would end beyond the
    /// 32-bit address space. The region list stays as it is.
    pub fn next_mmap_address(&self, base_address: u64, size: usize) -> (r: Result<
        u64,
        EmulatorError,
    >)
        requires
            self.wf(),
        ensures
            match r {
                Ok(a) => {
                    &&& a as int == first_gap(self@, base_address, size)
                    &&& a + size <= mmap_limit()
                },
                Err(e) => e == EmulatorError::Memory(MemoryFault::OutOfMemory) && first_gap(
                    self@,
                    base_address,
                    size,
                ) + size > mmap_limit(),
            },
            first_gap(self@, base_address, size) >= base_address,
            !blocked(self@, first_gap(self@, base_address, size), size as int),
            forall|c: int|
                base_address <= c < first_gap(self@, base_address, size) ==> #[trigger] blocked(
                    self@,
                    c,
                    size as int,
                ),
    {
        let ghost s = self@;
        let n = self.map_info.len();
        let mut addr = base_address;
        let mut i: usize = 0;
        let mut found = false;
        while i < n && !found
            invariant
                n == self.map_info.len(),
                s == self@,
                regions_wf(s),
                0 <= i <= n,
                addr >= base_address,
                !found ==> first_gap(s, base_address, size) == gap_walk(
                    s,
                    i as int,
                    addr as int,
                    size as int,
                ),
                found ==> first_gap(s, base_address, size) == addr,
                forall|j: int| 0 <= j < i ==> (#[trigger] s[j]).end <= addr,
                found ==> i < n && addr + size <= s[i as int].begin,
                forall|c: int| base_address <= c < addr ==> #[trigger] blocked(s, c, size as int),
            decreases n - i + (if found { 0int } else { 1int }),
        {
            let r = &self.map_info[i].info;
            assert(s[i as int].begin == r.begin && s[i as int].end == r.end);
            assert(region_ok(s[i as int]));
            if r.end <= addr {
                i += 1;
            } else if size as u64 <= r.begin && addr <= r.begin - size as u64 {
                found = true;
            } else {
                proof {
                    assert forall|c: int| base_address <= c < r.end implies #[trigger] blocked(
                        s,
                        c,
                        size as int,
                    ) by {
                        if c >= addr {
                            assert(c < s[i as int].end && s[i as int].begin < c + size);
                        }
                    }
                    assert forall|j: int| 0 <= j < i + 1 implies (#[trigger] s[j]).end <= r.end by {}
                }
                addr = r.end;
                i += 1;
            }
        }
        proof {
            assert forall|j: int| 0 <= j < s.len() implies !(addr < (#[trigger] s[j]).end
                && s[j].begin < addr + size) by {
                if found && j > i {
                    assert(s[i as int].end <= s[j].begin);
                }
            }
        }
        if addr > 0xffff_ffff || size as u64 > 0xffff_ffff - addr {
            return Err(EmulatorError::Memory(MemoryFault::OutOfMemory));
        }
        Ok(addr)
    }
}

/// The range of `size` bytes at `addr` lies inside mapped memory.
pub open spec fn range_mapped(s: Seq<RegionModel>, addr: u64, size: usize) -> bool {
    mapped_at(s, addr) && forall|a: u64| addr <= a && a - addr < size ==> mapped_at(s, a)
}

impl Machine {
    /// Size of a page of guest memory.
    pub fn pagesize(&self) -> (r: u64)
        ensures
            r == 4096,
    {
        4096
    }

    /// Maps `region` and tells the interpreter to do the same. A request that
    /// the region list refuses changes nothing.
    pub fn mem_map(&mut self, region: MemRegion, info: Option<String>) -> (r: Result<
        (),
        EmulatorError,
    >)
        requires
            old(self).wf(),
        ensures
            final(self).wf(),
            final(self).state.memory@ == old(self).state.memory@,
            final(self).regs@ == old(self).regs@,
            final(self).endian == old(self).endian,
            final(self).pointer_size == old(self).pointer_size,
            match map_fault(old(self).memories@, region) {
                Some(f) => r == Err::<(), EmulatorError>(EmulatorError::Memory(f))
                    && final(self).memories@ == old(self).memories@ && final(self).log() == old(
                    self,
                ).log(),
                None => r.is_ok() && final(self).log() == old(self).log().push(
                    EffectModel::MapRegion {
                        begin: region.begin,
                        end: region.end,
                        perms: region.perms,
                    },
                ) && final(self).memories@ == mapped_list(
                    old(self).memories@,
                    region,
                    label_or_default(info),
                ) && exists|k: int|
                    0 <= k <= old(self).memories@.len() && final(self).memories@ == old(
                        self,
                    ).memories@.insert(
                        k,
                        #[trigger] inserted(region, label_or_default(info), k),
                    ),
            },
    {
        match self.memories.mem_map(region, info) {
            Ok(()) => {
                self.emit(
                    Effect::MapRegion { begin: region.begin, end: region.end, perms: region.perms },
                );
                Ok(())
            },
            Err(e) => Err(e),
        }
    }

    /// Unmaps `[addr, addr + size)` and tells the interpreter to do the same.
    /// A request that the region list refuses changes nothing.
    pub fn mem_unmap(&mut self, addr: u64, size: usize) -> (r: Result<(), EmulatorError>)
        requires
            old(self).wf(),
        ensures
            final(self).wf(),
            final(self).state.memory@ == old(self).state.memory@,
            final(self).regs@ == old(self).regs@,
            final(self).endian == old(self).endian,
            final(self).pointer_size == old(self).pointer_size,
            match unmap_fault(addr, size) {
                Some(f) => r == Err::<(), EmulatorError>(EmulatorError::Memory(f))
                    && final(self).memories@ == old(self).memories@ && final(self).log() == old(
                    self,
                ).log(),
                None => r.is_ok() && final(self).memories@ == trim_all(
                    old(self).memories@,
                    addr,
                    (addr + size) as u64,
                ) && final(self).log() == old(self).log().push(EffectModel::Unmap { addr, size }),
            },
    {
        match self.memories.mem_unmap(addr, size) {
            Ok(()) => {
                self.emit(Effect::Unmap { addr, size });
                Ok(())
            },
            Err(e) => Err(e),
        }
    }

    /// Whether the range of `size` bytes at `addr` lies inside mapped memory.
    pub fn is_mapped(&self, addr: u64, size: usize) -> (r: bool)
        requires
            self.wf(),
        ensures
            r == range_mapped(self.memories@, addr, size),
    {
        self.memories.is_mapped(addr, size)
    }

    /// Chooses the address of a fresh mapping of `size` bytes: the first
    /// address at or above `base_address` at which `size` bytes meet no
    /// region. The request fails exactly when that range would end beyond the
    /// 32-bit address space.
    pub fn next_mmap_address(&self, base_address: u64, size: usize) -> (r: Result<
        u64,
        EmulatorError,
    >)
        requires
            self.wf(),
        ensures
            match r {
                Ok(a) => a as int == first_gap(self.memories@, base_address, size) && a + size
                    <= mmap_limit(),
                Err(e) => e == EmulatorError::Memory(MemoryFault::OutOfMemory) && first_gap(
                    self.memories@,
                    base_address,
                    size,
                ) + size > mmap_limit(),
            },
            first_gap(self.memories@, base_address, size) >= base_address,
            !blocked(self.memories@, first_gap(self.memories@, base_address, size), size as int),
            forall|c: int|
                base_address <= c < first_gap(self.memories@, base_address, size)
                    ==> #[trigger] blocked(self.memories@, c, size as int),
    {
        self.memories.next_mmap_address(base_address, size)
    }

    /// Asks the interpreter to change the access rights of a range. The region
    /// list keeps the rights it recorded at mapping time.
    pub fn mprotect(&mut self, addr: u64, size: usize, perm: Permission) -> (r: Result<
        (),
        EmulatorError,
    >)
        requires
            old(self).wf(),
        ensures
            final(self).wf(),
            r.is_ok(),
            final(self).same_memory(old(self)),
            final(self).regs@ == old(self).regs@,
            final(self).log() == old(self).log().push(
                EffectModel::Protect { addr, size, perms: perm },
            ),
    {
        self.emit(Effect::Protect { addr, size, perms: perm });
        Ok(())
    }

    /// Reads `len` bytes of guest memory at `addr`. The read fails when the
    /// range is not entirely mapped.
    pub fn read(&self, addr: u64, len: usize) -> (r: Result<Vec<u8>, EmulatorError>)
        requires
            self.wf(),
        ensures
            match r {
                Ok(v) => range_mapped(self.memories@, addr, len) && v@
                    == self.state.memory.read_spec(addr, len as nat),
                Err(e) => !range_mapped(self.memories@, addr, len) && e == EmulatorError::Memory(
                    MemoryFault::Unmapped,
                ),
            },
    {
        if !self.memories.is_mapped(addr, len) {
            return Err(EmulatorError::Memory(MemoryFault::Unmapped));
        }
        proof {
            lemma_mapped_range_fits(self.memories@, addr, len);
        }
        Ok(self.state.memory.read_bytes(addr, len))
    }

    /// Reads an integer of `pointersize` bytes, or of the machine's pointer
    /// size when none is given, in the guest's byte order.
    pub fn read_ptr(&self, address: u64, pointersize: Option<PointerSizeT>) -> (r: Result<
        u64,
        EmulatorError,
    >)
        requires
            self.wf(),
            pointersize matches Some(p) ==> p <= 8,
        ensures
            match r {
                Ok(v) => range_mapped(self.memories@, address, self.ptr_size(pointersize) as usize)
                    && v as nat == self.packer(pointersize).unpacked(
                    self.state.memory.read_spec(address, self.ptr_size(pointersize) as nat),
                ),
                Err(e) => !range_mapped(
                    self.memories@,
                    address,
                    self.ptr_size(pointersize) as usize,
                ) && e == EmulatorError::Memory(MemoryFault::Unmapped),
            },
    {
        let ps = match pointersize {
            Some(p) => p,
            None => self.pointer_size,
        };
        let data = self.read(address, ps as usize)?;
        let packer = Packer::new(self.endian, ps);
        Ok(packer.unpack(data))
    }

    /// The pointer size that a request with `pointersize` works with.
    pub open spec fn ptr_size(&self, pointersize: Option<PointerSizeT>) -> u8 {
        match pointersize {
            Some(p) => p,
            None => self.pointer_size,
        }
    }

    /// The packer that a request with `pointersize` works with.
    pub open spec fn packer(&self, pointersize: Option<PointerSizeT>) -> Packer {
        Packer { endian: self.endian, pointer_size: self.ptr_size(pointersize) as usize }
    }

    /// Writes `bytes` at `address`, in the shadow memory and, through the
    /// effect log, in the interpreter. The write fails, and nothing changes,
    /// when the range is not entirely mapped. An empty write always succeeds.
    pub fn write(&mut self, address: u64, bytes: &[u8]) -> (r: Result<(), EmulatorError>)
        requires
            old(self).wf(),
        ensures
            final(self).wf(),
            final(self).same_frame(old(self)),
            old(self).write_ok(address, bytes@) ==> r.is_ok() && is_write_of(
                old(self).state.memory,
                final(self).state.memory,
                address,
                bytes@,
            ) && final(self).log() == old(self).log().push(
                EffectModel::Write { addr: address, data: bytes@ },
            ),
            !old(self).write_ok(address, bytes@) ==> r == Err::<(), EmulatorError>(
                EmulatorError::Memory(MemoryFault::Unmapped),
            ) && final(self).state.memory@ == old(self).state.memory@ && final(self).log() == old(
                self,
            ).log(),
    {
        if bytes.len() > 0 && !self.memories.is_mapped(address, bytes.len()) {
            return Err(EmulatorError::Memory(MemoryFault::Unmapped));
        }
        proof {
            if bytes@.len() > 0 {
                lemma_mapped_range_fits(self.memories@, address, bytes@.len() as usize);
            }
        }
        if bytes.len() > 0 {
            self.state.memory.write_bytes(address, bytes);
        }
        let data = vstd::slice::slice_to_vec(bytes);
        assert(data@ == bytes@);
        let ghost mid = self.state.memory;
        assert(is_write_of(old(self).state.memory, mid, address, bytes@));
        self.emit(Effect::Write { addr: address, data });
        assert(self.state.memory@ == mid@);
        assert forall|a: u64|
            self.state.memory.byte_at(a) == if address <= a && a - address < bytes@.len() {
                bytes@[a - address]
            } else {
                old(self).state.memory.byte_at(a)
            } by {
            assert(self.state.memory.byte_at(a) == mid.byte_at(a));
        }
        Ok(())
    }

    /// A write of `bytes` at `address` is accepted.
    pub open spec fn write_ok(&self, address: u64, bytes: Seq<u8>) -> bool {
        bytes.len() == 0 || range_mapped(self.memories@, address, bytes.len() as usize)
    }

    /// Writes the low `pointersize` bytes of `value`, or as many as the
    /// machine's pointer size when none is given, in the guest's byte order.
    pub fn write_ptr(&mut self, address: u64, value: u64, pointersize: Option<PointerSizeT>) -> (r:
        Result<(), EmulatorError>)
        requires
            old(self).wf(),
            pointersize matches Some(p) ==> p <= 8,
        ensures
            final(self).wf(),
            final(self).same_frame(old(self)),
            old(self).write_ok(address, old(self).packer(pointersize).packed(value)) ==> r.is_ok()
                && is_write_of(
                old(self).state.memory,
                final(self).state.memory,
                address,
                old(self).packer(pointersize).packed(value),
            ) && final(self).log() == old(self).log().push(
                EffectModel::Write { addr: address, data: old(self).packer(pointersize).packed(value) },
            ),
            !old(self).write_ok(address, old(self).packer(pointersize).packed(value)) ==> r == Err::<
                (),
                EmulatorError,
            >(EmulatorError::Memory(MemoryFault::Unmapped)) && final(self).state.memory@ == old(
                self,
            ).state.memory@ && final(self).log() == old(self).log(),
    {
        let ps = match pointersize {
            Some(p) => p,
            None => self.pointer_size,
        };
        let packer = Packer::new(self.endian, ps);
        let data = packer.pack(value);
        self.write(address, data.as_slice())
    }
}

/// Non-empty regions of which each ends before the next begins are in order
/// as a whole.
pub proof fn lemma_chain_sorted(s: Seq<RegionModel>, a: int, b: int)
    requires
        0 <= a < b < s.len(),
        forall|j: int| 0 <= j < s.len() ==> region_ok(#[trigger] s[j]),
        forall|j: int| 0 < j < s.len() ==> (#[trigger] s[j - 1]).end <= s[j].begin,
    ensures
        s[a].end <= s[b].begin,
    decreases b - a,
{
    if a + 1 < b {
        lemma_chain_sorted(s, a, b - 1);
        assert(region_ok(s[b - 1]));
        assert(s[b - 1].end <= s[b].begin);
    } else {
        assert(s[b - 1].end <= s[b].begin);
    }
}

/// An address is mapped in two lists put together when it is mapped in one
/// of them.
pub proof fn lemma_mapped_concat(x: Seq<RegionModel>, y: Seq<RegionModel>, a: u64)
    ensures
        mapped_at(x + y, a) <==> mapped_at(x, a) || mapped_at(y, a),
{
    if mapped_at(x, a) {
        let i = choose|i: int| 0 <= i < x.len() && (#[trigger] x[i]).begin <= a < x[i].end;
        assert((x + y)[i] == x[i]);
    }
    if mapped_at(y, a) {
        let i = choose|i: int| 0 <= i < y.len() && (#[trigger] y[i]).begin <= a < y[i].end;
        assert((x + y)[x.len() + i] == y[i]);
    }
    if mapped_at(x + y, a) {
        let i = choose|i: int|
            0 <= i < (x + y).len() && (#[trigger] (x + y)[i]).begin <= a < (x + y)[i].end;
        if i < x.len() {
            assert(x[i] == (x + y)[i]);
        } else {
            assert(y[i - x.len()] == (x + y)[i]);
        }
    }
}

/// After `[b, e)` is cut out of a region list, exactly the addresses that
/// were mapped and lie outside `[b, e)` are mapped.
pub proof fn lemma_unmap_mapped(s: Seq<RegionModel>, b: u64, e: u64, a: u64)
    ensures
        mapped_at(trim_all(s, b, e), a) <==> mapped_at(s, a) && !(b <= a < e),
    decreases s.len(),
{
    if s.len() > 0 {
        let head = s.drop_last();
        let r = s.last();
        lemma_unmap_mapped(head, b, e, a);
        lemma_mapped_concat(trim_all(head, b, e), trim_one(r, b, e), a);
        assert(s =~= head + seq![r]);
        lemma_mapped_concat(head, seq![r], a);
        let t = trim_one(r, b, e);
        assert(mapped_at(seq![r], a) <==> r.begin <= a < r.end) by {
            if r.begin <= a < r.end {
                assert(seq![r][0] == r);
            }
        }
        assert(mapped_at(t, a) <==> r.begin <= a < r.end && !(b <= a < e)) by {
            if r.begin <= a < r.end && !(b <= a < e) {
                if b < e && r.begin < e && b < r.end {
                    if a < b {
                        assert(t[0] == (RegionModel { end: b, ..r }));
                    } else {
                        assert(t[t.len() - 1] == (RegionModel { begin: e, ..r }));
                    }
                } else {
                    assert(t[0] == r);
                }
            }
            if mapped_at(t, a) {
                let i = choose|i: int| 0 <= i < t.len() && (#[trigger] t[i]).begin <= a < t[i].end;
                assert(r.begin <= t[i].begin && t[i].end <= r.end);
            }
        }
    }
}

/// A non-empty range inside mapped memory ends within the address space.
pub proof fn lemma_mapped_range_fits(s: Seq<RegionModel>, addr: u64, size: usize)
    requires
        regions_wf(s),
        range_mapped(s, addr, size),
    ensures
        addr + size <= u64::MAX,
{
    if addr + size > u64::MAX {
        assert(addr <= u64::MAX && u64::MAX - addr < size);
        assert(mapped_at(s, u64::MAX));
    }
}

impl Default for MemoryManager {
    fn default() -> (m: MemoryManager)
        ensures
            m@ == Seq::<RegionModel>::empty(),
            m.wf(),
    {
        MemoryManager::new()
    }
}

/// The first position of `s`, from `i` on, whose region does not begin below
/// `begin`: the place at which a region that begins at `begin` is recorded.
pub open spec fn insert_pos(s: Seq<RegionModel>, begin: u64, i: int) -> int
    decreases s.len() - i,
{
    if i < 0 || i >= s.len() || s[i].begin >= begin {
        i
    } else {
        insert_pos(s, begin, i + 1)
    }
}

/// The region list `s` with `region` recorded under `label` at its place.
pub open spec fn mapped_list(s: Seq<RegionModel>, region: MemRegion, label: Seq<char>) -> Seq<
    RegionModel,
> {
    s.insert(
        insert_pos(s, region.begin, 0),
        RegionModel { begin: region.begin, end: region.end, perms: region.perms, label },
    )
}

/// The model of a region freshly recorded at position `k` of the list.
pub open spec fn inserted(region: MemRegion, label: Seq<char>, k: int) -> RegionModel {
    RegionModel { begin: region.begin, end: region.end, perms: region.perms, label }
}

/// The label a mapping gets: the one given, or `[mapped]`.
pub open spec fn label_or_default(info: Option<String>) -> Seq<char> {
    match info {
        Some(l) => l@,
        None => "[mapped]"@,
    }
}

} // verus!
