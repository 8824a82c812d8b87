//! The ELF loader: maps the loadable segments and builds the initial stack
//! with argv, envp and the auxiliary vector.

use crate::engine::{lemma_read_after_write, EffectModel, Machine};
use crate::stack::pushed_top;
use crate::errors::{EmulatorError, LoaderFault};
use crate::memory::MemRegion;
use crate::utils::{align, align_up, seg_perm_spec, seg_perm_to_uc_prot, Endian, Packer, Permission};
use vstd::prelude::*;
use vstd::string::StringSliceAdditionalSpecFns;

verus! {

/// Auxiliary vector types.
#[allow(non_camel_case_types)]
#[derive(Clone, Copy, Debug, PartialEq, Eq, Hash, Structural)]
pub enum AUXV {
    AT_NULL,
    AT_IGNORE,
    AT_EXECFD,
    AT_PHDR,
    AT_PHENT,
    AT_PHNUM,
    AT_PAGESZ,
    AT_BASE,
    AT_FLAGS,
    AT_ENTRY,
    AT_NOTELF,
    AT_UID,
    AT_EUID,
    AT_GID,
    AT_EGID,
    AT_PLATFORM,
    AT_HWCAP,
    AT_CLKTCK,
    AT_SECURE,
    AT_BASE_PLATFORM,
    AT_RANDOM,
    AT_HWCAP2,
    AT_EXECFN,
}

impl AUXV {
    /// The number that stands for the type in the auxiliary vector.
    pub open spec fn code_spec(self) -> u64 {
        match self {
            AUXV::AT_NULL => 0,
            AUXV::AT_IGNORE => 1,
            AUXV::AT_EXECFD => 2,
            AUXV::AT_PHDR => 3,
            AUXV::AT_PHENT => 4,
            AUXV::AT_PHNUM => 5,
            AUXV::AT_PAGESZ => 6,
            AUXV::AT_BASE => 7,
            AUXV::AT_FLAGS => 8,
            AUXV::AT_ENTRY => 9,
            AUXV::AT_NOTELF => 10,
            AUXV::AT_UID => 11,
            AUXV::AT_EUID => 12,
            AUXV::AT_GID => 13,
            AUXV::AT_EGID => 14,
            AUXV::AT_PLATFORM => 15,
            AUXV::AT_HWCAP => 16,
            AUXV::AT_CLKTCK => 17,
            AUXV::AT_SECURE => 23,
            AUXV::AT_BASE_PLATFORM => 24,
            AUXV::AT_RANDOM => 25,
            AUXV::AT_HWCAP2 => 26,
            AUXV::AT_EXECFN => 31,
        }
    }

    /// The number that stands for the type in the auxiliary vector.
    pub fn code(self) -> (r: u64)
        ensures
            r == self.code_spec(),
    {
        match self {
            AUXV::AT_NULL => 0,
            AUXV::AT_IGNORE => 1,
            AUXV::AT_EXECFD => 2,
            AUXV::AT_PHDR => 3,
            AUXV::AT_PHENT => 4,
            AUXV::AT_PHNUM => 5,
            AUXV::AT_PAGESZ => 6,
            AUXV::AT_BASE => 7,
            AUXV::AT_FLAGS => 8,
            AUXV::AT_ENTRY => 9,
            AUXV::AT_NOTELF => 10,
            AUXV::AT_UID => 11,
            AUXV::AT_EUID => 12,
            AUXV::AT_GID => 13,
            AUXV::AT_EGID => 14,
            AUXV::AT_PLATFORM => 15,
            AUXV::AT_HWCAP => 16,
            AUXV::AT_CLKTCK => 17,
            AUXV::AT_SECURE => 23,
            AUXV::AT_BASE_PLATFORM => 24,
            AUXV::AT_RANDOM => 25,
            AUXV::AT_HWCAP2 => 26,
            AUXV::AT_EXECFN => 31,
        }
    }
}

/// ELF file type of an executable.
pub const ET_EXEC: u16 = 2;

/// Program header type of a loadable segment.
pub const PT_LOAD: u32 = 1;

/// Where the loader places the stack, the image and anonymous mappings.
#[derive(Copy, Clone, Debug, PartialEq, Eq, Structural)]
pub struct Config {
    pub stack_address: u64,
    pub stack_size: u64,
    pub load_address: u64,
    pub mmap_address: u64,
}

/// What the loader found out about the image it loaded.
#[derive(Copy, Clone, Debug, PartialEq, Eq, Structural)]
pub struct LoadInfo {
    pub entrypoint: u64,
    pub elf_mem_start: u64,
    pub elf_entry: u64,
    pub brk_address: u64,
    pub mmap_address: u64,
    pub load_address: u64,
    pub init_stack_address: u64,
}

impl Default for LoadInfo {
    fn default() -> (i: LoadInfo)
        ensures
            i == (LoadInfo {
                entrypoint: 0,
                elf_mem_start: 0,
                elf_entry: 0,
                brk_address: 0,
                mmap_address: 0,
                load_address: 0,
                init_stack_address: 0,
            }),
    {
        LoadInfo {
            entrypoint: 0,
            elf_mem_start: 0,
            elf_entry: 0,
            brk_address: 0,
            mmap_address: 0,
            load_address: 0,
            init_stack_address: 0,
        }
    }
}

/// One program header of an ELF image.
#[derive(Copy, Clone, Debug, PartialEq, Eq, Structural)]
pub struct ProgramHeader {
    pub p_type: u32,
    pub p_flags: u32,
    pub p_offset: u64,
    pub p_vaddr: u64,
    pub p_filesz: u64,
    pub p_memsz: u64,
}

/// The header fields and program headers of an ELF image that the loader
/// reads.
#[derive(Debug)]
pub struct ElfImage {
    pub e_type: u16,
    pub e_entry: u64,
    pub e_phoff: u64,
    pub e_phentsize: u16,
    pub e_phnum: u16,
    pub segments: Vec<ProgramHeader>,
}

/// What an ELF image is, mathematically.
pub struct ElfImageModel {
    pub e_type: u16,
    pub e_entry: u64,
    pub e_phoff: u64,
    pub e_phentsize: u16,
    pub e_phnum: u16,
    pub segments: Seq<ProgramHeader>,
}

impl ElfImage {
    pub open spec fn view(&self) -> ElfImageModel {
        ElfImageModel {
            e_type: self.e_type,
            e_entry: self.e_entry,
            e_phoff: self.e_phoff,
            e_phentsize: self.e_phentsize,
            e_phnum: self.e_phnum,
            segments: self.segments@,
        }
    }
}

/// What `goblin::elf::Elf::parse` makes of the bytes of a file: the header
/// and program headers when it accepts them, nothing when it refuses them.
pub uninterp spec fn parsed_elf(binary: Seq<u8>) -> Option<ElfImageModel>;

/// `goblin::elf::Elf::parse` on `binary`, with the header fields and program
/// headers copied out of its result. The contract only names that result; any
/// parse error is reported as a malformed image.
#[verifier::external_body]
fn parse_elf(binary: &[u8]) -> (r: Result<ElfImage, LoaderFault>)
    ensures
        match r {
            Ok(img) => parsed_elf(binary@) == Some(img@),
            Err(e) => parsed_elf(binary@).is_none() && e == LoaderFault::Malformed,
        },
{
    let elf = match goblin::elf::Elf::parse(binary) {
        Ok(elf) => elf,
        Err(_) => return Err(LoaderFault::Malformed),
    };
    let h = &elf.header;
    let segments = elf
        .program_headers
        .iter()
        .map(|p| ProgramHeader { p_type: p.p_type, p_flags: p.p_flags, p_offset: p.p_offset, p_vaddr: p.p_vaddr, p_filesz: p.p_filesz, p_memsz: p.p_memsz })
        .collect();
    Ok(ElfImage { e_type: h.e_type, e_entry: h.e_entry, e_phoff: h.e_phoff, e_phentsize: h.e_phentsize, e_phnum: h.e_phnum, segments })
}

/// The page-aligned range and the access rights that a loadable segment asks
/// for, when the range lies in the 32-bit address space.
pub open spec fn segment_region(seg: ProgramHeader, load_address: u64) -> Option<MemRegion> {
    let lo = load_address + seg.p_vaddr;
    let hi = lo + seg.p_memsz;
    if hi <= 0xffff_f000 {
        Some(
            MemRegion {
                begin: crate::utils::align_down_spec(lo, 4096) as u64,
                end: crate::utils::align_up_spec(hi, 4096) as u64,
                perms: Permission { bits: seg_perm_spec(seg.p_flags) },
            },
        )
    } else {
        None
    }
}

/// The regions that the segments `segs`, taken in order, fold into: a segment
/// that starts where the previous region ends and has its access rights
/// extends that region; one that starts beyond it, or has other rights, opens
/// a new region; one that starts inside it is refused.
pub open spec fn fold_spec(segs: Seq<ProgramHeader>, load_address: u64) -> Result<
    Seq<MemRegion>,
    LoaderFault,
>
    decreases segs.len(),
{
    if segs.len() == 0 {
        Ok(Seq::empty())
    } else {
        match fold_spec(segs.drop_last(), load_address) {
            Err(e) => Err(e),
            Ok(prev) => match segment_region(segs.last(), load_address) {
                None => Err(LoaderFault::AddressOverflow),
                Some(r) => if prev.len() == 0 || r.begin > prev.last().end {
                    Ok(prev.push(r))
                } else if r.begin == prev.last().end {
                    if r.perms == prev.last().perms {
                        Ok(prev.update(prev.len() - 1, MemRegion { end: r.end, ..prev.last() }))
                    } else {
                        Ok(prev.push(r))
                    }
                } else {
                    Err(LoaderFault::SegmentIntersect)
                },
            },
        }
    }
}

/// The headers of `s` are in order of virtual address.
pub open spec fn sorted_by_vaddr(s: Seq<ProgramHeader>) -> bool {
    forall|i: int, j: int| 0 <= i < j < s.len() ==> (#[trigger] s[i]).p_vaddr <= (#[trigger] s[j]).p_vaddr
}

/// The loadable ones among the headers `s`, in their order.
pub open spec fn loadable(s: Seq<ProgramHeader>) -> Seq<ProgramHeader> {
    s.filter(|h: ProgramHeader| h.p_type == PT_LOAD)
}

/// The loadable program headers of an image in order of virtual address;
/// headers with the same address keep the order of the image.
pub fn load_segments(segments: &Vec<ProgramHeader>) -> (r: Vec<ProgramHeader>)
    ensures
        r@ == load_segments_spec(segments@),
        sorted_by_vaddr(r@),
        r@.to_multiset() == loadable(segments@).to_multiset(),
{
    let mut out: Vec<ProgramHeader> = Vec::new();
    let n = segments.len();
    let mut i: usize = 0;
    proof {
        assert(segments@.take(0) =~= Seq::<ProgramHeader>::empty());
        assert(loadable(Seq::<ProgramHeader>::empty()) =~= Seq::<ProgramHeader>::empty()) by {
            reveal(Seq::filter);
        }
    }
    while i < n
        invariant
            n == segments@.len(),
            0 <= i <= n,
            sorted_by_vaddr(out@),
            out@ == load_segments_spec(segments@.take(i as int)),
            out@.to_multiset() == loadable(segments@.take(i as int)).to_multiset(),
        decreases n - i,
    {
        let h = segments[i];
        proof {
            assert(segments@.take(i + 1).drop_last() =~= segments@.take(i as int));
            assert(segments@.take(i + 1).last() == h);
            reveal(Seq::filter);
        }
        if h.p_type == PT_LOAD {
            let mut k: usize = 0;
            while k < out.len() && out[k].p_vaddr <= h.p_vaddr
                invariant
                    0 <= k <= out@.len(),
                    forall|j: int| 0 <= j < k ==> (#[trigger] out@[j]).p_vaddr <= h.p_vaddr,
                decreases out@.len() - k,
            {
                k += 1;
            }
            let ghost before = out@;
            proof {
                lemma_insert_sorted(before, h, k as int);
            }
            out.insert(k, h);
            proof {
                assert(out@ =~= before.insert(k as int, h));
                let after = out@;
                after.to_multiset_ensures();
                assert(after.remove(k as int) =~= before);
                assert(after[k as int] == h);
                assert(after.contains(h));
                assert(after.to_multiset() =~= before.to_multiset().insert(h));
                let prefix = loadable(segments@.take(i as int));
                prefix.to_multiset_ensures();
                assert(loadable(segments@.take(i + 1)) == prefix.push(h));
                assert forall|a: int, b: int| 0 <= a < b < out@.len() implies (#[trigger] out@[a]).p_vaddr
                    <= (#[trigger] out@[b]).p_vaddr by {
                    let ba = if a < k { a } else { a - 1 };
                    let bb = if b < k { b } else { b - 1 };
                    if a != k {
                        assert(out@[a] == before[ba]);
                    }
                    if b != k {
                        assert(out@[b] == before[bb]);
                    }
                }
            }
        }
        i += 1;
    }
    assert(segments@.take(n as int) =~= segments@);
    out
}

/// Folds the loadable segments, given in order of virtual address, into the
/// regions to map.
pub fn fold_segments(segs: &Vec<ProgramHeader>, load_address: u64) -> (r: Result<
    Vec<MemRegion>,
    LoaderFault,
>)
    ensures
        match r {
            Ok(regions) => fold_spec(segs@, load_address) == Ok::<Seq<MemRegion>, LoaderFault>(
                regions@,
            ),
            Err(e) => fold_spec(segs@, load_address) == Err::<Seq<MemRegion>, LoaderFault>(e),
        },
{
    let mut regions: Vec<MemRegion> = Vec::new();
    let n = segs.len();
    let mut i: usize = 0;
    assert(segs@.take(0) =~= Seq::<ProgramHeader>::empty());
    while i < n
        invariant
            n == segs@.len(),
            0 <= i <= n,
            fold_spec(segs@.take(i as int), load_address) == Ok::<Seq<MemRegion>, LoaderFault>(
                regions@,
            ),
        decreases n - i,
    {
        let seg = segs[i];
        proof {
            assert(segs@.take(i + 1).drop_last() =~= segs@.take(i as int));
            assert(segs@.take(i + 1).last() == seg);
            lemma_fold_err_grows(segs@, load_address, i + 1);
        }
        let lo = match load_address.checked_add(seg.p_vaddr) {
            Some(v) => v,
            None => { return Err(LoaderFault::AddressOverflow); },
        };
        let hi = match lo.checked_add(seg.p_memsz) {
            Some(v) => v,
            None => { return Err(LoaderFault::AddressOverflow); },
        };
        if hi > 0xffff_f000 {
            return Err(LoaderFault::AddressOverflow);
        }
        assert(crate::utils::is_pow2(4096)) by (bit_vector);
        let lbound = align(lo, 4096);
        let ubound = align_up(hi, 4096);
        let perms = seg_perm_to_uc_prot(seg.p_flags);
        let region = MemRegion { begin: lbound, end: ubound, perms };
        assert(segment_region(seg, load_address) == Some(region));
        let m = regions.len();
        if m == 0 {
            regions.push(region);
        } else {
            let prev = regions[m - 1];
            if lbound > prev.end {
                regions.push(region);
            } else if lbound == prev.end {
                if perms.bits == prev.perms.bits {
                    regions.set(m - 1, MemRegion { begin: prev.begin, end: ubound, perms: prev.perms });
                } else {
                    regions.push(region);
                }
            } else {
                return Err(LoaderFault::SegmentIntersect);
            }
        }
        i += 1;
    }
    assert(segs@.take(n as int) =~= segs@);
    Ok(regions)
}

/// Once a prefix of the segments is refused, so is the whole list, for the
/// same reason.
pub proof fn lemma_fold_err_grows(segs: Seq<ProgramHeader>, load_address: u64, k: int)
    requires
        0 <= k <= segs.len(),
    ensures
        fold_spec(segs.take(k), load_address) matches Err(e) ==> fold_spec(segs, load_address)
            == Err::<Seq<MemRegion>, LoaderFault>(e),
    decreases segs.len() - k,
{
    if k < segs.len() {
        assert(segs.take(k + 1).drop_last() =~= segs.take(k));
        lemma_fold_err_grows(segs, load_address, k + 1);
    } else {
        assert(segs.take(k) =~= segs);
    }
}

/// The values of the auxiliary vector that depend on the image and on where
/// the loader put things.
#[derive(Copy, Clone, Debug, PartialEq, Eq, Structural)]
pub struct AuxInfo {
    pub hwcap: u64,
    pub phdr: u64,
    pub phent: u64,
    pub phnum: u64,
    pub entry: u64,
    pub random: u64,
    pub execfn: u64,
    pub platform: u64,
}

/// The hardware capability word for a pointer size and a byte order. The
/// value for 32-bit big-endian guests is not the byte-swapped little-endian
/// one, which has an implied leading zero byte; it is kept as it is.
pub open spec fn hwcap_spec(pointer_size: u8, endian: Endian) -> u64 {
    if pointer_size == 8 {
        0x078bfbfd
    } else if endian == Endian::Big {
        0xd7b81f
    } else {
        0x1fb8d7
    }
}

/// The hardware capability word for a pointer size of 4 or 8 bytes.
pub fn hwcap(pointer_size: u8, endian: Endian) -> (r: u64)
    requires
        pointer_size == 4 || pointer_size == 8,
    ensures
        r == hwcap_spec(pointer_size, endian),
{
    if pointer_size == 8 {
        0x078bfbfd
    } else {
        match endian {
            Endian::Big => 0xd7b81f,
            Endian::Little => 0x1fb8d7,
        }
    }
}

/// The auxiliary vector, terminated by `AT_NULL`.
pub open spec fn aux_entries_spec(a: AuxInfo) -> Seq<(AUXV, u64)> {
    seq![
        (AUXV::AT_HWCAP, a.hwcap),
        (AUXV::AT_PAGESZ, 4096u64),
        (AUXV::AT_CLKTCK, 100u64),
        (AUXV::AT_PHDR, a.phdr),
        (AUXV::AT_PHENT, a.phent),
        (AUXV::AT_PHNUM, a.phnum),
        (AUXV::AT_BASE, 0u64),
        (AUXV::AT_ENTRY, a.entry),
        (AUXV::AT_UID, 1000u64),
        (AUXV::AT_EUID, 1000u64),
        (AUXV::AT_GID, 1000u64),
        (AUXV::AT_EGID, 1000u64),
        (AUXV::AT_RANDOM, a.random),
        (AUXV::AT_EXECFN, a.execfn),
        (AUXV::AT_PLATFORM, a.platform),
        (AUXV::AT_NULL, 0u64),
    ]
}

/// The auxiliary vector, terminated by `AT_NULL`.
pub fn aux_entries(a: &AuxInfo) -> (r: Vec<(AUXV, u64)>)
    ensures
        r@ == aux_entries_spec(*a),
{
    let mut v: Vec<(AUXV, u64)> = Vec::new();
    v.push((AUXV::AT_HWCAP, a.hwcap));
    v.push((AUXV::AT_PAGESZ, 4096));
    v.push((AUXV::AT_CLKTCK, 100));
    v.push((AUXV::AT_PHDR, a.phdr));
    v.push((AUXV::AT_PHENT, a.phent));
    v.push((AUXV::AT_PHNUM, a.phnum));
    v.push((AUXV::AT_BASE, 0));
    v.push((AUXV::AT_ENTRY, a.entry));
    v.push((AUXV::AT_UID, 1000));
    v.push((AUXV::AT_EUID, 1000));
    v.push((AUXV::AT_GID, 1000));
    v.push((AUXV::AT_EGID, 1000));
    v.push((AUXV::AT_RANDOM, a.random));
    v.push((AUXV::AT_EXECFN, a.execfn));
    v.push((AUXV::AT_PLATFORM, a.platform));
    v.push((AUXV::AT_NULL, 0));
    assert(v@ =~= aux_entries_spec(*a));
    v
}

/// The type and the value of each entry of the auxiliary vector, in turn.
pub open spec fn aux_words(aux: Seq<(AUXV, u64)>) -> Seq<u64>
    decreases aux.len(),
{
    if aux.len() == 0 {
        Seq::empty()
    } else {
        aux_words(aux.drop_last()).push(aux.last().0.code_spec()).push(aux.last().1)
    }
}

/// The words of the initial stack table: the argument count, a pointer per
/// argument, a null word, a pointer per environment string, a null word, and
/// the auxiliary vector.
pub open spec fn table_words(argv_ptrs: Seq<u64>, env_ptrs: Seq<u64>, aux: Seq<(AUXV, u64)>) -> Seq<
    u64,
> {
    seq![argv_ptrs.len() as u64] + argv_ptrs + seq![0u64] + env_ptrs + seq![0u64] + aux_words(aux)
}

/// The bytes of `words`, each packed by `p`.
pub open spec fn pack_words(p: Packer, words: Seq<u64>) -> Seq<u8>
    decreases words.len(),
{
    if words.len() == 0 {
        Seq::empty()
    } else {
        pack_words(p, words.drop_last()) + p.packed(words.last())
    }
}

/// Assembles the initial stack table in the guest's byte order.
pub fn build_elf_table(
    packer: &Packer,
    argv_ptrs: &Vec<u64>,
    env_ptrs: &Vec<u64>,
    aux: &Vec<(AUXV, u64)>,
) -> (r: Vec<u8>)
    requires
        packer.pointer_size <= 8,
    ensures
        r@ == pack_words(*packer, table_words(argv_ptrs@, env_ptrs@, aux@)),
{
    let mut words: Vec<u64> = Vec::new();
    words.push(argv_ptrs.len() as u64);
    let mut i: usize = 0;
    while i < argv_ptrs.len()
        invariant
            0 <= i <= argv_ptrs@.len(),
            words@ == seq![argv_ptrs@.len() as u64] + argv_ptrs@.take(i as int),
        decreases argv_ptrs@.len() - i,
    {
        words.push(argv_ptrs[i]);
        assert(argv_ptrs@.take(i + 1) =~= argv_ptrs@.take(i as int).push(argv_ptrs@[i as int]));
        assert(words@ =~= seq![argv_ptrs@.len() as u64] + argv_ptrs@.take(i + 1));
        i += 1;
    }
    assert(argv_ptrs@.take(argv_ptrs@.len() as int) =~= argv_ptrs@);
    words.push(0);
    let ghost head = seq![argv_ptrs@.len() as u64] + argv_ptrs@ + seq![0u64];
    assert(words@ =~= head);
    i = 0;
    while i < env_ptrs.len()
        invariant
            0 <= i <= env_ptrs@.len(),
            words@ == head + env_ptrs@.take(i as int),
        decreases env_ptrs@.len() - i,
    {
        words.push(env_ptrs[i]);
        assert(env_ptrs@.take(i + 1) =~= env_ptrs@.take(i as int).push(env_ptrs@[i as int]));
        assert(words@ =~= head + env_ptrs@.take(i + 1));
        i += 1;
    }
    assert(env_ptrs@.take(env_ptrs@.len() as int) =~= env_ptrs@);
    words.push(0);
    let ghost head2 = head + env_ptrs@ + seq![0u64];
    assert(words@ =~= head2);
    i = 0;
    assert(aux@.take(0) =~= Seq::<(AUXV, u64)>::empty());
    while i < aux.len()
        invariant
            0 <= i <= aux@.len(),
            words@ == head2 + aux_words(aux@.take(i as int)),
        decreases aux@.len() - i,
    {
        let (k, v) = aux[i];
        words.push(k.code());
        words.push(v);
        proof {
            assert(aux@.take(i + 1).drop_last() =~= aux@.take(i as int));
            assert(aux@.take(i + 1).last() == aux@[i as int]);
            assert(words@ =~= head2 + aux_words(aux@.take(i + 1)));
        }
        i += 1;
    }
    assert(aux@.take(aux@.len() as int) =~= aux@);
    assert(words@ =~= table_words(argv_ptrs@, env_ptrs@, aux@));
    let mut out: Vec<u8> = Vec::new();
    i = 0;
    assert(words@.take(0) =~= Seq::<u64>::empty());
    while i < words.len()
        invariant
            0 <= i <= words@.len(),
            packer.pointer_size <= 8,
            out@ == pack_words(*packer, words@.take(i as int)),
        decreases words@.len() - i,
    {
        let mut b = packer.pack(words[i]);
        out.append(&mut b);
        proof {
            assert(words@.take(i + 1).drop_last() =~= words@.take(i as int));
            assert(words@.take(i + 1).last() == words@[i as int]);
        }
        i += 1;
    }
    assert(words@.take(words@.len() as int) =~= words@);
    out
}

/// Where the loader put the strings and the table of the initial stack.
#[derive(Debug)]
pub struct StackLayout {
    pub argv_ptrs: Vec<u64>,
    pub env_ptrs: Vec<u64>,
    pub aux: AuxInfo,
    pub table_address: u64,
}

impl StackLayout {
    /// The addresses of all that was pushed before the table, in the order of
    /// the pushes.
    pub open spec fn tops(&self) -> Seq<u64> {
        self.argv_ptrs@ + self.env_ptrs@ + seq![self.aux.execfn, self.aux.random, self.aux.platform]
    }

    /// The bytes of the table that this layout describes.
    pub open spec fn table(&self, packer: Packer) -> Seq<u8> {
        pack_words(packer, table_words(self.argv_ptrs@, self.env_ptrs@, aux_entries_spec(self.aux)))
    }
}

/// The bytes of the environment string `KEY=VALUE`.
pub open spec fn env_bytes(k: Seq<u8>, v: Seq<u8>) -> Seq<u8> {
    k.push(61u8) + v
}

/// The byte strings that the vectors of `v` hold.
pub open spec fn byte_views(v: Seq<Vec<u8>>) -> Seq<Seq<u8>> {
    v.map_values(|x: Vec<u8>| x@)
}

/// A string as it is pushed: its bytes and a terminating zero.
pub open spec fn str_item(s: Seq<char>) -> Seq<u8> {
    vstd::utf8::encode_utf8(s).push(0u8)
}

/// An environment string as it is pushed: `KEY=VALUE` and a terminating zero.
pub open spec fn env_item(k: Seq<char>, v: Seq<char>) -> Seq<u8> {
    env_bytes(vstd::utf8::encode_utf8(k), vstd::utf8::encode_utf8(v)).push(0u8)
}

/// The name of the program as it is pushed: the first argument, or `main`.
pub open spec fn exec_item(argv: Seq<String>) -> Seq<u8> {
    if argv.len() > 0 {
        str_item(argv[0]@)
    } else {
        str_item("main"@)
    }
}

/// The sixteen bytes that stand for random data.
pub open spec fn random_item() -> Seq<u8> {
    Seq::new(16, |i: int| 10u8)
}

/// All that is pushed before the table, in the order of the pushes: the
/// arguments, the environment strings, the name of the program, the random
/// bytes and the name of the platform.
pub open spec fn stack_items(argv: Seq<String>, envs: Seq<(String, String)>) -> Seq<Seq<u8>> {
    Seq::new(argv.len(), |i: int| str_item(argv[i]@)) + Seq::new(
        envs.len(),
        |i: int| env_item(envs[i].0@, envs[i].1@),
    ) + seq![exec_item(argv), random_item(), str_item("MIPS"@)]
}

/// The address at which `s` is pushed below `sp`, when there is room for it
/// in mapped memory.
pub open spec fn push_at(
    mem: Seq<crate::memory::RegionModel>,
    sp: u64,
    s: Seq<u8>,
    alignment: u64,
) -> Option<u64> {
    match crate::stack::pushed_top(sp, s.len() as int, alignment) {
        Some(top) => if s.len() == 0 || crate::memory::range_mapped(mem, top, s.len() as usize) {
            Some(top)
        } else {
            None
        },
        None => None,
    }
}

/// The stack pointer after the pushes that gave `tops`.
pub open spec fn sp_after(tops: Seq<u64>, sp: u64) -> u64 {
    if tops.len() == 0 {
        sp
    } else {
        tops.last()
    }
}

/// The addresses at which `items` are pushed one after the other below `sp`,
/// when there is room for all of them.
pub open spec fn push_tops(
    mem: Seq<crate::memory::RegionModel>,
    sp: u64,
    items: Seq<Seq<u8>>,
    alignment: u64,
) -> Option<Seq<u64>>
    decreases items.len(),
{
    if items.len() == 0 {
        Some(Seq::empty())
    } else {
        match push_tops(mem, sp, items.drop_last(), alignment) {
            None => None,
            Some(tops) => match push_at(mem, sp_after(tops, sp), items.last(), alignment) {
                Some(t) => Some(tops.push(t)),
                None => None,
            },
        }
    }
}

/// Once a prefix of the items finds no room, neither does the whole list.
pub proof fn lemma_push_tops_none(
    mem: Seq<crate::memory::RegionModel>,
    sp: u64,
    items: Seq<Seq<u8>>,
    alignment: u64,
    k: int,
)
    requires
        0 <= k <= items.len(),
        push_tops(mem, sp, items.take(k), alignment) is None,
    ensures
        push_tops(mem, sp, items, alignment) is None,
    decreases items.len() - k,
{
    if k < items.len() {
        assert(items.take(k + 1).drop_last() =~= items.take(k));
        lemma_push_tops_none(mem, sp, items, alignment, k + 1);
    } else {
        assert(items.take(k) =~= items);
    }
}

/// The byte at `a` after the first `k` of `items` were written at their
/// addresses in `tops`, one after the other, into the memory `m0`.
pub open spec fn pushed_byte(
    m0: crate::engine::MemoryState,
    tops: Seq<u64>,
    items: Seq<Seq<u8>>,
    k: int,
    a: u64,
) -> u8
    decreases k,
{
    if k <= 0 {
        m0.byte_at(a)
    } else if tops[k - 1] <= a && a - tops[k - 1] < items[k - 1].len() {
        items[k - 1][a - tops[k - 1]]
    } else {
        pushed_byte(m0, tops, items, k - 1, a)
    }
}

/// The byte after `k` pushes depends on the first `k` addresses only.
pub proof fn lemma_pushed_prefix(
    m0: crate::engine::MemoryState,
    t1: Seq<u64>,
    t2: Seq<u64>,
    items: Seq<Seq<u8>>,
    k: int,
    a: u64,
)
    requires
        forall|j: int| 0 <= j < k ==> t1[j] == t2[j],
    ensures
        pushed_byte(m0, t1, items, k, a) == pushed_byte(m0, t2, items, k, a),
    decreases k,
{
    if k > 0 {
        lemma_pushed_prefix(m0, t1, t2, items, k - 1, a);
    }
}

/// The effects of the first `k` pushes of `items` at their addresses in
/// `tops`: for each push the write and the move of the stack pointer.
pub open spec fn pushes_log(tops: Seq<u64>, items: Seq<Seq<u8>>, k: int) -> Seq<EffectModel>
    decreases k,
{
    if k <= 0 {
        Seq::empty()
    } else {
        pushes_log(tops, items, k - 1).push(
            EffectModel::Write { addr: tops[k - 1], data: items[k - 1] },
        ).push(EffectModel::RegWrite { reg: crate::registers::MIPS_REG_SP, value: tops[k - 1] })
    }
}

/// The effects of `k` pushes depend on the first `k` addresses only.
pub proof fn lemma_pushes_log_prefix(t1: Seq<u64>, t2: Seq<u64>, items: Seq<Seq<u8>>, k: int)
    requires
        forall|j: int| 0 <= j < k ==> t1[j] == t2[j],
    ensures
        pushes_log(t1, items, k) == pushes_log(t2, items, k),
    decreases k,
{
    if k > 0 {
        lemma_pushes_log_prefix(t1, t2, items, k - 1);
    }
}

/// The effects of building the initial stack: the pushes of `items`, then
/// the write of the table and the move of the stack pointer to it.
pub open spec fn stack_log(
    tops: Seq<u64>,
    items: Seq<Seq<u8>>,
    table_address: u64,
    table: Seq<u8>,
) -> Seq<EffectModel> {
    pushes_log(tops, items, items.len() as int).push(
        EffectModel::Write { addr: table_address, data: table },
    ).push(EffectModel::RegWrite { reg: crate::registers::MIPS_REG_SP, value: table_address })
}

/// The effects of mapping the first `k` of `regions`.
pub open spec fn regions_log(regions: Seq<MemRegion>, k: int) -> Seq<EffectModel>
    decreases k,
{
    if k <= 0 {
        Seq::empty()
    } else {
        regions_log(regions, k - 1).push(
            EffectModel::MapRegion {
                begin: regions[k - 1].begin,
                end: regions[k - 1].end,
                perms: regions[k - 1].perms,
            },
        )
    }
}

/// The effects of copying the file bytes of the first `k` of `segs`.
pub open spec fn segs_log(binary: Seq<u8>, segs: Seq<ProgramHeader>, load_address: u64, k: int) -> Seq<
    EffectModel,
>
    decreases k,
{
    if k <= 0 {
        Seq::empty()
    } else {
        segs_log(binary, segs, load_address, k - 1).push(
            EffectModel::Write {
                addr: (load_address + segs[k - 1].p_vaddr) as u64,
                data: binary.subrange(
                    segs[k - 1].p_offset as int,
                    segs[k - 1].p_offset + segs[k - 1].p_filesz,
                ),
            },
        )
    }
}

/// The byte at `a` of the initial stack: of the table, where `a` lies in it,
/// else as the pushes of `items` left it.
pub open spec fn stack_byte(
    m0: crate::engine::MemoryState,
    tops: Seq<u64>,
    items: Seq<Seq<u8>>,
    table_address: u64,
    table: Seq<u8>,
    a: u64,
) -> u8 {
    if table_address <= a && a - table_address < table.len() {
        table[a - table_address]
    } else {
        pushed_byte(m0, tops, items, items.len() as int, a)
    }
}

/// Each of `items` stands in memory at its address in `tops`.
pub open spec fn strings_stand(m: crate::engine::MemoryState, tops: Seq<u64>, items: Seq<Seq<u8>>) -> bool {
    &&& tops.len() == items.len()
    &&& forall|j: int|
        0 <= j < tops.len() ==> #[trigger] m.read_spec(tops[j], items[j].len()) == items[j]
    &&& forall|j: int| 0 <= j < tops.len() ==> (#[trigger] tops[j]) + items[j].len() <= u64::MAX
    &&& forall|j: int| 0 <= j < tops.len() ==> (#[trigger] tops[j]) >= tops.last()
}

/// The table for the pushes that gave `tops`: the first `n` of them are the
/// arguments, the next `m` the environment strings, the last three the name
/// of the program, the random bytes and the name of the platform.
pub open spec fn table_of_tops(
    pointer_size: u8,
    endian: Endian,
    image: ElfImageModel,
    info: LoadInfo,
    n: int,
    m: int,
    tops: Seq<u64>,
) -> Seq<u8> {
    pack_words(
        Packer { endian, pointer_size: pointer_size as usize },
        table_words(
            tops.take(n),
            tops.subrange(n, n + m),
            aux_entries_spec(
                AuxInfo {
                    hwcap: hwcap_spec(pointer_size, endian),
                    phdr: (image.e_phoff + info.elf_mem_start) as u64,
                    phent: image.e_phentsize as u64,
                    phnum: image.e_phnum as u64,
                    entry: info.elf_entry,
                    random: tops[n + m + 1],
                    execfn: tops[n + m],
                    platform: tops[n + m + 2],
                },
            ),
        ),
    )
}

/// Where the strings and the table of the initial stack come to lie, when
/// there is room for them in mapped memory below the stack pointer and the
/// program headers have an address.
pub open spec fn layout_spec(
    mem: Seq<crate::memory::RegionModel>,
    sp: u64,
    pointer_size: u8,
    endian: Endian,
    image: ElfImageModel,
    info: LoadInfo,
    argv: Seq<String>,
    envs: Seq<(String, String)>,
) -> Option<(Seq<u64>, u64)> {
    match push_tops(mem, sp, stack_items(argv, envs), pointer_size as u64) {
        None => None,
        Some(tops) => if image.e_phoff + info.elf_mem_start > u64::MAX {
            None
        } else {
            match push_at(
                mem,
                tops.last(),
                table_of_tops(
                    pointer_size,
                    endian,
                    image,
                    info,
                    argv.len() as int,
                    envs.len() as int,
                    tops,
                ),
                16,
            ) {
                Some(t) => Some((tops, t)),
                None => None,
            }
        },
    }
}

/// All that is pushed before the table, in the order of the pushes.
pub fn stack_strings(argv: &Vec<String>, envs: &Vec<(String, String)>) -> (r: Vec<Vec<u8>>)
    ensures
        byte_views(r@) == stack_items(argv@, envs@),
{
    let ghost all = stack_items(argv@, envs@);
    let n = argv.len();
    let m = envs.len();
    let mut out: Vec<Vec<u8>> = Vec::new();
    let mut i: usize = 0;
    assert(all.len() == n + m + 3);
    assert(byte_views(out@) =~= all.take(0));
    while i < n
        invariant
            0 <= i <= n,
            n == argv@.len(),
            m == envs@.len(),
            all == stack_items(argv@, envs@),
            all.len() == n + m + 3,
            byte_views(out@) == all.take(i as int),
        decreases n - i,
    {
        let mut b = vstd::slice::slice_to_vec(argv[i].as_str().as_bytes());
        b.push(0u8);
        assert(b@ == str_item(argv@[i as int]@));
        assert(all[i as int] == str_item(argv@[i as int]@));
        let ghost prev = byte_views(out@);
        out.push(b);
        assert(byte_views(out@) =~= prev.push(b@));
        assert(prev.push(b@) =~= all.take(i + 1));
        i += 1;
    }
    i = 0;
    while i < m
        invariant
            0 <= i <= m,
            n == argv@.len(),
            m == envs@.len(),
            all == stack_items(argv@, envs@),
            all.len() == n + m + 3,
            byte_views(out@) == all.take(n + i),
        decreases m - i,
    {
        let mut b = vstd::slice::slice_to_vec(envs[i].0.as_str().as_bytes());
        b.push(61u8);
        let mut v = vstd::slice::slice_to_vec(envs[i].1.as_str().as_bytes());
        b.append(&mut v);
        b.push(0u8);
        assert(b@ == env_item(envs@[i as int].0@, envs@[i as int].1@));
        assert(all[n + i] == env_item(envs@[i as int].0@, envs@[i as int].1@));
        let ghost prev = byte_views(out@);
        out.push(b);
        assert(byte_views(out@) =~= prev.push(b@));
        assert(prev.push(b@) =~= all.take(n + i + 1));
        i += 1;
    }
    let mut e = if n > 0 {
        vstd::slice::slice_to_vec(argv[0].as_str().as_bytes())
    } else {
        vstd::slice::slice_to_vec("main".as_bytes())
    };
    e.push(0u8);
    assert(e@ == exec_item(argv@));
    assert(all[n + m] == exec_item(argv@));
    let ghost prev_e = byte_views(out@);
    out.push(e);
    assert(byte_views(out@) =~= prev_e.push(all[n + m]));
    assert(prev_e.push(all[n + m]) =~= all.take(n + m + 1));
    let rand: [u8; 16] = [10u8; 16];
    let rv = vstd::slice::slice_to_vec(rand.as_slice());
    assert(rv@ =~= random_item());
    assert(all[n + m + 1] == random_item());
    let ghost prev_rv = byte_views(out@);
    out.push(rv);
    assert(byte_views(out@) =~= prev_rv.push(all[n + m + 1]));
    assert(prev_rv.push(all[n + m + 1]) =~= all.take(n + m + 2));
    let mut p = vstd::slice::slice_to_vec("MIPS".as_bytes());
    p.push(0u8);
    assert(p@ == str_item("MIPS"@));
    assert(all[n + m + 2] == str_item("MIPS"@));
    let ghost prev_p = byte_views(out@);
    out.push(p);
    assert(byte_views(out@) =~= prev_p.push(all[n + m + 2]));
    assert(prev_p.push(all[n + m + 2]) =~= all.take(n + m + 3));
    assert(all.take(n + m + 3) =~= all);
    out
}

/// Pushes `items` one after the other, each aligned to the pointer size, and
/// returns their addresses. It succeeds exactly when each finds room in
/// mapped memory below the stack pointer; every item then stands at its
/// address, and the stack pointer is at the last one.
pub fn push_items(uc: &mut Machine, items: &Vec<Vec<u8>>) -> (r: Result<Vec<u64>, EmulatorError>)
    requires
        old(uc).wf(),
    ensures
        final(uc).wf(),
        final(uc).memories@ == old(uc).memories@,
        final(uc).endian == old(uc).endian,
        final(uc).pointer_size == old(uc).pointer_size,
        match push_tops(
            old(uc).memories@,
            old(uc).sp_spec(),
            byte_views(items@),
            old(uc).pointer_size as u64,
        ) {
            Some(tops) => r matches Ok(v) && v@ == tops && final(uc).sp_spec() == sp_after(
                tops,
                old(uc).sp_spec(),
            ) && strings_stand(final(uc).state.memory, tops, byte_views(items@)),
            None => r is Err,
        },
        r matches Ok(v) ==> final(uc).regs@ == (if v@.len() == 0 {
            old(uc).regs@
        } else {
            old(uc).regs@.update(crate::registers::MIPS_REG_SP as int, v@.last())
        }),
        r matches Ok(v) ==> forall|a: u64|
            final(uc).state.memory.byte_at(a) == pushed_byte(
                old(uc).state.memory,
                v@,
                byte_views(items@),
                items@.len() as int,
                a,
            ),
        r matches Ok(v) ==> final(uc).log() == old(uc).log() + pushes_log(
            v@,
            byte_views(items@),
            items@.len() as int,
        ),
{
    let ghost log0 = uc.log();
    assert(log0 + Seq::<EffectModel>::empty() =~= log0);
    let ghost m0 = uc.state.memory;
    let ghost regs0 = uc.regs@;
    let ghost mem = uc.memories@;
    let ghost sp0 = uc.sp_spec();
    let ghost al = uc.pointer_size as u64;
    let ghost all = byte_views(items@);
    let n = items.len();
    let mut tops: Vec<u64> = Vec::new();
    let mut i: usize = 0;
    assert(all.take(0) =~= Seq::<Seq<u8>>::empty());
    while i < n
        invariant
            0 <= i <= n,
            n == items@.len(),
            all == byte_views(items@),
            uc.wf(),
            uc.memories@ == mem,
            mem == old(uc).memories@,
            sp0 == old(uc).sp_spec(),
            uc.endian == old(uc).endian,
            uc.pointer_size == old(uc).pointer_size,
            al == uc.pointer_size as u64,
            push_tops(mem, sp0, all.take(i as int), al) == Some(tops@),
            tops@.len() == i,
            uc.sp_spec() == sp_after(tops@, sp0),
            forall|j: int|
                0 <= j < i ==> (#[trigger] tops@[j]) >= uc.sp_spec() && tops@[j] + all[j].len()
                    <= u64::MAX,
            forall|j: int|
                0 <= j < i ==> #[trigger] uc.state.memory.read_spec(tops@[j], all[j].len())
                    == all[j],
            m0 == old(uc).state.memory,
            regs0 == old(uc).regs@,
            regs0.len() == crate::engine::REG_COUNT,
            uc.regs@ == (if i == 0 {
                regs0
            } else {
                regs0.update(crate::registers::MIPS_REG_SP as int, tops@.last())
            }),
            forall|a: u64| uc.state.memory.byte_at(a) == pushed_byte(m0, tops@, all, i as int, a),
            log0 == old(uc).log(),
            uc.log() == log0 + pushes_log(tops@, all, i as int),
        decreases n - i,
    {
        let ghost before = uc.state.memory;
        let ghost sp = uc.sp_spec();
        let ghost prev = tops@;
        proof {
            assert(all.take(i + 1).drop_last() =~= all.take(i as int));
            assert(all.take(i + 1).last() == all[i as int]);
            assert(all[i as int] == items@[i as int]@);
        }
        let a = match uc.aligned_push_bytes(items[i].as_slice(), None) {
            Ok(a) => a,
            Err(e) => {
                proof {
                    assert(push_at(mem, sp, all[i as int], al) is None);
                    assert(push_tops(mem, sp0, all.take(i + 1), al) is None);
                    lemma_push_tops_none(mem, sp0, all, al, i + 1);
                }
                return Err(e);
            },
        };
        tops.push(a);
        proof {
            lemma_pushes_log_prefix(prev, tops@, all, i as int);
            assert(uc.log() =~= log0 + pushes_log(tops@, all, i + 1));
            assert(uc.regs@ =~= regs0.update(crate::registers::MIPS_REG_SP as int, a));
            assert forall|x: u64|
                uc.state.memory.byte_at(x) == pushed_byte(m0, tops@, all, i + 1, x) by {
                lemma_pushed_prefix(m0, prev, tops@, all, i as int, x);
                assert(before.byte_at(x) == pushed_byte(m0, prev, all, i as int, x));
            }
            let len = all[i as int].len() as int;
            assert(pushed_top(sp, len, al) == Some(a));
            assert(len <= sp);
            vstd::arithmetic::div_mod::lemma_mod_pos_bound(sp - len, al as int);
            assert(0 <= (sp - len) % (al as int) < al);
            assert(crate::utils::align_down_spec(sp - len, al as int) <= sp - len);
            assert(crate::utils::align_down_spec(sp - len, al as int) >= 0) by {
                vstd::arithmetic::div_mod::lemma_fundamental_div_mod(sp - len, al as int);
                vstd::arithmetic::div_mod::lemma_div_pos_is_pos(sp - len, al as int);
                assert((al as int) * ((sp - len) / (al as int)) >= 0) by (nonlinear_arith)
                    requires
                        al as int > 0,
                        (sp - len) / (al as int) >= 0,
                ;
            }
            assert(a + len <= sp);
            assert forall|j: int| 0 <= j < i + 1 implies (#[trigger] tops@[j]) >= a && tops@[j]
                + all[j].len() <= u64::MAX by {
                if j < i {
                    assert(tops@[j] == prev[j]);
                }
            }
            assert(push_at(mem, sp, all[i as int], al) == Some(a));
            assert(push_tops(mem, sp0, all.take(i + 1), al) == Some(tops@));
            if all[i as int].len() > 0 {
                crate::memory::lemma_mapped_range_fits(mem, a, all[i as int].len() as usize);
            }
            lemma_read_after_write(before, uc.state.memory, a, all[i as int]);
            assert forall|j: int| 0 <= j < i + 1 implies #[trigger] uc.state.memory.read_spec(
                tops@[j],
                all[j].len(),
            ) == all[j] by {
                if j < i {
                    assert(tops@[j] == prev[j]);
                    crate::engine::lemma_write_frame(
                        before,
                        uc.state.memory,
                        a,
                        all[i as int],
                        tops@[j],
                        all[j].len(),
                    );
                }
            }
        }
        i += 1;
    }
    assert(all.take(n as int) =~= all);
    Ok(tops)
}

/// ELF binary loader.
pub struct ElfLoader {
    pub config: Config,
}

impl ElfLoader {
    /// Maps the regions that the loadable segments of `image` fold into and
    /// copies the file bytes of each segment to its address. Returns the
    /// lowest and the highest address of the image in memory.
    pub fn load_elf_segments(
        uc: &mut Machine,
        binary: &[u8],
        image: &ElfImage,
        load_address: u64,
    ) -> (r: Result<(u64, u64), EmulatorError>)
        requires
            old(uc).wf(),
        ensures
            final(uc).wf(),
            final(uc).regs@ == old(uc).regs@,
            final(uc).endian == old(uc).endian,
            final(uc).pointer_size == old(uc).pointer_size,
            fold_spec(load_segments_spec(image.segments@), load_address) matches Err(e) ==> r
                == Err::<(u64, u64), EmulatorError>(EmulatorError::Loader(e)),
            r matches Ok(span) ==> fold_spec(
                load_segments_spec(image.segments@),
                load_address,
            ) matches Ok(regions) && regions.len() > 0 && span.0 == regions[0].begin && span.1
                == regions.last().end,
            r is Ok ==> all_listed(
                final(uc).memories@,
                fold_spec(load_segments_spec(image.segments@), load_address).unwrap(),
            ),
            r is Ok <==> segments_loaded(
                old(uc).memories@,
                binary@.len() as int,
                image.segments@,
                load_address,
            ).is_some(),
            r is Ok ==> segments_loaded(
                old(uc).memories@,
                binary@.len() as int,
                image.segments@,
                load_address,
            ) == Some(final(uc).memories@),
            r is Ok ==> forall|a: u64|
                final(uc).state.memory.byte_at(a) == image_byte(
                    old(uc).state.memory,
                    binary@,
                    load_segments_spec(image.segments@),
                    load_address,
                    load_segments_spec(image.segments@).len() as int,
                    a,
                ),
            r is Ok ==> final(uc).log() == old(uc).log() + image_log(
                binary@,
                image.segments@,
                load_address,
            ),
    {
        let ghost log0 = uc.log();
        assert(log0 + Seq::<EffectModel>::empty() =~= log0);
        let ghost mem0 = uc.memories@;
        let ghost m0 = uc.state.memory;
        let segs = load_segments(&image.segments);
        let regions = match fold_segments(&segs, load_address) {
            Ok(r) => r,
            Err(e) => { return Err(EmulatorError::Loader(e)); },
        };
        let n = regions.len();
        if n == 0 {
            return Err(EmulatorError::Loader(LoaderFault::NoLoadableSegment));
        }
        let mut i: usize = 0;
        while i < n
            invariant
                n == regions@.len(),
                0 <= i <= n,
                fold_spec(load_segments_spec(image.segments@), load_address) == Ok::<
                    Seq<MemRegion>,
                    LoaderFault,
                >(regions@),
                forall|j: int| 0 <= j < i ==> region_listed(uc.memories@, #[trigger] regions@[j]),
                uc.wf(),
                uc.regs@ == old(uc).regs@,
                uc.endian == old(uc).endian,
                uc.pointer_size == old(uc).pointer_size,
                mem0 == old(uc).memories@,
                segs@ == load_segments_spec(image.segments@),
                n > 0,
                map_regions(mem0, regions@.take(i as int)) == Some(uc.memories@),
                uc.state.memory@ == old(uc).state.memory@,
                log0 == old(uc).log(),
                uc.log() == log0 + regions_log(regions@, i as int),
            decreases n - i,
        {
            let ghost before = uc.memories@;
            proof {
                assert(regions@.take(i + 1).drop_last() =~= regions@.take(i as int));
                assert(regions@.take(i + 1).last() == regions@[i as int]);
            }
            match uc.mem_map(regions[i], None) {
                Ok(()) => {},
                Err(e) => {
                    proof {
                        assert(map_regions(mem0, regions@.take(i + 1)) is None);
                        lemma_map_regions_none(mem0, regions@, i + 1);
                    }
                    return Err(e);
                },
            }
            proof {
                assert(uc.log() =~= log0 + regions_log(regions@, i + 1));
                assert(map_regions(mem0, regions@.take(i + 1)) == Some(uc.memories@));
                let after = uc.memories@;
                let k = choose|k: int|
                    0 <= k <= before.len() && after == before.insert(
                        k,
                        #[trigger] crate::memory::inserted(
                            regions@[i as int],
                            crate::memory::label_or_default(None),
                            k,
                        ),
                    );
                assert(after[k].begin == regions@[i as int].begin);
                assert(region_listed(after, regions@[i as int]));
                assert forall|j: int| 0 <= j < i implies region_listed(
                    after,
                    #[trigger] regions@[j],
                ) by {
                    let q = choose|q: int|
                        0 <= q < before.len() && (#[trigger] before[q]).begin == regions@[j].begin
                            && before[q].end == regions@[j].end && before[q].perms
                            == regions@[j].perms;
                    if q < k {
                        assert(after[q] == before[q]);
                    } else {
                        assert(after[q + 1] == before[q]);
                    }
                }
            }
            i += 1;
        }
        let m = segs.len();
        i = 0;
        assert(regions@.take(n as int) =~= regions@);
        let ghost mem = uc.memories@;
        let ghost log1 = uc.log();
        assert(log1 + Seq::<EffectModel>::empty() =~= log1);
        while i < m
            invariant
                m == segs@.len(),
                0 <= i <= m,
                n == regions@.len(),
                n > 0,
                mem0 == old(uc).memories@,
                segs@ == load_segments_spec(image.segments@),
                map_regions(mem0, regions@) == Some(mem),
                uc.memories@ == mem,
                m0 == old(uc).state.memory,
                log0 == old(uc).log(),
                log1 == log0 + regions_log(regions@, n as int),
                uc.log() == log1 + segs_log(binary@, segs@, load_address, i as int),
                forall|a: u64|
                    uc.state.memory.byte_at(a) == image_byte(
                        m0,
                        binary@,
                        segs@,
                        load_address,
                        i as int,
                        a,
                    ),
                forall|j: int|
                    0 <= j < i ==> segment_fits(mem, binary@.len() as int, #[trigger] segs@[j], load_address),
                fold_spec(load_segments_spec(image.segments@), load_address) == Ok::<
                    Seq<MemRegion>,
                    LoaderFault,
                >(regions@),
                forall|j: int| 0 <= j < n ==> region_listed(uc.memories@, #[trigger] regions@[j]),
                uc.wf(),
                uc.regs@ == old(uc).regs@,
                uc.endian == old(uc).endian,
                uc.pointer_size == old(uc).pointer_size,
            decreases m - i,
        {
            let seg = segs[i];
            let end = match seg.p_offset.checked_add(seg.p_filesz) {
                Some(e) => e,
                None => {
                    assert(!segment_fits(mem, binary@.len() as int, segs@[i as int], load_address));
                    return Err(EmulatorError::Loader(LoaderFault::Malformed));
                },
            };
            if end > binary.len() as u64 {
                assert(!segment_fits(mem, binary@.len() as int, segs@[i as int], load_address));
                return Err(EmulatorError::Loader(LoaderFault::Malformed));
            }
            let data = vstd::slice::slice_subrange(binary, seg.p_offset as usize, end as usize);
            let addr = match load_address.checked_add(seg.p_vaddr) {
                Some(a) => a,
                None => {
                    assert(!segment_fits(mem, binary@.len() as int, segs@[i as int], load_address));
                    return Err(EmulatorError::Loader(LoaderFault::AddressOverflow));
                },
            };
            let ghost before = uc.state.memory;
            match uc.write(addr, data) {
                Ok(()) => {},
                Err(e) => {
                    assert(!segment_fits(mem, binary@.len() as int, segs@[i as int], load_address));
                    return Err(e);
                },
            }
            proof {
                assert(data@ == binary@.subrange(seg.p_offset as int, end as int));
                assert(uc.log() =~= log1 + segs_log(binary@, segs@, load_address, i + 1));
                assert forall|a: u64|
                    uc.state.memory.byte_at(a) == image_byte(
                        m0,
                        binary@,
                        segs@,
                        load_address,
                        i + 1,
                        a,
                    ) by {
                    assert(before.byte_at(a) == image_byte(
                        m0,
                        binary@,
                        segs@,
                        load_address,
                        i as int,
                        a,
                    ));
                }
            }
            assert(segment_fits(mem, binary@.len() as int, segs@[i as int], load_address));
            i += 1;
        }
        proof {
            assert(uc.log() =~= old(uc).log() + image_log(binary@, image.segments@, load_address));
        }
        Ok((regions[0].begin, regions[n - 1].end))
    }

    /// Pushes the argument and environment strings, the random bytes and the
    /// platform string, then the table that points at them, aligned to 16
    /// bytes. It succeeds exactly when every push finds room in mapped memory
    /// below the stack pointer and the address of the program headers is an
    /// address; the stack pointer is then at the table, and every string
    /// stands where its pointer says.
    pub fn load_elf_table(
        uc: &mut Machine,
        image: &ElfImage,
        load_result: &LoadInfo,
        argv: &Vec<String>,
        envs: &Vec<(String, String)>,
    ) -> (r: Result<StackLayout, EmulatorError>)
        requires
            old(uc).wf(),
        ensures
            final(uc).wf(),
            final(uc).memories@ == old(uc).memories@,
            final(uc).endian == old(uc).endian,
            final(uc).pointer_size == old(uc).pointer_size,
            r is Ok <==> layout_spec(
                old(uc).memories@,
                old(uc).sp_spec(),
                old(uc).pointer_size,
                old(uc).endian,
                image@,
                *load_result,
                argv@,
                envs@,
            ).is_some(),
            r matches Ok(l) ==> layout_spec(
                old(uc).memories@,
                old(uc).sp_spec(),
                old(uc).pointer_size,
                old(uc).endian,
                image@,
                *load_result,
                argv@,
                envs@,
            ) == Some((l.tops(), l.table_address)),
            r matches Ok(l) ==> strings_stand(
                final(uc).state.memory,
                l.tops(),
                stack_items(argv@, envs@),
            ),
            r matches Ok(l) ==> final(uc).regs@ == old(uc).regs@.update(
                crate::registers::MIPS_REG_SP as int,
                l.table_address,
            ),
            r matches Ok(l) ==> final(uc).log() == old(uc).log() + stack_log(
                l.tops(),
                stack_items(argv@, envs@),
                l.table_address,
                l.table(old(uc).packer(None)),
            ),
            r matches Ok(l) ==> l.table(old(uc).packer(None)) == table_of_tops(
                old(uc).pointer_size,
                old(uc).endian,
                image@,
                *load_result,
                argv@.len() as int,
                envs@.len() as int,
                l.tops(),
            ),
            r matches Ok(l) ==> forall|a: u64|
                final(uc).state.memory.byte_at(a) == stack_byte(
                    old(uc).state.memory,
                    l.tops(),
                    stack_items(argv@, envs@),
                    l.table_address,
                    l.table(old(uc).packer(None)),
                    a,
                ),
            r matches Ok(l) ==> {
                &&& l.argv_ptrs@.len() == argv@.len()
                &&& l.env_ptrs@.len() == envs@.len()
                &&& l.table_address == final(uc).sp_spec()
                &&& l.table_address % 16 == 0
                &&& l.aux.hwcap == hwcap_spec(old(uc).pointer_size, old(uc).endian)
                &&& l.aux.phdr as int == image.e_phoff + load_result.elf_mem_start
                &&& l.aux.phent == image.e_phentsize
                &&& l.aux.phnum == image.e_phnum
                &&& l.aux.entry == load_result.elf_entry
                &&& final(uc).state.memory.read_spec(
                    l.table_address,
                    l.table(old(uc).packer(None)).len(),
                ) == l.table(old(uc).packer(None))
            },
    {
        let packer = Packer::new(uc.endian, uc.pointer_size);
        let items = stack_strings(argv, envs);
        let ghost all = stack_items(argv@, envs@);
        let tops = push_items(uc, &items)?;
        let n = argv.len();
        let m = envs.len();
        assert(all.len() == n + m + 3);
        assert(tops@.len() == n + m + 3);
        let total = tops.len();
        assert(total == n + m + 3);
        let mut argv_ptrs: Vec<u64> = Vec::new();
        let mut i: usize = 0;
        while i < n
            invariant
                0 <= i <= n,
                n + m + 3 <= usize::MAX,
                tops@.len() == n + m + 3,
                argv_ptrs@ == tops@.take(i as int),
            decreases n - i,
        {
            argv_ptrs.push(tops[i]);
            assert(argv_ptrs@ =~= tops@.take(i + 1));
            i += 1;
        }
        let mut env_ptrs: Vec<u64> = Vec::new();
        i = 0;
        while i < m
            invariant
                0 <= i <= m,
                n + m + 3 <= usize::MAX,
                tops@.len() == n + m + 3,
                env_ptrs@ == tops@.subrange(n as int, n + i),
            decreases m - i,
        {
            env_ptrs.push(tops[n + i]);
            assert(env_ptrs@ =~= tops@.subrange(n as int, n + i + 1));
            i += 1;
        }
        let execfn = tops[n + m];
        let random = tops[n + m + 1];
        let platform = tops[n + m + 2];
        let phdr = match image.e_phoff.checked_add(load_result.elf_mem_start) {
            Some(p) => p,
            None => { return Err(EmulatorError::Loader(LoaderFault::AddressOverflow)); },
        };
        let aux = AuxInfo {
            hwcap: hwcap(uc.pointer_size, uc.endian),
            phdr,
            phent: image.e_phentsize as u64,
            phnum: image.e_phnum as u64,
            entry: load_result.elf_entry,
            random,
            execfn,
            platform,
        };
        let entries = aux_entries(&aux);
        let table = build_elf_table(&packer, &argv_ptrs, &env_ptrs, &entries);
        assert(crate::utils::is_pow2(16)) by (bit_vector);
        let ghost before = uc.state.memory;
        let ghost sp_before = uc.sp_spec();
        proof {
            assert(table@ == table_of_tops(
                old(uc).pointer_size,
                old(uc).endian,
                image@,
                *load_result,
                n as int,
                m as int,
                tops@,
            ));
            assert(tops@.last() == sp_before);
        }
        let table_address = uc.aligned_push_bytes(table.as_slice(), Some(0x10))?;
        let l = StackLayout { argv_ptrs, env_ptrs, aux, table_address };
        proof {
            if table@.len() > 0 {
                crate::memory::lemma_mapped_range_fits(
                    uc.memories@,
                    table_address,
                    table@.len() as usize,
                );
            }
            lemma_read_after_write(before, uc.state.memory, table_address, table@);
            assert(l.tops() =~= tops@);
            assert(uc.regs@ =~= old(uc).regs@.update(
                crate::registers::MIPS_REG_SP as int,
                table_address,
            ));
            assert(table@ == l.table(old(uc).packer(None)));
            assert(uc.log() =~= old(uc).log() + stack_log(l.tops(), all, table_address, table@));
            assert forall|a: u64|
                uc.state.memory.byte_at(a) == stack_byte(
                    old(uc).state.memory,
                    l.tops(),
                    all,
                    table_address,
                    table@,
                    a,
                ) by {
                assert(before.byte_at(a) == pushed_byte(
                    old(uc).state.memory,
                    tops@,
                    all,
                    all.len() as int,
                    a,
                ));
            }
            vstd::arithmetic::div_mod::lemma_mod_pos_bound(sp_before - table@.len(), 16);
            assert(table_address + table@.len() <= sp_before);
            assert forall|j: int| 0 <= j < tops@.len() implies #[trigger] uc.state.memory.read_spec(
                tops@[j],
                all[j].len(),
            ) == all[j] by {
                crate::engine::lemma_write_frame(
                    before,
                    uc.state.memory,
                    table_address,
                    table@,
                    tops@[j],
                    all[j].len(),
                );
            }
        }
        Ok(l)
    }

    /// Loads the image `image`, which was parsed from `binary`. An image that
    /// is not an executable is refused before anything is touched. Else the
    /// stack is mapped, the segments are mapped and filled, and the initial
    /// stack is built, all of it logged for the interpreter. It succeeds
    /// exactly when the image is an executable whose segments fit, the stack
    /// and every region can be mapped, and the initial stack finds room; the
    /// result then tells where things are.
    pub fn load_image(
        config: &Config,
        binary: &[u8],
        image: &ElfImage,
        argv: &Vec<String>,
        envs: &Vec<(String, String)>,
        uc: &mut Machine,
    ) -> (r: Result<LoadInfo, EmulatorError>)
        requires
            old(uc).wf(),
        ensures
            final(uc).wf(),
            final(uc).endian == old(uc).endian,
            final(uc).pointer_size == old(uc).pointer_size,
            load_outcome(
                r,
                load_spec(old(uc), config, binary@.len() as int, image@, argv@, envs@),
            ),
            r is Ok ==> loaded(old(uc), final(uc), config, binary@, image@, argv@, envs@),
            image.e_type != ET_EXEC ==> r == Err::<LoadInfo, EmulatorError>(
                EmulatorError::Loader(LoaderFault::NotExecutable),
            ) && final(uc).memories@ == old(uc).memories@ && final(uc).state.memory@ == old(
                uc,
            ).state.memory@ && final(uc).regs@ == old(uc).regs@ && final(uc).log() == old(
                uc,
            ).log(),
            image.e_type == ET_EXEC && config.stack_address + config.stack_size > u64::MAX ==> r
                == Err::<LoadInfo, EmulatorError>(
                EmulatorError::Loader(LoaderFault::AddressOverflow),
            ) && final(uc).memories@ == old(uc).memories@ && final(uc).log() == old(uc).log(),
            r is Ok ==> image.e_type == ET_EXEC,
            r matches Ok(info) ==> {
                &&& info.load_address == 0
                &&& info.entrypoint == image.e_entry
                &&& info.elf_entry == image.e_entry
                &&& info.mmap_address == config.mmap_address
                &&& info.init_stack_address == old(uc).sp_spec()
                &&& fold_spec(load_segments_spec(image.segments@), 0) matches Ok(regions)
                    && regions.len() > 0 && info.elf_mem_start == regions[0].begin
                    && info.brk_address == regions.last().end + 0x2000
                &&& final(uc).sp_spec() % 16 == 0
            },
    {
        if image.e_type != ET_EXEC {
            return Err(EmulatorError::Loader(LoaderFault::NotExecutable));
        }
        let stack_address = config.stack_address;
        let stack_size = config.stack_size;
        let stack_end = match stack_address.checked_add(stack_size) {
            Some(e) => e,
            None => { return Err(EmulatorError::Loader(LoaderFault::AddressOverflow)); },
        };
        uc.mem_map(
            MemRegion { begin: stack_address, end: stack_end, perms: Permission::all() },
            Some("[stack]".to_owned()),
        )?;
        let load_address: u64 = 0;
        let ghost m1 = uc.state.memory;
        let (mem_start, mem_end) = Self::load_elf_segments(uc, binary, image, load_address)?;
        let ghost m2 = uc.state.memory;
        let brk_address = match mem_end.checked_add(0x2000) {
            Some(b) => b,
            None => { return Err(EmulatorError::Loader(LoaderFault::AddressOverflow)); },
        };
        let init_stack_address = uc.regs[crate::registers::MIPS_REG_SP as usize];
        let load_result = LoadInfo {
            entrypoint: image.e_entry,
            elf_mem_start: mem_start,
            elf_entry: image.e_entry,
            brk_address,
            mmap_address: config.mmap_address,
            load_address,
            init_stack_address,
        };
        let ghost regs0 = uc.regs@;
        let ghost log_segments = uc.log();
        let _ = uc.set_sp(stack_end);
        let ghost mid = uc.state.memory;
        let l = Self::load_elf_table(uc, image, &load_result, argv, envs)?;
        proof {
            assert(uc.log() =~= old(uc).log().push(
                EffectModel::MapRegion {
                    begin: config.stack_address,
                    end: stack_end,
                    perms: Permission { bits: 7 },
                },
            ) + image_log(binary@, image.segments@, 0) + seq![
                EffectModel::RegWrite { reg: crate::registers::MIPS_REG_SP, value: stack_end },
            ] + stack_log(
                l.tops(),
                stack_items(argv@, envs@),
                l.table_address,
                l.table(old(uc).packer(None)),
            ));
            let sorted = load_segments_spec(image.segments@);
            let items = stack_items(argv@, envs@);
            let table = l.table(old(uc).packer(None));
            assert(uc.regs@ =~= old(uc).regs@.update(
                crate::registers::MIPS_REG_SP as int,
                l.table_address,
            ));
            assert forall|a: u64|
                uc.state.memory.byte_at(a) == loaded_byte(
                    old(uc).state.memory,
                    binary@,
                    sorted,
                    l.tops(),
                    items,
                    l.table_address,
                    table,
                    a,
                ) by {
                assert forall|x: u64|
                    mid.byte_at(x) == image_byte(
                        old(uc).state.memory,
                        binary@,
                        sorted,
                        0,
                        sorted.len() as int,
                        x,
                    ) by {
                    assert(mid.byte_at(x) == m2.byte_at(x));
                    lemma_image_base(
                        m1,
                        old(uc).state.memory,
                        binary@,
                        sorted,
                        sorted.len() as int,
                        x,
                    );
                }
                lemma_pushed_over_image(
                    mid,
                    old(uc).state.memory,
                    binary@,
                    sorted,
                    l.tops(),
                    items,
                    items.len() as int,
                    a,
                );
            }
        }
        Ok(load_result)
    }

    /// Parses `binary` as an ELF image and loads it. What the parser makes of
    /// the bytes decides whether and what is loaded: bytes that it refuses are
    /// refused and change nothing, and an image that it accepts is loaded as
    /// `load_image` loads it.
    pub fn load(
        config: &Config,
        binary: &[u8],
        argv: &Vec<String>,
        envs: &Vec<(String, String)>,
        uc: &mut Machine,
    ) -> (r: Result<LoadInfo, EmulatorError>)
        requires
            old(uc).wf(),
        ensures
            final(uc).wf(),
            final(uc).endian == old(uc).endian,
            final(uc).pointer_size == old(uc).pointer_size,
            match parsed_elf(binary@) {
                Some(img) => load_outcome(
                    r,
                    load_spec(old(uc), config, binary@.len() as int, img, argv@, envs@),
                ) && (r is Ok ==> loaded(old(uc), final(uc), config, binary@, img, argv@, envs@)),
                None => r == Err::<LoadInfo, EmulatorError>(
                    EmulatorError::Loader(LoaderFault::Malformed),
                ) && final(uc).memories@ == old(uc).memories@ && final(uc).state.memory@ == old(
                    uc,
                ).state.memory@ && final(uc).log() == old(uc).log(),
            },
            r matches Ok(info) ==> parsed_elf(binary@) matches Some(img) && img.e_type == ET_EXEC
                && info.entrypoint == img.e_entry && info.mmap_address == config.mmap_address,
    {
        let image = match parse_elf(binary) {
            Ok(i) => i,
            Err(e) => { return Err(EmulatorError::Loader(e)); },
        };
        Self::load_image(config, binary, &image, argv, envs, uc)
    }
}

/// The region of the stack.
pub open spec fn stack_region(config: &Config) -> MemRegion {
    MemRegion {
        begin: config.stack_address,
        end: (config.stack_address + config.stack_size) as u64,
        perms: Permission { bits: 7 },
    }
}

/// What loading tells of an image whose segments folded into `regions`.
pub open spec fn image_info(
    config: &Config,
    image: ElfImageModel,
    regions: Seq<MemRegion>,
    init_sp: u64,
) -> LoadInfo {
    LoadInfo {
        entrypoint: image.e_entry,
        elf_mem_start: regions[0].begin,
        elf_entry: image.e_entry,
        brk_address: (regions.last().end + 0x2000) as u64,
        mmap_address: config.mmap_address,
        load_address: 0,
        init_stack_address: init_sp,
    }
}

/// What loading the image `image` of a file of `binary_len` bytes into the
/// machine `uc` gives, when it succeeds: the image is an executable, the
/// stack can be mapped, the segments load, and the initial stack finds room
/// below the end of the stack.
pub open spec fn load_spec(
    uc: &Machine,
    config: &Config,
    binary_len: int,
    image: ElfImageModel,
    argv: Seq<String>,
    envs: Seq<(String, String)>,
) -> Option<LoadInfo> {
    if image.e_type != ET_EXEC {
        None
    } else if config.stack_address + config.stack_size > u64::MAX {
        None
    } else if crate::memory::map_fault(uc.memories@, stack_region(config)).is_some() {
        None
    } else {
        let stacked = crate::memory::mapped_list(uc.memories@, stack_region(config), "[stack]"@);
        match segments_loaded(stacked, binary_len, image.segments, 0) {
            None => None,
            Some(mem) => {
                let regions = fold_spec(load_segments_spec(image.segments), 0).unwrap();
                let info = image_info(config, image, regions, uc.sp_spec());
                if regions.last().end + 0x2000 > u64::MAX {
                    None
                } else if layout_spec(
                    mem,
                    (config.stack_address + config.stack_size) as u64,
                    uc.pointer_size,
                    uc.endian,
                    image,
                    info,
                    argv,
                    envs,
                ).is_some() {
                    Some(info)
                } else {
                    None
                }
            },
        }
    }
}

/// The byte at `a` after the segments were copied and the first `k` of
/// `items` were pushed.
pub open spec fn pushed_image_byte(
    m0: crate::engine::MemoryState,
    binary: Seq<u8>,
    segs: Seq<ProgramHeader>,
    tops: Seq<u64>,
    items: Seq<Seq<u8>>,
    k: int,
    a: u64,
) -> u8
    decreases k,
{
    if k <= 0 {
        image_byte(m0, binary, segs, 0, segs.len() as int, a)
    } else if tops[k - 1] <= a && a - tops[k - 1] < items[k - 1].len() {
        items[k - 1][a - tops[k - 1]]
    } else {
        pushed_image_byte(m0, binary, segs, tops, items, k - 1, a)
    }
}

/// The byte at `a` of a loaded machine: of the table of the initial stack,
/// else of what was pushed before it, else of the segments of the image,
/// else as it was.
pub open spec fn loaded_byte(
    m0: crate::engine::MemoryState,
    binary: Seq<u8>,
    segs: Seq<ProgramHeader>,
    tops: Seq<u64>,
    items: Seq<Seq<u8>>,
    table_address: u64,
    table: Seq<u8>,
    a: u64,
) -> u8 {
    if table_address <= a && a - table_address < table.len() {
        table[a - table_address]
    } else {
        pushed_image_byte(m0, binary, segs, tops, items, items.len() as int, a)
    }
}

/// Memories with the same chunks give the same bytes once the segments are
/// copied into them.
pub proof fn lemma_image_base(
    m1: crate::engine::MemoryState,
    m0: crate::engine::MemoryState,
    binary: Seq<u8>,
    segs: Seq<ProgramHeader>,
    k: int,
    a: u64,
)
    requires
        m1@ == m0@,
    ensures
        image_byte(m1, binary, segs, 0, k, a) == image_byte(m0, binary, segs, 0, k, a),
    decreases k,
{
    if k > 0 {
        lemma_image_base(m1, m0, binary, segs, k - 1, a);
    }
}

/// Pushes onto a memory that holds the copied segments give the bytes of
/// `pushed_image_byte`.
pub proof fn lemma_pushed_over_image(
    mid: crate::engine::MemoryState,
    m0: crate::engine::MemoryState,
    binary: Seq<u8>,
    segs: Seq<ProgramHeader>,
    tops: Seq<u64>,
    items: Seq<Seq<u8>>,
    k: int,
    a: u64,
)
    requires
        forall|x: u64| mid.byte_at(x) == image_byte(m0, binary, segs, 0, segs.len() as int, x),
    ensures
        pushed_byte(mid, tops, items, k, a) == pushed_image_byte(m0, binary, segs, tops, items, k, a),
    decreases k,
{
    if k > 0 {
        lemma_pushed_over_image(mid, m0, binary, segs, tops, items, k - 1, a);
    }
}

/// The machine `after` is the machine `before` with the image loaded: the
/// stack and the regions of the image are mapped, the stack pointer is at the
/// table of the initial stack, and memory holds the segments, the pushed
/// strings and the table.
pub open spec fn loaded(
    before: &Machine,
    after: &Machine,
    config: &Config,
    binary: Seq<u8>,
    image: ElfImageModel,
    argv: Seq<String>,
    envs: Seq<(String, String)>,
) -> bool {
    let stacked = crate::memory::mapped_list(before.memories@, stack_region(config), "[stack]"@);
    let mem = segments_loaded(stacked, binary.len() as int, image.segments, 0).unwrap();
    let sorted = load_segments_spec(image.segments);
    let regions = fold_spec(sorted, 0).unwrap();
    let info = image_info(config, image, regions, before.sp_spec());
    let lay = layout_spec(
        mem,
        (config.stack_address + config.stack_size) as u64,
        before.pointer_size,
        before.endian,
        image,
        info,
        argv,
        envs,
    ).unwrap();
    let table = table_of_tops(
        before.pointer_size,
        before.endian,
        image,
        info,
        argv.len() as int,
        envs.len() as int,
        lay.0,
    );
    &&& after.memories@ == mem
    &&& after.log() == before.log().push(
        EffectModel::MapRegion {
            begin: config.stack_address,
            end: (config.stack_address + config.stack_size) as u64,
            perms: Permission { bits: 7 },
        },
    ) + image_log(binary, image.segments, 0) + seq![
        EffectModel::RegWrite {
            reg: crate::registers::MIPS_REG_SP,
            value: (config.stack_address + config.stack_size) as u64,
        },
    ] + stack_log(lay.0, stack_items(argv, envs), lay.1, table)
    &&& after.regs@ == before.regs@.update(crate::registers::MIPS_REG_SP as int, lay.1)
    &&& forall|a: u64|
        after.state.memory.byte_at(a) == loaded_byte(
            before.state.memory,
            binary,
            sorted,
            lay.0,
            stack_items(argv, envs),
            lay.1,
            table,
            a,
        )
}

/// The result `r` of loading is what `expected` says: the information about
/// the loaded image, or a failure.
pub open spec fn load_outcome(r: Result<LoadInfo, EmulatorError>, expected: Option<LoadInfo>) -> bool {
    match expected {
        Some(info) => r == Ok::<LoadInfo, EmulatorError>(info),
        None => r is Err,
    }
}

/// The region list `s` with each of `regions` mapped in turn under the label
/// `[mapped]`, when none of them is refused.
pub open spec fn map_regions(s: Seq<crate::memory::RegionModel>, regions: Seq<MemRegion>) -> Option<
    Seq<crate::memory::RegionModel>,
>
    decreases regions.len(),
{
    if regions.len() == 0 {
        Some(s)
    } else {
        match map_regions(s, regions.drop_last()) {
            None => None,
            Some(t) => if crate::memory::map_fault(t, regions.last()).is_some() {
                None
            } else {
                Some(crate::memory::mapped_list(t, regions.last(), "[mapped]"@))
            },
        }
    }
}

/// Once a prefix of the regions cannot be mapped, neither can the whole list.
pub proof fn lemma_map_regions_none(
    s: Seq<crate::memory::RegionModel>,
    regions: Seq<MemRegion>,
    k: int,
)
    requires
        0 <= k <= regions.len(),
        map_regions(s, regions.take(k)) is None,
    ensures
        map_regions(s, regions) is None,
    decreases regions.len() - k,
{
    if k < regions.len() {
        assert(regions.take(k + 1).drop_last() =~= regions.take(k));
        lemma_map_regions_none(s, regions, k + 1);
    } else {
        assert(regions.take(k) =~= regions);
    }
}

/// The byte at `a` after the file bytes of the first `k` of the segments
/// `segs` were copied, one segment after the other, into the memory `m0`.
pub open spec fn image_byte(
    m0: crate::engine::MemoryState,
    binary: Seq<u8>,
    segs: Seq<ProgramHeader>,
    load_address: u64,
    k: int,
    a: u64,
) -> u8
    decreases k,
{
    if k <= 0 {
        m0.byte_at(a)
    } else {
        let seg = segs[k - 1];
        let at = load_address + seg.p_vaddr;
        if at <= a && a - at < seg.p_filesz {
            binary[seg.p_offset + (a - at)]
        } else {
            image_byte(m0, binary, segs, load_address, k - 1, a)
        }
    }
}

/// The effects of loading the segments of an image: the mapping of the
/// regions they fold into, then the copies of their file bytes.
pub open spec fn image_log(binary: Seq<u8>, segments: Seq<ProgramHeader>, load_address: u64) -> Seq<
    EffectModel,
> {
    let sorted = load_segments_spec(segments);
    let regions = fold_spec(sorted, load_address).unwrap();
    regions_log(regions, regions.len() as int) + segs_log(
        binary,
        sorted,
        load_address,
        sorted.len() as int,
    )
}

/// The file bytes of `seg` lie inside a file of `binary_len` bytes, and the
/// memory they are copied to lies inside the mapped memory `mem`.
pub open spec fn segment_fits(
    mem: Seq<crate::memory::RegionModel>,
    binary_len: int,
    seg: ProgramHeader,
    load_address: u64,
) -> bool {
    &&& seg.p_offset + seg.p_filesz <= binary_len
    &&& seg.p_offset + seg.p_filesz <= u64::MAX
    &&& load_address + seg.p_vaddr <= u64::MAX
    &&& (seg.p_filesz == 0 || crate::memory::range_mapped(
        mem,
        (load_address + seg.p_vaddr) as u64,
        seg.p_filesz as usize,
    ))
}

/// The mapped memory after the segments of an image were loaded into the
/// mapped memory `mem0`: the segments fold into at least one region, every
/// region can be mapped, and every segment fits.
pub open spec fn segments_loaded(
    mem0: Seq<crate::memory::RegionModel>,
    binary_len: int,
    segments: Seq<ProgramHeader>,
    load_address: u64,
) -> Option<Seq<crate::memory::RegionModel>> {
    let sorted = load_segments_spec(segments);
    match fold_spec(sorted, load_address) {
        Err(_) => None,
        Ok(regions) => if regions.len() == 0 {
            None
        } else {
            match map_regions(mem0, regions) {
                None => None,
                Some(mem) => if forall|j: int|
                    0 <= j < sorted.len() ==> segment_fits(
                        mem,
                        binary_len,
                        #[trigger] sorted[j],
                        load_address,
                    ) {
                    Some(mem)
                } else {
                    None
                },
            }
        },
    }
}

/// The region list `s` holds a region with the range and rights of `r`.
pub open spec fn region_listed(s: Seq<crate::memory::RegionModel>, r: MemRegion) -> bool {
    exists|q: int|
        0 <= q < s.len() && (#[trigger] s[q]).begin == r.begin && s[q].end == r.end && s[q].perms
            == r.perms
}

/// The region list `s` holds every region of `regions`.
pub open spec fn all_listed(s: Seq<crate::memory::RegionModel>, regions: Seq<MemRegion>) -> bool {
    forall|j: int| 0 <= j < regions.len() ==> region_listed(s, #[trigger] regions[j])
}

/// The sorted list `s` with `h` put behind the last header whose address is
/// not above that of `h`.
pub open spec fn insert_sorted(s: Seq<ProgramHeader>, h: ProgramHeader) -> Seq<ProgramHeader>
    decreases s.len(),
{
    if s.len() == 0 {
        seq![h]
    } else if s.last().p_vaddr <= h.p_vaddr {
        s.push(h)
    } else {
        insert_sorted(s.drop_last(), h).push(s.last())
    }
}

/// The loadable headers of `s` in order of virtual address, headers with the
/// same address in the order of `s`.
pub open spec fn load_segments_spec(s: Seq<ProgramHeader>) -> Seq<ProgramHeader>
    decreases s.len(),
{
    if s.len() == 0 {
        Seq::empty()
    } else if s.last().p_type == PT_LOAD {
        insert_sorted(load_segments_spec(s.drop_last()), s.last())
    } else {
        load_segments_spec(s.drop_last())
    }
}

/// Putting `h` into a sorted list places it at the first position behind
/// which all addresses are above its own.
pub proof fn lemma_insert_sorted(s: Seq<ProgramHeader>, h: ProgramHeader, k: int)
    requires
        sorted_by_vaddr(s),
        0 <= k <= s.len(),
        forall|j: int| 0 <= j < k ==> (#[trigger] s[j]).p_vaddr <= h.p_vaddr,
        k < s.len() ==> s[k].p_vaddr > h.p_vaddr,
    ensures
        insert_sorted(s, h) == s.insert(k, h),
    decreases s.len(),
{
    if s.len() == 0 {
        assert(seq![h] =~= s.insert(k, h));
    } else if s.last().p_vaddr <= h.p_vaddr {
        if k < s.len() {
            assert(s[k].p_vaddr <= s[s.len() - 1].p_vaddr);
        }
        assert(s.push(h) =~= s.insert(k, h));
    } else {
        assert(k < s.len()) by {
            if k == s.len() {
                assert(s[s.len() - 1].p_vaddr <= h.p_vaddr);
            }
        }
        let d = s.drop_last();
        assert forall|i: int, j: int| 0 <= i < j < d.len() implies (#[trigger] d[i]).p_vaddr <= (
        #[trigger] d[j]).p_vaddr by {
            assert(d[i] == s[i] && d[j] == s[j]);
        }
        assert forall|j: int| 0 <= j < k implies (#[trigger] d[j]).p_vaddr <= h.p_vaddr by {
            assert(d[j] == s[j]);
        }
        if k < d.len() {
            assert(d[k] == s[k]);
        }
        lemma_insert_sorted(d, h, k);
        assert(d.insert(k, h).push(s.last()) =~= s.insert(k, h));
    }
}

} // verus!
