use omo::engine::{Effect, Machine};
use omo::errors::{EmulatorError, LoaderFault};
use omo::loader::{
    aux_entries, build_elf_table, fold_segments, hwcap, load_segments, push_items, stack_strings,
    AuxInfo, Config, ElfLoader, ProgramHeader, AUXV,
};
use omo::memory::MemRegion;
use omo::utils::{Endian, Packer, Permission};

fn seg(vaddr: u64, memsz: u64, flags: u32) -> ProgramHeader {
    ProgramHeader { p_type: 1, p_flags: flags, p_offset: 0, p_vaddr: vaddr, p_filesz: 0, p_memsz: memsz }
}

fn be16(v: u16) -> [u8; 2] {
    v.to_be_bytes()
}

fn be32(v: u32) -> [u8; 4] {
    v.to_be_bytes()
}

/// A MIPS32 big-endian ELF file with one loadable segment that holds the
/// whole file.
fn tiny_elf(e_type: u16) -> Vec<u8> {
    let mut b: Vec<u8> = vec![0x7f, b'E', b'L', b'F', 1, 2, 1, 0, 0, 0, 0, 0, 0, 0, 0, 0];
    b.extend_from_slice(&be16(e_type));
    b.extend_from_slice(&be16(8));
    b.extend_from_slice(&be32(1));
    b.extend_from_slice(&be32(0x0040_0060));
    b.extend_from_slice(&be32(52));
    b.extend_from_slice(&be32(0));
    b.extend_from_slice(&be32(0));
    b.extend_from_slice(&be16(52));
    b.extend_from_slice(&be16(32));
    b.extend_from_slice(&be16(1));
    b.extend_from_slice(&be16(40));
    b.extend_from_slice(&be16(0));
    b.extend_from_slice(&be16(0));
    assert_eq!(b.len(), 52);
    b.extend_from_slice(&be32(1));
    b.extend_from_slice(&be32(0));
    b.extend_from_slice(&be32(0x0040_0000));
    b.extend_from_slice(&be32(0x0040_0000));
    b.extend_from_slice(&be32(100));
    b.extend_from_slice(&be32(100));
    b.extend_from_slice(&be32(5));
    b.extend_from_slice(&be32(0x1000));
    assert_eq!(b.len(), 84);
    b.extend_from_slice(&[0xaa; 16]);
    assert_eq!(b.len(), 100);
    b
}

fn config() -> Config {
    Config {
        stack_address: 0x7ff0_0000,
        stack_size: 0x10_0000,
        load_address: 0,
        mmap_address: 0x7000_0000,
    }
}

#[test]
fn load_segments_sorts_loadable_headers() {
    let mut other = seg(0x1000, 1, 4);
    other.p_type = 6;
    let hs = vec![seg(0x3000, 1, 4), other, seg(0x1000, 1, 6), seg(0x2000, 1, 5)];
    let out = load_segments(&hs);
    let addrs: Vec<u64> = out.iter().map(|h| h.p_vaddr).collect();
    assert_eq!(addrs, vec![0x1000, 0x2000, 0x3000]);
    assert_eq!(out[0].p_flags, 6);
}

#[test]
fn fold_merges_adjacent_segments_with_equal_rights() {
    let segs = vec![seg(0x40_0000, 0x1800, 5), seg(0x40_2000, 0x10, 5), seg(0x40_3000, 0x10, 6)];
    let regions = fold_segments(&segs, 0).unwrap();
    assert_eq!(
        regions,
        vec![
            MemRegion { begin: 0x40_0000, end: 0x40_3000, perms: Permission { bits: 5 } },
            MemRegion { begin: 0x40_3000, end: 0x40_4000, perms: Permission { bits: 3 } },
        ]
    );
}

#[test]
fn fold_opens_region_after_gap() {
    let segs = vec![seg(0x1000, 0x10, 4), seg(0x5000, 0x10, 4)];
    let regions = fold_segments(&segs, 0).unwrap();
    assert_eq!(regions.len(), 2);
    assert_eq!((regions[1].begin, regions[1].end), (0x5000, 0x6000));
}

#[test]
fn fold_rejects_intersecting_segments() {
    let segs = vec![seg(0x1000, 0x2000, 4), seg(0x2000, 0x10, 4)];
    assert_eq!(fold_segments(&segs, 0), Err(LoaderFault::SegmentIntersect));
}

#[test]
fn fold_rejects_addresses_beyond_32_bits() {
    let segs = vec![seg(0xffff_f000, 0x10, 4)];
    assert_eq!(fold_segments(&segs, 0), Err(LoaderFault::AddressOverflow));
    let segs = vec![seg(u64::MAX, 0x10, 4)];
    assert_eq!(fold_segments(&segs, 0), Err(LoaderFault::AddressOverflow));
}

#[test]
fn hwcap_values() {
    assert_eq!(hwcap(8, Endian::Big), 0x078bfbfd);
    assert_eq!(hwcap(4, Endian::Big), 0xd7b81f);
    assert_eq!(hwcap(4, Endian::Little), 0x1fb8d7);
}

#[test]
fn aux_vector_layout() {
    let a = AuxInfo {
        hwcap: 0xd7b81f,
        phdr: 0x400034,
        phent: 32,
        phnum: 1,
        entry: 0x400060,
        random: 0x7fff_0010,
        execfn: 0x7fff_0020,
        platform: 0x7fff_0000,
    };
    let v = aux_entries(&a);
    assert_eq!(v.len(), 16);
    assert_eq!(v[0], (AUXV::AT_HWCAP, 0xd7b81f));
    assert_eq!(v[1], (AUXV::AT_PAGESZ, 4096));
    assert_eq!(v[2], (AUXV::AT_CLKTCK, 100));
    assert_eq!(v[3], (AUXV::AT_PHDR, 0x400034));
    assert_eq!(v[4], (AUXV::AT_PHENT, 32));
    assert_eq!(v[5], (AUXV::AT_PHNUM, 1));
    assert_eq!(v[6], (AUXV::AT_BASE, 0));
    assert_eq!(v[7], (AUXV::AT_ENTRY, 0x400060));
    assert_eq!(v[8], (AUXV::AT_UID, 1000));
    assert_eq!(v[9], (AUXV::AT_EUID, 1000));
    assert_eq!(v[10], (AUXV::AT_GID, 1000));
    assert_eq!(v[11], (AUXV::AT_EGID, 1000));
    assert_eq!(v[12], (AUXV::AT_RANDOM, 0x7fff_0010));
    assert_eq!(v[13], (AUXV::AT_EXECFN, 0x7fff_0020));
    assert_eq!(v[14], (AUXV::AT_PLATFORM, 0x7fff_0000));
    assert_eq!(v[15], (AUXV::AT_NULL, 0));
    assert_eq!(AUXV::AT_EXECFN.code(), 31);
    assert_eq!(AUXV::AT_RANDOM.code(), 25);
}

#[test]
fn elf_table_words() {
    let p = Packer::new(Endian::Big, 4);
    let aux = vec![(AUXV::AT_PAGESZ, 4096u64), (AUXV::AT_NULL, 0u64)];
    let t = build_elf_table(&p, &vec![0x7000_0010, 0x7000_0020], &vec![0x7000_0030], &aux);
    let words: Vec<u32> =
        t.chunks(4).map(|c| u32::from_be_bytes([c[0], c[1], c[2], c[3]])).collect();
    assert_eq!(words, vec![2, 0x7000_0010, 0x7000_0020, 0, 0x7000_0030, 0, 6, 4096, 0, 0]);
}

#[test]
fn load_rejects_garbage() {
    let mut m = Machine::create(Endian::Big, 4);
    let r = ElfLoader::load(&config(), &[1, 2, 3, 4], &vec![], &vec![], &mut m);
    assert_eq!(r, Err(EmulatorError::Loader(LoaderFault::Malformed)));
    assert_eq!(m.memories.len(), 0);
}

#[test]
fn load_rejects_non_executable() {
    let mut m = Machine::create(Endian::Big, 4);
    let r = ElfLoader::load(&config(), &tiny_elf(3), &vec!["prog".to_string()], &vec![], &mut m);
    assert_eq!(r, Err(EmulatorError::Loader(LoaderFault::NotExecutable)));
    assert_eq!(m.memories.len(), 0);
    assert_eq!(m.take_effects().len(), 0);
}

#[test]
fn load_maps_image_and_builds_stack() {
    let mut m = Machine::create(Endian::Big, 4);
    let binary = tiny_elf(2);
    let argv = vec!["prog".to_string(), "1".to_string(), "10".to_string()];
    let envs = vec![("HOME".to_string(), "/root".to_string())];
    let info = ElfLoader::load(&config(), &binary, &argv, &envs, &mut m).unwrap();
    assert_eq!(info.entrypoint, 0x0040_0060);
    assert_eq!(info.elf_entry, 0x0040_0060);
    assert_eq!(info.elf_mem_start, 0x0040_0000);
    assert_eq!(info.brk_address, 0x0040_1000 + 0x2000);
    assert_eq!(info.mmap_address, 0x7000_0000);
    assert_eq!(info.load_address, 0);
    assert_eq!(info.init_stack_address, 0);
    assert_eq!(m.memories.len(), 2);
    assert_eq!((m.memories.region(0).begin, m.memories.region(0).end), (0x40_0000, 0x40_1000));
    assert_eq!(m.memories.region(0).perms.bits, 5);
    assert_eq!((m.memories.region(1).begin, m.memories.region(1).end), (0x7ff0_0000, 0x8000_0000));
    assert_eq!(m.read(0x40_0000, 4).unwrap(), vec![0x7f, b'E', b'L', b'F']);
    assert_eq!(m.read(0x40_0054, 4).unwrap(), vec![0xaa; 4]);

    let sp = m.sp().unwrap();
    assert_eq!(sp % 16, 0);
    assert_eq!(m.read_ptr(sp, None).unwrap(), 3);
    let argv0 = m.read_ptr(sp + 4, None).unwrap();
    assert_eq!(m.read(argv0, 5).unwrap(), b"prog\0".to_vec());
    let argv2 = m.read_ptr(sp + 12, None).unwrap();
    assert_eq!(m.read(argv2, 3).unwrap(), b"10\0".to_vec());
    assert_eq!(m.read_ptr(sp + 16, None).unwrap(), 0);
    let env0 = m.read_ptr(sp + 20, None).unwrap();
    assert_eq!(m.read(env0, 11).unwrap(), b"HOME=/root\0".to_vec());
    assert_eq!(m.read_ptr(sp + 24, None).unwrap(), 0);
    assert_eq!(m.read_ptr(sp + 28, None).unwrap(), 16);
    assert_eq!(m.read_ptr(sp + 32, None).unwrap(), 0xd7b81f);
    assert_eq!(m.read_ptr(sp + 36, None).unwrap(), 6);
    assert_eq!(m.read_ptr(sp + 40, None).unwrap(), 4096);
    let random = m.read_ptr(sp + 28 + 8 * 12 + 4, None).unwrap();
    assert_eq!(m.read(random, 16).unwrap(), vec![0x0a; 16]);
    let execfn = m.read_ptr(sp + 28 + 8 * 13 + 4, None).unwrap();
    assert_eq!(m.read(execfn, 5).unwrap(), b"prog\0".to_vec());
    let platform = m.read_ptr(sp + 28 + 8 * 14 + 4, None).unwrap();
    assert_eq!(m.read(platform, 5).unwrap(), b"MIPS\0".to_vec());
    assert_eq!(m.read_ptr(sp + 28 + 8 * 15, None).unwrap(), 0);

    let effects = m.take_effects();
    assert!(matches!(effects[0], Effect::MapRegion { begin: 0x7ff0_0000, end: 0x8000_0000, .. }));
    assert!(matches!(effects[1], Effect::MapRegion { begin: 0x40_0000, end: 0x40_1000, .. }));
    assert!(matches!(effects.last().unwrap(), Effect::RegWrite { reg: 31, .. }));
}

#[test]
fn loading_twice_gives_the_same_snapshot() {
    let binary = tiny_elf(2);
    let argv = vec!["prog".to_string(), "1".to_string(), "10".to_string()];
    let mut a = Machine::create(Endian::Big, 4);
    let mut b = Machine::create(Endian::Big, 4);
    ElfLoader::load(&config(), &binary, &argv, &vec![], &mut a).unwrap();
    ElfLoader::load(&config(), &binary, &argv, &vec![], &mut b).unwrap();
    assert_eq!(a.state.memory.snapshot().entries(), b.state.memory.snapshot().entries());
    assert_eq!(a.save_registers(), b.save_registers());
}

#[test]
fn load_rejects_image_without_loadable_segment() {
    let mut binary = tiny_elf(2);
    binary[52..56].copy_from_slice(&be32(0));
    let mut m = Machine::create(Endian::Big, 4);
    let r = ElfLoader::load(&config(), &binary, &vec!["prog".to_string()], &vec![], &mut m);
    assert_eq!(r, Err(EmulatorError::Loader(LoaderFault::NoLoadableSegment)));
}

#[test]
fn load_rejects_stack_beyond_address_space() {
    let mut m = Machine::create(Endian::Big, 4);
    let c = Config { stack_address: u64::MAX - 0xfff, stack_size: 0x2000, load_address: 0, mmap_address: 0 };
    let r = ElfLoader::load(&c, &tiny_elf(2), &vec![], &vec![], &mut m);
    assert_eq!(r, Err(EmulatorError::Loader(LoaderFault::AddressOverflow)));
}

#[test]
fn stack_strings_in_push_order() {
    let argv = vec!["prog".to_string(), "1".to_string()];
    let envs = vec![("A".to_string(), "b".to_string())];
    assert_eq!(
        stack_strings(&argv, &envs),
        vec![
            b"prog\0".to_vec(),
            b"1\0".to_vec(),
            b"A=b\0".to_vec(),
            b"prog\0".to_vec(),
            vec![0x0a; 16],
            b"MIPS\0".to_vec(),
        ]
    );
    assert_eq!(stack_strings(&vec![], &vec![])[0], b"main\0".to_vec());
}

#[test]
fn push_items_stacks_downwards() {
    let mut m = Machine::create(Endian::Big, 4);
    m.mem_map(MemRegion { begin: 0x1000, end: 0x2000, perms: Permission { bits: 7 } }, None)
        .unwrap();
    m.sync_reg(31, 0x2000);
    let items = vec![b"abc\0".to_vec(), b"defgh\0".to_vec()];
    let tops = push_items(&mut m, &items).unwrap();
    assert_eq!(tops, vec![0x1ffc, 0x1ff4]);
    assert_eq!(m.sp(), Ok(0x1ff4));
    assert_eq!(m.read(0x1ffc, 4).unwrap(), b"abc\0".to_vec());
    assert_eq!(m.read(0x1ff4, 6).unwrap(), b"defgh\0".to_vec());
    assert_eq!(push_items(&mut m, &vec![]), Ok(vec![]));
    assert_eq!(m.sp(), Ok(0x1ff4));
}

#[test]
fn push_items_needs_room_in_mapped_memory() {
    let mut m = Machine::create(Endian::Big, 4);
    m.mem_map(MemRegion { begin: 0x1000, end: 0x2000, perms: Permission { bits: 7 } }, None)
        .unwrap();
    m.sync_reg(31, 0x1008);
    let items = vec![vec![1u8; 4], vec![2u8; 16]];
    assert_eq!(
        push_items(&mut m, &items),
        Err(EmulatorError::Memory(omo::errors::MemoryFault::Unmapped))
    );
    m.sync_reg(31, 2);
    assert_eq!(push_items(&mut m, &items), Err(EmulatorError::Execution(21)));
}

#[test]
fn load_fails_when_the_stack_has_no_room() {
    let mut m = Machine::create(Endian::Big, 4);
    let c = Config { stack_address: 0x7fff_f000, stack_size: 0x1000, load_address: 0, mmap_address: 0 };
    let argv = vec!["x".repeat(5000)];
    let r = ElfLoader::load(&c, &tiny_elf(2), &argv, &vec![], &mut m);
    assert_eq!(r, Err(EmulatorError::Memory(omo::errors::MemoryFault::Unmapped)));
}

#[test]
fn load_fails_when_a_segment_leaves_the_file() {
    let mut binary = tiny_elf(2);
    binary[68..72].copy_from_slice(&be32(200));
    let mut m = Machine::create(Endian::Big, 4);
    let r = ElfLoader::load(&config(), &binary, &vec!["prog".to_string()], &vec![], &mut m);
    assert!(r.is_err());
}

#[test]
fn load_fails_when_the_stack_is_taken() {
    let mut m = Machine::create(Endian::Big, 4);
    m.mem_map(
        MemRegion { begin: 0x7ff8_0000, end: 0x7ff9_0000, perms: Permission { bits: 7 } },
        None,
    )
    .unwrap();
    let r = ElfLoader::load(&config(), &tiny_elf(2), &vec!["prog".to_string()], &vec![], &mut m);
    assert_eq!(r, Err(EmulatorError::Memory(omo::errors::MemoryFault::Overlap)));
}
