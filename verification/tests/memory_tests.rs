use omo::errors::{EmulatorError, MemoryFault};
use omo::memory::{MemRegion, MemoryManager};
use omo::utils::Permission;

fn region(begin: u64, end: u64) -> MemRegion {
    MemRegion { begin, end, perms: Permission { bits: 7 } }
}

fn spans(m: &MemoryManager) -> Vec<(u64, u64)> {
    (0..m.len()).map(|i| (m.region(i).begin, m.region(i).end)).collect()
}

#[test]
fn map_keeps_regions_sorted() {
    let mut m = MemoryManager::new();
    assert_eq!(m.mem_map(region(0x5000, 0x6000), None), Ok(()));
    assert_eq!(m.mem_map(region(0x1000, 0x2000), Some("[stack]".to_string())), Ok(()));
    assert_eq!(m.mem_map(region(0x3000, 0x4000), None), Ok(()));
    assert_eq!(spans(&m), vec![(0x1000, 0x2000), (0x3000, 0x4000), (0x5000, 0x6000)]);
}

#[test]
fn map_rejects_bad_requests() {
    let mut m = MemoryManager::new();
    assert_eq!(m.mem_map(region(0x1000, 0x3000), None), Ok(()));
    assert_eq!(
        m.mem_map(region(0x2000, 0x4000), None),
        Err(EmulatorError::Memory(MemoryFault::Overlap))
    );
    assert_eq!(
        m.mem_map(region(0x4000, 0x4000), None),
        Err(EmulatorError::Memory(MemoryFault::InvalidRange))
    );
    assert_eq!(
        m.mem_map(region(0x4001, 0x5000), None),
        Err(EmulatorError::Memory(MemoryFault::Unaligned))
    );
    assert_eq!(
        m.mem_map(MemRegion { begin: 0x4000, end: 0x5000, perms: Permission { bits: 8 } }, None),
        Err(EmulatorError::Memory(MemoryFault::BadPermissions))
    );
    assert_eq!(spans(&m), vec![(0x1000, 0x3000)]);
}

#[test]
fn unmap_splits_and_trims() {
    let mut m = MemoryManager::new();
    m.mem_map(region(0x1000, 0x4000), None).unwrap();
    m.mem_map(region(0x4000, 0x6000), None).unwrap();
    m.mem_map(region(0x8000, 0xa000), None).unwrap();
    assert_eq!(m.mem_unmap(0x2000, 0x1000), Ok(()));
    assert_eq!(
        spans(&m),
        vec![(0x1000, 0x2000), (0x3000, 0x4000), (0x4000, 0x6000), (0x8000, 0xa000)]
    );
    assert_eq!(m.mem_unmap(0x3000, 0x6000), Ok(()));
    assert_eq!(spans(&m), vec![(0x1000, 0x2000), (0x9000, 0xa000)]);
    assert_eq!(m.mem_unmap(0x1000, 0x1000), Ok(()));
    assert_eq!(spans(&m), vec![(0x9000, 0xa000)]);
}

#[test]
fn unmap_rejects_bad_ranges() {
    let mut m = MemoryManager::new();
    m.mem_map(region(0x1000, 0x4000), None).unwrap();
    assert_eq!(m.mem_unmap(0x1001, 0x1000), Err(EmulatorError::Memory(MemoryFault::Unaligned)));
    assert_eq!(
        m.mem_unmap(u64::MAX - 0xfff, 0x2000),
        Err(EmulatorError::Memory(MemoryFault::InvalidRange))
    );
    assert_eq!(m.mem_unmap(0x2000, 0), Ok(()));
    assert_eq!(spans(&m), vec![(0x1000, 0x4000)]);
}

#[test]
fn is_mapped_follows_contiguous_regions() {
    let mut m = MemoryManager::new();
    m.mem_map(region(0x1000, 0x2000), None).unwrap();
    m.mem_map(region(0x2000, 0x3000), None).unwrap();
    m.mem_map(region(0x5000, 0x6000), None).unwrap();
    assert!(m.is_mapped(0x1000, 0x2000));
    assert!(m.is_mapped(0x1800, 0x1000));
    assert!(m.is_mapped(0x5000, 0x1000));
    assert!(!m.is_mapped(0x2000, 0x1001));
    assert!(!m.is_mapped(0x3000, 0x10));
    assert!(!m.is_mapped(0x0, 0x1000));
    assert!(!m.is_mapped(0x5000, 0x1001));
    assert!(m.is_mapped(0x5000, 0));
    assert!(!m.is_mapped(0x6000, 0));
}

#[test]
fn next_mmap_address_finds_first_gap() {
    let mut m = MemoryManager::new();
    m.mem_map(region(0x1000, 0x2000), None).unwrap();
    m.mem_map(region(0x10000, 0x12000), None).unwrap();
    m.mem_map(region(0x13000, 0x14000), None).unwrap();
    assert_eq!(m.next_mmap_address(0x10000, 0x1000), Ok(0x12000));
    assert_eq!(m.next_mmap_address(0x10000, 0x2000), Ok(0x14000));
    assert_eq!(m.next_mmap_address(0x8000, 0x8000), Ok(0x8000));
    assert_eq!(m.next_mmap_address(0x8000, 0x8001), Ok(0x14000));
    assert_eq!(
        m.next_mmap_address(0xffff_f000, 0x1000),
        Err(EmulatorError::Memory(MemoryFault::OutOfMemory))
    );
    assert_eq!(m.next_mmap_address(0xffff_e000, 0x1fff), Ok(0xffff_e000));
}

#[test]
fn unmap_leaves_the_rest_mapped() {
    let mut m = MemoryManager::new();
    m.mem_map(region(0x1000, 0x5000), None).unwrap();
    m.mem_unmap(0x2000, 0x2000).unwrap();
    assert!(m.is_wf());
    for a in [0x1000u64, 0x1fff, 0x4000, 0x4fff] {
        assert!(m.is_mapped(a, 1));
    }
    for a in [0x0fffu64, 0x2000, 0x3fff, 0x5000] {
        assert!(!m.is_mapped(a, 1));
    }
    assert_eq!(m.region(0).perms.bits, 7);
    assert_eq!(m.region(1).perms.bits, 7);
}

#[test]
fn next_mmap_address_skips_a_region_over_the_base() {
    let mut m = MemoryManager::new();
    m.mem_map(region(0x1000, 0x3000), None).unwrap();
    assert_eq!(m.next_mmap_address(0x2000, 0x1000), Ok(0x3000));
    assert_eq!(m.next_mmap_address(0x2fff, 0), Ok(0x3000));
    assert_eq!(m.next_mmap_address(0x3000, 0x1000), Ok(0x3000));
    assert_eq!(m.next_mmap_address(0x0, 0x1000), Ok(0x0));
    assert_eq!(m.next_mmap_address(0x0, 0x1001), Ok(0x3000));
    let mut high = MemoryManager::new();
    high.mem_map(region(0xffff_d000, 0xffff_f000), None).unwrap();
    assert_eq!(
        high.next_mmap_address(0xffff_e000, 0x1000),
        Err(EmulatorError::Memory(MemoryFault::OutOfMemory))
    );
    assert_eq!(high.next_mmap_address(0xffff_c000, 0x1000), Ok(0xffff_c000));
    assert_eq!(
        MemoryManager::new().next_mmap_address(0xffff_f000, 0x1000),
        Err(EmulatorError::Memory(MemoryFault::OutOfMemory))
    );
}
