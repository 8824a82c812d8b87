use omo::utils::{align, align_up, seg_perm_to_uc_prot, Endian, Packer};

#[test]
fn utils_test_align() {
    let pagesize = 0x1000;

    {
        assert_eq!(align(0x0111, pagesize), 0x0000);
        assert_eq!(align(0x1000, pagesize), 0x1000);
        assert_eq!(align(0x1001, pagesize), 0x1000);
        assert_eq!(align(0x1111, pagesize), 0x1000);
        assert_eq!(align(0x10000, pagesize), 0x10000);
    }

    {
        assert_eq!(align_up(0x0111, pagesize), 0x1000);
        assert_eq!(align_up(0x1000, pagesize), 0x1000);
        assert_eq!(align_up(0x1001, pagesize), 0x2000);
        assert_eq!(align_up(0x1111, pagesize), 0x2000);
        assert_eq!(align_up(0x2000, pagesize), 0x2000);
        assert_eq!(align_up(0x10000, pagesize), 0x10000);
    }
}

#[test]
fn test_align() {
    let pagesize = 0x1000;

    {
        assert_eq!(align(0x0111, pagesize), 0x0000);
        assert_eq!(align(0x1000, pagesize), 0x1000);
        assert_eq!(align(0x1001, pagesize), 0x1000);
        assert_eq!(align(0x1111, pagesize), 0x1000);
        assert_eq!(align(0x10000, pagesize), 0x10000);
    }

    {
        assert_eq!(align_up(0x0111, pagesize), 0x1000);
        assert_eq!(align_up(0x1000, pagesize), 0x1000);
        assert_eq!(align_up(0x1001, pagesize), 0x2000);
        assert_eq!(align_up(0x1111, pagesize), 0x2000);
        assert_eq!(align_up(0x2000, pagesize), 0x2000);
        assert_eq!(align_up(0x10000, pagesize), 0x10000);
    }
}

#[test]
fn align_to_word() {
    assert_eq!(align(7, 4), 4);
    assert_eq!(align(8, 4), 8);
    assert_eq!(align_up(5, 4), 8);
    assert_eq!(align(u64::MAX, 4096), u64::MAX - 4095);
}

#[test]
fn segment_flags_translate() {
    assert_eq!(seg_perm_to_uc_prot(0).bits, 0);
    assert_eq!(seg_perm_to_uc_prot(1).bits, 4);
    assert_eq!(seg_perm_to_uc_prot(2).bits, 2);
    assert_eq!(seg_perm_to_uc_prot(4).bits, 1);
    assert_eq!(seg_perm_to_uc_prot(5).bits, 5);
    assert_eq!(seg_perm_to_uc_prot(7).bits, 7);
    assert_eq!(seg_perm_to_uc_prot(0xfff8).bits, 0);
}

#[test]
fn pack_big_endian() {
    let p = Packer::new(Endian::Big, 4);
    assert_eq!(p.pack(0x01020304), vec![1, 2, 3, 4]);
    assert_eq!(p.pack(0xaa_0102_0304), vec![1, 2, 3, 4]);
    assert_eq!(p.unpack(vec![1, 2, 3, 4, 9]), 0x01020304);
}

#[test]
fn pack_little_endian() {
    let p = Packer::new(Endian::Little, 4);
    assert_eq!(p.pack(0x01020304), vec![4, 3, 2, 1]);
    assert_eq!(p.unpack(vec![4, 3, 2, 1]), 0x01020304);
    let wide = Packer::new(Endian::Little, 8);
    assert_eq!(wide.pack(1), vec![1, 0, 0, 0, 0, 0, 0, 0]);
}

#[test]
fn pack_then_unpack() {
    let p = Packer::new(Endian::Big, 2);
    assert_eq!(p.unpack(p.pack(0x1_2345)), 0x2345);
}
