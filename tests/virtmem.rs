use bochservisor::physmem::{MemReader, PhysRegion};
use bochservisor::virtmem::{
    canonicalize_address, MapSize, PTBits, PageTable, PhysMem, WalkError, PT_ACCESSED, PT_DIRTY,
};

fn put(mem: &mut MemReader, addr: u64, val: u64) {
    assert_eq!(mem.write_phys(addr, &val.to_le_bytes()), 8);
}

fn get(mem: &mut MemReader, addr: u64) -> u64 {
    let mut b = [0u8; 8];
    assert_eq!(mem.read_phys(addr, &mut b), 8);
    u64::from_le_bytes(b)
}

fn memory() -> MemReader {
    MemReader::new(vec![PhysRegion { paddr: 0, bytes: vec![0u8; 0x10000] }])
}

/// Tables mapping 0x00007FFF_FFFFF000 with 4 KiB pages to 0x5000 and
/// 0xFFFF8000_00200000 with a 2 MiB page to 0x200000.
fn tables() -> MemReader {
    let mut m = memory();
    put(&mut m, 0x1000 + 0xFF * 8, 0x2000 | 3);
    put(&mut m, 0x2000 + 0x1FF * 8, 0x3000 | 3);
    put(&mut m, 0x3000 + 0x1FF * 8, 0x4000 | 3);
    put(&mut m, 0x4000 + 0x1FF * 8, 0x5000 | 3);
    put(&mut m, 0x1000 + 0x100 * 8, 0x6000 | 3);
    put(&mut m, 0x6000, 0x7000 | 3);
    put(&mut m, 0x7000 + 8, 0x20_0000 | 0x83);
    m
}

#[test]
fn page_table_walk_4k_and_2m() {
    let mut m = tables();
    let pt = PageTable::from_existing(0x1000);
    assert_eq!(pt.get_backing(), 0x1000);
    assert_eq!(pt.virt_to_phys(&mut m, 0x0000_7FFF_FFFF_F000), Ok(Some((0x5000, 4096))));
    assert_eq!(pt.virt_to_phys(&mut m, 0x0000_7FFF_FFFF_F123), Ok(Some((0x5123, 4096))));
    assert_eq!(pt.virt_to_phys(&mut m, 0xFFFF_8000_0020_0000), Ok(Some((0x20_0000, 0x20_0000))));
    assert_eq!(pt.virt_to_phys(&mut m, 0xFFFF_8000_0021_2345), Ok(Some((0x21_2345, 0x20_0000))));
}

#[test]
fn page_table_walk_failures() {
    let mut m = tables();
    let pt = PageTable::from_existing(0x1000);
    assert_eq!(pt.virt_to_phys(&mut m, 0x0000_8000_0000_0000), Err(WalkError::NonCanonical));
    assert_eq!(pt.virt_to_phys(&mut m, 0x0000_1000_0000_0000), Ok(None));
    put(&mut m, 0x1000, 0x2000 | 0x81);
    assert_eq!(pt.virt_to_phys(&mut m, 0), Err(WalkError::ReservedPageSize));
    let far = PageTable::from_existing(0x10_0000);
    assert_eq!(far.virt_to_phys(&mut m, 0), Err(WalkError::PhysAccess));
}

#[test]
fn page_table_walk_1g() {
    let mut m = memory();
    put(&mut m, 0x1000, 0x2000 | 3);
    put(&mut m, 0x2000 + 8, 0x4000_0000 | 0x83);
    let pt = PageTable::from_existing(0x1000);
    assert_eq!(pt.virt_to_phys(&mut m, 0x4123_4567), Ok(Some((0x4123_4567, 0x4000_0000))));
}

#[test]
fn dirty_walk_sets_accessed_and_dirty() {
    let mut m = tables();
    let pt = PageTable::from_existing(0x1000);
    assert_eq!(pt.virt_to_phys_dirty(&mut m, 0x0000_7FFF_FFFF_F000, true), Ok(Some((0x5000, 4096))));
    for a in [0x1000 + 0xFF * 8, 0x2000 + 0x1FF * 8, 0x3000 + 0x1FF * 8] {
        let e = get(&mut m, a);
        assert_ne!(e & PT_ACCESSED, 0);
        assert_eq!(e & PT_DIRTY, 0);
    }
    let leaf = get(&mut m, 0x4000 + 0x1FF * 8);
    assert_eq!(leaf & (PT_ACCESSED | PT_DIRTY), PT_ACCESSED | PT_DIRTY);
    // A plain walk leaves the entries alone.
    let mut m2 = tables();
    pt.virt_to_phys(&mut m2, 0x0000_7FFF_FFFF_F000).unwrap();
    assert_eq!(get(&mut m2, 0x4000 + 0x1FF * 8), 0x5003);
}

#[test]
fn canonical_addresses() {
    assert_eq!(canonicalize_address(0x0000_8000_0000_0000), 0xFFFF_8000_0000_0000);
    assert_eq!(canonicalize_address(0x0000_7FFF_FFFF_FFFF), 0x0000_7FFF_FFFF_FFFF);
    assert_eq!(canonicalize_address(0x1234_0000_0000_1000), 0x0000_0000_0000_1000);
    assert_eq!(canonicalize_address(0xFFFF_8000_0000_0000), 0xFFFF_8000_0000_0000);
}

#[test]
fn bit_masks_and_sizes() {
    assert_eq!(PTBits::Present.mask(), 1);
    assert_eq!(PTBits::Dirty.mask(), 0x40);
    assert_eq!(PTBits::ExecuteDisable.mask(), 1u64 << 63);
    assert_eq!(MapSize::Mapping1GiB.bytes(), 0x4000_0000);
    assert_eq!(MapSize::Mapping2MiB.bytes(), 0x20_0000);
    assert_eq!(MapSize::Mapping4KiB.bytes(), 0x1000);
}

#[test]
fn physical_reads_and_writes_stop_at_gaps() {
    let mut m = MemReader::new(vec![
        PhysRegion { paddr: 0x1000, bytes: vec![1u8; 0x1000] },
        PhysRegion { paddr: 0x2000, bytes: vec![2u8; 0x10] },
    ]);
    let mut buf = [0u8; 0x20];
    assert_eq!(m.read_phys(0x1FF8, &mut buf), 0x18);
    assert_eq!(&buf[..8], &[1u8; 8]);
    assert_eq!(&buf[8..0x18], &[2u8; 0x10]);
    assert_eq!(buf[0x18], 0);
    assert_eq!(m.write_phys(0x200C, &[9u8; 8]), 4);
    assert_eq!(m.read_byte(0x200F), Some(9));
    assert_eq!(m.read_byte(0x2010), None);
    assert_eq!(m.read_phys_int(0x1000), Ok(0x0101_0101_0101_0101));
    assert!(m.read_phys_int(0x200C).is_err());
    assert!(PhysMem::write_phys(&mut m, 0x1008, 0x1122_3344_5566_7788).is_ok());
    assert_eq!(m.read_byte(0x1008), Some(0x88));
    assert_eq!(m.read_phys_int(0x1008), Ok(0x1122_3344_5566_7788));
}

#[test]
fn virtual_reads() {
    let mut m = tables();
    assert_eq!(m.write_phys(0x5010, b"hello, world"), 12);
    let mut buf = [0u8; 12];
    assert_eq!(m.read_virt(0x1000, 0x0000_7FFF_FFFF_F010, &mut buf), 12);
    assert_eq!(&buf, b"hello, world");
    assert_eq!(m.read_virt_u16(0x1000, 0x0000_7FFF_FFFF_F010), Ok(u16::from_le_bytes(*b"he")));
    assert_eq!(m.read_virt_u32(0x1000, 0x0000_7FFF_FFFF_F010), Ok(u32::from_le_bytes(*b"hell")));
    assert_eq!(m.read_virt_u64(0x1000, 0x0000_7FFF_FFFF_F010), Ok(u64::from_le_bytes(*b"hello, w")));
    // The page after the mapping is not present: the read stops there.
    let mut tail = [0u8; 16];
    assert_eq!(m.read_virt(0x1000, 0x0000_7FFF_FFFF_FFF8, &mut tail), 8);
    assert_eq!(m.read_virt_u64(0x1000, 0x0000_7FFF_FFFF_FFFC), Err(()));
}

#[test]
fn enumerate_present_pages() {
    let mut m = memory();
    put(&mut m, 0x1000 + 0xFF * 8, 0x2000 | 3);
    put(&mut m, 0x2000 + 0x1FF * 8, 0x3000 | 3);
    put(&mut m, 0x3000 + 0x1FF * 8, 0x4000 | 3);
    put(&mut m, 0x4000 + 0x1FE * 8, 0x8000 | 3);
    put(&mut m, 0x4000 + 0x1FF * 8, 0x5000 | 3);
    let pt = PageTable::from_existing(0x1000);
    assert_eq!(
        pt.for_each_page(&mut m),
        Ok(vec![(0x0000_7FFF_FFFF_E000, 0x8000), (0x0000_7FFF_FFFF_F000, 0x5000)])
    );
    // A table outside physical memory cannot be walked.
    put(&mut m, 0x1000, 0x10_0000 | 3);
    assert!(pt.for_each_page(&mut m).is_err());
}

#[test]
fn virtual_writes() {
    let mut m = tables();
    assert_eq!(m.write_virt(0x1000, 0x0000_7FFF_FFFF_F100, b"abc"), 3);
    assert_eq!(m.read_byte(0x5100), Some(b'a'));
    assert_eq!(m.read_byte(0x5102), Some(b'c'));
    // Stops where the mapping ends.
    assert_eq!(m.write_virt(0x1000, 0x0000_7FFF_FFFF_FFFE, b"wxyz"), 2);
    assert_eq!(m.read_byte(0x5FFF), Some(b'x'));
}

#[test]
fn large_page_bases_ignore_pat_bit() {
    let mut m = memory();
    // 1 GiB page with PAT (bit 12) set.
    put(&mut m, 0x1000, 0x2000 | 3);
    put(&mut m, 0x2000 + 8, 0x4000_0000 | 0x1000 | 0x83);
    // 2 MiB page with PAT set, under PML4 entry 0x100.
    put(&mut m, 0x1000 + 0x100 * 8, 0x6000 | 3);
    put(&mut m, 0x6000, 0x7000 | 3);
    put(&mut m, 0x7000 + 8, 0x20_0000 | 0x1000 | 0x83);
    let pt = PageTable::from_existing(0x1000);
    assert_eq!(pt.virt_to_phys(&mut m, 0x4000_0010), Ok(Some((0x4000_0010, 0x4000_0000))));
    assert_eq!(pt.virt_to_phys(&mut m, 0xFFFF_8000_0020_0010), Ok(Some((0x20_0010, 0x20_0000))));
    // A dirty walk of the 2 MiB page sets Dirty on the leaf only.
    assert!(pt.virt_to_phys_dirty(&mut m, 0xFFFF_8000_0020_0010, true).is_ok());
    assert_eq!(get(&mut m, 0x1000 + 0x100 * 8), 0x6000 | 3 | PT_ACCESSED);
    assert_eq!(get(&mut m, 0x6000), 0x7000 | 3 | PT_ACCESSED);
    assert_eq!(get(&mut m, 0x7008), 0x20_0000 | 0x1000 | 0x83 | PT_ACCESSED | PT_DIRTY);
}
