use vminer::addr::{mask, GuestPhysAddr, GuestVirtAddr, MmPte};
use vminer::error::TranslationError;
use vminer::mem::{Memory, MemoryAccessError, MemoryRegion, RawMemory};
use vminer::mmu::{read_u64_virtual, read_virtual_memory, try_read_virtual_memory, virtual_to_physical};

fn put_u64(data: &mut [u8], at: usize, v: u64) {
    data[at..at + 8].copy_from_slice(&v.to_le_bytes());
}

fn memory(data: Vec<u8>) -> RawMemory {
    RawMemory::new(vec![MemoryRegion { start: GuestPhysAddr(0), data }]).unwrap()
}

/// The tables of the 4 KiB walk: CR3=0x1000, one entry per level.
fn small_page_tables() -> Vec<u8> {
    let mut data = vec![0u8; 0x10000];
    put_u64(&mut data, 0x1000, 0x2003);
    put_u64(&mut data, 0x2000, 0x3003);
    put_u64(&mut data, 0x3000, 0x4003);
    put_u64(&mut data, 0x4000, 0xA025);
    data
}

#[test]
fn walk_small_page() {
    let mem = memory(small_page_tables());
    let root = GuestPhysAddr(0x1000);
    assert_eq!(virtual_to_physical(&mem, root, GuestVirtAddr(0)), Ok(GuestPhysAddr(0xA000)));
    assert_eq!(virtual_to_physical(&mem, root, GuestVirtAddr(0x123)), Ok(GuestPhysAddr(0xA123)));
}

#[test]
fn walk_large_page() {
    let mut data = small_page_tables();
    put_u64(&mut data, 0x3000, 0x0060_0083);
    let mem = memory(data);
    // The offset in a 2 MiB page is bits 0 to 20 of the address.
    assert_eq!(
        virtual_to_physical(&mem, GuestPhysAddr(0x1000), GuestVirtAddr(0x0015_5000)),
        Ok(GuestPhysAddr(0x0075_5000))
    );
    assert_eq!(
        virtual_to_physical(&mem, GuestPhysAddr(0x1000), GuestVirtAddr(0x0001_5000)),
        Ok(GuestPhysAddr(0x0061_5000))
    );
}

#[test]
fn walk_huge_page() {
    let mut data = small_page_tables();
    put_u64(&mut data, 0x2000, 0x4000_0083);
    let mem = memory(data);
    assert_eq!(
        virtual_to_physical(&mem, GuestPhysAddr(0x1000), GuestVirtAddr(0x1234_5678)),
        Ok(GuestPhysAddr(0x4000_0000 + 0x1234_5678))
    );
}

#[test]
fn walk_not_mapped() {
    let mem = memory(vec![0u8; 0x10000]);
    assert_eq!(
        virtual_to_physical(&mem, GuestPhysAddr(0x1000), GuestVirtAddr(0x7fff_1234)),
        Err(TranslationError::NotMapped)
    );
}

#[test]
fn walk_table_outside_memory() {
    let mem = memory(vec![0u8; 0x100]);
    assert_eq!(
        virtual_to_physical(&mem, GuestPhysAddr(0x1000), GuestVirtAddr(0)),
        Err(TranslationError::Memory(MemoryAccessError::OutOfBounds))
    );
}

#[test]
fn address_slices_rebuild_address() {
    for v in [0u64, 0x123, 0x0000_7fff_ffff_ffff, 0x0000_1234_5678_9abc] {
        let a = GuestVirtAddr(v);
        let rebuilt = (a.pml4e() << 39) | (a.pdpe() << 30) | (a.pde() << 21) | (a.pte() << 12) | a.page_offset();
        assert_eq!(rebuilt, v);
    }
    let a = GuestVirtAddr(0x0000_1234_5678_9abc);
    assert_eq!(a.large_page_offset(), 0x0000_1234_5678_9abc & 0x1f_ffff);
    assert_eq!(a.huge_page_offset(), 0x0000_1234_5678_9abc & 0x3fff_ffff);
}

#[test]
fn frames_are_aligned() {
    let e = MmPte(0xffff_ffff_ffff_ffff);
    assert!(e.is_valid());
    assert!(e.is_large());
    assert_eq!(e.page_frame().0, 0x0000_ffff_ffff_f000);
    assert_eq!(e.large_page_frame().0, 0x000f_ffff_ffe0_0000);
    assert_eq!(e.huge_page_frame().0, 0x000f_ffff_c000_0000);
    assert_eq!(e.page_frame().0 & mask(12), 0);
    assert_eq!(e.large_page_frame().0 & mask(21), 0);
    assert_eq!(e.huge_page_frame().0 & mask(30), 0);
    assert!(!MmPte(0x80).is_valid());
}

#[test]
fn mask_values() {
    assert_eq!(mask(0), 0);
    assert_eq!(mask(9), 0x1ff);
    assert_eq!(mask(40), 0xff_ffff_ffff);
}

#[test]
fn identity_mapping_translates_to_itself() {
    let mut data = vec![0u8; 0x4000];
    put_u64(&mut data, 0x1000, 0x2003);
    for i in 0..512u64 {
        put_u64(&mut data, 0x2000 + 8 * i as usize, (i << 30) | 0x83);
    }
    let mem = memory(data);
    for v in [0u64, 0x1234, 0x4000_0000, 0x7f_ffff_ffff, 0x12_3456_789a] {
        assert_eq!(virtual_to_physical(&mem, GuestPhysAddr(0x1000), GuestVirtAddr(v)), Ok(GuestPhysAddr(v)));
    }
}

/// Pages 0 and 1 map to frames 0x8000 and 0x5000: not contiguous.
fn split_pages() -> RawMemory {
    let mut data = vec![0u8; 0x10000];
    put_u64(&mut data, 0x1000, 0x2003);
    put_u64(&mut data, 0x2000, 0x3003);
    put_u64(&mut data, 0x3000, 0x4003);
    put_u64(&mut data, 0x4000, 0x8003);
    put_u64(&mut data, 0x4008, 0x5003);
    for i in 0..0x1000 {
        data[0x8000 + i] = (i % 251) as u8;
        data[0x5000 + i] = (i % 13) as u8 + 100;
    }
    memory(data)
}

#[test]
fn read_across_page_boundary() {
    let mem = split_pages();
    let root = GuestPhysAddr(0x1000);
    let whole = read_virtual_memory(&mem, root, GuestVirtAddr(0xff0), 0x20).unwrap();
    let head = read_virtual_memory(&mem, root, GuestVirtAddr(0xff0), 0x10).unwrap();
    let tail = read_virtual_memory(&mem, root, GuestVirtAddr(0x1000), 0x10).unwrap();
    let mut stitched = head.clone();
    stitched.extend_from_slice(&tail);
    assert_eq!(whole, stitched);
    assert_eq!(head[0], (0xff0 % 251) as u8);
    assert_eq!(tail[0], 100);
}

#[test]
fn read_value_across_pages() {
    let mem = split_pages();
    let v = read_u64_virtual(&mem, GuestPhysAddr(0x1000), GuestVirtAddr(0xffc)).unwrap();
    let b = v.to_le_bytes();
    assert_eq!(b[0], (0xffc % 251) as u8);
    assert_eq!(b[4], 100);
}

#[test]
fn lenient_read_fills_unmapped_pages() {
    let mem = split_pages();
    let root = GuestPhysAddr(0x1000);
    assert_eq!(
        read_virtual_memory(&mem, root, GuestVirtAddr(0x1ff8), 0x10),
        Err(TranslationError::NotMapped)
    );
    let r = try_read_virtual_memory(&mem, root, GuestVirtAddr(0x1ff8), 0x10).unwrap();
    assert_eq!(r.len(), 0x10);
    assert_eq!(&r[8..], &[0u8; 8]);
    assert_eq!(r[0], (0xff8 % 13) as u8 + 100);
}

#[test]
fn physical_reads_respect_regions() {
    let mem = RawMemory::new(vec![
        MemoryRegion { start: GuestPhysAddr(0x1000), data: vec![1, 2, 3, 4] },
        MemoryRegion { start: GuestPhysAddr(0x1004), data: vec![5, 6] },
    ])
    .unwrap();
    assert_eq!(mem.read_physical(GuestPhysAddr(0x1002), 4), Ok(vec![3, 4, 5, 6]));
    assert_eq!(mem.read_physical(GuestPhysAddr(0x1002), 5), Err(MemoryAccessError::OutOfBounds));
    assert_eq!(mem.read_physical(GuestPhysAddr(0xfff), 1), Err(MemoryAccessError::OutOfBounds));
    assert_eq!(mem.read_physical(GuestPhysAddr(u64::MAX), 2), Err(MemoryAccessError::OutOfBounds));
}

#[test]
fn overlapping_regions_are_refused() {
    let r = RawMemory::new(vec![
        MemoryRegion { start: GuestPhysAddr(0x1000), data: vec![0; 0x10] },
        MemoryRegion { start: GuestPhysAddr(0x100f), data: vec![0; 0x10] },
    ]);
    assert!(r.is_none());
    let r = RawMemory::new(vec![MemoryRegion { start: GuestPhysAddr(u64::MAX), data: vec![0; 2] }]);
    assert!(r.is_none());
}

#[test]
fn address_arithmetic() {
    assert_eq!(GuestVirtAddr(0x10).diff(GuestVirtAddr(0x20)), -0x10);
    assert_eq!(GuestVirtAddr(0).diff(GuestVirtAddr(u64::MAX)), 1);
    assert_eq!(GuestVirtAddr(0x10).add_signed(-0x10), GuestVirtAddr(0));
    assert_eq!(GuestPhysAddr(0x10).add_offset(0x10), GuestPhysAddr(0x20));
    assert!(GuestVirtAddr(0xffff_8000_0000_0000).is_kernel());
    assert!(!GuestVirtAddr(0x7fff_0000_0000).is_kernel());
}
