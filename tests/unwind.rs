use vminer::addr::{GuestPhysAddr, GuestVirtAddr};
use vminer::callstack::{caller_stack_pointer, init_unwind_data, iter_callstack, Context, MAX_FRAMES};
use vminer::error::VmError;
use vminer::mem::{MemoryRegion, RawMemory};
use vminer::os::Vma;
use vminer::unwind::{
    parse_directory_range, parse_unwind_codes, read_slice, read_u16, read_u32, read_u8, FunctionEntry,
    UnwindData,
};

fn put_u16(data: &mut [u8], at: usize, v: u16) {
    data[at..at + 2].copy_from_slice(&v.to_le_bytes());
}

fn put_u32(data: &mut [u8], at: usize, v: u32) {
    data[at..at + 4].copy_from_slice(&v.to_le_bytes());
}

fn put_u64(data: &mut [u8], at: usize, v: u64) {
    data[at..at + 8].copy_from_slice(&v.to_le_bytes());
}

#[test]
fn unwind_code_sizes() {
    // ALLOC_SMALL with operand 5.
    assert_eq!(parse_unwind_codes(&[0x02, 0x52], 1), Some(48));
    // ALLOC_LARGE with operand 0, then the size in 8-byte units.
    assert_eq!(parse_unwind_codes(&[0x30, 0x01, 0x00, 0x10], 1), Some(32768));
    // ALLOC_LARGE with operand 1, then the size in bytes.
    assert_eq!(parse_unwind_codes(&[0x00, 0x11, 0x10, 0x00, 0x01, 0x00], 1), Some(0x10010));
    // PUSH_NONVOL twice, SET_FPREG, SAVE_NONVOL with its slot.
    assert_eq!(parse_unwind_codes(&[0x01, 0x50, 0x02, 0x30, 0x03, 0x03, 0x04, 0x04, 0x00, 0x00], 1), Some(16));
    // PUSH_MACHFRAME with and without error code.
    assert_eq!(parse_unwind_codes(&[0x00, 0x0a], 1), Some(0x28));
    assert_eq!(parse_unwind_codes(&[0x00, 0x1a], 1), Some(0x30));
    assert_eq!(parse_unwind_codes(&[], 1), Some(0));
}

#[test]
fn unwind_code_errors() {
    // An odd byte left over.
    assert_eq!(parse_unwind_codes(&[0x02], 1), None);
    // EPILOG is known in version 2 only.
    assert_eq!(parse_unwind_codes(&[0x00, 0x06, 0x00, 0x00], 1), None);
    assert_eq!(parse_unwind_codes(&[0x00, 0x06, 0x00, 0x00], 2), Some(0));
    // ALLOC_LARGE without its slot, or with an unknown operand.
    assert_eq!(parse_unwind_codes(&[0x00, 0x01], 1), None);
    assert_eq!(parse_unwind_codes(&[0x00, 0x21, 0x00, 0x00], 1), None);
    // Operation 7 does not exist.
    assert_eq!(parse_unwind_codes(&[0x00, 0x07], 1), None);
    // A total past 32 bits.
    assert_eq!(
        parse_unwind_codes(&[0x00, 0x11, 0xff, 0xff, 0xff, 0xff, 0x00, 0x00], 1),
        None
    );
}

#[test]
fn cursor_reads() {
    let b = [1u8, 2, 3, 4, 5, 6, 7];
    let mut pos = 0usize;
    assert_eq!(read_u8(&b, &mut pos), Some(1));
    assert_eq!(read_u16(&b, &mut pos), Some(0x0302));
    assert_eq!(read_u32(&b, &mut pos), Some(0x07060504));
    assert_eq!(pos, 7);
    assert_eq!(read_u8(&b, &mut pos), None);
    let mut pos = 5usize;
    assert_eq!(read_u32(&b, &mut pos), None);
    assert_eq!(pos, 5);
    assert_eq!(read_slice(&b, &mut pos, 2), Some(&b[5..7]));
    assert_eq!(read_slice(&b, &mut pos, 1), None);
}

/// An exception directory of two functions at 0x100, the second chained to
/// the first.
fn directory_image() -> Vec<u8> {
    let mut pe = vec![0u8; 0x200];
    // Directory: (start, end, unwind info).
    put_u32(&mut pe, 0x100, 0x1000);
    put_u32(&mut pe, 0x104, 0x1100);
    put_u32(&mut pe, 0x108, 0x180);
    put_u32(&mut pe, 0x10c, 0x1100);
    put_u32(&mut pe, 0x110, 0x1200);
    put_u32(&mut pe, 0x114, 0x1a0);
    // Version 1, one code: ALLOC_SMALL 3 -> 32 bytes.
    pe[0x180] = 0x01;
    pe[0x182] = 0x01;
    pe[0x184] = 0x04;
    pe[0x185] = 0x32;
    // Version 1, chained, one code: PUSH_NONVOL -> 8 bytes, then the parent.
    pe[0x1a0] = 0x21;
    pe[0x1a2] = 0x01;
    pe[0x1a4] = 0x01;
    pe[0x1a5] = 0x00;
    put_u32(&mut pe, 0x1a6, 0x1000);
    put_u32(&mut pe, 0x1aa, 0x1100);
    put_u32(&mut pe, 0x1ae, 0x180);
    pe
}

#[test]
fn directory_entries() {
    let pe = directory_image();
    let entries = parse_directory_range(&pe, 0x100, 24).unwrap();
    assert_eq!(entries.len(), 2);
    assert_eq!(entries[0].start, 0x1000);
    assert_eq!(entries[0].stack_frame_size, 32);
    assert!(entries[0].mother.is_none());
    assert_eq!(entries[1].stack_frame_size, 8);
    assert_eq!(entries[1].mother.unwrap().start, 0x1000);
    assert!(parse_directory_range(&pe, 0x100, 20).is_none());
    assert!(parse_directory_range(&pe, 0x1f8, 12).is_none());
    let mut bad = pe.clone();
    bad[0x180] = 0x03;
    assert!(parse_directory_range(&bad, 0x100, 24).is_none());
}

#[test]
fn function_lookup_and_caller_sp() {
    let pe = directory_image();
    let entries = parse_directory_range(&pe, 0x100, 24).unwrap();
    let mut reversed: Vec<FunctionEntry> = entries.iter().rev().copied().collect();
    reversed.push(FunctionEntry { start: 0x3000, end: 0x3010, stack_frame_size: 0, mother: None });
    let data = UnwindData::new(GuestVirtAddr(0x40_0000), reversed);
    assert_eq!(data.find_by_offset(0x1000).unwrap().stack_frame_size, 32);
    assert_eq!(data.find_by_offset(0x10ff).unwrap().start, 0x1000);
    assert_eq!(data.find_by_offset(0x1150).unwrap().start, 0x1100);
    assert!(data.find_by_offset(0x1200).is_none());
    assert!(data.find_by_offset(0x500).is_none());
    let sp = GuestVirtAddr(0x7000);
    assert_eq!(caller_stack_pointer(&data, GuestVirtAddr(0x40_1010), sp), Ok(GuestVirtAddr(0x7020)));
    assert_eq!(caller_stack_pointer(&data, GuestVirtAddr(0x40_1110), sp), Ok(GuestVirtAddr(0x7028)));
    assert_eq!(caller_stack_pointer(&data, GuestVirtAddr(0x40_2000), sp), Ok(sp));
}

/// A 64-bit PE image of one page with an exception directory at 0x200 of
/// `size` bytes.
fn pe_image(entries: &[(u32, u32, u32)], infos: &[(usize, &[u8])]) -> Vec<u8> {
    let mut pe = vec![0u8; 0x1000];
    pe[0] = b'M';
    pe[1] = b'Z';
    put_u32(&mut pe, 0x3c, 0x40);
    pe[0x40..0x44].copy_from_slice(b"PE\0\0");
    put_u16(&mut pe, 0x44, 0x8664);
    put_u16(&mut pe, 0x54, 0xf0);
    put_u16(&mut pe, 0x58, 0x20b);
    put_u32(&mut pe, 0x58 + 108, 16);
    put_u32(&mut pe, 0xc8 + 3 * 8, 0x200);
    put_u32(&mut pe, 0xc8 + 3 * 8 + 4, 12 * entries.len() as u32);
    for (i, (s, e, p)) in entries.iter().enumerate() {
        put_u32(&mut pe, 0x200 + 12 * i, *s);
        put_u32(&mut pe, 0x204 + 12 * i, *e);
        put_u32(&mut pe, 0x208 + 12 * i, *p);
    }
    for (at, bytes) in infos {
        pe[*at..*at + bytes.len()].copy_from_slice(bytes);
    }
    pe
}

/// Memory with identity page tables for the first 2 MiB, the image at
/// 0x10000 and the stack page at 0x18000.
fn guest(image: &[u8], stack: &[(usize, u64)]) -> RawMemory {
    let mut data = vec![0u8; 0x20000];
    put_u64(&mut data, 0x1000, 0x2003);
    put_u64(&mut data, 0x2000, 0x3003);
    put_u64(&mut data, 0x3000, 0x83);
    data[0x10000..0x10000 + image.len()].copy_from_slice(image);
    for (at, v) in stack {
        put_u64(&mut data, *at, *v);
    }
    RawMemory::new(vec![MemoryRegion { start: GuestPhysAddr(0), data }]).unwrap()
}

fn context() -> Context {
    Context::new(
        GuestPhysAddr(0x1000),
        vec![(GuestVirtAddr(0x10000), GuestVirtAddr(0x11000), Vma(GuestPhysAddr(0x10000)))],
    )
}

#[test]
fn leaf_function_walk() {
    let mem = guest(&pe_image(&[], &[]), &[(0x18000, 0)]);
    let mut ctx = context();
    let frames = iter_callstack(&mem, &mut ctx, GuestVirtAddr(0x10100), GuestVirtAddr(0x18000)).unwrap();
    assert_eq!(frames.len(), 1);
    assert_eq!(frames[0].instruction_pointer, GuestVirtAddr(0x10100));
    assert_eq!(frames[0].stack_pointer, GuestVirtAddr(0x18000));
    assert_eq!(frames[0].vma, Vma(GuestPhysAddr(0x10000)));
}

#[test]
fn walk_through_frames() {
    // Function at 0x100..0x200 allocates 0x20 bytes.
    let image = pe_image(&[(0x100, 0x200, 0x300)], &[(0x300, &[0x01, 0x01, 0x01, 0x00, 0x04, 0x32])]);
    let mem = guest(
        &image,
        &[(0x18020, 0x10150), (0x18048, 0x10400), (0x18050, 0)],
    );
    let mut ctx = context();
    let frames = iter_callstack(&mem, &mut ctx, GuestVirtAddr(0x10120), GuestVirtAddr(0x18000)).unwrap();
    let ips: Vec<u64> = frames.iter().map(|f| f.instruction_pointer.0).collect();
    let sps: Vec<u64> = frames.iter().map(|f| f.stack_pointer.0).collect();
    assert_eq!(ips, vec![0x10120, 0x10150, 0x10400]);
    assert_eq!(sps, vec![0x18000, 0x18028, 0x18050]);
}

#[test]
fn walk_errors() {
    let mem = guest(&pe_image(&[], &[]), &[(0x18000, 0x12345)]);
    let mut ctx = context();
    assert_eq!(
        iter_callstack(&mem, &mut ctx, GuestVirtAddr(0xffff_8000_0000_1000), GuestVirtAddr(0x18000)),
        Err(VmError::Other("encountered kernel IP".to_owned()))
    );
    assert_eq!(
        iter_callstack(&mem, &mut ctx, GuestVirtAddr(0x10100), GuestVirtAddr(0x18000)),
        Err(VmError::Other("encountered unmapped page".to_owned()))
    );
    let bad = guest(&[0u8; 0x100], &[(0x18000, 0)]);
    let mut ctx = context();
    assert_eq!(
        iter_callstack(&bad, &mut ctx, GuestVirtAddr(0x10100), GuestVirtAddr(0x18000)),
        Err(VmError::Other("cannot get unwind data".to_owned()))
    );
}

#[test]
fn endless_stack_is_cut() {
    // Every return address points back into the module: the walk gives up.
    let mut stack = Vec::new();
    for i in 0..(MAX_FRAMES + 8) {
        stack.push((0x18000 + 8 * i, 0x10100u64));
    }
    let mut data = vec![0u8; 0x20000];
    put_u64(&mut data, 0x1000, 0x2003);
    put_u64(&mut data, 0x2000, 0x3003);
    put_u64(&mut data, 0x3000, 0x83);
    let image = pe_image(&[], &[]);
    data[0x10000..0x11000].copy_from_slice(&image);
    for (at, v) in &stack {
        if *at + 8 <= data.len() {
            put_u64(&mut data, *at, *v);
        }
    }
    let mem = RawMemory::new(vec![MemoryRegion { start: GuestPhysAddr(0), data }]).unwrap();
    let mut ctx = context();
    let r = iter_callstack(&mem, &mut ctx, GuestVirtAddr(0x10100), GuestVirtAddr(0x18000));
    assert!(r.is_err());
}

#[test]
fn unwind_data_of_image() {
    let image = pe_image(&[(0x100, 0x200, 0x300)], &[(0x300, &[0x01, 0x01, 0x01, 0x00, 0x04, 0x32])]);
    let mem = guest(&image, &[]);
    let data = init_unwind_data(&mem, GuestPhysAddr(0x1000), GuestVirtAddr(0x10000), GuestVirtAddr(0x11000)).unwrap();
    assert_eq!(data.offset(), GuestVirtAddr(0x10000));
    assert_eq!(data.find_by_offset(0x180).unwrap().stack_frame_size, 32);
}
