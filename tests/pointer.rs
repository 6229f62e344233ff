use vminer::addr::{GuestPhysAddr, GuestVirtAddr};
use vminer::arch::Vcpu;
use vminer::backend::{Backend, Dump, RuntimeBackend};
use vminer::builder::{os_builder, EmptyLoader, OsBuilder, SymbolLoader};
use vminer::error::{VcpuError, VmError};
use vminer::layout::{Struct, StructField, TypeKind};
use vminer::mem::{Memory, MemoryRegion, RawMemory};
use vminer::os::{Process, VmaFlags};
use vminer::pointer::{KernelSpace, Pointer, ProcSpace, Space};

fn put_u64(data: &mut [u8], at: usize, v: u64) {
    data[at..at + 8].copy_from_slice(&v.to_le_bytes());
}

/// Kernel tables at 0x1000 map the first 2 MiB to themselves; process tables
/// at 0x4000 map the first 2 MiB to 0x200000.
fn memory() -> RawMemory {
    let mut data = vec![0u8; 0x400000];
    put_u64(&mut data, 0x1000, 0x2003);
    put_u64(&mut data, 0x2000, 0x3003);
    put_u64(&mut data, 0x3000, 0x83);
    put_u64(&mut data, 0x4000, 0x5003);
    put_u64(&mut data, 0x5000, 0x6003);
    put_u64(&mut data, 0x6000, 0x20_0083);
    put_u64(&mut data, 0x8008, 0x9000);
    put_u64(&mut data, 0x20_8008, 0x1234);
    RawMemory::new(vec![MemoryRegion { start: GuestPhysAddr(0), data }]).unwrap()
}

#[test]
fn pointer_reads_by_space() {
    let mem = memory();
    let kpgd = GuestPhysAddr(0x1000);
    let k = Pointer::new(GuestVirtAddr(0x8000), Space::Kernel(KernelSpace));
    assert_eq!(k.read_field(&mem, kpgd, 8), Ok(0x9000));
    let next = k.read_pointer_field(&mem, kpgd, 8).unwrap();
    assert_eq!(next.addr, GuestVirtAddr(0x9000));
    let u = k.switch_to_userspace(Process(GuestPhysAddr(0x100)), GuestPhysAddr(0x4000));
    assert_eq!(u.ctx, Space::Proc(ProcSpace { proc: Process(GuestPhysAddr(0x100)), pgd: GuestPhysAddr(0x4000) }));
    assert_eq!(u.read_field(&mem, kpgd, 8), Ok(0x1234));
}

#[test]
fn null_pointer_and_fields() {
    let mem = memory();
    let null = Pointer::new(GuestVirtAddr(0), Space::Kernel(KernelSpace));
    assert!(null.is_null());
    assert_eq!(null.field(8), Err(VmError::NullPointer));
    assert_eq!(null.read_u64(&mem, GuestPhysAddr(0x1000)), Err(VmError::NullPointer));
    let s = Struct {
        size: 0x20,
        name: "list_head".to_owned(),
        fields: vec![
            StructField { name: "next".to_owned(), offset: 0, typ: TypeKind::Unknown },
            StructField { name: "prev".to_owned(), offset: 8, typ: TypeKind::Unknown },
        ],
    };
    let p = Pointer::new(GuestVirtAddr(0x8000), Space::Kernel(KernelSpace));
    assert_eq!(p.field_named(&s.borrow(), "prev").unwrap().addr, GuestVirtAddr(0x8008));
    assert!(matches!(p.field_named(&s.borrow(), "other"), Err(VmError::MissingField(_, _))));
}

#[test]
fn runtime_backend_delegates() {
    let mut vcpu = Vcpu::default();
    vcpu.special_registers.cr3 = 0x1234_5fff;
    vcpu.registers.rip = 0x40_1000;
    vcpu.other_registers.kernel_gs_base = 0xffff_8880_0000_0000;
    vcpu.special_registers.cs.selector = 0x33;
    let b = RuntimeBackend(Dump::new(memory(), vec![vcpu]));
    assert_eq!(b.vcpus_count(), 1);
    let v = b.vcpu(0).unwrap();
    assert_eq!(v.pgd(), GuestPhysAddr(0x1234_5000));
    assert_eq!(v.instruction_pointer(), GuestVirtAddr(0x40_1000));
    assert_eq!(v.kernel_per_cpu(), GuestVirtAddr(0xffff_8880_0000_0000));
    assert_eq!(b.vcpu(1), Err(VcpuError::InvalidId));
    assert_eq!(b.read_physical(GuestPhysAddr(0x8008), 2), Ok(vec![0x00, 0x90]));
}

#[test]
fn builder_and_loader() {
    let b: OsBuilder = os_builder().with_kpgd(GuestPhysAddr(0x1000)).with_version("6.1".to_owned());
    assert_eq!(b.kpgd, Some(GuestPhysAddr(0x1000)));
    assert_eq!(b.version.as_deref(), Some("6.1"));
    assert!(b.kaslr.is_none());
    let b = b.with_kaslr(GuestVirtAddr(0xffff_ffff_8100_0000));
    assert_eq!(b.kaslr, Some(GuestVirtAddr(0xffff_ffff_8100_0000)));
    assert!(EmptyLoader.load("ntkrnlmp.pdb", "ABC1").unwrap().is_none());
}

#[test]
fn area_flags() {
    let f = VmaFlags(0x1).union(VmaFlags(0x4));
    assert!(f.is_read());
    assert!(!f.is_write());
    assert!(f.is_exec());
}
