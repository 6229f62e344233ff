use vminer::addr::{GuestPhysAddr, GuestVirtAddr};
use vminer::arch::Vcpu;
use vminer::backend::Dump;
use vminer::error::{VcpuError, VmError};
use vminer::layout::{Struct, StructField, TypeKind};
use vminer::linux::Linux;
use vminer::mem::{MemoryRegion, RawMemory};
use vminer::os::{Process, Thread};
use vminer::profile::Profile;
use vminer::symbols::{ModuleSymbols, ModuleSymbolsBuilder};

fn put_u64(data: &mut [u8], at: usize, v: u64) {
    data[at..at + 8].copy_from_slice(&v.to_le_bytes());
}

fn put_u32(data: &mut [u8], at: usize, v: u32) {
    data[at..at + 4].copy_from_slice(&v.to_le_bytes());
}

fn pe_image() -> Vec<u8> {
    let mut pe = vec![0u8; 0x1000];
    pe[0] = b'M';
    pe[1] = b'Z';
    put_u32(&mut pe, 0x3c, 0x40);
    pe[0x40..0x44].copy_from_slice(b"PE\0\0");
    pe[0x44..0x46].copy_from_slice(&0x8664u16.to_le_bytes());
    pe[0x54..0x56].copy_from_slice(&0xf0u16.to_le_bytes());
    pe[0x58..0x5a].copy_from_slice(&0x20bu16.to_le_bytes());
    put_u32(&mut pe, 0x58 + 108, 16);
    put_u32(&mut pe, 0xc8 + 3 * 8, 0x200);
    pe
}

fn layout(name: &str, size: u64, fields: &[(&str, u64)]) -> Struct {
    Struct {
        size,
        name: name.to_owned(),
        fields: fields
            .iter()
            .map(|(n, o)| StructField { name: (*n).to_owned(), offset: *o, typ: TypeKind::Unknown })
            .collect(),
    }
}

fn kernel_symbols() -> ModuleSymbols {
    let mut b = ModuleSymbolsBuilder::new();
    b.push(GuestVirtAddr(0), "__per_cpu_start");
    b.push(GuestVirtAddr(0x100), "current_task");
    b.push(GuestVirtAddr(0x8000), "init_task");
    b.insert_struct(layout("list_head", 16, &[("next", 0), ("prev", 8)]));
    b.insert_struct(layout(
        "task_struct",
        0x100,
        &[
            ("tasks", 0x10),
            ("pid", 0x20),
            ("tgid", 0x24),
            ("comm", 0x28),
            ("mm", 0x38),
            ("active_mm", 0x40),
            ("group_leader", 0x48),
            ("real_parent", 0x50),
            ("children", 0x58),
            ("sibling", 0x68),
            ("thread_group", 0x78),
        ],
    ));
    b.insert_struct(layout("mm_struct", 0x40, &[("mmap", 0), ("pgd", 8)]));
    b.insert_struct(layout(
        "vm_area_struct",
        0x40,
        &[("vm_start", 0), ("vm_end", 8), ("vm_next", 0x10), ("vm_file", 0x18)],
    ));
    b.insert_struct(layout("dentry", 0x40, &[("d_parent", 0), ("d_name", 8)]));
    b.insert_struct(layout("file", 0x40, &[("f_path", 0)]));
    b.insert_struct(layout("path", 0x10, &[("mnt", 0), ("dentry", 8)]));
    b.insert_struct(layout("qstr", 0x10, &[("hash", 0), ("name", 8)]));
    b.build()
}

/// A guest whose first 2 MiB are mapped to themselves, with `init_task` at
/// 0x8000 and one child task at 0x9000 that runs on vCPU 0.
fn guest() -> Linux<Dump> {
    let mut data = vec![0u8; 0x20000];
    put_u64(&mut data, 0x1000, 0x2003);
    put_u64(&mut data, 0x2000, 0x3003);
    put_u64(&mut data, 0x3000, 0x83);
    // tasks: init <-> child
    put_u64(&mut data, 0x8010, 0x9010);
    put_u64(&mut data, 0x9010, 0x8010);
    put_u32(&mut data, 0x8020, 0);
    put_u32(&mut data, 0x9020, 42);
    put_u64(&mut data, 0x8048, 0x8000);
    put_u64(&mut data, 0x9048, 0x9000);
    put_u64(&mut data, 0x9050, 0x8000);
    // children of init: the child's sibling link
    put_u64(&mut data, 0x8058, 0x9068);
    put_u64(&mut data, 0x9068, 0x8058);
    put_u64(&mut data, 0x9058, 0x9058);
    // thread groups of one task each
    put_u64(&mut data, 0x8078, 0x8078);
    put_u64(&mut data, 0x9078, 0x9078);
    // per-CPU current_task of vCPU 0
    put_u64(&mut data, 0x5100, 0x9000);
    // names
    data[0x8028..0x802d].copy_from_slice(b"init\0");
    data[0x9028..0x9038].copy_from_slice(b"worker-with-16ch");
    // the child's memory: mm at 0xa000, one area at 0xb000 over 0x10000..0x11000
    put_u64(&mut data, 0x9038, 0xa000);
    put_u64(&mut data, 0xa000, 0xb000);
    put_u64(&mut data, 0xa008, 0x1000);
    put_u64(&mut data, 0xb000, 0x10000);
    put_u64(&mut data, 0xb008, 0x11000);
    put_u64(&mut data, 0xb010, 0);
    // the area maps /usr/bin/app: file at 0xc000, dentries from 0xd000 up
    put_u64(&mut data, 0xb018, 0xc000);
    put_u64(&mut data, 0xc008, 0xd000);
    for (dentry, parent, name_at, name) in [
        (0xd000usize, 0xd100u64, 0xe000u64, &b"app\0"[..]),
        (0xd100, 0xd200, 0xe100, &b"bin\0"[..]),
        (0xd200, 0xd300, 0xe200, &b"usr\0"[..]),
    ] {
        put_u64(&mut data, dentry, parent);
        put_u64(&mut data, dentry + 0x10, name_at);
        data[name_at as usize..name_at as usize + name.len()].copy_from_slice(name);
    }
    put_u64(&mut data, 0xd300, 0xd300);
    // a PE image without functions in that area, and a stack ending at once
    let image = pe_image();
    data[0x10000..0x11000].copy_from_slice(&image);
    put_u64(&mut data, 0x18000, 0);
    let memory = RawMemory::new(vec![MemoryRegion { start: GuestPhysAddr(0), data }]).unwrap();
    let mut vcpu = Vcpu::default();
    vcpu.other_registers.gs_base = 0x5000;
    vcpu.registers.rip = 0x10100;
    vcpu.registers.rsp = 0x18000;
    vcpu.special_registers.cr3 = 0x1000;
    let profile = Profile::new(kernel_symbols()).unwrap();
    Linux::new(Dump::new(memory, vec![vcpu]), GuestPhysAddr(0x1000), profile)
}

#[test]
fn linux_process_list() {
    let linux = guest();
    let procs = linux.collect_processes().unwrap();
    assert_eq!(procs, vec![Process(GuestPhysAddr(0x8000)), Process(GuestPhysAddr(0x9000))]);
    let pids: Vec<u32> = procs.iter().map(|p| linux.process_pid(*p).unwrap()).collect();
    assert_eq!(pids, vec![0, 42]);
}

#[test]
fn process_list_is_stable() {
    let linux = guest();
    assert_eq!(linux.collect_processes().unwrap(), linux.collect_processes().unwrap());
}

#[test]
fn find_by_pid() {
    let linux = guest();
    assert_eq!(linux.find_process_by_pid(42), Ok(Some(Process(GuestPhysAddr(0x9000)))));
    assert_eq!(linux.find_process_by_pid(0), Ok(Some(Process(GuestPhysAddr(0x8000)))));
    assert_eq!(linux.find_process_by_pid(7), Ok(None));
}

#[test]
fn current_task_of_vcpu() {
    let linux = guest();
    assert_eq!(linux.current_thread(0), Ok(Thread(GuestPhysAddr(0x9000))));
    assert_eq!(linux.current_process(0), Ok(Process(GuestPhysAddr(0x9000))));
    assert_eq!(linux.current_thread(1), Err(VmError::Vcpu(VcpuError::InvalidId)));
}

#[test]
fn family_and_threads() {
    let linux = guest();
    let init = linux.init_process().unwrap();
    assert_eq!(init, Process(GuestPhysAddr(0x8000)));
    assert_eq!(linux.process_collect_children(init), Ok(vec![Process(GuestPhysAddr(0x9000))]));
    let child = Process(GuestPhysAddr(0x9000));
    assert_eq!(linux.process_parent(child), Ok(init));
    assert_eq!(linux.process_collect_threads(child), Ok(vec![Thread(GuestPhysAddr(0x9000))]));
    assert_eq!(linux.process_collect_children(child), Ok(vec![]));
    assert_eq!(linux.thread_id(Thread(GuestPhysAddr(0x9000))), Ok(42));
}

#[test]
fn corrupt_list_is_reported() {
    let linux = guest();
    // The list read from 0x10000 never comes back: its nodes point to 0x10000 + 0x10.
    let mut data = vec![0u8; 0x20000];
    put_u64(&mut data, 0x1000, 0x2003);
    put_u64(&mut data, 0x2000, 0x3003);
    put_u64(&mut data, 0x3000, 0x83);
    put_u64(&mut data, 0x8010, 0x9010);
    put_u64(&mut data, 0x9010, 0x9010);
    let memory = RawMemory::new(vec![MemoryRegion { start: GuestPhysAddr(0), data }]).unwrap();
    let broken = Linux::new(Dump::new(memory, vec![]), GuestPhysAddr(0x1000), linux.profile);
    assert!(matches!(broken.collect_processes(), Err(VmError::Other(_))));
}

#[test]
fn incomplete_profile_is_refused() {
    let mut b = ModuleSymbolsBuilder::new();
    b.push(GuestVirtAddr(0), "__per_cpu_start");
    assert!(matches!(Profile::new(b.build()), Err(VmError::MissingSymbol(_))));
    let mut b = ModuleSymbolsBuilder::new();
    b.push(GuestVirtAddr(0), "__per_cpu_start");
    b.push(GuestVirtAddr(0x100), "current_task");
    b.push(GuestVirtAddr(0x8000), "init_task");
    assert!(matches!(Profile::new(b.build()), Err(VmError::MissingSymbol(_))));
}

#[test]
fn names_and_kinds() {
    let linux = guest();
    let init = Process(GuestPhysAddr(0x8000));
    let child = Process(GuestPhysAddr(0x9000));
    assert_eq!(linux.process_name(init), Ok("init".to_owned()));
    assert_eq!(linux.process_name(child), Ok("worker-with-16ch".to_owned()));
    assert_eq!(linux.thread_name(Thread(GuestPhysAddr(0x8000))), Ok("init".to_owned()));
    assert_eq!(linux.process_is_kernel(init), Ok(true));
    assert_eq!(linux.process_is_kernel(child), Ok(false));
    assert_eq!(linux.find_process_by_name("worker-with-16ch"), Ok(Some(child)));
    assert_eq!(linux.find_process_by_name("absent"), Ok(None));
}

#[test]
fn memory_of_a_process() {
    let linux = guest();
    let child = Process(GuestPhysAddr(0x9000));
    assert_eq!(linux.process_pgd(child), Ok(GuestPhysAddr(0x1000)));
    let vmas = linux.process_collect_vmas(child).unwrap();
    assert_eq!(vmas.len(), 1);
    assert_eq!(linux.vma_start(vmas[0]), Ok(GuestVirtAddr(0x10000)));
    assert_eq!(linux.vma_end(vmas[0]), Ok(GuestVirtAddr(0x11000)));
}

#[test]
fn callstack_of_running_process() {
    let linux = guest();
    let frames = linux.process_callstack(Process(GuestPhysAddr(0x9000))).unwrap();
    assert_eq!(frames.len(), 1);
    assert_eq!(frames[0].instruction_pointer, GuestVirtAddr(0x10100));
    assert_eq!(
        linux.process_callstack(Process(GuestPhysAddr(0x8000))),
        Err(VmError::Other("not a running process".to_owned()))
    );
}

#[test]
fn file_of_an_area() {
    let linux = guest();
    let vmas = linux.process_collect_vmas(Process(GuestPhysAddr(0x9000))).unwrap();
    let path = linux.vma_file(vmas[0]).unwrap().unwrap();
    assert_eq!(linux.path_to_string(path), Ok("/usr/bin/app".to_owned()));
    assert_eq!(linux.path_to_string(vminer::os::Path(GuestPhysAddr(0xd300 - 8))), Ok("/".to_owned()));
}

#[test]
fn memory_and_translation_errors() {
    let linux = guest();
    assert_eq!(
        linux.thread_id(Thread(GuestPhysAddr(0x10_0000))),
        Err(VmError::Memory(vminer::mem::MemoryAccessError::OutOfBounds))
    );
    let profile = Profile::new(kernel_symbols_with_init(0x4000_0000)).unwrap();
    let empty = RawMemory::new(vec![]).unwrap();
    let broken = Linux::new(Dump::new(empty, vec![]), GuestPhysAddr(0x1000), profile);
    assert!(matches!(broken.init_process(), Err(VmError::Translation(_))));
    assert!(matches!(broken.collect_processes(), Err(VmError::Translation(_))));
}

fn kernel_symbols_with_init(init: u64) -> ModuleSymbols {
    let full = kernel_symbols();
    let mut b = ModuleSymbolsBuilder::new();
    b.push(GuestVirtAddr(0), "__per_cpu_start");
    b.push(GuestVirtAddr(0x100), "current_task");
    b.push(GuestVirtAddr(init), "init_task");
    for name in ["list_head", "task_struct", "mm_struct", "vm_area_struct", "dentry", "file", "path", "qstr"] {
        b.insert_struct(full.get_struct(name).unwrap().into_owned());
    }
    b.build()
}
