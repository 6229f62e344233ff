use vstd::prelude::*;

use crate::addr::GuestVirtAddr;
use crate::error::{VmError, VmResult};
use crate::layout::field_index;
use crate::symbols::{is_first_named, ModuleSymbols};

verus! {

/// Addresses of the kernel symbols that the traversals start from.
#[derive(Clone, Copy, Debug, PartialEq, Eq, Structural)]
pub struct FastSymbols {
    pub per_cpu_start: GuestVirtAddr,
    pub current_task: GuestVirtAddr,
    pub init_task: GuestVirtAddr,
}

/// Offsets of the kernel structure fields that the traversals read.
#[derive(Clone, Copy, Debug, PartialEq, Eq, Structural)]
pub struct FastOffsets {
    pub dentry_d_name: u64,
    pub dentry_d_parent: u64,
    pub file_f_path: u64,
    pub list_head_next: u64,
    pub list_head_prev: u64,
    pub task_struct_active_mm: u64,
    pub task_struct_children: u64,
    pub task_struct_comm: u64,
    pub task_struct_group_leader: u64,
    pub task_struct_mm: u64,
    pub task_struct_real_parent: u64,
    pub task_struct_pid: u64,
    pub task_struct_sibling: u64,
    pub task_struct_tasks: u64,
    pub task_struct_tgid: u64,
    pub task_struct_thread_group: u64,
    pub mm_struct_pgd: u64,
    pub mm_struct_mmap: u64,
    pub path_d_entry: u64,
    pub qstr_name: u64,
    pub vm_area_struct_vm_end: u64,
    pub vm_area_struct_vm_next: u64,
    pub vm_area_struct_vm_start: u64,
    pub vm_area_struct_vm_file: u64,
}

/// What the traversals of a Linux kernel need from its debug information.
pub struct Profile {
    pub syms: ModuleSymbols,
    pub fast_syms: FastSymbols,
    pub fast_offsets: FastOffsets,
}

/// The address of the first symbol named `name`.
pub open spec fn symbol_address(syms: &ModuleSymbols, name: Seq<char>) -> Option<u64> {
    if exists|i: int| is_first_named(syms.entries(), name, i) {
        Some(syms.entries()[choose|i: int| is_first_named(syms.entries(), name, i)].0)
    } else {
        None
    }
}

/// The offset of the first field named `field` of the structure `name`.
pub open spec fn field_offset(syms: &ModuleSymbols, name: Seq<char>, field: Seq<char>) -> Option<u64> {
    if syms.types().contains_key(name) {
        match field_index(syms.types()[name].fields@, field) {
            Some(i) => Some(syms.types()[name].fields@[i].offset),
            None => None,
        }
    } else {
        None
    }
}

/// Every symbol and field that a profile caches is there.
pub open spec fn profile_complete(syms: &ModuleSymbols) -> bool {
    symbol_address(syms, "__per_cpu_start"@) is Some
        && symbol_address(syms, "current_task"@) is Some
        && symbol_address(syms, "init_task"@) is Some
        && field_offset(syms, "dentry"@, "d_name"@) is Some
        && field_offset(syms, "dentry"@, "d_parent"@) is Some
        && field_offset(syms, "file"@, "f_path"@) is Some
        && field_offset(syms, "list_head"@, "next"@) is Some
        && field_offset(syms, "list_head"@, "prev"@) is Some
        && field_offset(syms, "task_struct"@, "active_mm"@) is Some
        && field_offset(syms, "task_struct"@, "children"@) is Some
        && field_offset(syms, "task_struct"@, "comm"@) is Some
        && field_offset(syms, "task_struct"@, "group_leader"@) is Some
        && field_offset(syms, "task_struct"@, "mm"@) is Some
        && field_offset(syms, "task_struct"@, "real_parent"@) is Some
        && field_offset(syms, "task_struct"@, "pid"@) is Some
        && field_offset(syms, "task_struct"@, "sibling"@) is Some
        && field_offset(syms, "task_struct"@, "tasks"@) is Some
        && field_offset(syms, "task_struct"@, "tgid"@) is Some
        && field_offset(syms, "task_struct"@, "thread_group"@) is Some
        && field_offset(syms, "mm_struct"@, "pgd"@) is Some
        && field_offset(syms, "mm_struct"@, "mmap"@) is Some
        && field_offset(syms, "path"@, "dentry"@) is Some
        && field_offset(syms, "qstr"@, "name"@) is Some
        && field_offset(syms, "vm_area_struct"@, "vm_end"@) is Some
        && field_offset(syms, "vm_area_struct"@, "vm_next"@) is Some
        && field_offset(syms, "vm_area_struct"@, "vm_start"@) is Some
        && field_offset(syms, "vm_area_struct"@, "vm_file"@) is Some
}

/// The address of the first symbol named `name`.
fn symbol(syms: &ModuleSymbols, name: &str) -> (r: VmResult<GuestVirtAddr>)
    ensures
        match symbol_address(syms, name@) {
            Some(a) => r == Ok::<GuestVirtAddr, VmError>(GuestVirtAddr(a)),
            None => r is Err,
        },
{
    let r = syms.require_address(name);
    proof {
        if let Ok(a) = r {
            let i = choose|i: int| is_first_named(syms.entries(), name@, i) && a.0 == #[trigger] syms.entries()[i].0;
            let c = choose|c: int| is_first_named(syms.entries(), name@, c);
            if c < i {
                assert(syms.entries()[c].1 == name@);
            } else if c > i {
                assert(syms.entries()[i].1 == name@);
            }
        } else {
            if exists|i: int| is_first_named(syms.entries(), name@, i) {
                let c = choose|c: int| is_first_named(syms.entries(), name@, c);
                assert(syms.entries()[c].1 == name@);
            }
        }
    }
    r
}

/// The offset of the first field named `field` of the structure `name`.
fn offset(syms: &ModuleSymbols, name: &str, field: &str) -> (r: VmResult<u64>)
    ensures
        match field_offset(syms, name@, field@) {
            Some(o) => r == Ok::<u64, VmError>(o),
            None => r is Err,
        },
{
    let s = syms.require_struct(name)?;
    s.require_offset(field)
}

impl Profile {
    /// Resolves and caches the symbols and field offsets that the traversals
    /// use; fails on the first one missing.
    pub fn new(syms: ModuleSymbols) -> (r: VmResult<Profile>)
        ensures
            r is Ok <==> profile_complete(&syms),
            r matches Ok(p) ==> {
                &&& p.syms == syms
                &&& symbol_address(&syms, "__per_cpu_start"@) == Some(p.fast_syms.per_cpu_start.0)
                &&& symbol_address(&syms, "current_task"@) == Some(p.fast_syms.current_task.0)
                &&& symbol_address(&syms, "init_task"@) == Some(p.fast_syms.init_task.0)
                &&& field_offset(&syms, "dentry"@, "d_name"@) == Some(p.fast_offsets.dentry_d_name)
                &&& field_offset(&syms, "dentry"@, "d_parent"@) == Some(p.fast_offsets.dentry_d_parent)
                &&& field_offset(&syms, "file"@, "f_path"@) == Some(p.fast_offsets.file_f_path)
                &&& field_offset(&syms, "list_head"@, "next"@) == Some(p.fast_offsets.list_head_next)
                &&& field_offset(&syms, "list_head"@, "prev"@) == Some(p.fast_offsets.list_head_prev)
                &&& field_offset(&syms, "task_struct"@, "active_mm"@) == Some(p.fast_offsets.task_struct_active_mm)
                &&& field_offset(&syms, "task_struct"@, "children"@) == Some(p.fast_offsets.task_struct_children)
                &&& field_offset(&syms, "task_struct"@, "comm"@) == Some(p.fast_offsets.task_struct_comm)
                &&& field_offset(&syms, "task_struct"@, "group_leader"@) == Some(p.fast_offsets.task_struct_group_leader)
                &&& field_offset(&syms, "task_struct"@, "mm"@) == Some(p.fast_offsets.task_struct_mm)
                &&& field_offset(&syms, "task_struct"@, "real_parent"@) == Some(p.fast_offsets.task_struct_real_parent)
                &&& field_offset(&syms, "task_struct"@, "pid"@) == Some(p.fast_offsets.task_struct_pid)
                &&& field_offset(&syms, "task_struct"@, "sibling"@) == Some(p.fast_offsets.task_struct_sibling)
                &&& field_offset(&syms, "task_struct"@, "tasks"@) == Some(p.fast_offsets.task_struct_tasks)
                &&& field_offset(&syms, "task_struct"@, "tgid"@) == Some(p.fast_offsets.task_struct_tgid)
                &&& field_offset(&syms, "task_struct"@, "thread_group"@) == Some(p.fast_offsets.task_struct_thread_group)
                &&& field_offset(&syms, "mm_struct"@, "pgd"@) == Some(p.fast_offsets.mm_struct_pgd)
                &&& field_offset(&syms, "mm_struct"@, "mmap"@) == Some(p.fast_offsets.mm_struct_mmap)
                &&& field_offset(&syms, "path"@, "dentry"@) == Some(p.fast_offsets.path_d_entry)
                &&& field_offset(&syms, "qstr"@, "name"@) == Some(p.fast_offsets.qstr_name)
                &&& field_offset(&syms, "vm_area_struct"@, "vm_end"@) == Some(p.fast_offsets.vm_area_struct_vm_end)
                &&& field_offset(&syms, "vm_area_struct"@, "vm_next"@) == Some(p.fast_offsets.vm_area_struct_vm_next)
                &&& field_offset(&syms, "vm_area_struct"@, "vm_start"@) == Some(p.fast_offsets.vm_area_struct_vm_start)
                &&& field_offset(&syms, "vm_area_struct"@, "vm_file"@) == Some(p.fast_offsets.vm_area_struct_vm_file)
            },
    {
        let per_cpu_start = symbol(&syms, "__per_cpu_start")?;
        let current_task = symbol(&syms, "current_task")?;
        let init_task = symbol(&syms, "init_task")?;
        let dentry_d_name = offset(&syms, "dentry", "d_name")?;
        let dentry_d_parent = offset(&syms, "dentry", "d_parent")?;
        let file_f_path = offset(&syms, "file", "f_path")?;
        let list_head_next = offset(&syms, "list_head", "next")?;
        let list_head_prev = offset(&syms, "list_head", "prev")?;
        let task_struct_active_mm = offset(&syms, "task_struct", "active_mm")?;
        let task_struct_children = offset(&syms, "task_struct", "children")?;
        let task_struct_comm = offset(&syms, "task_struct", "comm")?;
        let task_struct_group_leader = offset(&syms, "task_struct", "group_leader")?;
        let task_struct_mm = offset(&syms, "task_struct", "mm")?;
        let task_struct_real_parent = offset(&syms, "task_struct", "real_parent")?;
        let task_struct_pid = offset(&syms, "task_struct", "pid")?;
        let task_struct_sibling = offset(&syms, "task_struct", "sibling")?;
        let task_struct_tasks = offset(&syms, "task_struct", "tasks")?;
        let task_struct_tgid = offset(&syms, "task_struct", "tgid")?;
        let task_struct_thread_group = offset(&syms, "task_struct", "thread_group")?;
        let mm_struct_pgd = offset(&syms, "mm_struct", "pgd")?;
        let mm_struct_mmap = offset(&syms, "mm_struct", "mmap")?;
        let path_d_entry = offset(&syms, "path", "dentry")?;
        let qstr_name = offset(&syms, "qstr", "name")?;
        let vm_area_struct_vm_end = offset(&syms, "vm_area_struct", "vm_end")?;
        let vm_area_struct_vm_next = offset(&syms, "vm_area_struct", "vm_next")?;
        let vm_area_struct_vm_start = offset(&syms, "vm_area_struct", "vm_start")?;
        let vm_area_struct_vm_file = offset(&syms, "vm_area_struct", "vm_file")?;
        Ok(Profile {
            syms,
            fast_syms: FastSymbols { per_cpu_start, current_task, init_task },
            fast_offsets: FastOffsets {
                dentry_d_name,
                dentry_d_parent,
                file_f_path,
                list_head_next,
                list_head_prev,
                task_struct_active_mm,
                task_struct_children,
                task_struct_comm,
                task_struct_group_leader,
                task_struct_mm,
                task_struct_real_parent,
                task_struct_pid,
                task_struct_sibling,
                task_struct_tasks,
                task_struct_tgid,
                task_struct_thread_group,
                mm_struct_pgd,
                mm_struct_mmap,
                path_d_entry,
                qstr_name,
                vm_area_struct_vm_end,
                vm_area_struct_vm_next,
                vm_area_struct_vm_start,
                vm_area_struct_vm_file,
            },
        })
    }
}

} // verus!
