use vstd::prelude::*;

use crate::addr::{GuestPhysAddr, GuestVirtAddr};
use crate::arch::Vcpu;
use crate::backend::Backend;
use crate::error::{TranslationError, VcpuError, VmError, VmResult};
use crate::callstack::{bounds, context_bounds, frames_view, iter_callstack, walk, walk_outcome, Context, MAX_FRAMES};
use crate::kallsyms::{find_byte, find_byte_from, utf8_string};
use vstd::utf8::{decode_utf8, valid_utf8};
use crate::mem::{lemma_read_physical, phys_read, Memory, MemoryAccessError};
use crate::mmu::{le_u64, translate, try_read_virtual_memory, u64_from_le, virt_read_lenient, virtual_to_physical};
use crate::profile::FastOffsets;
use crate::os::{Path, Process, StackFrame, Thread, Vma};
use crate::profile::Profile;
use crate::unwind::le32;

verus! {

/// The most nodes a list walk visits before it gives up on a corrupt list.
pub const MAX_LIST_NODES: u64 = 0x10_0000;

/// The little-endian 64-bit word at physical address `a`.
pub open spec fn phys_word<M: Memory + ?Sized>(m: &M, a: int) -> Option<u64> {
    match phys_read(m, a, 8) {
        Ok(b) => Some(le_u64(b)),
        Err(_) => None,
    }
}

/// The little-endian 32-bit word at physical address `a`.
pub open spec fn phys_u32<M: Memory + ?Sized>(m: &M, a: int) -> Option<u32> {
    match phys_read(m, a, 4) {
        Ok(b) => Some(le32(b, 0)),
        Err(_) => None,
    }
}

/// Why a walk over a kernel list stopped short.
#[derive(Clone, Copy, Debug, PartialEq, Eq, Structural)]
pub enum WalkFailure {
    Memory(MemoryAccessError),
    Translation(TranslationError),
    /// The list did not come back to its head within `MAX_LIST_NODES` nodes,
    /// or a node lies below its link offset.
    Corrupt,
}

/// The error of the introspection layer that a walk failure is reported as.
pub open spec fn reports(r: VmError, f: WalkFailure) -> bool {
    match f {
        WalkFailure::Memory(e) => r == VmError::Memory(e),
        WalkFailure::Translation(e) => r == VmError::Translation(e),
        WalkFailure::Corrupt => r is Other,
    }
}

/// `x` followed by what `rest` holds.
pub open spec fn cons(x: u64, rest: Result<Seq<u64>, WalkFailure>) -> Result<Seq<u64>, WalkFailure> {
    match rest {
        Ok(s) => Ok(seq![x] + s),
        Err(e) => Err(e),
    }
}

/// The objects of a circular list, from the node at physical address `node`
/// until the list comes back to `head`: each node lies `link_off` bytes into
/// its object and holds the kernel virtual address of the next node
/// `next_off` bytes in.
pub open spec fn list_walk<M: Memory + ?Sized>(
    m: &M,
    kpgd: u64,
    head: u64,
    node: u64,
    link_off: u64,
    next_off: u64,
    fuel: nat,
) -> Result<Seq<u64>, WalkFailure>
    decreases fuel,
{
    if node == head {
        Ok(Seq::empty())
    } else if fuel == 0 || node < link_off {
        Err(WalkFailure::Corrupt)
    } else {
        match phys_word(m, node + next_off) {
            None => Err(WalkFailure::Memory(MemoryAccessError::OutOfBounds)),
            Some(next) => match translate(m, kpgd, next) {
                Err(e) => Err(WalkFailure::Translation(e)),
                Ok(np) => cons(
                    (node - link_off) as u64,
                    list_walk(m, kpgd, head, np, link_off, next_off, (fuel - 1) as nat),
                ),
            },
        }
    }
}

/// The objects of the circular list whose head is at physical address `head`.
pub open spec fn list_entries<M: Memory + ?Sized>(
    m: &M,
    kpgd: u64,
    head: u64,
    link_off: u64,
    next_off: u64,
) -> Result<Seq<u64>, WalkFailure> {
    match phys_word(m, head + next_off) {
        None => Err(WalkFailure::Memory(MemoryAccessError::OutOfBounds)),
        Some(next) => match translate(m, kpgd, next) {
            Err(e) => Err(WalkFailure::Translation(e)),
            Ok(np) => list_walk(m, kpgd, head, np, link_off, next_off, MAX_LIST_NODES as nat),
        },
    }
}

/// The handles that a list of processes holds.
pub open spec fn process_addrs(v: Seq<Process>) -> Seq<u64> {
    Seq::new(v.len(), |i: int| v[i].0.0)
}

/// The handles that a list of threads holds.
pub open spec fn thread_addrs(v: Seq<Thread>) -> Seq<u64> {
    Seq::new(v.len(), |i: int| v[i].0.0)
}

/// Reads the 64-bit word `off` bytes past physical address `addr`.
fn read_word<M: Memory + ?Sized>(mem: &M, addr: u64, off: u64) -> (r: Result<u64, MemoryAccessError>)
    ensures
        match phys_word(mem, addr + off) {
            Some(w) => r == Ok::<u64, MemoryAccessError>(w),
            None => r == Err::<u64, MemoryAccessError>(MemoryAccessError::OutOfBounds),
        },
{
    if addr > u64::MAX - off {
        return Err(MemoryAccessError::OutOfBounds);
    }
    let a = GuestPhysAddr(addr + off);
    let r = mem.read_physical(a, 8);
    proof {
        lemma_read_physical(mem, a, 8, r);
    }
    match r {
        Ok(b) => Ok(u64_from_le(b.as_slice())),
        Err(e) => Err(e),
    }
}

/// Reads the 32-bit word `off` bytes past physical address `addr`.
fn read_u32_at<M: Memory + ?Sized>(mem: &M, addr: u64, off: u64) -> (r: Result<u32, MemoryAccessError>)
    ensures
        match phys_u32(mem, addr + off) {
            Some(w) => r == Ok::<u32, MemoryAccessError>(w),
            None => r == Err::<u32, MemoryAccessError>(MemoryAccessError::OutOfBounds),
        },
{
    if addr > u64::MAX - off {
        return Err(MemoryAccessError::OutOfBounds);
    }
    let a = GuestPhysAddr(addr + off);
    let r = mem.read_physical(a, 4);
    proof {
        lemma_read_physical(mem, a, 4, r);
    }
    match r {
        Ok(b) => Ok(
            (b[0] as u32) | ((b[1] as u32) << 8u32) | ((b[2] as u32) << 16u32) | ((b[3] as u32)
                << 24u32),
        ),
        Err(e) => Err(e),
    }
}

/// Walks the circular list whose head lies at physical address `head`.
fn walk_list<M: Memory + ?Sized>(
    mem: &M,
    kpgd: GuestPhysAddr,
    head: u64,
    link_off: u64,
    next_off: u64,
) -> (r: VmResult<Vec<u64>>)
    ensures
        match list_entries(mem, kpgd.0, head, link_off, next_off) {
            Ok(s) => r matches Ok(v) && v@ == s,
            Err(f) => r matches Err(e) && reports(e, f),
        },
{
    let first = match read_word(mem, head, next_off) {
        Ok(w) => w,
        Err(e) => return Err(VmError::Memory(e)),
    };
    let mut node = match virtual_to_physical(mem, kpgd, GuestVirtAddr(first)) {
        Ok(p) => p.0,
        Err(e) => return Err(VmError::Translation(e)),
    };
    let mut out: Vec<u64> = Vec::new();
    let mut fuel: u64 = MAX_LIST_NODES;
    loop
        invariant
            list_entries(mem, kpgd.0, head, link_off, next_off) == match list_walk(
                mem,
                kpgd.0,
                head,
                node,
                link_off,
                next_off,
                fuel as nat,
            ) {
                Ok(s) => Ok(out@ + s),
                Err(f) => Err::<Seq<u64>, WalkFailure>(f),
            },
        decreases fuel,
    {
        if node == head {
            proof {
                assert(out@ + Seq::<u64>::empty() =~= out@);
            }
            return Ok(out);
        }
        if fuel == 0 || node < link_off {
            return Err(VmError::Other("corrupt kernel list".to_owned()));
        }
        let next = match read_word(mem, node, next_off) {
            Ok(w) => w,
            Err(e) => return Err(VmError::Memory(e)),
        };
        let np = match virtual_to_physical(mem, kpgd, GuestVirtAddr(next)) {
            Ok(p) => p.0,
            Err(e) => return Err(VmError::Translation(e)),
        };
        let ghost rest = list_walk(mem, kpgd.0, head, np, link_off, next_off, (fuel - 1) as nat);
        proof {
            if let Ok(s) = rest {
                assert(out@ + (seq![(node - link_off) as u64] + s) =~= out@.push((node - link_off) as u64) + s);
            }
        }
        out.push(node - link_off);
        node = np;
        fuel = fuel - 1;
    }
}

/// A Linux guest: its memory and vCPUs, the kernel's page tables and the
/// layout of its structures.
pub struct Linux<B: Backend> {
    pub backend: B,
    pub kpgd: GuestPhysAddr,
    pub profile: Profile,
}

impl<B: Backend> Linux<B> {
    pub fn new(backend: B, kpgd: GuestPhysAddr, profile: Profile) -> (r: Linux<B>)
        ensures
            r.backend == backend,
            r.kpgd == kpgd,
            r.profile == profile,
    {
        Linux { backend, kpgd, profile }
    }

    /// The process list that `collect_processes` reads: `init_task` first,
    /// then the tasks linked from it.
    pub open spec fn spec_processes(&self) -> Result<Seq<u64>, WalkFailure> {
        let o = self.profile.fast_offsets;
        match translate(&self.backend, self.kpgd.0, self.profile.fast_syms.init_task.0) {
            Err(e) => Err(WalkFailure::Translation(e)),
            Ok(init) => if init + o.task_struct_tasks > u64::MAX {
                Err(WalkFailure::Memory(MemoryAccessError::OutOfBounds))
            } else {
                cons(
                    init,
                    list_entries(
                        &self.backend,
                        self.kpgd.0,
                        (init + o.task_struct_tasks) as u64,
                        o.task_struct_tasks,
                        o.list_head_next,
                    ),
                )
            },
        }
    }

    /// The first process: the kernel's `init_task`.
    pub fn init_process(&self) -> (r: VmResult<Process>)
        ensures
            match translate(&self.backend, self.kpgd.0, self.profile.fast_syms.init_task.0) {
                Ok(p) => r == Ok::<Process, VmError>(Process(GuestPhysAddr(p))),
                Err(e) => r == Err::<Process, VmError>(VmError::Translation(e)),
            },
    {
        match virtual_to_physical(&self.backend, self.kpgd, self.profile.fast_syms.init_task) {
            Ok(p) => Ok(Process(p)),
            Err(e) => Err(VmError::Translation(e)),
        }
    }

    /// Every process, walking the `tasks` list from `init_task`.
    pub fn collect_processes(&self) -> (r: VmResult<Vec<Process>>)
        ensures
            match self.spec_processes() {
                Ok(s) => r matches Ok(v) && process_addrs(v@) == s,
                Err(f) => r matches Err(e) && reports(e, f),
            },
    {
        let init = self.init_process()?;
        let tasks = self.profile.fast_offsets.task_struct_tasks;
        if init.0.0 > u64::MAX - tasks {
            return Err(VmError::Memory(MemoryAccessError::OutOfBounds));
        }
        let rest = walk_list(
            &self.backend,
            self.kpgd,
            init.0.0 + tasks,
            tasks,
            self.profile.fast_offsets.list_head_next,
        )?;
        let mut out: Vec<Process> = Vec::new();
        out.push(init);
        let mut i: usize = 0;
        while i < rest.len()
            invariant
                i <= rest@.len(),
                out@.len() == i + 1,
                out@[0] == init,
                forall|k: int| 0 <= k < i ==> (#[trigger] out@[k + 1]).0.0 == rest@[k],
            decreases rest@.len() - i,
        {
            out.push(Process(GuestPhysAddr(rest[i])));
            i += 1;
        }
        proof {
            assert forall|k: int| 0 <= k < out@.len() implies process_addrs(out@)[k] == (seq![init.0.0]
                + rest@)[k] by {
                if k > 0 {
                    assert(out@[(k - 1) + 1].0.0 == rest@[k - 1]);
                }
            }
            assert(process_addrs(out@) =~= seq![init.0.0] + rest@);
        }
        Ok(out)
    }

    /// The thread id: the task's `pid`.
    pub fn thread_id(&self, thread: Thread) -> (r: VmResult<u32>)
        ensures
            match phys_u32(&self.backend, thread.0.0 + self.profile.fast_offsets.task_struct_pid) {
                Some(v) => r == Ok::<u32, VmError>(v),
                None => r == Err::<u32, VmError>(VmError::Memory(MemoryAccessError::OutOfBounds)),
            },
    {
        match read_u32_at(&self.backend, thread.0.0, self.profile.fast_offsets.task_struct_pid) {
            Ok(v) => Ok(v),
            Err(e) => Err(VmError::Memory(e)),
        }
    }

    /// The process id: the `pid` of its leading task.
    pub fn process_pid(&self, proc: Process) -> (r: VmResult<u32>)
        ensures
            match phys_u32(&self.backend, proc.0.0 + self.profile.fast_offsets.task_struct_pid) {
                Some(v) => r == Ok::<u32, VmError>(v),
                None => r == Err::<u32, VmError>(VmError::Memory(MemoryAccessError::OutOfBounds)),
            },
    {
        self.thread_id(Thread(proc.0))
    }

    /// The process that `thread` belongs to: its `group_leader`.
    pub fn thread_process(&self, thread: Thread) -> (r: VmResult<Process>)
        ensures
            match phys_word(&self.backend, thread.0.0 + self.profile.fast_offsets.task_struct_group_leader) {
                None => r == Err::<Process, VmError>(VmError::Memory(MemoryAccessError::OutOfBounds)),
                Some(v) => match translate(&self.backend, self.kpgd.0, v) {
                    Ok(p) => r == Ok::<Process, VmError>(Process(GuestPhysAddr(p))),
                    Err(e) => r == Err::<Process, VmError>(VmError::Translation(e)),
                },
            },
    {
        let leader = match read_word(&self.backend, thread.0.0, self.profile.fast_offsets.task_struct_group_leader) {
            Ok(v) => v,
            Err(e) => return Err(VmError::Memory(e)),
        };
        match virtual_to_physical(&self.backend, self.kpgd, GuestVirtAddr(leader)) {
            Ok(p) => Ok(Process(p)),
            Err(e) => Err(VmError::Translation(e)),
        }
    }

    /// The process's parent: its `real_parent`.
    pub fn process_parent(&self, proc: Process) -> (r: VmResult<Process>)
        ensures
            match phys_word(&self.backend, proc.0.0 + self.profile.fast_offsets.task_struct_real_parent) {
                None => r == Err::<Process, VmError>(VmError::Memory(MemoryAccessError::OutOfBounds)),
                Some(v) => match translate(&self.backend, self.kpgd.0, v) {
                    Ok(p) => r == Ok::<Process, VmError>(Process(GuestPhysAddr(p))),
                    Err(e) => r == Err::<Process, VmError>(VmError::Translation(e)),
                },
            },
    {
        let parent = match read_word(&self.backend, proc.0.0, self.profile.fast_offsets.task_struct_real_parent) {
            Ok(v) => v,
            Err(e) => return Err(VmError::Memory(e)),
        };
        match virtual_to_physical(&self.backend, self.kpgd, GuestVirtAddr(parent)) {
            Ok(p) => Ok(Process(p)),
            Err(e) => Err(VmError::Translation(e)),
        }
    }

    /// The tasks of the process: its `thread_group` list, after the process
    /// itself.
    pub fn process_collect_threads(&self, proc: Process) -> (r: VmResult<Vec<Thread>>)
        ensures
            proc.0.0 + self.profile.fast_offsets.task_struct_thread_group > u64::MAX ==> r is Err,
            proc.0.0 + self.profile.fast_offsets.task_struct_thread_group <= u64::MAX ==> match cons(
                proc.0.0,
                list_entries(
                    &self.backend,
                    self.kpgd.0,
                    (proc.0.0 + self.profile.fast_offsets.task_struct_thread_group) as u64,
                    self.profile.fast_offsets.task_struct_thread_group,
                    self.profile.fast_offsets.list_head_next,
                ),
            ) {
                Ok(s) => r matches Ok(v) && thread_addrs(v@) == s,
                Err(f) => r matches Err(e) && reports(e, f),
            },
    {
        let off = self.profile.fast_offsets.task_struct_thread_group;
        if proc.0.0 > u64::MAX - off {
            return Err(VmError::Memory(MemoryAccessError::OutOfBounds));
        }
        let rest = walk_list(&self.backend, self.kpgd, proc.0.0 + off, off, self.profile.fast_offsets.list_head_next)?;
        let mut out: Vec<Thread> = Vec::new();
        out.push(Thread(proc.0));
        let mut i: usize = 0;
        while i < rest.len()
            invariant
                i <= rest@.len(),
                out@.len() == i + 1,
                out@[0] == Thread(proc.0),
                forall|k: int| 0 <= k < i ==> (#[trigger] out@[k + 1]).0.0 == rest@[k],
            decreases rest@.len() - i,
        {
            out.push(Thread(GuestPhysAddr(rest[i])));
            i += 1;
        }
        proof {
            assert forall|k: int| 0 <= k < out@.len() implies thread_addrs(out@)[k] == (seq![proc.0.0]
                + rest@)[k] by {
                if k > 0 {
                    assert(out@[(k - 1) + 1].0.0 == rest@[k - 1]);
                }
            }
            assert(thread_addrs(out@) =~= seq![proc.0.0] + rest@);
        }
        Ok(out)
    }

    /// The children of the process: its `children` list, whose nodes are the
    /// children's `sibling` links.
    pub fn process_collect_children(&self, proc: Process) -> (r: VmResult<Vec<Process>>)
        ensures
            proc.0.0 + self.profile.fast_offsets.task_struct_children > u64::MAX ==> r is Err,
            proc.0.0 + self.profile.fast_offsets.task_struct_children <= u64::MAX ==> match list_entries(
                &self.backend,
                self.kpgd.0,
                (proc.0.0 + self.profile.fast_offsets.task_struct_children) as u64,
                self.profile.fast_offsets.task_struct_sibling,
                self.profile.fast_offsets.list_head_next,
            ) {
                Ok(s) => r matches Ok(v) && process_addrs(v@) == s,
                Err(f) => r matches Err(e) && reports(e, f),
            },
    {
        let off = self.profile.fast_offsets.task_struct_children;
        if proc.0.0 > u64::MAX - off {
            return Err(VmError::Memory(MemoryAccessError::OutOfBounds));
        }
        let rest = walk_list(
            &self.backend,
            self.kpgd,
            proc.0.0 + off,
            self.profile.fast_offsets.task_struct_sibling,
            self.profile.fast_offsets.list_head_next,
        )?;
        let mut out: Vec<Process> = Vec::new();
        let mut i: usize = 0;
        while i < rest.len()
            invariant
                i <= rest@.len(),
                out@.len() == i,
                forall|k: int| 0 <= k < i ==> (#[trigger] out@[k]).0.0 == rest@[k],
            decreases rest@.len() - i,
        {
            out.push(Process(GuestPhysAddr(rest[i])));
            i += 1;
        }
        proof {
            assert(process_addrs(out@) =~= rest@);
        }
        Ok(out)
    }

    /// The first process whose pid is `pid`, `None` where there is none.
    pub fn find_process_by_pid(&self, pid: u32) -> (r: VmResult<Option<Process>>)
        ensures
            r matches Ok(Some(p)) ==> (self.spec_processes() matches Ok(s) && exists|i: int|
                0 <= i < s.len() && s[i] == p.0.0 && phys_u32(&self.backend, s[i] + self.profile.fast_offsets.task_struct_pid)
                    == Some(pid) && forall|k: int|
                    0 <= k < i ==> phys_u32(&self.backend, #[trigger] s[k] + self.profile.fast_offsets.task_struct_pid)
                        != Some(pid)),
            (self.spec_processes() matches Ok(s) && forall|i: int|
                0 <= i < s.len() ==> (#[trigger] phys_u32(&self.backend, s[i] + self.profile.fast_offsets.task_struct_pid))
                    is Some) ==> r is Ok,
            r matches Ok(None) ==> (self.spec_processes() matches Ok(s) && forall|i: int|
                0 <= i < s.len() ==> phys_u32(&self.backend, #[trigger] s[i] + self.profile.fast_offsets.task_struct_pid)
                    != Some(pid)),
            self.spec_processes() is Err ==> r is Err,
    {
        let procs = self.collect_processes()?;
        let mut i: usize = 0;
        while i < procs.len()
            invariant
                self.spec_processes() == Ok::<Seq<u64>, WalkFailure>(process_addrs(procs@)),
                i <= procs@.len(),
                forall|k: int| 0 <= k < i ==> phys_u32(&self.backend, #[trigger] process_addrs(procs@)[k]
                    + self.profile.fast_offsets.task_struct_pid) != Some(pid),
            decreases procs@.len() - i,
        {
            let p = procs[i];
            proof {
                assert(process_addrs(procs@)[i as int] == p.0.0);
            }
            let v = self.process_pid(p)?;
            if v == pid {
                proof {
                    assert(process_addrs(procs@)[i as int] == p.0.0);
                }
                return Ok(Some(p));
            }
            i += 1;
        }
        Ok(None)
    }

    /// The task that runs on vCPU `cpu`: the per-CPU `current_task`, found at
    /// the same distance from the vCPU's per-CPU base as the symbol is from
    /// `__per_cpu_start`.
    pub fn current_thread(&self, cpu: usize) -> (r: VmResult<Thread>)
        ensures
            cpu >= self.backend.vcpus_view().len() ==> r == Err::<Thread, VmError>(VmError::Vcpu(VcpuError::InvalidId)),
            cpu < self.backend.vcpus_view().len() ==> ({
                let base = self.backend.vcpus_view()[cpu as int].kernel_per_cpu_spec();
                let slot = base.wrapping_add(
                    self.profile.fast_syms.current_task.0.wrapping_sub(self.profile.fast_syms.per_cpu_start.0),
                );
                match translate(&self.backend, self.kpgd.0, slot) {
                    Err(e) => r == Err::<Thread, VmError>(VmError::Translation(e)),
                    Ok(p) => match phys_word(&self.backend, p as int) {
                        None => r == Err::<Thread, VmError>(VmError::Memory(MemoryAccessError::OutOfBounds)),
                        Some(task) => match translate(&self.backend, self.kpgd.0, task) {
                            Ok(t) => r == Ok::<Thread, VmError>(Thread(GuestPhysAddr(t))),
                            Err(e) => r == Err::<Thread, VmError>(VmError::Translation(e)),
                        },
                    },
                }
            }),
    {
        let vcpu = match self.backend.vcpu(cpu) {
            Ok(v) => v,
            Err(e) => return Err(VmError::Vcpu(e)),
        };
        let base = vcpu.kernel_per_cpu();
        let delta = self.profile.fast_syms.current_task.0.wrapping_sub(self.profile.fast_syms.per_cpu_start.0);
        let slot = GuestVirtAddr(base.0.wrapping_add(delta));
        let p = match virtual_to_physical(&self.backend, self.kpgd, slot) {
            Ok(p) => p,
            Err(e) => return Err(VmError::Translation(e)),
        };
        let task = match read_word(&self.backend, p.0, 0) {
            Ok(v) => v,
            Err(e) => return Err(VmError::Memory(e)),
        };
        match virtual_to_physical(&self.backend, self.kpgd, GuestVirtAddr(task)) {
            Ok(t) => Ok(Thread(t)),
            Err(e) => Err(VmError::Translation(e)),
        }
    }

    /// The task that `current_thread(cpu)` finds, where every read succeeds.
    pub open spec fn spec_current_task(&self, cpu: int) -> Option<u64> {
        if 0 <= cpu < self.backend.vcpus_view().len() {
            let base = self.backend.vcpus_view()[cpu].kernel_per_cpu_spec();
            let slot = base.wrapping_add(
                self.profile.fast_syms.current_task.0.wrapping_sub(self.profile.fast_syms.per_cpu_start.0),
            );
            match translate(&self.backend, self.kpgd.0, slot) {
                Ok(p) => match phys_word(&self.backend, p as int) {
                    Some(task) => match translate(&self.backend, self.kpgd.0, task) {
                        Ok(t) => Some(t),
                        Err(_) => None,
                    },
                    None => None,
                },
                Err(_) => None,
            }
        } else {
            None
        }
    }

    /// The process that `current_process(cpu)` finds, where every read
    /// succeeds: the `group_leader` of the current task.
    #[verifier::opaque]
    pub open spec fn spec_current_process(&self, cpu: int) -> Option<u64> {
        match self.spec_current_task(cpu) {
            Some(t) => match phys_word(&self.backend, t + self.profile.fast_offsets.task_struct_group_leader) {
                Some(v) => match translate(&self.backend, self.kpgd.0, v) {
                    Ok(p) => Some(p),
                    Err(_) => None,
                },
                None => None,
            },
            None => None,
        }
    }

    /// vCPU `cpu` runs a process other than `proc`, found without error.
    pub open spec fn runs_other(&self, cpu: int, proc: u64) -> bool {
        self.spec_current_process(cpu) matches Some(q) && q != proc
    }

    /// The process that runs on vCPU `cpu`.
    pub fn current_process(&self, cpu: usize) -> (r: VmResult<Process>)
        ensures
            match self.spec_current_process(cpu as int) {
                Some(p) => r == Ok::<Process, VmError>(Process(GuestPhysAddr(p))),
                None => r is Err,
            },
    {
        proof {
            reveal(Linux::spec_current_process);
        }
        let t = self.current_thread(cpu)?;
        self.thread_process(t)
    }

    /// The first vCPU that runs `proc`; `None` where none does.
    pub fn running_vcpu(&self, proc: Process) -> (r: VmResult<Option<usize>>)
        ensures
            match r {
                Ok(Some(i)) => i < self.backend.vcpus_view().len() && self.spec_current_process(i as int)
                    == Some(proc.0.0) && forall|j: int|
                    0 <= j < i ==> #[trigger] self.runs_other(j, proc.0.0),
                Ok(None) => forall|j: int|
                    0 <= j < self.backend.vcpus_view().len() ==> #[trigger] self.runs_other(j, proc.0.0),
                Err(_) => exists|j: int|
                    0 <= j < self.backend.vcpus_view().len() && (#[trigger] self.spec_current_process(j))
                        is None && forall|k: int|
                        0 <= k < j ==> #[trigger] self.runs_other(k, proc.0.0),
            },
            (forall|j: int|
                0 <= j < self.backend.vcpus_view().len() ==> (#[trigger] self.spec_current_process(j))
                    is Some) ==> r is Ok,
    {
        let n = self.backend.vcpus_count();
        let mut i: usize = 0;
        while i < n
            invariant
                n == self.backend.vcpus_view().len(),
                i <= n,
                forall|j: int| 0 <= j < i ==> #[trigger] self.runs_other(j, proc.0.0),
            decreases n - i,
        {
            let p = match self.current_process(i) {
                Ok(p) => p,
                Err(e) => return Err(e),
            };
            if p == proc {
                return Ok(Some(i));
            }
            i += 1;
        }
        Ok(None)
    }

    /// `t` is what `current_thread(cpu)` gives.
    pub open spec fn current_thread_spec(&self, cpu: usize, t: Thread) -> bool {
        &&& cpu < self.backend.vcpus_view().len()
        &&& {
            let base = self.backend.vcpus_view()[cpu as int].kernel_per_cpu_spec();
            let slot = base.wrapping_add(
                self.profile.fast_syms.current_task.0.wrapping_sub(self.profile.fast_syms.per_cpu_start.0),
            );
            translate(&self.backend, self.kpgd.0, slot) matches Ok(p) && (phys_word(&self.backend, p as int)
                matches Some(task) && translate(&self.backend, self.kpgd.0, task) == Ok::<u64, TranslationError>(t.0.0))
        }
    }
}

/// The name held in a task's 16-byte `comm` field at physical address `a`:
/// its bytes up to the first NUL.
pub open spec fn comm_name<M: Memory + ?Sized>(m: &M, a: int) -> Option<Seq<char>> {
    match phys_read(m, a, 16) {
        Ok(b) => {
            let name = b.subrange(0, find_byte(b, 0, 0));
            if valid_utf8(name) {
                Some(decode_utf8(name))
            } else {
                None
            }
        },
        Err(_) => None,
    }
}

/// The objects of a singly linked list from the kernel virtual address
/// `node` on, until a null link; each object holds the next one's address
/// `next_off` bytes in.
pub open spec fn chain_walk<M: Memory + ?Sized>(
    m: &M,
    kpgd: u64,
    node: u64,
    next_off: u64,
    fuel: nat,
) -> Result<Seq<u64>, WalkFailure>
    decreases fuel,
{
    if node == 0 {
        Ok(Seq::empty())
    } else if fuel == 0 {
        Err(WalkFailure::Corrupt)
    } else {
        match translate(m, kpgd, node) {
            Err(e) => Err(WalkFailure::Translation(e)),
            Ok(p) => match phys_word(m, p + next_off) {
                None => Err(WalkFailure::Memory(MemoryAccessError::OutOfBounds)),
                Some(next) => cons(p, chain_walk(m, kpgd, next, next_off, (fuel - 1) as nat)),
            },
        }
    }
}

/// Walks the singly linked list that starts at the kernel virtual address
/// `first`.
fn walk_chain<M: Memory + ?Sized>(mem: &M, kpgd: GuestPhysAddr, first: u64, next_off: u64) -> (r: VmResult<Vec<u64>>)
    ensures
        match chain_walk(mem, kpgd.0, first, next_off, MAX_LIST_NODES as nat) {
            Ok(s) => r matches Ok(v) && v@ == s,
            Err(f) => r matches Err(e) && reports(e, f),
        },
{
    let mut node = first;
    let mut out: Vec<u64> = Vec::new();
    let mut fuel: u64 = MAX_LIST_NODES;
    loop
        invariant
            chain_walk(mem, kpgd.0, first, next_off, MAX_LIST_NODES as nat) == match chain_walk(
                mem,
                kpgd.0,
                node,
                next_off,
                fuel as nat,
            ) {
                Ok(s) => Ok(out@ + s),
                Err(f) => Err::<Seq<u64>, WalkFailure>(f),
            },
        decreases fuel,
    {
        if node == 0 {
            proof {
                assert(out@ + Seq::<u64>::empty() =~= out@);
            }
            return Ok(out);
        }
        if fuel == 0 {
            return Err(VmError::Other("corrupt kernel list".to_owned()));
        }
        let p = match virtual_to_physical(mem, kpgd, GuestVirtAddr(node)) {
            Ok(p) => p.0,
            Err(e) => return Err(VmError::Translation(e)),
        };
        let next = match read_word(mem, p, next_off) {
            Ok(w) => w,
            Err(e) => return Err(VmError::Memory(e)),
        };
        let ghost rest = chain_walk(mem, kpgd.0, next, next_off, (fuel - 1) as nat);
        proof {
            if let Ok(s) = rest {
                assert(out@ + (seq![p] + s) =~= out@.push(p) + s);
            }
        }
        out.push(p);
        node = next;
        fuel = fuel - 1;
    }
}

/// Reads the name in the 16-byte `comm` field `off` bytes past `addr`.
fn read_comm<M: Memory + ?Sized>(mem: &M, addr: u64, off: u64) -> (r: VmResult<String>)
    ensures
        addr + off <= u64::MAX ==> match comm_name(mem, addr + off) {
            Some(n) => r matches Ok(s) && s@ == n,
            None => r is Err,
        },
        addr + off > u64::MAX ==> r is Err,
{
    if addr > u64::MAX - off {
        return Err(VmError::Memory(MemoryAccessError::OutOfBounds));
    }
    let a = GuestPhysAddr(addr + off);
    let r = mem.read_physical(a, 16);
    proof {
        lemma_read_physical(mem, a, 16, r);
    }
    let b = match r {
        Ok(b) => b,
        Err(e) => return Err(VmError::Memory(e)),
    };
    let end = find_byte_from(b.as_slice(), 0, 0);
    match utf8_string(&b.as_slice()[0..end]) {
        Some(s) => Ok(s),
        None => Err(VmError::Parse("task name is not UTF-8".to_owned())),
    }
}

impl<B: Backend> Linux<B> {
    /// The memory descriptor of a task: `mm`, or `active_mm` for a kernel
    /// thread, whose `mm` is null.
    pub open spec fn spec_mm(&self, task: u64) -> Option<u64> {
        let o = self.profile.fast_offsets;
        match phys_word(&self.backend, task + o.task_struct_mm) {
            None => None,
            Some(mm) => if mm != 0 {
                Some(mm)
            } else {
                phys_word(&self.backend, task + o.task_struct_active_mm)
            },
        }
    }

    /// The memory descriptor of a task: `mm`, or `active_mm` for a kernel
    /// thread.
    fn task_mm(&self, task: u64) -> (r: VmResult<u64>)
        ensures
            match self.spec_mm(task) {
                Some(mm) => r == Ok::<u64, VmError>(mm),
                None => r == Err::<u64, VmError>(VmError::Memory(MemoryAccessError::OutOfBounds)),
            },
    {
        let mm = match read_word(&self.backend, task, self.profile.fast_offsets.task_struct_mm) {
            Ok(v) => v,
            Err(e) => return Err(VmError::Memory(e)),
        };
        if mm != 0 {
            return Ok(mm);
        }
        match read_word(&self.backend, task, self.profile.fast_offsets.task_struct_active_mm) {
            Ok(v) => Ok(v),
            Err(e) => Err(VmError::Memory(e)),
        }
    }

    /// The process's name: its `comm`, up to the first NUL.
    pub fn process_name(&self, proc: Process) -> (r: VmResult<String>)
        ensures
            proc.0.0 + self.profile.fast_offsets.task_struct_comm <= u64::MAX ==> match comm_name(
                &self.backend,
                proc.0.0 + self.profile.fast_offsets.task_struct_comm,
            ) {
                Some(n) => r matches Ok(s) && s@ == n,
                None => r is Err,
            },
    {
        read_comm(&self.backend, proc.0.0, self.profile.fast_offsets.task_struct_comm)
    }

    /// The thread's name: its `comm`, up to the first NUL.
    pub fn thread_name(&self, thread: Thread) -> (r: VmResult<String>)
        ensures
            thread.0.0 + self.profile.fast_offsets.task_struct_comm <= u64::MAX ==> match comm_name(
                &self.backend,
                thread.0.0 + self.profile.fast_offsets.task_struct_comm,
            ) {
                Some(n) => r matches Ok(s) && s@ == n,
                None => r is Err,
            },
    {
        read_comm(&self.backend, thread.0.0, self.profile.fast_offsets.task_struct_comm)
    }

    /// Whether the process is the kernel's: no memory descriptor of its own,
    /// or pid 0.
    pub fn process_is_kernel(&self, proc: Process) -> (r: VmResult<bool>)
        ensures
            match phys_word(&self.backend, proc.0.0 + self.profile.fast_offsets.task_struct_mm) {
                None => r is Err,
                Some(0) => r == Ok::<bool, VmError>(true),
                Some(_) => match phys_u32(&self.backend, proc.0.0 + self.profile.fast_offsets.task_struct_pid) {
                    Some(pid) => r == Ok::<bool, VmError>(pid == 0),
                    None => r is Err,
                },
            },
    {
        let mm = match read_word(&self.backend, proc.0.0, self.profile.fast_offsets.task_struct_mm) {
            Ok(v) => v,
            Err(e) => return Err(VmError::Memory(e)),
        };
        if mm == 0 {
            return Ok(true);
        }
        let pid = self.process_pid(proc)?;
        Ok(pid == 0)
    }

    /// The page-table root of the process: its memory descriptor's `pgd`,
    /// translated through the kernel's page tables.
    pub fn process_pgd(&self, proc: Process) -> (r: VmResult<GuestPhysAddr>)
        ensures
            match self.spec_process_pgd(proc.0.0) {
                Some(p) => r == Ok::<GuestPhysAddr, VmError>(GuestPhysAddr(p)),
                None => r is Err,
            },
    {
        let mm = self.task_mm(proc.0.0)?;
        let mp = match virtual_to_physical(&self.backend, self.kpgd, GuestVirtAddr(mm)) {
            Ok(p) => p,
            Err(e) => return Err(VmError::Translation(e)),
        };
        let pgd = match read_word(&self.backend, mp.0, self.profile.fast_offsets.mm_struct_pgd) {
            Ok(v) => v,
            Err(e) => return Err(VmError::Memory(e)),
        };
        match virtual_to_physical(&self.backend, self.kpgd, GuestVirtAddr(pgd)) {
            Ok(p) => Ok(p),
            Err(e) => Err(VmError::Translation(e)),
        }
    }

    /// The memory areas of the process: the `vm_next` chain from its memory
    /// descriptor's `mmap`.
    pub fn process_collect_vmas(&self, proc: Process) -> (r: VmResult<Vec<Vma>>)
        ensures
            match self.spec_vmas(proc.0.0) {
                Some(s) => r matches Ok(v) && v@ == vma_handles(s),
                None => r is Err,
            },
    {
        let mm = self.task_mm(proc.0.0)?;
        let mp = match virtual_to_physical(&self.backend, self.kpgd, GuestVirtAddr(mm)) {
            Ok(p) => p,
            Err(e) => return Err(VmError::Translation(e)),
        };
        let first = match read_word(&self.backend, mp.0, self.profile.fast_offsets.mm_struct_mmap) {
            Ok(v) => v,
            Err(e) => return Err(VmError::Memory(e)),
        };
        let chain = walk_chain(&self.backend, self.kpgd, first, self.profile.fast_offsets.vm_area_struct_vm_next)?;
        let mut out: Vec<Vma> = Vec::new();
        let mut i: usize = 0;
        while i < chain.len()
            invariant
                i <= chain@.len(),
                out@.len() == i,
                forall|k: int| 0 <= k < i ==> (#[trigger] out@[k]).0.0 == chain@[k],
            decreases chain@.len() - i,
        {
            out.push(Vma(GuestPhysAddr(chain[i])));
            i += 1;
        }
        proof {
            assert(out@ =~= vma_handles(chain@));
        }
        Ok(out)
    }

    /// Where the area starts: its `vm_start`.
    pub fn vma_start(&self, vma: Vma) -> (r: VmResult<GuestVirtAddr>)
        ensures
            match phys_word(&self.backend, vma.0.0 + self.profile.fast_offsets.vm_area_struct_vm_start) {
                Some(v) => r == Ok::<GuestVirtAddr, VmError>(GuestVirtAddr(v)),
                None => r == Err::<GuestVirtAddr, VmError>(VmError::Memory(MemoryAccessError::OutOfBounds)),
            },
    {
        match read_word(&self.backend, vma.0.0, self.profile.fast_offsets.vm_area_struct_vm_start) {
            Ok(v) => Ok(GuestVirtAddr(v)),
            Err(e) => Err(VmError::Memory(e)),
        }
    }

    /// Where the area ends: its `vm_end`.
    pub fn vma_end(&self, vma: Vma) -> (r: VmResult<GuestVirtAddr>)
        ensures
            match phys_word(&self.backend, vma.0.0 + self.profile.fast_offsets.vm_area_struct_vm_end) {
                Some(v) => r == Ok::<GuestVirtAddr, VmError>(GuestVirtAddr(v)),
                None => r == Err::<GuestVirtAddr, VmError>(VmError::Memory(MemoryAccessError::OutOfBounds)),
            },
    {
        match read_word(&self.backend, vma.0.0, self.profile.fast_offsets.vm_area_struct_vm_end) {
            Ok(v) => Ok(GuestVirtAddr(v)),
            Err(e) => Err(VmError::Memory(e)),
        }
    }

    /// The file mapped in the area, `None` for an anonymous area: the `f_path`
    /// of its `vm_file`.
    pub fn vma_file(&self, vma: Vma) -> (r: VmResult<Option<Path>>)
        ensures
            match phys_word(&self.backend, vma.0.0 + self.profile.fast_offsets.vm_area_struct_vm_file) {
                None => r is Err,
                Some(0) => r == Ok::<Option<Path>, VmError>(None),
                Some(f) => match translate(&self.backend, self.kpgd.0, f) {
                    Err(e) => r == Err::<Option<Path>, VmError>(VmError::Translation(e)),
                    Ok(fp) => fp + self.profile.fast_offsets.file_f_path <= u64::MAX ==> r == Ok::<
                        Option<Path>,
                        VmError,
                    >(Some(Path(GuestPhysAddr((fp + self.profile.fast_offsets.file_f_path) as u64)))),
                },
            },
    {
        let f = match read_word(&self.backend, vma.0.0, self.profile.fast_offsets.vm_area_struct_vm_file) {
            Ok(v) => v,
            Err(e) => return Err(VmError::Memory(e)),
        };
        if f == 0 {
            return Ok(None);
        }
        let fp = match virtual_to_physical(&self.backend, self.kpgd, GuestVirtAddr(f)) {
            Ok(p) => p,
            Err(e) => return Err(VmError::Translation(e)),
        };
        if fp.0 > u64::MAX - self.profile.fast_offsets.file_f_path {
            return Err(VmError::Memory(MemoryAccessError::OutOfBounds));
        }
        Ok(Some(Path(fp.add_offset(self.profile.fast_offsets.file_f_path))))
    }

    /// The names of the directory entries from `first` up to the root,
    /// nearest first.
    #[verifier::rlimit(40)]
    fn climb(&self, first: u64) -> (r: VmResult<Vec<Vec<u8>>>)
        ensures
            match dentry_names(&self.backend, self.kpgd.0, self.profile.fast_offsets, first, MAX_PATH_DEPTH as nat) {
                Err(f) => r matches Err(e) && reports(e, f),
                Ok(names) => r matches Ok(v) && Seq::new(v@.len(), |k: int| v@[k]@) == names,
            },
    {
        let o = self.profile.fast_offsets;
        let mut names: Vec<Vec<u8>> = Vec::new();
        let mut dentry = first;
        let mut fuel: u64 = MAX_PATH_DEPTH;
        loop
            invariant
                o == self.profile.fast_offsets,
                dentry_names(&self.backend, self.kpgd.0, o, first, MAX_PATH_DEPTH as nat) == match dentry_names(
                    &self.backend,
                    self.kpgd.0,
                    o,
                    dentry,
                    fuel as nat,
                ) {
                    Ok(rest) => Ok(Seq::new(names@.len(), |k: int| names@[k]@) + rest),
                    Err(f) => Err::<Seq<Seq<u8>>, WalkFailure>(f),
                },
            decreases fuel,
        {
            if fuel == 0 {
                return Err(VmError::Other("path too deep".to_owned()));
            }
            let d = match virtual_to_physical(&self.backend, self.kpgd, GuestVirtAddr(dentry)) {
                Ok(p) => p.0,
                Err(e) => return Err(VmError::Translation(e)),
            };
            let parent = match read_word(&self.backend, d, o.dentry_d_parent) {
                Ok(v) => v,
                Err(e) => return Err(VmError::Memory(e)),
            };
            if parent == dentry {
                proof {
                    assert(Seq::new(names@.len(), |k: int| names@[k]@) + Seq::<Seq<u8>>::empty()
                        =~= Seq::new(names@.len(), |k: int| names@[k]@));
                }
                return Ok(names);
            }
            if o.dentry_d_name > u64::MAX - o.qstr_name {
                return Err(VmError::Memory(MemoryAccessError::OutOfBounds));
            }
            let np = match read_word(&self.backend, d, o.dentry_d_name + o.qstr_name) {
                Ok(v) => v,
                Err(e) => return Err(VmError::Memory(e)),
            };
            let n = match read_name(&self.backend, self.kpgd, np) {
                Ok(n) => n,
                Err(e) => return Err(e),
            };
            let ghost before = Seq::new(names@.len(), |k: int| names@[k]@);
            let ghost rest = dentry_names(&self.backend, self.kpgd.0, o, parent, (fuel - 1) as nat);
            names.push(n);
            proof {
                assert(Seq::new(names@.len(), |k: int| names@[k]@) =~= before.push(names@[names@.len() - 1]@));
                if let Ok(rs) = rest {
                    assert(before + (seq![names@[names@.len() - 1]@] + rs) =~= before.push(
                        names@[names@.len() - 1]@,
                    ) + rs);
                }
            }
            dentry = parent;
            fuel = fuel - 1;
        }
    }

    /// The text of a path: the names of its directory entries up to the
    /// root, farthest first, each after a `/`; `/` for the root itself.
    pub fn path_to_string(&self, path: Path) -> (r: VmResult<String>)
        ensures
            match phys_word(&self.backend, path.0.0 + self.profile.fast_offsets.path_d_entry) {
                None => r is Err,
                Some(dentry) => match dentry_names(
                    &self.backend,
                    self.kpgd.0,
                    self.profile.fast_offsets,
                    dentry,
                    MAX_PATH_DEPTH as nat,
                ) {
                    Err(f) => r matches Err(e) && reports(e, f),
                    Ok(names) => if valid_utf8(path_text(names)) {
                        r matches Ok(s) && s@ == decode_utf8(path_text(names))
                    } else {
                        r is Err
                    },
                },
            },
    {
        let first = match read_word(&self.backend, path.0.0, self.profile.fast_offsets.path_d_entry) {
            Ok(v) => v,
            Err(e) => return Err(VmError::Memory(e)),
        };
        let names = self.climb(first)?;
        let text = join_names(&names);
        match utf8_string(text.as_slice()) {
            Some(s) => Ok(s),
            None => Err(VmError::Parse("path is not UTF-8".to_owned())),
        }
    }

    /// The first process named `name`, `None` where there is none.
    pub fn find_process_by_name(&self, name: &str) -> (r: VmResult<Option<Process>>)
        ensures
            r matches Ok(Some(p)) ==> (self.spec_processes() matches Ok(s) && exists|i: int|
                0 <= i < s.len() && s[i] == p.0.0 && comm_name(&self.backend, s[i] + self.profile.fast_offsets.task_struct_comm)
                    == Some(name@) && forall|k: int|
                    0 <= k < i && s[k] + self.profile.fast_offsets.task_struct_comm <= u64::MAX ==> comm_name(
                        &self.backend,
                        #[trigger] s[k] + self.profile.fast_offsets.task_struct_comm,
                    ) != Some(name@)),
            (self.spec_processes() matches Ok(s) && forall|i: int|
                0 <= i < s.len() && s[i] + self.profile.fast_offsets.task_struct_comm <= u64::MAX ==> (
                #[trigger] comm_name(&self.backend, s[i] + self.profile.fast_offsets.task_struct_comm))
                    is Some) ==> r is Ok,
            r matches Ok(None) ==> (self.spec_processes() matches Ok(s) && forall|i: int|
                0 <= i < s.len() && s[i] + self.profile.fast_offsets.task_struct_comm <= u64::MAX ==> comm_name(
                    &self.backend,
                    #[trigger] s[i] + self.profile.fast_offsets.task_struct_comm,
                ) != Some(name@)),
            self.spec_processes() is Err ==> r is Err,
    {
        let procs = self.collect_processes()?;
        let key = name.to_owned();
        let mut i: usize = 0;
        while i < procs.len()
            invariant
                key@ == name@,
                self.spec_processes() == Ok::<Seq<u64>, WalkFailure>(process_addrs(procs@)),
                i <= procs@.len(),
                forall|k: int|
                    0 <= k < i && process_addrs(procs@)[k] + self.profile.fast_offsets.task_struct_comm
                        <= u64::MAX ==> comm_name(
                        &self.backend,
                        #[trigger] process_addrs(procs@)[k] + self.profile.fast_offsets.task_struct_comm,
                    ) != Some(name@),
            decreases procs@.len() - i,
        {
            let p = procs[i];
            proof {
                assert(process_addrs(procs@)[i as int] == p.0.0);
            }
            if p.0.0 <= u64::MAX - self.profile.fast_offsets.task_struct_comm {
                let n = self.process_name(p)?;
                if n == key {
                    proof {
                        assert(process_addrs(procs@)[i as int] == p.0.0);
                    }
                    return Ok(Some(p));
                }
            }
            i += 1;
        }
        Ok(None)
    }

    /// The memory areas of a process as `(start, end, handle)`.
    fn area_bounds(&self, vmas: &Vec<Vma>) -> (r: VmResult<Vec<(GuestVirtAddr, GuestVirtAddr, Vma)>>)
        ensures
            match self.spec_areas(vmas@) {
                Some(a) => r matches Ok(v) && v@ == a,
                None => r is Err,
            },
    {
        let mut areas: Vec<(GuestVirtAddr, GuestVirtAddr, Vma)> = Vec::new();
        let mut k: usize = 0;
        while k < vmas.len()
            invariant
                k <= vmas@.len(),
                areas@.len() == k,
                forall|q: int| 0 <= q < k ==> self.area_read(#[trigger] vmas@[q]) == Some(areas@[q]),
            decreases vmas@.len() - k,
        {
            let start = self.vma_start(vmas[k])?;
            let end = self.vma_end(vmas[k])?;
            areas.push((start, end, vmas[k]));
            k += 1;
        }
        proof {
            assert(areas@ =~= Seq::new(vmas@.len(), |q: int| self.area_read(vmas@[q])->Some_0));
        }
        Ok(areas)
    }

    /// The bounds `(vm_start, vm_end, handle)` of an area, where both reads
    /// succeed.
    pub open spec fn area_read(&self, vma: Vma) -> Option<(GuestVirtAddr, GuestVirtAddr, Vma)> {
        match phys_word(&self.backend, vma.0.0 + self.profile.fast_offsets.vm_area_struct_vm_start) {
            Some(st) => match phys_word(&self.backend, vma.0.0 + self.profile.fast_offsets.vm_area_struct_vm_end) {
                Some(en) => Some((GuestVirtAddr(st), GuestVirtAddr(en), vma)),
                None => None,
            },
            None => None,
        }
    }

    /// The bounds of each area, where every read succeeds.
    pub open spec fn spec_areas(&self, vmas: Seq<Vma>) -> Option<Seq<(GuestVirtAddr, GuestVirtAddr, Vma)>> {
        if forall|q: int| 0 <= q < vmas.len() ==> (#[trigger] self.area_read(vmas[q])) is Some {
            Some(Seq::new(vmas.len(), |q: int| self.area_read(vmas[q])->Some_0))
        } else {
            None
        }
    }

    /// The page-table root of a process, where every read succeeds.
    pub open spec fn spec_process_pgd(&self, proc: u64) -> Option<u64> {
        match self.spec_mm(proc) {
            None => None,
            Some(mm) => match translate(&self.backend, self.kpgd.0, mm) {
                Err(_) => None,
                Ok(mp) => match phys_word(&self.backend, mp + self.profile.fast_offsets.mm_struct_pgd) {
                    None => None,
                    Some(pv) => match translate(&self.backend, self.kpgd.0, pv) {
                        Ok(p) => Some(p),
                        Err(_) => None,
                    },
                },
            },
        }
    }

    /// The memory areas of a process, where every read succeeds.
    pub open spec fn spec_vmas(&self, proc: u64) -> Option<Seq<u64>> {
        match self.spec_mm(proc) {
            None => None,
            Some(mm) => match translate(&self.backend, self.kpgd.0, mm) {
                Err(_) => None,
                Ok(mp) => match phys_word(&self.backend, mp + self.profile.fast_offsets.mm_struct_mmap) {
                    None => None,
                    Some(first) => match chain_walk(
                        &self.backend,
                        self.kpgd.0,
                        first,
                        self.profile.fast_offsets.vm_area_struct_vm_next,
                        MAX_LIST_NODES as nat,
                    ) {
                        Ok(s) => Some(s),
                        Err(_) => None,
                    },
                },
            },
        }
    }

    /// The page tables and bounds of the areas that a call-stack walk of
    /// `proc` runs over, where every read succeeds.
    pub open spec fn spec_walk_space(&self, proc: u64) -> Option<(u64, Seq<(u64, u64, Vma)>)> {
        match self.spec_process_pgd(proc) {
            None => None,
            Some(pgd) => match self.spec_vmas(proc) {
                None => None,
                Some(vs) => match self.spec_areas(vma_handles(vs)) {
                    None => None,
                    Some(areas) => Some((pgd, context_bounds(areas))),
                },
            },
        }
    }

    /// The page tables and memory areas of a process, with no unwind
    /// information read yet.
    fn process_context(&self, proc: Process) -> (r: VmResult<Context>)
        ensures
            r matches Ok(c) ==> c.wf() && forall|i: int|
                0 <= i < c.areas().len() ==> (#[trigger] c.areas()[i]).unwind_data is None,
            match self.spec_walk_space(proc.0.0) {
                Some((pgd, b)) => r matches Ok(c) && c.spec_pgd().0 == pgd && bounds(c.areas()) == b,
                None => r is Err,
            },
    {
        let pgd = self.process_pgd(proc)?;
        let vmas = self.process_collect_vmas(proc)?;
        let areas = self.area_bounds(&vmas)?;
        Ok(Context::new(pgd, areas))
    }

    /// `i` is the first vCPU that runs `proc`, every vCPU before it running
    /// another process.
    pub open spec fn first_running(&self, i: int, proc: u64) -> bool {
        &&& 0 <= i < self.backend.vcpus_view().len()
        &&& self.spec_current_process(i) == Some(proc)
        &&& forall|j: int| 0 <= j < i ==> #[trigger] self.runs_other(j, proc)
    }

    /// The call stack of a process that runs on some vCPU, walked from the
    /// first such vCPU's instruction and stack pointers through the
    /// process's own page tables and memory areas; an error where no vCPU
    /// runs it.
    #[verifier::rlimit(100)]
    pub fn process_callstack(&self, proc: Process) -> (r: VmResult<Vec<StackFrame>>)
        ensures
            (forall|j: int|
                0 <= j < self.backend.vcpus_view().len() ==> #[trigger] self.runs_other(j, proc.0.0)) ==> r is Err,
            forall|i: int|
                #[trigger] self.first_running(i, proc.0.0) ==> match self.spec_walk_space(proc.0.0) {
                    None => r is Err,
                    Some((pgd, b)) => walk_outcome(
                        r,
                        walk(
                            &self.backend,
                            pgd,
                            b,
                            self.backend.vcpus_view()[i].registers.rip,
                            self.backend.vcpus_view()[i].registers.rsp,
                            MAX_FRAMES as nat,
                        ),
                    ),
                },
    {
        let found = self.running_vcpu(proc);
        let i = match found {
            Ok(Some(i)) => i,
            Ok(None) => {
                proof {
                    assert forall|k: int| #[trigger] self.first_running(k, proc.0.0) implies false by {
                        assert(self.runs_other(k, proc.0.0));
                    }
                }
                return Err(VmError::Other("not a running process".to_owned()));
            },
            Err(e) => {
                proof {
                    let j = choose|j: int|
                        0 <= j < self.backend.vcpus_view().len() && (#[trigger] self.spec_current_process(j))
                            is None && forall|k: int| 0 <= k < j ==> #[trigger] self.runs_other(k, proc.0.0);
                    assert forall|k: int| #[trigger] self.first_running(k, proc.0.0) implies false by {
                        if k < j {
                            assert(self.runs_other(k, proc.0.0));
                        } else if k > j {
                            assert(self.runs_other(j, proc.0.0));
                        }
                    }
                    assert(!self.runs_other(j, proc.0.0));
                }
                return Err(e);
            },
        };
        proof {
            assert(!self.runs_other(i as int, proc.0.0));
            assert(self.first_running(i as int, proc.0.0));
            assert forall|k: int| #[trigger] self.first_running(k, proc.0.0) implies k == i by {
                if k < i {
                    assert(self.runs_other(k, proc.0.0));
                } else if k > i {
                    assert(self.runs_other(i as int, proc.0.0));
                }
            }
        }
        let vcpu = match self.backend.vcpu(i) {
            Ok(v) => v,
            Err(e) => return Err(VmError::Vcpu(e)),
        };
        let mut ctx = self.process_context(proc)?;
        assert(ctx.cache_valid(&self.backend));
        let r = iter_callstack(&self.backend, &mut ctx, vcpu.instruction_pointer(), vcpu.stack_pointer());
        proof {
            assert(self.backend.vcpus_view()[i as int] == vcpu);
        }
        r
    }
}

/// The most bytes of a name that path resolution reads.
pub const MAX_NAME_LEN: usize = 256;

/// The most directories that path resolution climbs.
pub const MAX_PATH_DEPTH: u64 = 4096;

/// The NUL-terminated name at kernel virtual address `ptr`, at most
/// `MAX_NAME_LEN` bytes read, unmapped pages reading as zeroes.
pub open spec fn name_at<M: Memory + ?Sized>(m: &M, kpgd: u64, ptr: u64) -> Result<Seq<u8>, WalkFailure> {
    if ptr + MAX_NAME_LEN > u64::MAX {
        Err(WalkFailure::Corrupt)
    } else {
        match virt_read_lenient(m, kpgd, ptr as int, MAX_NAME_LEN as nat) {
            Err(e) => Err(WalkFailure::Translation(e)),
            Ok(b) => Ok(b.subrange(0, find_byte(b, 0, 0))),
        }
    }
}

/// The names of the directory entries from `dentry` up to the root, the
/// root's own name left out, nearest first.
pub open spec fn dentry_names<M: Memory + ?Sized>(
    m: &M,
    kpgd: u64,
    o: FastOffsets,
    dentry: u64,
    fuel: nat,
) -> Result<Seq<Seq<u8>>, WalkFailure>
    decreases fuel,
{
    if fuel == 0 {
        Err(WalkFailure::Corrupt)
    } else {
        match translate(m, kpgd, dentry) {
            Err(e) => Err(WalkFailure::Translation(e)),
            Ok(d) => match phys_word(m, d + o.dentry_d_parent) {
                None => Err(WalkFailure::Memory(MemoryAccessError::OutOfBounds)),
                Some(parent) => if parent == dentry {
                    Ok(Seq::empty())
                } else {
                    match phys_word(m, d + o.dentry_d_name + o.qstr_name) {
                        None => Err(WalkFailure::Memory(MemoryAccessError::OutOfBounds)),
                        Some(np) => match name_at(m, kpgd, np) {
                            Err(e) => Err(e),
                            Ok(n) => match dentry_names(m, kpgd, o, parent, (fuel - 1) as nat) {
                                Err(e) => Err(e),
                                Ok(rest) => Ok(seq![n] + rest),
                            },
                        },
                    }
                },
            },
        }
    }
}

/// The names, farthest first, each after a `/`.
pub open spec fn joined_path(names: Seq<Seq<u8>>) -> Seq<u8>
    decreases names.len(),
{
    if names.len() == 0 {
        Seq::empty()
    } else {
        joined_path(names.drop_first()) + seq![0x2fu8] + names[0]
    }
}

/// The text of the path whose names, nearest first, are `names`.
pub open spec fn path_text(names: Seq<Seq<u8>>) -> Seq<u8> {
    if names.len() == 0 {
        seq![0x2fu8]
    } else {
        joined_path(names)
    }
}

/// Reads the name at kernel virtual address `ptr`.
fn read_name<M: Memory + ?Sized>(mem: &M, kpgd: GuestPhysAddr, ptr: u64) -> (r: VmResult<Vec<u8>>)
    ensures
        match name_at(mem, kpgd.0, ptr) {
            Ok(n) => r matches Ok(v) && v@ == n,
            Err(f) => r matches Err(e) && reports(e, f),
        },
{
    if ptr > u64::MAX - MAX_NAME_LEN as u64 {
        return Err(VmError::Other("name past the end of the address space".to_owned()));
    }
    let b = match try_read_virtual_memory(mem, kpgd, GuestVirtAddr(ptr), MAX_NAME_LEN) {
        Ok(b) => b,
        Err(e) => return Err(VmError::Translation(e)),
    };
    proof {
        crate::kallsyms::lemma_find_byte_bounds(b@, 0, 0);
    }
    let end = find_byte_from(b.as_slice(), 0, 0);
    let mut out: Vec<u8> = Vec::new();
    let mut i: usize = 0;
    while i < end
        invariant
            end <= b@.len(),
            i <= end,
            out@ == b@.subrange(0, i as int),
        decreases end - i,
    {
        out.push(b[i]);
        i += 1;
        assert(out@ =~= b@.subrange(0, i as int));
    }
    Ok(out)
}

/// Area handles at the given physical addresses.
pub open spec fn vma_handles(s: Seq<u64>) -> Seq<Vma> {
    Seq::new(s.len(), |i: int| Vma(GuestPhysAddr(s[i])))
}

/// The text of the path whose names, nearest first, are `names`.
fn join_names(names: &Vec<Vec<u8>>) -> (r: Vec<u8>)
    ensures
        r@ == path_text(Seq::new(names@.len(), |k: int| names@[k]@)),
{
    let ghost all = Seq::new(names@.len(), |k: int| names@[k]@);
    let mut text: Vec<u8> = Vec::new();
    if names.len() == 0 {
        text.push(0x2f);
        assert(text@ =~= path_text(all));
        return text;
    }
    let mut k: usize = names.len();
    while k > 0
        invariant
            k <= names@.len(),
            all == Seq::new(names@.len(), |q: int| names@[q]@),
            text@ == joined_path(all.subrange(k as int, all.len() as int)),
        decreases k,
    {
        k -= 1;
        let ghost old_text = text@;
        text.push(0x2f);
        let mut j: usize = 0;
        let name = &names[k];
        while j < name.len()
            invariant
                j <= name@.len(),
                text@ == old_text + seq![0x2fu8] + name@.subrange(0, j as int),
            decreases name@.len() - j,
        {
            text.push(name[j]);
            j += 1;
            assert(text@ =~= old_text + seq![0x2fu8] + name@.subrange(0, j as int));
        }
        proof {
            let tail = all.subrange(k as int, all.len() as int);
            assert(tail.drop_first() =~= all.subrange(k + 1, all.len() as int));
            assert(tail[0] == name@);
            assert(name@.subrange(0, name@.len() as int) =~= name@);
        }
    }
    assert(all.subrange(0, all.len() as int) =~= all);
    text
}

/// Two walks of the process list of a guest whose memory does not change
/// give the same processes in the same order.
pub proof fn lemma_collect_processes_stable<B: Backend>(
    os: &Linux<B>,
    first: Seq<Process>,
    second: Seq<Process>,
)
    requires
        os.spec_processes() matches Ok(s) && process_addrs(first) == s,
        os.spec_processes() matches Ok(t) && process_addrs(second) == t,
    ensures
        first == second,
{
    assert(process_addrs(first) == process_addrs(second));
    assert(process_addrs(first).len() == first.len());
    assert(process_addrs(second).len() == second.len());
    assert forall|i: int| 0 <= i < first.len() implies first[i] == second[i] by {
        assert(process_addrs(first)[i] == first[i].0.0);
        assert(process_addrs(second)[i] == second[i].0.0);
        assert(first[i].0 == second[i].0);
    }
    assert(first =~= second);
}

} // verus!
