use vstd::prelude::*;

use crate::addr::{GuestPhysAddr, GuestVirtAddr};

verus! {

/// A thread: physical address of the kernel's thread object.
#[derive(Clone, Copy, Debug, PartialEq, Eq, Hash, Structural)]
pub struct Thread(pub GuestPhysAddr);

/// A process: physical address of the kernel's process object.
#[derive(Clone, Copy, Debug, PartialEq, Eq, Hash, Structural)]
pub struct Process(pub GuestPhysAddr);

/// A path: physical address of the kernel's path object.
#[derive(Clone, Copy, Debug, PartialEq, Eq, Hash, Structural)]
pub struct Path(pub GuestPhysAddr);

/// A memory area: physical address of the kernel's area object.
#[derive(Clone, Copy, Debug, PartialEq, Eq, Hash, Structural)]
pub struct Vma(pub GuestPhysAddr);

/// Protection of a memory area.
#[derive(Clone, Copy, Debug, PartialEq, Eq, Structural)]
pub struct VmaFlags(pub u64);

pub const VMA_READ: u64 = 0x1;
pub const VMA_WRITE: u64 = 0x2;
pub const VMA_EXEC: u64 = 0x4;

impl VmaFlags {
    pub fn is_read(self) -> (r: bool)
        ensures
            r == (self.0 & VMA_READ != 0),
    {
        self.0 & VMA_READ != 0
    }

    pub fn is_write(self) -> (r: bool)
        ensures
            r == (self.0 & VMA_WRITE != 0),
    {
        self.0 & VMA_WRITE != 0
    }

    pub fn is_exec(self) -> (r: bool)
        ensures
            r == (self.0 & VMA_EXEC != 0),
    {
        self.0 & VMA_EXEC != 0
    }

    /// The flags of both.
    pub fn union(self, rhs: VmaFlags) -> (r: VmaFlags)
        ensures
            r.0 == self.0 | rhs.0,
    {
        VmaFlags(self.0 | rhs.0)
    }
}

/// One frame of a call stack.
#[derive(Clone, Copy, Debug, PartialEq, Eq, Structural)]
pub struct StackFrame {
    pub instruction_pointer: GuestVirtAddr,
    pub stack_pointer: GuestVirtAddr,
    /// The memory area that holds the instruction pointer.
    pub vma: Vma,
}

} // verus!
