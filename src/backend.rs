use vstd::prelude::*;

use crate::addr::GuestPhysAddr;
use crate::arch::Vcpu;
use crate::error::VcpuError;
use crate::mem::{Memory, MemoryAccessError, RawMemory};

verus! {

/// A guest seen through its physical memory and its vCPUs.
pub trait Backend: Memory {
    /// The vCPUs, by index.
    spec fn vcpus_view(&self) -> Seq<Vcpu>;

    fn vcpus_count(&self) -> (r: usize)
        ensures
            r == self.vcpus_view().len(),
    ;

    fn vcpu(&self, id: usize) -> (r: Result<Vcpu, VcpuError>)
        ensures
            id < self.vcpus_view().len() ==> r == Ok::<Vcpu, VcpuError>(self.vcpus_view()[id as int]),
            id >= self.vcpus_view().len() ==> r == Err::<Vcpu, VcpuError>(VcpuError::InvalidId),
    ;
}

/// A frozen guest: its memory and the registers of its vCPUs.
pub struct Dump {
    pub memory: RawMemory,
    pub vcpus: Vec<Vcpu>,
}

impl Dump {
    pub fn new(memory: RawMemory, vcpus: Vec<Vcpu>) -> (r: Dump)
        ensures
            r.memory == memory,
            r.vcpus@ == vcpus@,
    {
        Dump { memory, vcpus }
    }
}

impl Memory for Dump {
    open spec fn phys_byte(&self, addr: int) -> Option<u8> {
        self.memory.phys_byte(addr)
    }

    fn read_physical(&self, addr: GuestPhysAddr, len: usize) -> (r: Result<Vec<u8>, MemoryAccessError>) {
        let r = self.memory.read_physical(addr, len);
        assert forall|i: int| 0 <= i < len implies #[trigger] self.phys_byte(addr.0 + i)
            == self.memory.phys_byte(addr.0 + i) by {}
        proof {
            if r is Err && addr.0 + len <= 0x1_0000_0000_0000_0000 {
                let i = choose|i: int| 0 <= i < len && !((#[trigger] self.memory.phys_byte(addr.0 + i)) is Some);
                assert(!(self.phys_byte(addr.0 + i) is Some));
            }
        }
        r
    }
}

impl Backend for Dump {
    open spec fn vcpus_view(&self) -> Seq<Vcpu> {
        self.vcpus@
    }

    fn vcpus_count(&self) -> (r: usize) {
        self.vcpus.len()
    }

    fn vcpu(&self, id: usize) -> (r: Result<Vcpu, VcpuError>) {
        if id < self.vcpus.len() {
            Ok(self.vcpus[id])
        } else {
            Err(VcpuError::InvalidId)
        }
    }
}

/// A backend seen through the common interface, whatever its own type.
pub struct RuntimeBackend<B>(pub B);

impl<B: Backend> Memory for RuntimeBackend<B> {
    open spec fn phys_byte(&self, addr: int) -> Option<u8> {
        self.0.phys_byte(addr)
    }

    fn read_physical(&self, addr: GuestPhysAddr, len: usize) -> (r: Result<Vec<u8>, MemoryAccessError>) {
        let r = self.0.read_physical(addr, len);
        assert forall|i: int| 0 <= i < len implies #[trigger] self.phys_byte(addr.0 + i)
            == self.0.phys_byte(addr.0 + i) by {}
        proof {
            if r is Err && addr.0 + len <= 0x1_0000_0000_0000_0000 {
                let i = choose|i: int| 0 <= i < len && !((#[trigger] self.0.phys_byte(addr.0 + i)) is Some);
                assert(!(self.phys_byte(addr.0 + i) is Some));
            }
        }
        r
    }
}

impl<B: Backend> Backend for RuntimeBackend<B> {
    open spec fn vcpus_view(&self) -> Seq<Vcpu> {
        self.0.vcpus_view()
    }

    fn vcpus_count(&self) -> (r: usize) {
        self.0.vcpus_count()
    }

    fn vcpu(&self, id: usize) -> (r: Result<Vcpu, VcpuError>) {
        self.0.vcpu(id)
    }
}

} // verus!
