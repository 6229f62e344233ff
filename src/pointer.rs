use vstd::prelude::*;

use crate::addr::{GuestPhysAddr, GuestVirtAddr};
use crate::error::{VmError, VmResult};
use crate::layout::{field_index, StructRef};
use crate::mem::Memory;
use crate::mmu::{le_u64, read_u64_virtual, virt_read};
use crate::os::Process;

verus! {

/// Reads go through the kernel's page tables.
#[derive(Clone, Copy, Debug, PartialEq, Eq, Structural)]
pub struct KernelSpace;

/// Reads of user addresses go through a process's page tables, reads of
/// kernel addresses through the kernel's.
#[derive(Clone, Copy, Debug, PartialEq, Eq, Structural)]
pub struct ProcSpace {
    pub proc: Process,
    pub pgd: GuestPhysAddr,
}

/// The address space that a pointer is read in.
#[derive(Clone, Copy, Debug, PartialEq, Eq, Structural)]
pub enum Space {
    Kernel(KernelSpace),
    Proc(ProcSpace),
}

impl Space {
    /// The page tables that a read of `addr` goes through.
    pub open spec fn spec_tables(self, kpgd: GuestPhysAddr, addr: GuestVirtAddr) -> GuestPhysAddr {
        match self {
            Space::Proc(p) => if addr.spec_is_kernel() {
                kpgd
            } else {
                p.pgd
            },
            Space::Kernel(_) => kpgd,
        }
    }

    /// The page tables that a read of `addr` goes through.
    pub fn tables(&self, kpgd: GuestPhysAddr, addr: GuestVirtAddr) -> (r: GuestPhysAddr)
        ensures
            r == self.spec_tables(kpgd, addr),
    {
        match self {
            Space::Proc(p) => if addr.is_kernel() {
                kpgd
            } else {
                p.pgd
            },
            Space::Kernel(_) => kpgd,
        }
    }
}

/// An address in an address space.
#[derive(Clone, Copy, Debug, PartialEq, Eq, Structural)]
pub struct Pointer {
    pub addr: GuestVirtAddr,
    pub ctx: Space,
}

impl Pointer {
    pub fn new(addr: GuestVirtAddr, ctx: Space) -> (r: Pointer)
        ensures
            r.addr == addr,
            r.ctx == ctx,
    {
        Pointer { addr, ctx }
    }

    pub fn is_null(self) -> (r: bool)
        ensures
            r == (self.addr.0 == 0),
    {
        self.addr.is_null()
    }

    /// The same address in another address space.
    pub fn switch_context(self, ctx: Space) -> (r: Pointer)
        ensures
            r.addr == self.addr,
            r.ctx == ctx,
    {
        Pointer { addr: self.addr, ctx }
    }

    /// The same address, read in the address space of `proc`, whose page
    /// tables are at `pgd`.
    pub fn switch_to_userspace(self, proc: Process, pgd: GuestPhysAddr) -> (r: Pointer)
        ensures
            r.addr == self.addr,
            r.ctx == Space::Proc(ProcSpace { proc, pgd }),
    {
        self.switch_context(Space::Proc(ProcSpace { proc, pgd }))
    }

    /// The pointer to the field `offset` bytes in; null pointers have no
    /// fields.
    pub fn field(self, offset: u64) -> (r: VmResult<Pointer>)
        ensures
            self.addr.0 == 0 ==> r == Err::<Pointer, VmError>(VmError::NullPointer),
            self.addr.0 != 0 && self.addr.0 + offset <= u64::MAX ==> r == Ok::<Pointer, VmError>(
                Pointer { addr: GuestVirtAddr((self.addr.0 + offset) as u64), ctx: self.ctx },
            ),
            self.addr.0 != 0 && self.addr.0 + offset > u64::MAX ==> r is Err,
    {
        if self.is_null() {
            return Err(VmError::NullPointer);
        }
        if self.addr.0 > u64::MAX - offset {
            return Err(VmError::Other("field address overflows".to_owned()));
        }
        Ok(Pointer { addr: self.addr.add_offset(offset), ctx: self.ctx })
    }

    /// The pointer to the field `name` of the structure laid out as
    /// `layout`.
    pub fn field_named(self, layout: &StructRef, name: &str) -> (r: VmResult<Pointer>)
        ensures
            self.addr.0 == 0 ==> r == Err::<Pointer, VmError>(VmError::NullPointer),
            self.addr.0 != 0 ==> match field_index(layout.fields@, name@) {
                None => r matches Err(VmError::MissingField(f, _)) && f@ == name@,
                Some(i) => self.addr.0 + layout.fields@[i].offset <= u64::MAX ==> r == Ok::<
                    Pointer,
                    VmError,
                >(
                    Pointer {
                        addr: GuestVirtAddr((self.addr.0 + layout.fields@[i].offset) as u64),
                        ctx: self.ctx,
                    },
                ),
            },
    {
        if self.is_null() {
            return Err(VmError::NullPointer);
        }
        let offset = layout.require_offset(name)?;
        self.field(offset)
    }

    /// The 64-bit value at the pointer, read in its address space through
    /// the kernel tables at `kpgd` or the process's.
    pub fn read_u64<M: Memory + ?Sized>(self, mem: &M, kpgd: GuestPhysAddr) -> (r: VmResult<u64>)
        ensures
            self.addr.0 == 0 ==> r == Err::<u64, VmError>(VmError::NullPointer),
            self.addr.0 != 0 && self.addr.0 + 8 <= u64::MAX ==> match virt_read(
                mem,
                self.ctx.spec_tables(kpgd, self.addr).0,
                self.addr.0 as int,
                8,
            ) {
                Ok(b) => r == Ok::<u64, VmError>(le_u64(b)),
                Err(e) => r == Err::<u64, VmError>(VmError::Translation(e)),
            },
    {
        if self.is_null() {
            return Err(VmError::NullPointer);
        }
        if self.addr.0 > u64::MAX - 8 {
            return Err(VmError::Other("read past the end of the address space".to_owned()));
        }
        let tables = self.ctx.tables(kpgd, self.addr);
        match read_u64_virtual(mem, tables, self.addr) {
            Ok(v) => Ok(v),
            Err(e) => Err(VmError::Translation(e)),
        }
    }

    /// The 64-bit value of the field `offset` bytes in.
    pub fn read_field<M: Memory + ?Sized>(self, mem: &M, kpgd: GuestPhysAddr, offset: u64) -> (r: VmResult<u64>)
        ensures
            self.addr.0 == 0 ==> r == Err::<u64, VmError>(VmError::NullPointer),
            self.addr.0 != 0 && self.addr.0 + offset + 8 <= u64::MAX ==> match virt_read(
                mem,
                self.ctx.spec_tables(kpgd, GuestVirtAddr((self.addr.0 + offset) as u64)).0,
                self.addr.0 + offset,
                8,
            ) {
                Ok(b) => r == Ok::<u64, VmError>(le_u64(b)),
                Err(e) => r == Err::<u64, VmError>(VmError::Translation(e)),
            },
    {
        let f = self.field(offset)?;
        f.read_u64(mem, kpgd)
    }

    /// The pointer stored in the field `offset` bytes in, in the same
    /// address space.
    pub fn read_pointer_field<M: Memory + ?Sized>(self, mem: &M, kpgd: GuestPhysAddr, offset: u64) -> (r: VmResult<Pointer>)
        ensures
            self.addr.0 == 0 ==> r == Err::<Pointer, VmError>(VmError::NullPointer),
            self.addr.0 != 0 && self.addr.0 + offset + 8 <= u64::MAX ==> match virt_read(
                mem,
                self.ctx.spec_tables(kpgd, GuestVirtAddr((self.addr.0 + offset) as u64)).0,
                self.addr.0 + offset,
                8,
            ) {
                Ok(b) => r == Ok::<Pointer, VmError>(Pointer { addr: GuestVirtAddr(le_u64(b)), ctx: self.ctx }),
                Err(e) => r == Err::<Pointer, VmError>(VmError::Translation(e)),
            },
    {
        let v = self.read_field(mem, kpgd, offset)?;
        Ok(Pointer { addr: GuestVirtAddr(v), ctx: self.ctx })
    }
}

} // verus!
