use vstd::prelude::*;

use crate::addr::{GuestPhysAddr, GuestVirtAddr};

verus! {

/// General-purpose registers of an x86-64 vCPU.
#[derive(Clone, Copy, Debug, Default, PartialEq, Eq, Structural)]
pub struct Registers {
    pub rax: u64,
    pub rbx: u64,
    pub rcx: u64,
    pub rdx: u64,
    pub rsi: u64,
    pub rdi: u64,
    pub rsp: u64,
    pub rbp: u64,
    pub r8: u64,
    pub r9: u64,
    pub r10: u64,
    pub r11: u64,
    pub r12: u64,
    pub r13: u64,
    pub r14: u64,
    pub r15: u64,
    pub rip: u64,
    pub rflags: u64,
}

/// A segment register as the hypervisor reports it.
#[derive(Clone, Copy, Debug, Default, PartialEq, Eq, Structural)]
pub struct Segment {
    pub base: u64,
    pub limit: u32,
    pub selector: u16,
    pub type_: u8,
    pub present: u8,
    pub dpl: u8,
}

/// Segment, control and descriptor-table registers.
#[derive(Clone, Copy, Debug, Default, PartialEq, Eq, Structural)]
pub struct SpecialRegisters {
    pub cs: Segment,
    pub ds: Segment,
    pub es: Segment,
    pub fs: Segment,
    pub gs: Segment,
    pub ss: Segment,
    pub gdt_base: u64,
    pub gdt_limit: u16,
    pub idt_base: u64,
    pub idt_limit: u16,
    pub cr0: u64,
    pub cr2: u64,
    pub cr3: u64,
    pub cr4: u64,
    pub cr8: u64,
    pub efer: u64,
}

/// Model-specific registers that the introspection reads.
#[derive(Clone, Copy, Debug, Default, PartialEq, Eq, Structural)]
pub struct OtherRegisters {
    pub fs_base: u64,
    pub gs_base: u64,
    pub kernel_gs_base: u64,
}

/// A snapshot of one vCPU.
#[derive(Clone, Copy, Debug, Default, PartialEq, Eq, Structural)]
pub struct Vcpu {
    pub registers: Registers,
    pub special_registers: SpecialRegisters,
    pub other_registers: OtherRegisters,
}

impl Vcpu {
    /// Physical address of the top page table that CR3 selects.
    pub open spec fn spec_pgd(self) -> u64 {
        self.special_registers.cr3 & 0x000f_ffff_ffff_f000
    }

    /// Whether the vCPU runs at privilege level 0.
    pub open spec fn spec_in_kernel_mode(self) -> bool {
        self.special_registers.cs.selector & 3 == 0
    }

    pub fn instruction_pointer(&self) -> (r: GuestVirtAddr)
        ensures
            r.0 == self.registers.rip,
    {
        GuestVirtAddr(self.registers.rip)
    }

    pub fn stack_pointer(&self) -> (r: GuestVirtAddr)
        ensures
            r.0 == self.registers.rsp,
    {
        GuestVirtAddr(self.registers.rsp)
    }

    pub fn base_pointer(&self) -> (r: GuestVirtAddr)
        ensures
            r.0 == self.registers.rbp,
    {
        GuestVirtAddr(self.registers.rbp)
    }

    /// The page-table root: bits 12 to 51 of CR3.
    pub fn pgd(&self) -> (r: GuestPhysAddr)
        ensures
            r.0 == self.spec_pgd(),
    {
        let m = crate::addr::mask(40);
        proof {
            crate::addr::lemma_low_bits();
            assert(0xff_ffff_ffffu64 << 12u64 == 0x000f_ffff_ffff_f000u64) by (bit_vector);
        }
        GuestPhysAddr(self.special_registers.cr3 & (m << 12u64))
    }

    /// The kernel's per-CPU base: GS_BASE while the vCPU runs in kernel mode,
    /// the swapped-out KernelGSBase otherwise.
    pub open spec fn kernel_per_cpu_spec(self) -> u64 {
        if self.spec_in_kernel_mode() {
            self.other_registers.gs_base
        } else {
            self.other_registers.kernel_gs_base
        }
    }

    /// The kernel's per-CPU base: GS_BASE while the vCPU runs in kernel mode,
    /// the swapped-out KernelGSBase otherwise.
    pub fn kernel_per_cpu(&self) -> (r: GuestVirtAddr)
        ensures
            r.0 == self.kernel_per_cpu_spec(),
    {
        if self.special_registers.cs.selector & 3 == 0 {
            GuestVirtAddr(self.other_registers.gs_base)
        } else {
            GuestVirtAddr(self.other_registers.kernel_gs_base)
        }
    }
}

} // verus!
