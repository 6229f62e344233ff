//! Virtual-machine introspection over a guest's physical memory and vCPU
//! state: x86-64 page-table walking, module symbol and structure tables,
//! Linux kernel structure traversal, and stack unwinding from x64 exception
//! directories.

pub mod addr;
pub mod arch;
pub mod backend;
pub mod builder;
pub mod callstack;
pub mod demangle;
pub mod error;
pub mod indexer;
pub mod kallsyms;
pub mod layout;
pub mod linux;
pub mod mem;
pub mod mmu;
pub mod order;
pub mod os;
pub mod pointer;
pub mod profile;
pub mod symbols;
pub mod unwind;

pub use addr::{mask, GuestPhysAddr, GuestVirtAddr, MmPte};
