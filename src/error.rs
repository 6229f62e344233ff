use vstd::prelude::*;

use crate::mem::MemoryAccessError;

verus! {

/// Why a virtual address could not be translated or read.
#[derive(Clone, Copy, Debug, PartialEq, Eq, Structural)]
pub enum TranslationError {
    /// Reading a page-table entry or the data itself failed.
    Memory(MemoryAccessError),
    /// A page-table entry on the way is not present.
    NotMapped,
}

/// Why a vCPU query failed.
#[derive(Clone, Copy, Debug, PartialEq, Eq, Structural)]
pub enum VcpuError {
    InvalidId,
    UnknownRegister,
    Unsupported,
}

/// The errors of the introspection layer.
#[derive(Clone, Debug, PartialEq, Eq)]
pub enum VmError {
    Memory(MemoryAccessError),
    Translation(TranslationError),
    Vcpu(VcpuError),
    /// A symbol that the symbol tables do not hold.
    MissingSymbol(String),
    /// A field (first) that a structure (second) does not have.
    MissingField(String, String),
    /// A module whose symbols were never loaded.
    MissingModule(String),
    /// Input that could not be decoded, with what was being decoded.
    Parse(String),
    /// A null pointer was followed.
    NullPointer,
    /// Anything else, described in words.
    Other(String),
}

/// The result type of the introspection layer.
pub type VmResult<T> = Result<T, VmError>;

} // verus!
