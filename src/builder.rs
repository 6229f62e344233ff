use vstd::prelude::*;

use crate::addr::{GuestPhysAddr, GuestVirtAddr};
use crate::error::VmResult;
use crate::indexer::SymbolsIndexer;
use crate::symbols::ModuleSymbols;

verus! {

/// Finds the symbols of a module from its name and its build id.
pub trait SymbolLoader {
    fn load(&self, name: &str, id: &str) -> VmResult<Option<ModuleSymbols>>;
}

/// A loader that finds nothing.
pub struct EmptyLoader;

impl SymbolLoader for EmptyLoader {
    fn load(&self, name: &str, id: &str) -> (r: VmResult<Option<ModuleSymbols>>) {
        Ok(None)
    }
}

/// What is known of a guest before its OS layer is built.
pub struct OsBuilder {
    pub symbols: Option<SymbolsIndexer>,
    pub kpgd: Option<GuestPhysAddr>,
    pub kaslr: Option<GuestVirtAddr>,
    pub version: Option<String>,
}

impl OsBuilder {
    pub fn new() -> (r: OsBuilder)
        ensures
            r.symbols is None,
            r.kpgd is None,
            r.kaslr is None,
            r.version is None,
    {
        OsBuilder { symbols: None, kpgd: None, kaslr: None, version: None }
    }

    pub fn with_symbols(self, symbols: SymbolsIndexer) -> (r: OsBuilder)
        ensures
            r.symbols == Some(symbols),
            r.kpgd == self.kpgd,
            r.kaslr == self.kaslr,
            r.version == self.version,
    {
        OsBuilder { symbols: Some(symbols), ..self }
    }

    pub fn with_kpgd(self, kpgd: GuestPhysAddr) -> (r: OsBuilder)
        ensures
            r.symbols == self.symbols,
            r.kpgd == Some(kpgd),
            r.kaslr == self.kaslr,
            r.version == self.version,
    {
        OsBuilder { kpgd: Some(kpgd), ..self }
    }

    pub fn with_kaslr(self, kaslr: GuestVirtAddr) -> (r: OsBuilder)
        ensures
            r.symbols == self.symbols,
            r.kpgd == self.kpgd,
            r.kaslr == Some(kaslr),
            r.version == self.version,
    {
        OsBuilder { kaslr: Some(kaslr), ..self }
    }

    pub fn with_version(self, version: String) -> (r: OsBuilder)
        ensures
            r.symbols == self.symbols,
            r.kpgd == self.kpgd,
            r.kaslr == self.kaslr,
            r.version == Some(version),
    {
        OsBuilder { version: Some(version), ..self }
    }
}

/// An empty builder.
pub fn os_builder() -> (r: OsBuilder)
    ensures
        r.symbols is None,
        r.kpgd is None,
        r.kaslr is None,
        r.version is None,
{
    OsBuilder::new()
}

} // verus!
