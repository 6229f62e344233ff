use vstd::prelude::*;

use crate::addr::GuestVirtAddr;
use crate::error::{VmError, VmResult};
use crate::symbols::{bytes_symbols, is_first_named, ModuleSymbols};

verus! {

/// Loaded modules by name, held in a `once_map::OnceMap`; a module looked for
/// and not found is kept as `None`, so that it is not looked for again.
/// `module_table_entries` names its contents.
#[verifier::external_body]
pub struct ModuleTable {
    map: once_map::OnceMap<String, Box<Option<ModuleSymbols>>>,
}

/// The modules that a table holds.
pub uninterp spec fn module_table_entries(t: ModuleTable) -> Map<Seq<char>, Option<ModuleSymbols>>;

impl ModuleTable {
    /// Relies on `once_map::OnceMap::new`: the map starts empty.
    #[verifier::external_body]
    pub fn new() -> (r: ModuleTable)
        ensures
            module_table_entries(r).dom() == Set::<Seq<char>>::empty(),
    {
        ModuleTable { map: once_map::OnceMap::new() }
    }

    /// Relies on `once_map::OnceMap::get`: the value stored under `name`.
    #[verifier::external_body]
    pub fn get(&self, name: &str) -> (r: Option<&Option<ModuleSymbols>>)
        ensures
            module_table_entries(*self).contains_key(name@) ==> r == Some(
                &module_table_entries(*self)[name@],
            ),
            !module_table_entries(*self).contains_key(name@) ==> r is None,
    {
        self.map.get(name)
    }

    /// Relies on `once_map::OnceMap::insert`: a key already present keeps its
    /// value, else `value` is stored; the stored value is returned.
    #[verifier::external_body]
    pub fn insert(&mut self, name: &str, value: Option<ModuleSymbols>) -> (r: &Option<ModuleSymbols>)
        ensures
            module_table_entries(*old(self)).contains_key(name@) ==> module_table_entries(*final(self))
                == module_table_entries(*old(self)),
            !module_table_entries(*old(self)).contains_key(name@) ==> module_table_entries(*final(self))
                == module_table_entries(*old(self)).insert(name@, value),
            *r == module_table_entries(*final(self))[name@],
    {
        self.map.insert(name.to_owned(), |_| Box::new(value))
    }
}

/// The symbols of every module of a guest, loaded at most once each.
pub struct SymbolsIndexer {
    modules: ModuleTable,
}

impl SymbolsIndexer {
    /// The modules by name, with `None` for those known to be missing.
    pub closed spec fn modules(&self) -> Map<Seq<char>, Option<ModuleSymbols>> {
        module_table_entries(self.modules)
    }

    pub fn new() -> (r: SymbolsIndexer)
        ensures
            r.modules().dom() == Set::<Seq<char>>::empty(),
    {
        SymbolsIndexer { modules: ModuleTable::new() }
    }

    /// The symbols of the module `name`, if they were loaded.
    pub fn get_module(&self, name: &str) -> (r: Option<&ModuleSymbols>)
        ensures
            match self.modules().get(name@) {
                Some(Some(m)) => r == Some(&m),
                _ => r is None,
            },
    {
        match self.modules.get(name) {
            Some(Some(m)) => Some(m),
            _ => None,
        }
    }

    /// The symbols of the module `name`, or an error naming it.
    pub fn require_module(&self, name: &str) -> (r: VmResult<&ModuleSymbols>)
        ensures
            match self.modules().get(name@) {
                Some(Some(m)) => r == Ok::<&ModuleSymbols, VmError>(&m),
                _ => r matches Err(VmError::MissingModule(s)) && s@ == name@,
            },
    {
        match self.get_module(name) {
            Some(m) => Ok(m),
            None => Err(VmError::MissingModule(name.to_owned())),
        }
    }

    /// The address of the first symbol named `name` in the module `lib`.
    pub fn get_addr(&self, lib: &str, name: &str) -> (r: VmResult<GuestVirtAddr>)
        ensures
            match self.modules().get(lib@) {
                Some(Some(m)) => match r {
                    Ok(a) => exists|i: int|
                        is_first_named(m.entries(), name@, i) && a.0 == #[trigger] m.entries()[i].0,
                    Err(e) => e matches VmError::MissingSymbol(s) && s@ == name@,
                },
                _ => r matches Err(VmError::MissingModule(s)) && s@ == lib@,
            },
    {
        let m = self.require_module(lib)?;
        m.require_address(name)
    }

    /// Records the outcome of loading the module `name`, unless one was
    /// recorded before; returns the module recorded.
    pub fn load_module(&mut self, name: &str, module: Option<ModuleSymbols>) -> (r: Option<
        &ModuleSymbols,
    >)
        ensures
            old(self).modules().contains_key(name@) ==> final(self).modules() == old(self).modules(),
            !old(self).modules().contains_key(name@) ==> final(self).modules() == old(
                self,
            ).modules().insert(name@, module),
            match final(self).modules()[name@] {
                Some(m) => r == Some(&m),
                None => r is None,
            },
    {
        match self.modules.insert(name, module) {
            Some(m) => Some(m),
            None => None,
        }
    }

    /// Loads the module `name` from a file's bytes, unless it was loaded
    /// before; a file that cannot be read leaves nothing recorded.
    pub fn load_from_bytes(&mut self, name: &str, content: &[u8]) -> (r: VmResult<
        Option<&ModuleSymbols>,
    >)
        ensures
            old(self).modules().contains_key(name@) ==> final(self).modules() == old(self).modules()
                && r is Ok,
            r is Err ==> final(self).modules() == old(self).modules(),
            r is Ok ==> final(self).modules().contains_key(name@),
            !old(self).modules().contains_key(name@) ==> match bytes_symbols(content@) {
                Some(e) => r is Ok && final(self).modules() == old(self).modules().insert(
                    name@,
                    final(self).modules()[name@],
                ) && (final(self).modules()[name@] matches Some(m) && m.entries() == e
                    && m.types().dom().is_empty()),
                None => r is Err,
            },
            r matches Ok(Some(m)) ==> final(self).modules()[name@] == Some(*m),
    {
        if self.modules.get(name).is_some() {
            return Ok(self.load_module(name, None));
        }
        let module = ModuleSymbols::from_bytes(content)?;
        Ok(self.load_module(name, Some(module)))
    }
}

} // verus!
