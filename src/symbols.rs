use vstd::prelude::*;

use crate::addr::GuestVirtAddr;
use crate::error::{VmError, VmResult};
use crate::kallsyms::{parse_kallsyms, symbol_lines};
use crate::layout::{Struct, StructRef};
use crate::order::{compare_bytes, lemma_lex_basics, lemma_lex_trans, lex_cmp};
use vstd::utf8::encode_utf8;
use object::{Object, ObjectSymbol};

verus! {

broadcast use vstd::seq_lib::group_to_multiset_ensures;

/// The structure layouts of a module, by structure name, held in a
/// `hashbrown::HashMap`; `struct_table_entries` names its contents.
#[verifier::external_body]
pub struct StructTable {
    map: hashbrown::HashMap<String, Struct>,
}

/// The layouts that a table holds, by name.
pub uninterp spec fn struct_table_entries(t: StructTable) -> Map<Seq<char>, Struct>;

impl StructTable {
    /// Relies on `hashbrown::HashMap::new`: the map starts empty.
    #[verifier::external_body]
    pub fn new() -> (r: StructTable)
        ensures
            struct_table_entries(r).dom() == Set::<Seq<char>>::empty(),
    {
        StructTable { map: hashbrown::HashMap::new() }
    }

    /// Relies on `hashbrown::HashMap::insert`: the layout replaces any other
    /// one under the same name.
    #[verifier::external_body]
    pub fn insert(&mut self, structure: Struct)
        ensures
            struct_table_entries(*final(self)) == struct_table_entries(*old(self)).insert(
                structure.name@,
                structure,
            ),
    {
        self.map.insert(structure.name.clone(), structure);
    }

    /// Relies on `hashbrown::HashMap::get`: the layout stored under `name`.
    #[verifier::external_body]
    pub fn get(&self, name: &str) -> (r: Option<&Struct>)
        ensures
            struct_table_entries(*self).contains_key(name@) ==> r == Some(
                &struct_table_entries(*self)[name@],
            ),
            !struct_table_entries(*self).contains_key(name@) ==> r is None,
    {
        self.map.get(name)
    }
}

/// The pairs of `v` in ascending order. Pairs of integers are ordered
/// totally, so the sorted sequence depends on `v` alone.
pub uninterp spec fn sorted_pairs(v: Seq<(u64, usize)>) -> Seq<(u64, usize)>;

/// Relies on `<[T]>::sort_unstable` on pairs of integers, which std orders
/// lexicographically: the same pairs come back in ascending order.
#[verifier::external_body]
pub(crate) fn sort_pairs(v: &mut Vec<(u64, usize)>)
    ensures
        final(v)@ == sorted_pairs(old(v)@),
        final(v)@.to_multiset() == old(v)@.to_multiset(),
        forall|i: int, j: int|
            0 <= i < j < final(v)@.len() ==> pair_le(final(v)@[i], final(v)@[j]),
{
    v.sort_unstable();
}

/// The order of `(name bytes, position)` pairs: by bytes, then position.
pub open spec fn name_pair_le(a: (Seq<u8>, usize), b: (Seq<u8>, usize)) -> bool {
    lex_cmp(a.0, b.0) < 0 || (lex_cmp(a.0, b.0) == 0 && a.1 <= b.1)
}

/// The pairs as byte sequences.
pub open spec fn name_pairs_view(v: Seq<(Vec<u8>, usize)>) -> Seq<(Seq<u8>, usize)> {
    Seq::new(v.len(), |k: int| (v[k].0@, v[k].1))
}

/// Relies on `<[T]>::sort_unstable` on pairs of a byte vector and a
/// position: std orders vectors of bytes lexicographically, and pairs by
/// their first then second element; the same pairs come back in that order.
#[verifier::external_body]
fn sort_name_pairs(v: &mut Vec<(Vec<u8>, usize)>)
    ensures
        name_pairs_view(final(v)@).to_multiset() == name_pairs_view(old(v)@).to_multiset(),
        forall|i: int, j: int|
            0 <= i < j < final(v)@.len() ==> name_pair_le(
                name_pairs_view(final(v)@)[i],
                name_pairs_view(final(v)@)[j],
            ),
{
    v.sort_unstable();
}

/// The lexicographic order of pairs.
pub open spec fn pair_le(a: (u64, usize), b: (u64, usize)) -> bool {
    a.0 < b.0 || (a.0 == b.0 && a.1 <= b.1)
}

/// Symbols (address and name) in the order they were added.
pub open spec fn entries_view(v: Seq<(GuestVirtAddr, String)>) -> Seq<(u64, Seq<char>)> {
    Seq::new(v.len(), |i: int| (v[i].0.0, v[i].1@))
}

/// The symbols `(address, name)` of an ELF image's symbol tables, in their
/// order; symbols whose name cannot be read are left out. `None` for bytes
/// that do not parse as an object file.
pub uninterp spec fn elf_symbol_table(image: Seq<u8>) -> Option<Seq<(u64, Seq<char>)>>;

/// The pairs that a list of symbols holds.
pub open spec fn pairs_view(v: Seq<(u64, String)>) -> Seq<(u64, Seq<char>)> {
    Seq::new(v.len(), |i: int| (v[i].0, v[i].1@))
}

/// Relies on `object::File::parse` and `Object::symbols`, with each symbol's
/// `address` and `name`: the list depends on the bytes alone.
#[verifier::external_body]
fn elf_symbols(image: &[u8]) -> (r: Option<Vec<(u64, String)>>)
    ensures
        match r {
            Some(v) => elf_symbol_table(image@) == Some(pairs_view(v@)),
            None => elf_symbol_table(image@) is None,
        },
{
    let file = object::File::parse(image).ok()?;
    Some(file.symbols().filter_map(|s| Some((s.address(), s.name().ok()?.to_owned()))).collect())
}

/// Whether `c` starts with `p`.
pub open spec fn starts_with(c: Seq<u8>, p: Seq<u8>) -> bool {
    c.len() >= p.len() && c.subrange(0, p.len() as int) == p
}

/// Whether `c` starts with `p`.
fn has_prefix(c: &[u8], p: &[u8]) -> (r: bool)
    ensures
        r == starts_with(c@, p@),
{
    if c.len() < p.len() {
        return false;
    }
    let mut i: usize = 0;
    while i < p.len()
        invariant
            c@.len() >= p@.len(),
            i <= p@.len(),
            forall|k: int| 0 <= k < i ==> c@[k] == p@[k],
        decreases p@.len() - i,
    {
        if c[i] != p[i] {
            assert(c@.subrange(0, p@.len() as int)[i as int] != p@[i as int]);
            return false;
        }
        i += 1;
    }
    assert(c@.subrange(0, p@.len() as int) =~= p@);
    true
}

/// The magic of ELF images.
pub open spec fn elf_magic() -> Seq<u8> {
    seq![0x7fu8, 0x45u8, 0x4cu8, 0x46u8]
}

/// The magic of PDB files: "Microsoft C/C++".
pub open spec fn pdb_magic() -> Seq<u8> {
    seq![0x4du8, 0x69u8, 0x63u8, 0x72u8, 0x6fu8, 0x73u8, 0x6fu8, 0x66u8, 0x74u8, 0x20u8, 0x43u8, 0x2fu8, 0x43u8, 0x2bu8, 0x2bu8]
}

/// The symbols that a file's bytes hold, by their format: an ELF image's
/// symbol tables, or the lines of a text listing; `None` for PDB files and
/// ELF images that cannot be parsed.
pub open spec fn bytes_symbols(c: Seq<u8>) -> Option<Seq<(u64, Seq<char>)>> {
    if starts_with(c, elf_magic()) {
        elf_symbol_table(c)
    } else if starts_with(c, pdb_magic()) {
        None
    } else {
        Some(symbol_lines(c, 0))
    }
}

/// Collects the symbols and structure layouts of one module.
pub struct ModuleSymbolsBuilder {
    symbols: Vec<(GuestVirtAddr, String)>,
    types: StructTable,
}

impl ModuleSymbolsBuilder {
    pub closed spec fn entries(&self) -> Seq<(u64, Seq<char>)> {
        entries_view(self.symbols@)
    }

    pub closed spec fn types(&self) -> Map<Seq<char>, Struct> {
        struct_table_entries(self.types)
    }

    pub fn new() -> (r: ModuleSymbolsBuilder)
        ensures
            r.entries() == Seq::<(u64, Seq<char>)>::empty(),
            r.types() == Map::<Seq<char>, Struct>::empty(),
    {
        let r = ModuleSymbolsBuilder { symbols: Vec::new(), types: StructTable::new() };
        assert(r.entries() =~= Seq::<(u64, Seq<char>)>::empty());
        assert(r.types() =~= Map::<Seq<char>, Struct>::empty());
        r
    }

    /// Adds a symbol.
    pub fn push(&mut self, addr: GuestVirtAddr, symbol: &str)
        ensures
            final(self).entries() == old(self).entries().push((addr.0, symbol@)),
            final(self).types() == old(self).types(),
    {
        self.symbols.push((addr, symbol.to_owned()));
        assert(self.entries() =~= old(self).entries().push((addr.0, symbol@)));
    }

    /// Adds a structure layout, replacing one of the same name.
    pub fn insert_struct(&mut self, structure: Struct)
        ensures
            final(self).entries() == old(self).entries(),
            final(self).types() == old(self).types().insert(structure.name@, structure),
    {
        self.types.insert(structure);
    }

    /// Adds the symbols of a file's bytes, by their format: an ELF image's
    /// symbol tables, or else the lines of a text listing. PDB files are not
    /// read.
    pub fn read_bytes(&mut self, content: &[u8]) -> (r: VmResult<()>)
        ensures
            final(self).types() == old(self).types(),
            starts_with(content@, elf_magic()) ==> match elf_symbol_table(content@) {
                Some(t) => r is Ok && final(self).entries() == old(self).entries() + t,
                None => (r matches Err(VmError::Parse(_))) && final(self).entries() == old(self).entries(),
            },
            !starts_with(content@, elf_magic()) && starts_with(content@, pdb_magic()) ==> (r matches Err(
                VmError::Parse(_),
            )) && final(self).entries() == old(self).entries(),
            !starts_with(content@, elf_magic()) && !starts_with(content@, pdb_magic()) ==> r is Ok
                && final(self).entries() == old(self).entries() + symbol_lines(content@, 0),
    {
        let elf: [u8; 4] = [0x7f, 0x45, 0x4c, 0x46];
        let pdb: [u8; 15] = [0x4d, 0x69, 0x63, 0x72, 0x6f, 0x73, 0x6f, 0x66, 0x74, 0x20, 0x43, 0x2f, 0x43, 0x2b, 0x2b];
        assert(elf@ =~= elf_magic());
        assert(pdb@ =~= pdb_magic());
        if has_prefix(content, elf.as_slice()) {
            let table = match elf_symbols(content) {
                Some(t) => t,
                None => return Err(VmError::Parse("failed to parse ELF image".to_owned())),
            };
            let mut i: usize = 0;
            while i < table.len()
                invariant
                    i <= table@.len(),
                    self.entries() == old(self).entries() + pairs_view(table@).subrange(0, i as int),
                    self.types() == old(self).types(),
                decreases table@.len() - i,
            {
                self.push(GuestVirtAddr(table[i].0), table[i].1.as_str());
                assert(pairs_view(table@).subrange(0, i + 1) =~= pairs_view(table@).subrange(0, i as int).push(
                    (table@[i as int].0, table@[i as int].1@),
                ));
                i += 1;
            }
            assert(pairs_view(table@).subrange(0, i as int) =~= pairs_view(table@));
            return Ok(());
        }
        if has_prefix(content, pdb.as_slice()) {
            return Err(VmError::Parse("PDB files are not supported".to_owned()));
        }
        parse_kallsyms(content, self);
        Ok(())
    }

    /// Freezes the symbols into a table indexed by address.
    pub fn build(self) -> (r: ModuleSymbols)
        ensures
            r.entries() == self.entries(),
            r.types() == self.types(),
    {
        let n = self.symbols.len();
        let mut index: Vec<(u64, usize)> = Vec::new();
        let mut i: usize = 0;
        while i < n
            invariant
                n == self.symbols@.len(),
                i <= n,
                index@.len() == i,
                forall|k: int| 0 <= k < i ==> #[trigger] index@[k] == (self.symbols@[k].0.0, k as usize),
            decreases n - i,
        {
            index.push((self.symbols[i].0.0, i));
            i += 1;
        }
        let ghost before = index@;
        sort_pairs(&mut index);
        proof {
            assert(index@.len() == index@.to_multiset().len());
            assert(before.len() == before.to_multiset().len());
            assert forall|k: int| 0 <= k < index@.len() implies #[trigger] index@[k].1 < n
                && index@[k].0 == self.symbols@[index@[k].1 as int].0.0 by {
                assert(index@.contains(index@[k]));
                assert(before.to_multiset().count(index@[k]) > 0);
                assert(before.contains(index@[k]));
            }
            assert forall|k: int| 0 <= k < n implies #[trigger] index@.contains(
                (self.symbols@[k].0.0, k as usize),
            ) by {
                assert(before[k] == (self.symbols@[k].0.0, k as usize));
                assert(before.contains(before[k]));
                assert(before.to_multiset().count(before[k]) > 0);
                assert(index@.to_multiset().count(before[k]) > 0);
            }
            assert(before.no_duplicates());
            before.lemma_multiset_has_no_duplicates();
            assert forall|x: (u64, usize)| index@.to_multiset().contains(x) implies index@.to_multiset().count(x)
                == 1 by {
                assert(before.to_multiset().contains(x));
            }
            index@.lemma_multiset_has_no_duplicates_conv();
            assert forall|i: int, j: int| 0 <= i < j < index@.len() implies index@[i].1 != index@[j].1 by {
                if index@[i].1 == index@[j].1 {
                    assert(index@[i] == index@[j]);
                }
            }
        }
        let by_name = index_names(&self.symbols);
        ModuleSymbols { symbols: self.symbols, index, by_name, types: self.types }
    }
}

/// A module's symbols and structure layouts, searchable by address and by
/// name.
pub struct ModuleSymbols {
    /// In the order they were added.
    symbols: Vec<(GuestVirtAddr, String)>,
    /// `(address, position in symbols)`, ascending.
    index: Vec<(u64, usize)>,
    /// Positions in symbols, ordered by name bytes, then position.
    by_name: Vec<usize>,
    types: StructTable,
}

/// The bytes of a symbol's name.
pub open spec fn name_bytes(e: (GuestVirtAddr, String)) -> Seq<u8> {
    encode_utf8(e.1@)
}

/// `by_name` lists every position of `syms` once, ordered by name bytes,
/// then position.
pub open spec fn names_indexed(syms: Seq<(GuestVirtAddr, String)>, by_name: Seq<usize>) -> bool {
    &&& by_name.len() == syms.len()
    &&& forall|k: int| 0 <= k < by_name.len() ==> #[trigger] by_name[k] < syms.len()
    &&& forall|i: int| 0 <= i < syms.len() ==> #[trigger] by_name.contains(i as usize)
    &&& forall|k: int, l: int|
        0 <= k < l < by_name.len() ==> name_pair_le(
            (name_bytes(syms[by_name[k] as int]), by_name[k]),
            (name_bytes(syms[by_name[l] as int]), by_name[l]),
        )
}

/// Builds the index of `syms` by name.
fn index_names(syms: &Vec<(GuestVirtAddr, String)>) -> (r: Vec<usize>)
    ensures
        names_indexed(syms@, r@),
{
    let n = syms.len();
    let mut pairs: Vec<(Vec<u8>, usize)> = Vec::new();
    let mut i: usize = 0;
    while i < n
        invariant
            n == syms@.len(),
            i <= n,
            pairs@.len() == i,
            forall|k: int| 0 <= k < i ==> (#[trigger] pairs@[k]).0@ == name_bytes(syms@[k]) && pairs@[k].1 == k,
        decreases n - i,
    {
        let b = syms[i].1.as_str().as_bytes_vec();
        pairs.push((b, i));
        i += 1;
    }
    let ghost before = name_pairs_view(pairs@);
    assert forall|k: int| 0 <= k < n implies #[trigger] before[k] == (name_bytes(syms@[k]), k as usize) by {
        assert(pairs@[k].0@ == name_bytes(syms@[k]));
    }
    sort_name_pairs(&mut pairs);
    let ghost after = name_pairs_view(pairs@);
    proof {
        assert forall|k: int| 0 <= k < after.len() implies #[trigger] after[k].1 < n && after[k].0 == name_bytes(
            syms@[after[k].1 as int],
        ) by {
            assert(after.contains(after[k]));
            assert(after.to_multiset().count(after[k]) > 0);
            assert(before.to_multiset().count(after[k]) > 0);
            assert(before.contains(after[k]));
        }
    }
    let mut out: Vec<usize> = Vec::new();
    let mut k: usize = 0;
    while k < pairs.len()
        invariant
            k <= pairs@.len(),
            after == name_pairs_view(pairs@),
            out@.len() == k,
            forall|q: int| 0 <= q < k ==> #[trigger] out@[q] == after[q].1,
        decreases pairs@.len() - k,
    {
        out.push(pairs[k].1);
        k += 1;
    }
    proof {
        assert(after.len() == after.to_multiset().len());
        assert(before.len() == before.to_multiset().len());
        assert forall|i: int| 0 <= i < syms@.len() implies #[trigger] out@.contains(i as usize) by {
            assert(before[i] == (name_bytes(syms@[i]), i as usize));
            assert(before.contains(before[i]));
            assert(before.to_multiset().count(before[i]) > 0);
            assert(after.to_multiset().count(before[i]) > 0);
            assert(after.contains(before[i]));
            let q = choose|q: int| 0 <= q < after.len() && after[q] == before[i];
            assert(out@[q] == i as usize);
        }
        assert forall|a: int, b: int| 0 <= a < b < out@.len() implies name_pair_le(
            (name_bytes(syms@[out@[a] as int]), out@[a]),
            (name_bytes(syms@[out@[b] as int]), out@[b]),
        ) by {
            assert(name_pair_le(after[a], after[b]));
        }
    }
    out
}

/// `i` is the first symbol, in insertion order, at `addr`.
pub open spec fn is_first_at(e: Seq<(u64, Seq<char>)>, addr: u64, i: int) -> bool {
    &&& 0 <= i < e.len()
    &&& e[i].0 == addr
    &&& forall|j: int| 0 <= j < i ==> (#[trigger] e[j]).0 != addr
}

/// Some symbol lies at `addr`.
pub open spec fn has_symbol_at(e: Seq<(u64, Seq<char>)>, addr: u64) -> bool {
    exists|i: int| 0 <= i < e.len() && (#[trigger] e[i]).0 == addr
}

/// Some symbol lies below `addr`.
pub open spec fn has_symbol_below(e: Seq<(u64, Seq<char>)>, addr: u64) -> bool {
    exists|i: int| 0 <= i < e.len() && (#[trigger] e[i]).0 < addr
}

/// `i` is the symbol below `addr` with the greatest address, the last added
/// among those at that address.
pub open spec fn is_last_below(e: Seq<(u64, Seq<char>)>, addr: u64, i: int) -> bool {
    &&& 0 <= i < e.len()
    &&& e[i].0 < addr
    &&& forall|j: int|
        0 <= j < e.len() && (#[trigger] e[j]).0 < addr ==> e[j].0 < e[i].0 || (e[j].0 == e[i].0
            && j <= i)
}

/// `i` is the first symbol, in insertion order, named `name`.
pub open spec fn is_first_named(e: Seq<(u64, Seq<char>)>, name: Seq<char>, i: int) -> bool {
    &&& 0 <= i < e.len()
    &&& e[i].1 == name
    &&& forall|j: int| 0 <= j < i ==> (#[trigger] e[j]).1 != name
}

/// Some symbol is named `name`.
pub open spec fn has_symbol_named(e: Seq<(u64, Seq<char>)>, name: Seq<char>) -> bool {
    exists|i: int| 0 <= i < e.len() && (#[trigger] e[i]).1 == name
}

/// A symbol whose name no other symbol has, and that is the first added at
/// its address, is what a lookup by its name and a lookup by its address
/// find: the name gives back its address and the address gives back its name.
pub proof fn lemma_symbol_round_trip(e: Seq<(u64, Seq<char>)>, i: int)
    requires
        0 <= i < e.len(),
        forall|j: int| 0 <= j < e.len() && j != i ==> (#[trigger] e[j]).1 != e[i].1,
        forall|j: int| 0 <= j < i ==> (#[trigger] e[j]).0 != e[i].0,
    ensures
        has_symbol_named(e, e[i].1),
        forall|k: int| #[trigger] is_first_named(e, e[i].1, k) ==> e[k].0 == e[i].0,
        has_symbol_at(e, e[i].0),
        forall|k: int| #[trigger] is_first_at(e, e[i].0, k) ==> e[k].1 == e[i].1,
{
    assert forall|k: int| #[trigger] is_first_named(e, e[i].1, k) implies e[k].0 == e[i].0 by {
        if k != i {
            assert(e[k].1 != e[i].1);
        }
    }
    assert forall|k: int| #[trigger] is_first_at(e, e[i].0, k) implies e[k].1 == e[i].1 by {
        if k < i {
            assert(e[k].0 != e[i].0);
        } else if k > i {
            assert(e[i].0 != e[i].0);
        }
    }
}

/// Where no two symbols share an address, an address from a symbol's own
/// address up to, and not including, the next symbol's address resolves to
/// that symbol, at the distance of the address from it.
pub proof fn lemma_inexact_lookup(e: Seq<(u64, Seq<char>)>, i: int, addr: u64)
    requires
        0 <= i < e.len(),
        forall|j: int, k: int| 0 <= j < k < e.len() ==> (#[trigger] e[j]).0 != (#[trigger] e[k]).0,
        e[i].0 <= addr,
        forall|j: int| 0 <= j < e.len() ==> !(e[i].0 < (#[trigger] e[j]).0 <= addr),
    ensures
        addr == e[i].0 ==> has_symbol_at(e, addr) && forall|k: int|
            #[trigger] is_first_at(e, addr, k) ==> k == i,
        addr != e[i].0 ==> !has_symbol_at(e, addr) && has_symbol_below(e, addr) && forall|k: int|
            #[trigger] is_last_below(e, addr, k) ==> k == i,
{
    if addr == e[i].0 {
        assert forall|k: int| #[trigger] is_first_at(e, addr, k) implies k == i by {
            if k < i {
                assert(e[k].0 != e[i].0);
            } else if k > i {
                assert(e[i].0 != e[k].0);
            }
        }
    } else {
        assert(e[i].0 < addr);
        assert forall|k: int| #[trigger] is_last_below(e, addr, k) implies k == i by {
            if k < i {
                assert(e[k].0 != e[i].0);
            } else if k > i {
                assert(e[i].0 != e[k].0);
            }
        }
    }
}

impl ModuleSymbols {
    #[verifier::type_invariant]
    closed spec fn wf(&self) -> bool {
        &&& self.index@.len() == self.symbols@.len()
        &&& forall|k: int|
            0 <= k < self.index@.len() ==> #[trigger] self.index@[k].1 < self.symbols@.len()
                && self.index@[k].0 == self.symbols@[self.index@[k].1 as int].0.0
        &&& forall|k: int|
            0 <= k < self.symbols@.len() ==> #[trigger] self.index@.contains(
                (self.symbols@[k].0.0, k as usize),
            )
        &&& forall|i: int, j: int|
            0 <= i < j < self.index@.len() ==> pair_le(self.index@[i], self.index@[j])
        &&& forall|i: int, j: int|
            0 <= i < j < self.index@.len() ==> self.index@[i].1 != self.index@[j].1
        &&& names_indexed(self.symbols@, self.by_name@)
    }

    /// The symbols in the order they were added.
    pub closed spec fn entries(&self) -> Seq<(u64, Seq<char>)> {
        entries_view(self.symbols@)
    }

    pub closed spec fn types(&self) -> Map<Seq<char>, Struct> {
        struct_table_entries(self.types)
    }

    /// Number of index entries whose address is below `addr`.
    fn lower_bound(&self, addr: u64) -> (p: usize)
        ensures
            p <= self.index@.len(),
            forall|k: int| 0 <= k < p ==> (#[trigger] self.index@[k]).0 < addr,
            forall|k: int| p <= k < self.index@.len() ==> (#[trigger] self.index@[k]).0 >= addr,
    {
        proof {
            use_type_invariant(self);
        }
        let mut lo: usize = 0;
        let mut hi: usize = self.index.len();
        while lo < hi
            invariant
                self.wf(),
                lo <= hi <= self.index@.len(),
                forall|k: int| 0 <= k < lo ==> (#[trigger] self.index@[k]).0 < addr,
                forall|k: int| hi <= k < self.index@.len() ==> (#[trigger] self.index@[k]).0 >= addr,
            decreases hi - lo,
        {
            let mid = lo + (hi - lo) / 2;
            if self.index[mid].0 < addr {
                proof {
                    assert forall|k: int| 0 <= k < mid + 1 implies (#[trigger] self.index@[k]).0
                        < addr by {
                        if k < mid {
                            assert(pair_le(self.index@[k], self.index@[mid as int]));
                        }
                    }
                }
                lo = mid + 1;
            } else {
                proof {
                    assert forall|k: int| mid <= k < self.index@.len() implies (
                    #[trigger] self.index@[k]).0 >= addr by {
                        if k > mid {
                            assert(pair_le(self.index@[mid as int], self.index@[k]));
                        }
                    }
                }
                hi = mid;
            }
        }
        lo
    }

    /// Where the index holds the symbol at position `i`.
    proof fn lemma_index_position(&self, i: int) -> (q: int)
        requires
            self.wf(),
            0 <= i < self.symbols@.len(),
        ensures
            0 <= q < self.index@.len(),
            self.index@[q] == (self.symbols@[i].0.0, i as usize),
    {
        assert(self.index@.contains((self.symbols@[i].0.0, i as usize)));
        choose|q: int| 0 <= q < self.index@.len() && self.index@[q] == (self.symbols@[i].0.0, i as usize)
    }

    /// The name of the first symbol added at `addr`.
    pub fn get_symbol(&self, addr: GuestVirtAddr) -> (r: Option<&str>)
        ensures
            r is None <==> !has_symbol_at(self.entries(), addr.0),
            r matches Some(s) ==> exists|i: int|
                is_first_at(self.entries(), addr.0, i) && s@ == #[trigger] self.entries()[i].1,
    {
        proof {
            use_type_invariant(self);
        }
        let p = self.lower_bound(addr.0);
        if p < self.index.len() && self.index[p].0 == addr.0 {
            let i = self.index[p].1;
            proof {
                self.lemma_first_at(addr.0, p as int);
                assert(self.entries()[i as int].1 == self.symbols@[i as int].1@);
            }
            Some(self.symbols[i].1.as_str())
        } else {
            proof {
                if has_symbol_at(self.entries(), addr.0) {
                    let j = choose|j: int| 0 <= j < self.entries().len() && (#[trigger] self.entries()[j]).0 == addr.0;
                    let q = self.lemma_index_position(j);
                    if q > p {
                        assert(pair_le(self.index@[p as int], self.index@[q]));
                    }
                }
            }
            None
        }
    }

    /// The index entry at `p`, the first whose address is not below `addr`,
    /// names the first symbol added at `addr` when it lies there.
    proof fn lemma_first_at(&self, addr: u64, p: int)
        requires
            self.wf(),
            0 <= p < self.index@.len(),
            self.index@[p].0 == addr,
            forall|k: int| 0 <= k < p ==> (#[trigger] self.index@[k]).0 < addr,
        ensures
            is_first_at(self.entries(), addr, self.index@[p].1 as int),
    {
        let i = self.index@[p].1 as int;
        assert forall|j: int| 0 <= j < i implies (#[trigger] self.entries()[j]).0 != addr by {
            if self.entries()[j].0 == addr {
                let q = self.lemma_index_position(j);
                if q < p {
                } else if q > p {
                    assert(pair_le(self.index@[p], self.index@[q]));
                }
            }
        }
    }

    /// The symbol at or just below `addr`, with the distance from it.
    pub fn get_symbol_inexact(&self, addr: GuestVirtAddr) -> (r: Option<(&str, u64)>)
        ensures
            has_symbol_at(self.entries(), addr.0) ==> (r matches Some((s, off)) && off == 0
                && exists|i: int|
                is_first_at(self.entries(), addr.0, i) && s@ == #[trigger] self.entries()[i].1),
            !has_symbol_at(self.entries(), addr.0) && !has_symbol_below(self.entries(), addr.0)
                ==> r is None,
            !has_symbol_at(self.entries(), addr.0) && has_symbol_below(self.entries(), addr.0)
                ==> (r matches Some((s, off)) && exists|i: int|
                is_last_below(self.entries(), addr.0, i) && s@ == #[trigger] self.entries()[i].1
                    && off == addr.0 - self.entries()[i].0),
    {
        proof {
            use_type_invariant(self);
        }
        let p = self.lower_bound(addr.0);
        if p < self.index.len() && self.index[p].0 == addr.0 {
            let i = self.index[p].1;
            proof {
                self.lemma_first_at(addr.0, p as int);
                assert(self.entries()[i as int].1 == self.symbols@[i as int].1@);
            }
            Some((self.symbols[i].1.as_str(), 0))
        } else {
            proof {
                if has_symbol_at(self.entries(), addr.0) {
                    let j = choose|j: int| 0 <= j < self.entries().len() && (#[trigger] self.entries()[j]).0 == addr.0;
                    let q = self.lemma_index_position(j);
                    if q > p {
                        assert(pair_le(self.index@[p as int], self.index@[q]));
                    }
                }
            }
            if p == 0 {
                proof {
                    if has_symbol_below(self.entries(), addr.0) {
                        let j = choose|j: int| 0 <= j < self.entries().len() && (#[trigger] self.entries()[j]).0 < addr.0;
                        let q = self.lemma_index_position(j);
                    }
                }
                None
            } else {
                let q = p - 1;
                let (a, i) = self.index[q];
                proof {
                    assert forall|j: int|
                        0 <= j < self.entries().len() && (#[trigger] self.entries()[j]).0
                            < addr.0 implies self.entries()[j].0 < a || (self.entries()[j].0 == a
                        && j <= i) by {
                        let w = self.lemma_index_position(j);
                        if w < q {
                            assert(pair_le(self.index@[w], self.index@[q as int]));
                        }
                    }
                    assert(is_last_below(self.entries(), addr.0, i as int));
                    assert(self.entries()[i as int].1 == self.symbols@[i as int].1@);
                }
                Some((self.symbols[i].1.as_str(), addr.0 - a))
            }
        }
    }

    /// Reads the symbols of a file's bytes, as `read_bytes` does.
    pub fn from_bytes(content: &[u8]) -> (r: VmResult<ModuleSymbols>)
        ensures
            starts_with(content@, elf_magic()) ==> match elf_symbol_table(content@) {
                Some(t) => r matches Ok(m) && m.entries() == t,
                None => r is Err,
            },
            !starts_with(content@, elf_magic()) && starts_with(content@, pdb_magic()) ==> r is Err,
            !starts_with(content@, elf_magic()) && !starts_with(content@, pdb_magic()) ==> (r matches Ok(
                m,
            ) && m.entries() == symbol_lines(content@, 0)),
            r matches Ok(m) ==> m.types().dom().is_empty(),
            match bytes_symbols(content@) {
                Some(e) => r matches Ok(m) && m.entries() == e,
                None => r is Err,
            },
    {
        let mut module = ModuleSymbolsBuilder::new();
        proof {
            assert(Seq::<(u64, Seq<char>)>::empty() + symbol_lines(content@, 0) =~= symbol_lines(content@, 0));
            if let Some(t) = elf_symbol_table(content@) {
                assert(Seq::<(u64, Seq<char>)>::empty() + t =~= t);
            }
        }
        module.read_bytes(content)?;
        Ok(module.build())
    }

    /// The address of the first symbol added under `name`.
    pub fn get_address(&self, name: &str) -> (r: Option<GuestVirtAddr>)
        ensures
            r is None <==> !has_symbol_named(self.entries(), name@),
            r matches Some(a) ==> exists|i: int|
                is_first_named(self.entries(), name@, i) && a.0 == #[trigger] self.entries()[i].0,
    {
        proof {
            use_type_invariant(self);
        }
        let key = name.as_bytes();
        let ghost kb = encode_utf8(name@);
        assert(key@ == kb);
        let ghost syms = self.symbols@;
        let ghost bn = self.by_name@;
        let mut lo: usize = 0;
        let mut hi: usize = self.by_name.len();
        while lo < hi
            invariant
                self.wf(),
                syms == self.symbols@,
                bn == self.by_name@,
                key@ == kb,
                lo <= hi <= bn.len(),
                forall|k: int| 0 <= k < lo ==> lex_cmp(name_bytes(syms[#[trigger] bn[k] as int]), kb) < 0,
                forall|k: int| hi <= k < bn.len() ==> lex_cmp(name_bytes(syms[#[trigger] bn[k] as int]), kb) >= 0,
            decreases hi - lo,
        {
            let mid = lo + (hi - lo) / 2;
            let c = compare_bytes(self.symbols[self.by_name[mid]].1.as_str().as_bytes(), key);
            let ghost m = name_bytes(syms[bn[mid as int] as int]);
            if c < 0 {
                proof {
                    assert forall|k: int| 0 <= k < mid + 1 implies lex_cmp(name_bytes(syms[#[trigger] bn[k] as int]), kb) < 0 by {
                        if k < mid {
                            assert(name_pair_le((name_bytes(syms[bn[k] as int]), bn[k]), (m, bn[mid as int])));
                            lemma_lex_trans(name_bytes(syms[bn[k] as int]), m, kb);
                        }
                    }
                }
                lo = mid + 1;
            } else {
                proof {
                    lemma_lex_basics(m, kb);
                    assert forall|k: int| mid <= k < bn.len() implies lex_cmp(name_bytes(syms[#[trigger] bn[k] as int]), kb) >= 0 by {
                        if k > mid {
                            let x = name_bytes(syms[bn[k] as int]);
                            lemma_lex_basics(x, kb);
                            lemma_lex_basics(m, x);
                            assert(name_pair_le((m, bn[mid as int]), (x, bn[k])));
                            lemma_lex_trans(kb, m, x);
                        }
                    }
                }
                hi = mid;
            }
        }
        if lo < self.by_name.len() {
            let i = self.by_name[lo];
            let c = compare_bytes(self.symbols[i].1.as_str().as_bytes(), key);
            if c == 0 {
                proof {
                    let x = name_bytes(syms[i as int]);
                    lemma_lex_basics(x, kb);
                    vstd::utf8::encode_utf8_decode_utf8(syms[i as int].1@);
                    vstd::utf8::encode_utf8_decode_utf8(name@);
                    assert(self.entries()[i as int].1 == name@);
                    assert forall|j: int| 0 <= j < i implies (#[trigger] self.entries()[j]).1 != name@ by {
                        if self.entries()[j].1 == name@ {
                            assert(bn.contains(j as usize));
                            let q = choose|q: int| 0 <= q < bn.len() && bn[q] == j as usize;
                            assert(name_bytes(syms[j]) == kb);
                            lemma_lex_basics(kb, kb);
                            if q < lo {
                            } else if q > lo {
                                assert(name_pair_le((name_bytes(syms[bn[lo as int] as int]), bn[lo as int]), (name_bytes(syms[bn[q] as int]), bn[q])));
                            }
                        }
                    }
                    assert(is_first_named(self.entries(), name@, i as int));
                    assert(self.entries()[i as int].0 == self.symbols@[i as int].0.0);
                }
                return Some(self.symbols[i].0);
            }
            proof {
                let x = name_bytes(syms[i as int]);
                lemma_lex_basics(x, kb);
                lemma_lex_basics(kb, x);
            }
        }
        proof {
            if has_symbol_named(self.entries(), name@) {
                let j = choose|j: int| 0 <= j < self.entries().len() && (#[trigger] self.entries()[j]).1 == name@;
                assert(self.entries()[j].1 == syms[j].1@);
                assert(name_bytes(syms[j]) == kb);
                lemma_lex_basics(kb, kb);
                assert(bn.contains(j as usize));
                let q = choose|q: int| 0 <= q < bn.len() && bn[q] == j as usize;
                if q > lo {
                    let x = name_bytes(syms[bn[lo as int] as int]);
                    assert(name_pair_le((x, bn[lo as int]), (kb, bn[q])));
                    lemma_lex_basics(x, kb);
                    lemma_lex_basics(kb, x);
                }
            }
        }
        None
    }

    /// The address of the first symbol added under `name`, or an error naming
    /// the symbol.
    pub fn require_address(&self, name: &str) -> (r: VmResult<GuestVirtAddr>)
        ensures
            !has_symbol_named(self.entries(), name@) ==> (r matches Err(VmError::MissingSymbol(s))
                && s@ == name@),
            r matches Ok(a) ==> exists|i: int|
                is_first_named(self.entries(), name@, i) && a.0 == #[trigger] self.entries()[i].0,
            has_symbol_named(self.entries(), name@) ==> r is Ok,
    {
        match self.get_address(name) {
            Some(a) => Ok(a),
            None => Err(VmError::MissingSymbol(name.to_owned())),
        }
    }

    /// The symbols in address order, those at one address in the order they
    /// were added.
    pub closed spec fn by_address(&self) -> Seq<(u64, Seq<char>)> {
        Seq::new(self.index@.len(), |k: int| self.entries()[self.index@[k].1 as int])
    }

    /// The positions, in insertion order, of the symbols in address order.
    pub closed spec fn order(&self) -> Seq<usize> {
        Seq::new(self.index@.len(), |k: int| self.index@[k].1)
    }

    /// The symbols in address order, those at one address in the order they
    /// were added: each symbol once.
    pub fn iter_symbols(&self) -> (r: Vec<(GuestVirtAddr, String)>)
        ensures
            entries_view(r@) == self.by_address(),
            r@.len() == self.entries().len(),
            forall|i: int, j: int| 0 <= i < j < r@.len() ==> r@[i].0.0 <= r@[j].0.0,
            self.order().len() == self.entries().len(),
            entries_view(r@) == Seq::new(self.order().len(), |k: int| self.entries()[self.order()[k] as int]),
            forall|k: int| 0 <= k < self.order().len() ==> #[trigger] self.order()[k] < self.entries().len(),
            forall|i: int| 0 <= i < self.entries().len() ==> #[trigger] self.order().contains(i as usize),
            forall|k: int, l: int|
                0 <= k < l < self.order().len() ==> self.entries()[self.order()[k] as int].0
                    < self.entries()[self.order()[l] as int].0 || (self.entries()[self.order()[k] as int].0
                    == self.entries()[self.order()[l] as int].0 && self.order()[k] < self.order()[l]),
    {
        proof {
            use_type_invariant(self);
        }
        let mut out: Vec<(GuestVirtAddr, String)> = Vec::new();
        let mut k: usize = 0;
        while k < self.index.len()
            invariant
                self.wf(),
                k <= self.index@.len(),
                out@.len() == k,
                forall|q: int| 0 <= q < k ==> (#[trigger] out@[q]).0.0 == self.index@[q].0 && out@[q].1@
                    == self.entries()[self.index@[q].1 as int].1,
            decreases self.index@.len() - k,
        {
            let i = self.index[k].1;
            out.push((self.symbols[i].0, self.symbols[i].1.clone()));
            k += 1;
        }
        proof {
            assert forall|q: int| 0 <= q < out@.len() implies entries_view(out@)[q] == self.by_address()[q] by {
                let i = self.index@[q].1 as int;
                assert(self.entries()[i].0 == self.index@[q].0);
            }
            assert(entries_view(out@) =~= self.by_address());
            assert forall|a: int, b: int| 0 <= a < b < out@.len() implies out@[a].0.0 <= out@[b].0.0 by {
                assert(pair_le(self.index@[a], self.index@[b]));
            }
            assert(self.by_address() =~= Seq::new(self.order().len(), |k: int| self.entries()[self.order()[k] as int]));
            assert forall|i: int| 0 <= i < self.entries().len() implies #[trigger] self.order().contains(i as usize) by {
                assert(self.index@.contains((self.symbols@[i].0.0, i as usize)));
                let q = choose|q: int| 0 <= q < self.index@.len() && self.index@[q] == (self.symbols@[i].0.0, i as usize);
                assert(self.order()[q] == i as usize);
            }
            assert forall|k: int, l: int| 0 <= k < l < self.order().len() implies self.entries()[self.order()[k] as int].0
                < self.entries()[self.order()[l] as int].0 || (self.entries()[self.order()[k] as int].0
                == self.entries()[self.order()[l] as int].0 && self.order()[k] < self.order()[l]) by {
                assert(pair_le(self.index@[k], self.index@[l]));
                assert(self.index@[k].1 != self.index@[l].1);
            }
        }
        out
    }

    /// The layout of the structure named `name`.
    pub fn get_struct(&self, name: &str) -> (r: Option<StructRef<'_>>)
        ensures
            !self.types().contains_key(name@) ==> r is None,
            self.types().contains_key(name@) ==> (r matches Some(s) && s.size
                == self.types()[name@].size && s.name@ == self.types()[name@].name@ && s.fields@
                == self.types()[name@].fields@),
    {
        match self.types.get(name) {
            Some(s) => Some(s.borrow()),
            None => None,
        }
    }

    /// The layout of the structure named `name`, or an error naming it.
    pub fn require_struct(&self, name: &str) -> (r: VmResult<StructRef<'_>>)
        ensures
            !self.types().contains_key(name@) ==> (r matches Err(VmError::MissingSymbol(s)) && s@
                == name@),
            self.types().contains_key(name@) ==> (r matches Ok(s) && s.size
                == self.types()[name@].size && s.name@ == self.types()[name@].name@ && s.fields@
                == self.types()[name@].fields@),
    {
        match self.get_struct(name) {
            Some(s) => Ok(s),
            None => Err(VmError::MissingSymbol(name.to_owned())),
        }
    }
}

} // verus!
