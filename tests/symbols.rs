use vminer::addr::GuestVirtAddr;
use vminer::demangle::{demangle, demangle_to, pick_decoding};
use vminer::error::VmError;
use vminer::indexer::SymbolsIndexer;
use vminer::kallsyms::parse_kallsyms;
use vminer::layout::{Struct, StructField, TypeKind};
use vminer::symbols::{ModuleSymbols, ModuleSymbolsBuilder};

fn field(name: &str, offset: u64) -> StructField {
    StructField { name: name.to_owned(), offset, typ: TypeKind::Unknown }
}

#[test]
fn text_listing_symbol() {
    let mut b = ModuleSymbolsBuilder::new();
    parse_kallsyms(b"ffffffff81000000 T _stext\n", &mut b);
    let m = b.build();
    assert_eq!(m.get_address("_stext"), Some(GuestVirtAddr(0xffffffff81000000)));
    assert_eq!(m.get_symbol(GuestVirtAddr(0xffffffff81000000)), Some("_stext"));
}

#[test]
fn text_listing_kinds_and_shapes() {
    let text = b"0000000000001000 t local\tmodule\n0000000000002000 b skipped\nshort\n00000000000030zz T badhex\n0000000000004000 D data\n0000000000005000 A last";
    let mut b = ModuleSymbolsBuilder::new();
    parse_kallsyms(text, &mut b);
    let m = b.build();
    assert_eq!(m.get_address("local"), Some(GuestVirtAddr(0x1000)));
    assert_eq!(m.get_address("skipped"), None);
    assert_eq!(m.get_address("badhex"), None);
    assert_eq!(m.get_address("data"), Some(GuestVirtAddr(0x4000)));
    assert_eq!(m.get_address("last"), Some(GuestVirtAddr(0x5000)));
}

fn sample() -> ModuleSymbols {
    let mut b = ModuleSymbolsBuilder::new();
    b.push(GuestVirtAddr(0x3000), "c");
    b.push(GuestVirtAddr(0x1000), "a");
    b.push(GuestVirtAddr(0x2000), "b");
    b.push(GuestVirtAddr(0x2000), "b2");
    b.build()
}

#[test]
fn symbol_round_trip() {
    let m = sample();
    for (addr, name) in [(0x3000u64, "c"), (0x1000, "a"), (0x2000, "b")] {
        assert_eq!(m.get_address(name), Some(GuestVirtAddr(addr)));
        assert_eq!(m.get_symbol(GuestVirtAddr(addr)), Some(name));
    }
    assert_eq!(m.get_address("b2"), Some(GuestVirtAddr(0x2000)));
    assert_eq!(m.get_symbol(GuestVirtAddr(0x2500)), None);
    assert_eq!(m.get_address("missing"), None);
}

#[test]
fn inexact_lookup() {
    let m = sample();
    assert_eq!(m.get_symbol_inexact(GuestVirtAddr(0x1000)), Some(("a", 0)));
    assert_eq!(m.get_symbol_inexact(GuestVirtAddr(0x1fff)), Some(("a", 0xfff)));
    assert_eq!(m.get_symbol_inexact(GuestVirtAddr(0x2000)), Some(("b", 0)));
    assert_eq!(m.get_symbol_inexact(GuestVirtAddr(0x2010)), Some(("b2", 0x10)));
    assert_eq!(m.get_symbol_inexact(GuestVirtAddr(0x3010)), Some(("c", 0x10)));
    assert_eq!(m.get_symbol_inexact(GuestVirtAddr(0xfff)), None);
}

#[test]
fn missing_symbol_error() {
    let m = sample();
    assert_eq!(m.require_address("nope"), Err(VmError::MissingSymbol("nope".to_owned())));
}

fn layout() -> Struct {
    Struct {
        size: 0x40,
        name: "task_struct".to_owned(),
        fields: vec![field("state", 0), field("pid", 0x10), field("comm", 0x18)],
    }
}

#[test]
fn field_offsets_and_sizes() {
    let s = layout();
    let r = s.borrow();
    assert_eq!(r.find_offset("pid"), Some(0x10));
    assert_eq!(r.find_offset_and_size("state"), Ok((0, 0x10)));
    assert_eq!(r.find_offset_and_size("pid"), Ok((0x10, 8)));
    assert_eq!(r.find_offset_and_size("comm"), Ok((0x18, 0x28)));
    assert_eq!(
        r.find_offset_and_size("mm"),
        Err(VmError::MissingField("mm".to_owned(), "task_struct".to_owned()))
    );
    assert_eq!(r.require_offset("comm"), Ok(0x18));
    assert_eq!(r.find_field("comm").map(|f| f.offset), Some(0x18));
    let owned = r.into_owned();
    assert_eq!(owned.fields.len(), 3);
    assert_eq!(owned.name, "task_struct");
}

#[test]
fn struct_table_lookup() {
    let mut b = ModuleSymbolsBuilder::new();
    b.insert_struct(layout());
    let m = b.build();
    let s = m.get_struct("task_struct").unwrap();
    assert_eq!(s.size, 0x40);
    assert_eq!(s.find_offset("comm"), Some(0x18));
    assert!(m.get_struct("mm_struct").is_none());
    assert!(matches!(m.require_struct("mm_struct"), Err(VmError::MissingSymbol(_))));
}

#[test]
fn bytes_by_format() {
    let m = ModuleSymbols::from_bytes(b"0000000000001000 T start\n").unwrap();
    assert_eq!(m.get_address("start"), Some(GuestVirtAddr(0x1000)));
    assert!(matches!(ModuleSymbols::from_bytes(b"Microsoft C/C++ MSF 7.00\r\n"), Err(VmError::Parse(_))));
    assert!(matches!(ModuleSymbols::from_bytes(b"\x7fELF\x00\x00"), Err(VmError::Parse(_))));
}

#[test]
fn indexer_modules() {
    let mut idx = SymbolsIndexer::new();
    assert!(matches!(idx.require_module("kernel"), Err(VmError::MissingModule(_))));
    let loaded = idx.load_from_bytes("kernel", b"0000000000001000 T start\n").unwrap();
    assert!(loaded.is_some());
    assert_eq!(idx.get_addr("kernel", "start"), Ok(GuestVirtAddr(0x1000)));
    assert!(matches!(idx.get_addr("kernel", "other"), Err(VmError::MissingSymbol(_))));
    // A second load keeps the first one.
    idx.load_from_bytes("kernel", b"0000000000002000 T start\n").unwrap();
    assert_eq!(idx.get_addr("kernel", "start"), Ok(GuestVirtAddr(0x1000)));
    assert!(idx.load_module("absent", None).is_none());
    assert!(idx.get_module("absent").is_none());
}

#[test]
fn demangling() {
    assert_eq!(demangle("_ZN4core3fmt5write17h0123456789abcdefE"), "core::fmt::write::h0123456789abcdef");
    assert_eq!(demangle("_ZN5space3fooEibc"), "space::foo(int, bool, char)");
    assert_eq!(demangle("plain_symbol"), "plain_symbol");
    let mut out = String::from("at ");
    demangle_to("_ZN5space3fooEibc", &mut out);
    assert_eq!(out, "at space::foo(int, bool, char)");
    let msvc = demangle("?x@@3HA");
    assert_ne!(msvc, "?x@@3HA");
}

#[test]
fn decoding_order() {
    assert_eq!(pick_decoding(Some("r".to_owned()), Some("c".to_owned()), None, "s"), "r");
    assert_eq!(pick_decoding(None, Some("c".to_owned()), Some("m".to_owned()), "s"), "c");
    assert_eq!(pick_decoding(None, None, Some("m".to_owned()), "s"), "m");
    assert_eq!(pick_decoding(None, None, None, "s"), "s");
}

#[test]
fn symbols_in_address_order() {
    let m = sample();
    let all = m.iter_symbols();
    let names: Vec<&str> = all.iter().map(|(_, n)| n.as_str()).collect();
    assert_eq!(names, vec!["a", "b", "b2", "c"]);
    assert_eq!(all[0].0, GuestVirtAddr(0x1000));
}

fn put(data: &mut Vec<u8>, at: usize, bytes: &[u8]) {
    if data.len() < at + bytes.len() {
        data.resize(at + bytes.len(), 0);
    }
    data[at..at + bytes.len()].copy_from_slice(bytes);
}

fn section_header(
    data: &mut Vec<u8>,
    at: usize,
    name: u32,
    kind: u32,
    offset: u64,
    size: u64,
    link: u32,
    info: u32,
    entsize: u64,
) {
    put(data, at, &name.to_le_bytes());
    put(data, at + 4, &kind.to_le_bytes());
    put(data, at + 24, &offset.to_le_bytes());
    put(data, at + 32, &size.to_le_bytes());
    put(data, at + 40, &link.to_le_bytes());
    put(data, at + 44, &info.to_le_bytes());
    put(data, at + 48, &1u64.to_le_bytes());
    put(data, at + 56, &entsize.to_le_bytes());
}

fn symbol(d: &mut Vec<u8>, at: usize, name: u32, value: u64) {
    put(d, at, &name.to_le_bytes());
    put(d, at + 4, &[0x12, 0]);
    put(d, at + 6, &0xfff1u16.to_le_bytes());
    put(d, at + 8, &value.to_le_bytes());
    put(d, at + 16, &0u64.to_le_bytes());
}

/// A relocatable x86-64 ELF image whose symbol table holds `foo` at 0x1000
/// and `bar` at 0x2000.
fn elf_image() -> Vec<u8> {
    let mut d = vec![0u8; 64];
    put(&mut d, 0, &[0x7f, b'E', b'L', b'F', 2, 1, 1]);
    put(&mut d, 16, &1u16.to_le_bytes());
    put(&mut d, 18, &62u16.to_le_bytes());
    put(&mut d, 20, &1u32.to_le_bytes());
    put(&mut d, 40, &184u64.to_le_bytes());
    put(&mut d, 52, &64u16.to_le_bytes());
    put(&mut d, 58, &64u16.to_le_bytes());
    put(&mut d, 60, &4u16.to_le_bytes());
    put(&mut d, 62, &3u16.to_le_bytes());
    let shstrtab = b"\0.symtab\0.strtab\0.shstrtab\0";
    put(&mut d, 64, shstrtab);
    let strtab = b"\0foo\0bar\0";
    put(&mut d, 96, strtab);
    // Symbols: the null one, then foo and bar, global functions, absolute.
    put(&mut d, 112, &[0u8; 24]);
    symbol(&mut d, 136, 1, 0x1000);
    symbol(&mut d, 160, 5, 0x2000);
    put(&mut d, 184, &[0u8; 64]);
    section_header(&mut d, 248, 1, 2, 112, 72, 2, 1, 24);
    section_header(&mut d, 312, 9, 3, 96, strtab.len() as u64, 0, 0, 0);
    section_header(&mut d, 376, 17, 3, 64, shstrtab.len() as u64, 0, 0, 0);
    d
}

#[test]
fn elf_symbol_table() {
    let m = ModuleSymbols::from_bytes(&elf_image()).unwrap();
    assert_eq!(m.get_address("foo"), Some(GuestVirtAddr(0x1000)));
    assert_eq!(m.get_address("bar"), Some(GuestVirtAddr(0x2000)));
    assert_eq!(m.get_symbol(GuestVirtAddr(0x2000)), Some("bar"));
}

#[test]
fn single_symbol_listing() {
    let m = ModuleSymbols::from_bytes(b"ffffffff81000000 T _stext\n").unwrap();
    assert_eq!(m.iter_symbols(), vec![(GuestVirtAddr(0xffffffff81000000), "_stext".to_owned())]);
}

#[test]
fn listing_needs_separating_spaces() {
    let mut b = ModuleSymbolsBuilder::new();
    parse_kallsyms(b"ffffffff81000000xTx_stext\nffffffff81000010 T good\n", &mut b);
    let m = b.build();
    assert_eq!(m.get_address("_stext"), None);
    assert_eq!(m.get_address("good"), Some(GuestVirtAddr(0xffffffff81000010)));
}

#[test]
fn long_symbols_skip_msvc() {
    let mut sym = String::from("?x@@3");
    for _ in 0..20000 {
        sym.push_str("PA");
    }
    sym.push_str("HA");
    assert_eq!(demangle(&sym), sym);
}

#[test]
fn duplicate_names_first_wins() {
    let mut b = ModuleSymbolsBuilder::new();
    b.push(GuestVirtAddr(0x30), "zeta");
    b.push(GuestVirtAddr(0x20), "dup");
    b.push(GuestVirtAddr(0x10), "dup");
    b.push(GuestVirtAddr(0x40), "alpha");
    let m = b.build();
    assert_eq!(m.get_address("dup"), Some(GuestVirtAddr(0x20)));
    assert_eq!(m.get_address("alpha"), Some(GuestVirtAddr(0x40)));
    assert_eq!(m.get_address("zeta"), Some(GuestVirtAddr(0x30)));
    assert_eq!(m.get_address("du"), None);
    assert_eq!(m.get_address("dupe"), None);
    assert_eq!(m.get_address(""), None);
}
