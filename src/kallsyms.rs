use vstd::prelude::*;
use vstd::utf8::{decode_utf8, valid_utf8};

use crate::addr::GuestVirtAddr;
use crate::symbols::ModuleSymbolsBuilder;

verus! {

/// Relies on `std::str::from_utf8`: it accepts exactly the well-formed UTF-8
/// byte strings, and the string it gives holds the characters they encode.
#[verifier::external_body]
pub(crate) fn utf8_string(b: &[u8]) -> (r: Option<String>)
    ensures
        r is Some <==> valid_utf8(b@),
        r matches Some(s) ==> s@ == decode_utf8(b@),
{
    match std::str::from_utf8(b) {
        Ok(s) => Some(s.to_owned()),
        Err(_) => None,
    }
}

/// Position of the first `stop` byte from `pos` on, or the end.
pub open spec fn find_byte(c: Seq<u8>, pos: int, stop: u8) -> int
    decreases c.len() - pos,
{
    if pos < 0 || pos >= c.len() {
        c.len() as int
    } else if c[pos] == stop {
        pos
    } else {
        find_byte(c, pos + 1, stop)
    }
}

pub open spec fn is_hex_digit(b: u8) -> bool {
    (0x30 <= b <= 0x39) || (0x41 <= b <= 0x46) || (0x61 <= b <= 0x66)
}

pub open spec fn hex_digit_value(b: u8) -> u64 {
    if 0x30 <= b <= 0x39 {
        (b - 0x30) as u64
    } else if 0x41 <= b <= 0x46 {
        (b - 0x41 + 10) as u64
    } else {
        (b - 0x61 + 10) as u64
    }
}

/// The value of the first `k` hexadecimal digits of `s`.
pub open spec fn hex_value(s: Seq<u8>, k: int) -> u64
    decreases k,
{
    if k <= 0 {
        0
    } else {
        ((hex_value(s, k - 1) << 4u64) | hex_digit_value(s[k - 1]))
    }
}

/// The symbol that a line (without its newline) declares: sixteen hex
/// digits, a space, a kind among `T`, `t`, `A` and `D`, a space, then the
/// name up to a tab or the end of the line.
pub open spec fn symbol_line(line: Seq<u8>) -> Option<(u64, Seq<char>)> {
    if line.len() < 19 || !(forall|i: int| 0 <= i < 16 ==> is_hex_digit(#[trigger] line[i]))
        || line[16] != 0x20 || line[18] != 0x20 || !(line[17] == 0x54 || line[17] == 0x74
        || line[17] == 0x41 || line[17] == 0x44) {
        None
    } else {
        let name = line.subrange(19, find_byte(line, 19, 0x09));
        if valid_utf8(name) {
            Some((hex_value(line, 16), decode_utf8(name)))
        } else {
            None
        }
    }
}

/// The symbols that the lines from `pos` on declare, in order.
pub open spec fn symbol_lines(c: Seq<u8>, pos: int) -> Seq<(u64, Seq<char>)>
    decreases c.len() - pos,
{
    if pos < 0 || pos >= c.len() {
        Seq::empty()
    } else {
        let end = find_byte(c, pos, 0x0a);
        let rest = if pos <= end < c.len() {
            symbol_lines(c, end + 1)
        } else {
            Seq::empty()
        };
        match symbol_line(c.subrange(pos, end)) {
            Some(s) => seq![s] + rest,
            None => rest,
        }
    }
}

pub(crate) proof fn lemma_find_byte_bounds(c: Seq<u8>, pos: int, stop: u8)
    requires
        0 <= pos <= c.len(),
    ensures
        pos <= find_byte(c, pos, stop) <= c.len(),
    decreases c.len() - pos,
{
    if pos < c.len() && c[pos] != stop {
        lemma_find_byte_bounds(c, pos + 1, stop);
    }
}

/// Position of the first `stop` byte from `pos` on, or the end.
pub(crate) fn find_byte_from(c: &[u8], pos: usize, stop: u8) -> (r: usize)
    requires
        pos <= c@.len(),
    ensures
        r == find_byte(c@, pos as int, stop),
        pos <= r <= c@.len(),
{
    let mut i = pos;
    while i < c.len()
        invariant
            pos <= i <= c@.len(),
            find_byte(c@, pos as int, stop) == find_byte(c@, i as int, stop),
        decreases c@.len() - i,
    {
        if c[i] == stop {
            return i;
        }
        i += 1;
    }
    i
}

/// Decodes the symbol that one line declares.
fn parse_symbol_line(line: &[u8]) -> (r: Option<(u64, String)>)
    ensures
        match symbol_line(line@) {
            Some((a, n)) => r matches Some((ra, rn)) && ra == a && rn@ == n,
            None => r is None,
        },
{
    if line.len() < 19 {
        return None;
    }
    let mut addr: u64 = 0;
    let mut k: usize = 0;
    while k < 16
        invariant
            line@.len() >= 19,
            k <= 16,
            forall|i: int| 0 <= i < k ==> is_hex_digit(#[trigger] line@[i]),
            addr == hex_value(line@, k as int),
        decreases 16 - k,
    {
        let b = line[k];
        let d: u64 = if 0x30 <= b && b <= 0x39 {
            (b - 0x30) as u64
        } else if 0x41 <= b && b <= 0x46 {
            (b - 0x41 + 10) as u64
        } else if 0x61 <= b && b <= 0x66 {
            (b - 0x61 + 10) as u64
        } else {
            return None;
        };
        addr = (addr << 4u64) | d;
        k += 1;
    }
    if line[16] != 0x20 || line[18] != 0x20 {
        return None;
    }
    let kind = line[17];
    if !(kind == 0x54 || kind == 0x74 || kind == 0x41 || kind == 0x44) {
        return None;
    }
    let end = find_byte_from(line, 19, 0x09);
    let name = utf8_string(&line[19..end])?;
    Some((addr, name))
}

/// Adds the symbols of a text listing, one `address kind name` line each;
/// lines of other kinds, or of another shape, are skipped.
pub fn parse_kallsyms(content: &[u8], syms: &mut ModuleSymbolsBuilder)
    ensures
        final(syms).entries() == old(syms).entries() + symbol_lines(content@, 0),
        final(syms).types() == old(syms).types(),
{
    let mut pos: usize = 0;
    while pos < content.len()
        invariant
            pos <= content@.len(),
            old(syms).entries() + symbol_lines(content@, 0) == syms.entries() + symbol_lines(
                content@,
                pos as int,
            ),
            syms.types() == old(syms).types(),
        decreases content@.len() - pos,
    {
        let end = find_byte_from(content, pos, 0x0a);
        let ghost before = syms.entries();
        let ghost rest = if end < content@.len() {
            symbol_lines(content@, end + 1)
        } else {
            Seq::empty()
        };
        match parse_symbol_line(&content[pos..end]) {
            Some((addr, name)) => {
                syms.push(GuestVirtAddr(addr), name.as_str());
                proof {
                    assert(before + (seq![(addr, name@)] + rest) =~= before.push((addr, name@)) + rest);
                }
            },
            None => {},
        }
        if end >= content.len() {
            pos = content.len();
        } else {
            pos = end + 1;
        }
    }
    proof {
        assert(syms.entries() + Seq::<(u64, Seq<char>)>::empty() =~= syms.entries());
    }
}

} // verus!
