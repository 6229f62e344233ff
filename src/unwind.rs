use vstd::prelude::*;

use crate::addr::GuestVirtAddr;
use crate::symbols::{pair_le, sort_pairs, sorted_pairs};

verus! {

broadcast use vstd::seq_lib::group_to_multiset_ensures;

/// The little-endian 16-bit value at `p`.
pub open spec fn le16(b: Seq<u8>, p: int) -> u16 {
    (b[p] as u16) | ((b[p + 1] as u16) << 8u16)
}

/// The little-endian 32-bit value at `p`.
pub open spec fn le32(b: Seq<u8>, p: int) -> u32 {
    (b[p] as u32) | ((b[p + 1] as u32) << 8u32) | ((b[p + 2] as u32) << 16u32) | ((b[p
        + 3] as u32) << 24u32)
}

/// Reads one byte at `*pos` and moves past it.
pub fn read_u8(codes: &[u8], pos: &mut usize) -> (r: Option<u8>)
    ensures
        *old(pos) < codes@.len() ==> r == Some(codes@[*old(pos) as int]) && *final(pos) == *old(pos)
            + 1,
        *old(pos) >= codes@.len() ==> r is None && *final(pos) == *old(pos),
{
    if *pos < codes.len() {
        let b = codes[*pos];
        *pos = *pos + 1;
        Some(b)
    } else {
        None
    }
}

/// Reads a little-endian 16-bit value at `*pos` and moves past it.
pub fn read_u16(codes: &[u8], pos: &mut usize) -> (r: Option<u16>)
    ensures
        *old(pos) + 2 <= codes@.len() ==> r == Some(le16(codes@, *old(pos) as int)) && *final(pos)
            == *old(pos) + 2,
        *old(pos) + 2 > codes@.len() ==> r is None && *final(pos) == *old(pos),
{
    if codes.len() >= 2 && *pos <= codes.len() - 2 {
        let p = *pos;
        *pos = p + 2;
        Some((codes[p] as u16) | ((codes[p + 1] as u16) << 8u16))
    } else {
        None
    }
}

/// Reads a little-endian 32-bit value at `*pos` and moves past it.
pub fn read_u32(codes: &[u8], pos: &mut usize) -> (r: Option<u32>)
    ensures
        *old(pos) + 4 <= codes@.len() ==> r == Some(le32(codes@, *old(pos) as int)) && *final(pos)
            == *old(pos) + 4,
        *old(pos) + 4 > codes@.len() ==> r is None && *final(pos) == *old(pos),
{
    if codes.len() >= 4 && *pos <= codes.len() - 4 {
        let p = *pos;
        *pos = p + 4;
        Some(
            (codes[p] as u32) | ((codes[p + 1] as u32) << 8u32) | ((codes[p + 2] as u32) << 16u32)
                | ((codes[p + 3] as u32) << 24u32),
        )
    } else {
        None
    }
}

/// Takes the `len` bytes at `*pos` and moves past them.
pub fn read_slice<'a>(codes: &'a [u8], pos: &mut usize, len: usize) -> (r: Option<&'a [u8]>)
    ensures
        *old(pos) + len <= codes@.len() ==> (r matches Some(s) && s@ == codes@.subrange(
            *old(pos) as int,
            *old(pos) + len,
        ) && *final(pos) == *old(pos) + len),
        *old(pos) + len > codes@.len() ==> r is None && *final(pos) == *old(pos),
{
    if *pos <= codes.len() && len <= codes.len() - *pos {
        let p = *pos;
        *pos = p + len;
        Some(&codes[p..p + len])
    } else {
        None
    }
}

// Unwind operations of the x64 exception directory.
pub const UWOP_PUSH_NONVOL: u8 = 0;
pub const UWOP_ALLOC_LARGE: u8 = 1;
pub const UWOP_ALLOC_SMALL: u8 = 2;
pub const UWOP_SET_FPREG: u8 = 3;
pub const UWOP_SAVE_NONVOL: u8 = 4;
pub const UWOP_SAVE_NONVOL_FAR: u8 = 5;
pub const UWOP_EPILOG: u8 = 6;
pub const UWOP_SAVE_XMM128: u8 = 8;
pub const UWOP_SAVE_XMM128_FAR: u8 = 9;
pub const UWOP_PUSH_MACHFRAME: u8 = 10;

/// The stack space that the unwind codes from `pos` on allocate, added to
/// `acc`; `None` for codes that cannot be decoded or a total that does not
/// fit in 32 bits. Each code is a prolog offset byte, then a byte with the
/// operation in its low nibble and its operand in the high one, then the
/// operation's extra slots.
pub open spec fn unwind_frame_size(codes: Seq<u8>, pos: int, version: u8, acc: int) -> Option<
    int,
>
    decreases codes.len() - pos,
{
    if pos < 0 || pos >= codes.len() {
        Some(acc)
    } else if pos + 1 >= codes.len() {
        None
    } else {
        let op = codes[pos + 1];
        let code = op & 0xf;
        let info = op >> 4u8;
        let next = pos + 2;
        if code == UWOP_PUSH_NONVOL {
            if acc + 8 > u32::MAX {
                None
            } else {
                unwind_frame_size(codes, next, version, acc + 8)
            }
        } else if code == UWOP_ALLOC_LARGE {
            if info == 0 && next + 2 <= codes.len() {
                if acc + le16(codes, next) * 8 > u32::MAX {
                    None
                } else {
                    unwind_frame_size(codes, next + 2, version, acc + le16(codes, next) * 8)
                }
            } else if info == 1 && next + 4 <= codes.len() {
                if acc + le32(codes, next) > u32::MAX {
                    None
                } else {
                    unwind_frame_size(codes, next + 4, version, acc + le32(codes, next))
                }
            } else {
                None
            }
        } else if code == UWOP_ALLOC_SMALL {
            if acc + info * 8 + 8 > u32::MAX {
                None
            } else {
                unwind_frame_size(codes, next, version, acc + info * 8 + 8)
            }
        } else if code == UWOP_SET_FPREG {
            unwind_frame_size(codes, next, version, acc)
        } else if code == UWOP_SAVE_NONVOL || code == UWOP_SAVE_XMM128 || (code == UWOP_EPILOG
            && version == 2) {
            if next + 2 <= codes.len() {
                unwind_frame_size(codes, next + 2, version, acc)
            } else {
                None
            }
        } else if code == UWOP_SAVE_NONVOL_FAR || code == UWOP_SAVE_XMM128_FAR {
            if next + 4 <= codes.len() {
                unwind_frame_size(codes, next + 4, version, acc)
            } else {
                None
            }
        } else if code == UWOP_PUSH_MACHFRAME {
            if info == 0 {
                if acc + 0x28 > u32::MAX {
                    None
                } else {
                    unwind_frame_size(codes, next, version, acc + 0x28)
                }
            } else if info == 1 {
                if acc + 0x30 > u32::MAX {
                    None
                } else {
                    unwind_frame_size(codes, next, version, acc + 0x30)
                }
            } else {
                None
            }
        } else {
            None
        }
    }
}

/// The stack space that a function's prolog allocates, from its unwind codes.
pub fn parse_unwind_codes(codes: &[u8], version: u8) -> (r: Option<u32>)
    ensures
        match unwind_frame_size(codes@, 0, version, 0) {
            Some(n) => r == Some(n as u32),
            None => r is None,
        },
{
    let mut pos: usize = 0;
    let mut size: u32 = 0;
    loop
        invariant
            pos <= codes@.len(),
            unwind_frame_size(codes@, 0, version, 0) == unwind_frame_size(
                codes@,
                pos as int,
                version,
                size as int,
            ),
        decreases codes@.len() - pos,
    {
        if read_u8(codes, &mut pos).is_none() {
            return Some(size);
        }
        let op = match read_u8(codes, &mut pos) {
            Some(op) => op,
            None => return None,
        };
        let op_code = op & 0xf;
        let op_info = op >> 4u8;
        let add: u32 = if op_code == UWOP_PUSH_NONVOL {
            8
        } else if op_code == UWOP_ALLOC_LARGE {
            if op_info == 0 {
                match read_u16(codes, &mut pos) {
                    Some(n) => {
                        if (size as u64) + (n as u64) * 8 > u32::MAX as u64 {
                            return None;
                        }
                        n as u32 * 8
                    },
                    None => return None,
                }
            } else if op_info == 1 {
                match read_u32(codes, &mut pos) {
                    Some(n) => n,
                    None => return None,
                }
            } else {
                return None;
            }
        } else if op_code == UWOP_ALLOC_SMALL {
            assert(op_info < 16) by (bit_vector)
                requires
                    op_info == op >> 4u8,
            ;
            op_info as u32 * 8 + 8
        } else if op_code == UWOP_SET_FPREG {
            0
        } else if op_code == UWOP_SAVE_NONVOL || op_code == UWOP_SAVE_XMM128 || (op_code
            == UWOP_EPILOG && version == 2) {
            if read_u16(codes, &mut pos).is_none() {
                return None;
            }
            0
        } else if op_code == UWOP_SAVE_NONVOL_FAR || op_code == UWOP_SAVE_XMM128_FAR {
            if read_u32(codes, &mut pos).is_none() {
                return None;
            }
            0
        } else if op_code == UWOP_PUSH_MACHFRAME {
            if op_info == 0 {
                0x28
            } else if op_info == 1 {
                0x30
            } else {
                return None;
            }
        } else {
            return None;
        };
        if (size as u64) + (add as u64) > u32::MAX as u64 {
            return None;
        }
        size = size + add;
    }
}

/// An entry of the exception directory: a function's bounds, relative to the
/// image base, and where its unwind information lies.
#[derive(Clone, Copy, Debug, PartialEq, Eq, Structural)]
pub struct RuntimeFunction {
    pub start: u32,
    pub end: u32,
    pub ptr: u32,
}

/// A function with the stack space its prolog allocates.
#[derive(Clone, Copy, Debug, PartialEq, Eq, Structural)]
pub struct FunctionEntry {
    pub start: u32,
    pub end: u32,
    pub stack_frame_size: u32,
    /// The function whose unwind information this one chains to.
    pub mother: Option<RuntimeFunction>,
}

impl FunctionEntry {
    pub open spec fn spec_contains(self, addr: u32) -> bool {
        self.start <= addr < self.end
    }

    pub fn contains(&self, addr: u32) -> (r: bool)
        ensures
            r == self.spec_contains(addr),
    {
        self.start <= addr && addr < self.end
    }
}

/// The directory entry stored in the twelve bytes at `p`.
pub open spec fn runtime_function_at(b: Seq<u8>, p: int) -> RuntimeFunction {
    RuntimeFunction { start: le32(b, p), end: le32(b, p + 4), ptr: le32(b, p + 8) }
}

/// The function entry that the unwind information of `rf` describes: a
/// header of four bytes (version and flags, prolog size, code count, frame
/// register), two bytes per code, then the chained entry where the chain flag
/// is set. `None` where it runs out of the image, has a version other than 1
/// or 2, or holds codes that cannot be decoded.
pub open spec fn function_entry(pe: Seq<u8>, rf: RuntimeFunction) -> Option<FunctionEntry> {
    let p = rf.ptr as int;
    if p + 4 > pe.len() {
        None
    } else {
        let flags = pe[p];
        let version = flags & 7;
        let codes_end = p + 4 + 2 * pe[p + 2];
        if version < 1 || version > 2 || codes_end > pe.len() {
            None
        } else {
            match unwind_frame_size(pe.subrange(p + 4, codes_end), 0, version, 0) {
                None => None,
                Some(size) => if flags & 0x20 != 0 {
                    if codes_end + 12 > pe.len() {
                        None
                    } else {
                        Some(
                            FunctionEntry {
                                start: rf.start,
                                end: rf.end,
                                stack_frame_size: size as u32,
                                mother: Some(runtime_function_at(pe, codes_end)),
                            },
                        )
                    }
                } else {
                    Some(
                        FunctionEntry {
                            start: rf.start,
                            end: rf.end,
                            stack_frame_size: size as u32,
                            mother: None,
                        },
                    )
                },
            }
        }
    }
}

/// The entries of the directory from its `k`-th record on.
pub open spec fn directory_from(pe: Seq<u8>, base: int, count: int, k: int) -> Option<
    Seq<FunctionEntry>,
>
    decreases count - k,
{
    if k < 0 || k >= count {
        Some(Seq::empty())
    } else {
        match function_entry(pe, runtime_function_at(pe, base + 12 * k)) {
            None => None,
            Some(e) => match directory_from(pe, base, count, k + 1) {
                None => None,
                Some(rest) => Some(seq![e] + rest),
            },
        }
    }
}

/// The function entries of the exception directory at `start`, `size` bytes
/// long, in the image `pe`.
pub open spec fn directory_entries(pe: Seq<u8>, start: u32, size: u32) -> Option<
    Seq<FunctionEntry>,
> {
    if start + size > pe.len() || size % 12 != 0 {
        None
    } else {
        directory_from(pe, start as int, (size / 12) as int, 0)
    }
}

/// Decodes the function entry that the unwind information of `rf` describes.
fn parse_function_entry(pe: &[u8], rf: RuntimeFunction) -> (r: Option<FunctionEntry>)
    ensures
        r == function_entry(pe@, rf),
{
    let mut pos: usize = rf.ptr as usize;
    if pos > pe.len() || pe.len() - pos < 4 {
        return None;
    }
    let version_flags = read_u8(pe, &mut pos)?;
    let version = version_flags & 0x7;
    if version < 1 || version > 2 {
        return None;
    }
    let is_chained = version_flags & 0x20 != 0;
    let _prolog_size = read_u8(pe, &mut pos)?;
    let unwind_code_count = read_u8(pe, &mut pos)?;
    let _frame_infos = read_u8(pe, &mut pos)?;
    let unwind_codes = read_slice(pe, &mut pos, 2 * unwind_code_count as usize)?;
    let stack_frame_size = parse_unwind_codes(unwind_codes, version)?;
    let mother = if is_chained {
        let start = read_u32(pe, &mut pos)?;
        let end = read_u32(pe, &mut pos)?;
        let ptr = read_u32(pe, &mut pos)?;
        Some(RuntimeFunction { start, end, ptr })
    } else {
        None
    };
    Some(FunctionEntry { start: rf.start, end: rf.end, stack_frame_size, mother })
}

/// Decodes the exception directory found at `start`, `size` bytes long: an
/// array of twelve-byte records, each pointing to unwind information.
pub fn parse_directory_range(pe: &[u8], start: u32, size: u32) -> (r: Option<Vec<FunctionEntry>>)
    ensures
        match directory_entries(pe@, start, size) {
            Some(s) => r matches Some(v) && v@ == s,
            None => r is None,
        },
{
    if (start as u64) + (size as u64) > pe.len() as u64 || size % 12 != 0 {
        return None;
    }
    let count = (size / 12) as usize;
    let base = start as usize;
    let pe_len = pe.len();
    let mut entries: Vec<FunctionEntry> = Vec::new();
    let mut k: usize = 0;
    while k < count
        invariant
            count == size / 12,
            base == start,
            pe_len == pe@.len(),
            start + size <= pe@.len(),
            k <= count,
            directory_entries(pe@, start, size) == match directory_from(pe@, base as int, count as int, k as int) {
                Some(rest) => Some(entries@ + rest),
                None => None::<Seq<FunctionEntry>>,
            },
        decreases count - k,
    {
        assert(12 * k + 12 <= size) by (nonlinear_arith)
            requires
                k < count,
                count == size / 12,
        ;
        let mut pos: usize = base + 12 * k;
        let fs = read_u32(pe, &mut pos);
        let fe = read_u32(pe, &mut pos);
        let fp = read_u32(pe, &mut pos);
        let rf = RuntimeFunction { start: fs.unwrap(), end: fe.unwrap(), ptr: fp.unwrap() };
        let ghost tail = directory_from(pe@, base as int, count as int, k + 1);
        match parse_function_entry(pe, rf) {
            Some(e) => {
                proof {
                    if let Some(rest) = tail {
                        assert(entries@ + (seq![e] + rest) =~= entries@.push(e) + rest);
                    }
                }
                entries.push(e);
            },
            None => return None,
        }
        k += 1;
    }
    proof {
        assert(entries@ + Seq::<FunctionEntry>::empty() =~= entries@);
    }
    Some(entries)
}

/// The unwind information of one module, sorted by function start.
pub struct UnwindData {
    offset: GuestVirtAddr,
    functions: Vec<FunctionEntry>,
}

/// `i` is the last entry that starts below `off`.
pub open spec fn is_last_start_below(fs: Seq<FunctionEntry>, off: u32, i: int) -> bool {
    &&& 0 <= i < fs.len()
    &&& fs[i].start < off
    &&& forall|j: int| i < j < fs.len() ==> (#[trigger] fs[j]).start >= off
}

/// `i` is the first entry that starts at `off`.
pub open spec fn is_first_start_at(fs: Seq<FunctionEntry>, off: u32, i: int) -> bool {
    &&& 0 <= i < fs.len()
    &&& fs[i].start == off
    &&& forall|j: int| 0 <= j < i ==> (#[trigger] fs[j]).start != off
}

/// Each entry's start with its position.
pub open spec fn start_keys(fs: Seq<FunctionEntry>) -> Seq<(u64, usize)> {
    Seq::new(fs.len(), |k: int| (fs[k].start as u64, k as usize))
}

/// The entries ordered by start, then by position.
pub open spec fn arranged(fs: Seq<FunctionEntry>) -> Seq<FunctionEntry> {
    Seq::new(fs.len(), |k: int| fs[sorted_pairs(start_keys(fs))[k].1 as int])
}

impl UnwindData {
    #[verifier::type_invariant]
    closed spec fn wf(&self) -> bool {
        forall|i: int, j: int|
            0 <= i < j < self.functions@.len() ==> self.functions@[i].start
                <= self.functions@[j].start
    }

    /// Where the module is loaded; entries are relative to it.
    pub closed spec fn base(&self) -> GuestVirtAddr {
        self.offset
    }

    pub fn offset(&self) -> (r: GuestVirtAddr)
        ensures
            r == self.base(),
    {
        self.offset
    }

    /// The entries, sorted by start.
    pub closed spec fn functions(&self) -> Seq<FunctionEntry> {
        self.functions@
    }

    /// Sorts `functions` by start, keeping the order of equal starts.
    pub fn new(offset: GuestVirtAddr, functions: Vec<FunctionEntry>) -> (r: UnwindData)
        ensures
            r.base() == offset,
            r.functions() == arranged(functions@),
            r.functions().len() == functions@.len(),
            forall|i: int| 0 <= i < functions@.len() ==> r.functions().contains(#[trigger] functions@[i]),
            forall|i: int| 0 <= i < r.functions().len() ==> functions@.contains(#[trigger] r.functions()[i]),
            forall|i: int, j: int|
                0 <= i < j < r.functions().len() ==> r.functions()[i].start <= r.functions()[j].start,
    {
        let n = functions.len();
        let mut keys: Vec<(u64, usize)> = Vec::new();
        let mut i: usize = 0;
        while i < n
            invariant
                n == functions@.len(),
                i <= n,
                keys@.len() == i,
                forall|k: int| 0 <= k < i ==> #[trigger] keys@[k] == (functions@[k].start as u64, k as usize),
            decreases n - i,
        {
            keys.push((functions[i].start as u64, i));
            i += 1;
        }
        let ghost before = keys@;
        assert(before =~= start_keys(functions@));
        sort_pairs(&mut keys);
        proof {
            assert(keys@.len() == keys@.to_multiset().len());
            assert(before.len() == before.to_multiset().len());
            assert forall|k: int| 0 <= k < keys@.len() implies #[trigger] keys@[k].1 < n
                && keys@[k].0 == functions@[keys@[k].1 as int].start by {
                assert(keys@.contains(keys@[k]));
                assert(before.to_multiset().count(keys@[k]) > 0);
                assert(before.contains(keys@[k]));
            }
        }
        let mut sorted: Vec<FunctionEntry> = Vec::new();
        let mut k: usize = 0;
        while k < n
            invariant
                n == functions@.len(),
                keys@.len() == n,
                k <= n,
                sorted@.len() == k,
                forall|q: int| 0 <= q < keys@.len() ==> #[trigger] keys@[q].1 < n
                    && keys@[q].0 == functions@[keys@[q].1 as int].start,
                forall|q: int| 0 <= q < k ==> #[trigger] sorted@[q] == functions@[keys@[q].1 as int],
            decreases n - k,
        {
            sorted.push(functions[keys[k].1]);
            k += 1;
        }
        proof {
            assert forall|a: int, b: int| 0 <= a < b < n implies sorted@[a].start <= sorted@[b].start by {
                assert(pair_le(keys@[a], keys@[b]));
            }
            assert forall|a: int| 0 <= a < n implies sorted@.contains(#[trigger] functions@[a]) by {
                assert(before[a] == (functions@[a].start as u64, a as usize));
                assert(before.contains(before[a]));
                assert(before.to_multiset().count(before[a]) > 0);
                assert(keys@.to_multiset().count(before[a]) > 0);
                assert(keys@.contains(before[a]));
                let q = choose|q: int| 0 <= q < keys@.len() && keys@[q] == before[a];
                assert(sorted@[q] == functions@[a]);
            }
            assert forall|a: int| 0 <= a < n implies functions@.contains(#[trigger] sorted@[a]) by {
                assert(sorted@[a] == functions@[keys@[a].1 as int]);
            }
        }
        assert(sorted@ =~= arranged(functions@));
        UnwindData { offset, functions: sorted }
    }

    /// The function that covers `offset`: the first starting exactly there, or
    /// else the last one starting below it, when it ends past `offset`.
    pub fn find_by_offset(&self, offset: u32) -> (r: Option<&FunctionEntry>)
        ensures
            (exists|i: int| 0 <= i < self.functions().len() && (#[trigger] self.functions()[i]).start == offset)
                ==> exists|i: int| is_first_start_at(self.functions(), offset, i) && r == Some(
                &#[trigger] self.functions()[i],
            ),
            !(exists|i: int| 0 <= i < self.functions().len() && (#[trigger] self.functions()[i]).start == offset)
                ==> match r {
                Some(e) => exists|i: int|
                    is_last_start_below(self.functions(), offset, i) && e == #[trigger] self.functions()[i]
                        && e.spec_contains(offset),
                None => forall|i: int| #[trigger]
                    is_last_start_below(self.functions(), offset, i) ==> !self.functions()[i].spec_contains(offset),
            },
    {
        proof {
            use_type_invariant(self);
        }
        let mut lo: usize = 0;
        let mut hi: usize = self.functions.len();
        while lo < hi
            invariant
                self.wf(),
                lo <= hi <= self.functions@.len(),
                forall|k: int| 0 <= k < lo ==> (#[trigger] self.functions@[k]).start < offset,
                forall|k: int| hi <= k < self.functions@.len() ==> (#[trigger] self.functions@[k]).start >= offset,
            decreases hi - lo,
        {
            let mid = lo + (hi - lo) / 2;
            if self.functions[mid].start < offset {
                lo = mid + 1;
            } else {
                hi = mid;
            }
        }
        if lo < self.functions.len() && self.functions[lo].start == offset {
            proof {
                assert(is_first_start_at(self.functions(), offset, lo as int));
            }
            Some(&self.functions[lo])
        } else {
            if lo == 0 {
                return None;
            }
            let f = &self.functions[lo - 1];
            proof {
                assert(is_last_start_below(self.functions(), offset, lo - 1));
                assert forall|i: int| #[trigger] is_last_start_below(self.functions(), offset, i) implies i == lo - 1 by {
                    if i < lo - 1 {
                        assert(self.functions@[lo - 1].start < offset);
                    }
                }
            }
            if f.contains(offset) {
                Some(f)
            } else {
                None
            }
        }
    }
}

} // verus!
