use vstd::prelude::*;

use crate::addr::{GuestPhysAddr, GuestVirtAddr};
use crate::error::{TranslationError, VmError, VmResult};
use crate::mem::Memory;
use crate::mmu::{le_u64, read_u64_virtual, try_read_virtual_memory, virt_read, virt_read_lenient};
use crate::os::{StackFrame, Vma};
use crate::symbols::{pair_le, sort_pairs, sorted_pairs};
use crate::unwind::{
    arranged, directory_entries, is_first_start_at, is_last_start_below, parse_directory_range,
    FunctionEntry, UnwindData,
};

verus! {

broadcast use vstd::seq_lib::group_to_multiset_ensures;

/// The most frames a walk emits.
pub const MAX_FRAMES: usize = 1024;

/// Where a PE image keeps its exception directory: `None` for bytes that do
/// not parse as a 64-bit PE image, `Some(None)` for an image without that
/// directory, else its address and size.
pub uninterp spec fn pe_exception_range(image: Seq<u8>) -> Option<Option<(u32, u32)>>;

/// Relies on `object::read::pe::PeFile64::parse` and its `data_directory`
/// for `IMAGE_DIRECTORY_ENTRY_EXCEPTION`: the result depends on the bytes
/// alone.
#[verifier::external_body]
fn pe_exception_directory(image: &[u8]) -> (r: Option<Option<(u32, u32)>>)
    ensures
        r == pe_exception_range(image@),
{
    match object::read::pe::PeFile64::parse(image) {
        Ok(pe) => Some(
            pe.data_directory(object::pe::IMAGE_DIRECTORY_ENTRY_EXCEPTION).map(
                |d| d.address_range(),
            ),
        ),
        Err(_) => None,
    }
}

/// The entry of the sorted entries `fs` that covers `off`: the first one
/// starting there, or else the last one starting below it if it ends past.
pub open spec fn lookup_entry(fs: Seq<FunctionEntry>, off: u32) -> Option<FunctionEntry> {
    if exists|i: int| is_first_start_at(fs, off, i) {
        Some(fs[choose|i: int| is_first_start_at(fs, off, i)])
    } else if exists|i: int| is_last_start_below(fs, off, i) {
        let i = choose|i: int| is_last_start_below(fs, off, i);
        if fs[i].spec_contains(off) {
            Some(fs[i])
        } else {
            None
        }
    } else {
        None
    }
}

/// The offset of `ip` in a module loaded at `base`, modulo 2^32.
pub open spec fn module_offset(ip: u64, base: u64) -> u32 {
    (ip.wrapping_sub(base)) as u32
}

/// The stack pointer of the caller of the function that `ip` lies in: past
/// the frame of that function and of the function it chains to; unchanged
/// for a leaf function, which has no entry. `None` where a chained function
/// is missing or the sum does not fit.
pub open spec fn caller_sp(fs: Seq<FunctionEntry>, base: u64, ip: u64, sp: u64) -> Option<u64> {
    match lookup_entry(fs, module_offset(ip, base)) {
        None => Some(sp),
        Some(f) => match f.mother {
            None => if sp + f.stack_frame_size <= u64::MAX {
                Some((sp + f.stack_frame_size) as u64)
            } else {
                None
            },
            Some(m) => match lookup_entry(fs, m.start) {
                None => None,
                Some(mf) => if sp + f.stack_frame_size + mf.stack_frame_size <= u64::MAX {
                    Some((sp + f.stack_frame_size + mf.stack_frame_size) as u64)
                } else {
                    None
                },
            },
        },
    }
}

/// What `find_by_offset` returns is `lookup_entry`.
proof fn lemma_lookup_entry(fs: Seq<FunctionEntry>, off: u32, r: Option<FunctionEntry>)
    requires
        (exists|i: int| 0 <= i < fs.len() && (#[trigger] fs[i]).start == off) ==> exists|i: int|
            is_first_start_at(fs, off, i) && r == Some(#[trigger] fs[i]),
        !(exists|i: int| 0 <= i < fs.len() && (#[trigger] fs[i]).start == off) ==> match r {
            Some(e) => exists|i: int|
                is_last_start_below(fs, off, i) && e == #[trigger] fs[i] && e.spec_contains(off),
            None => forall|i: int| #[trigger]
                is_last_start_below(fs, off, i) ==> !fs[i].spec_contains(off),
        },
    ensures
        r == lookup_entry(fs, off),
{
    if exists|i: int| 0 <= i < fs.len() && (#[trigger] fs[i]).start == off {
        let i = choose|i: int| is_first_start_at(fs, off, i) && r == Some(#[trigger] fs[i]);
        let c = choose|c: int| is_first_start_at(fs, off, c);
        if c < i {
            assert(fs[c].start == off);
        } else if c > i {
            assert(fs[i].start == off);
        }
    } else {
        assert(!exists|i: int| is_first_start_at(fs, off, i));
        if exists|i: int| is_last_start_below(fs, off, i) {
            let c = choose|c: int| is_last_start_below(fs, off, c);
            match r {
                Some(e) => {
                    let i = choose|i: int|
                        is_last_start_below(fs, off, i) && e == #[trigger] fs[i] && e.spec_contains(off);
                    if c < i {
                        assert(fs[i].start < off);
                    } else if c > i {
                        assert(fs[c].start < off);
                    }
                },
                None => {},
            }
        } else {
            if let Some(e) = r {
                let i = choose|i: int|
                    is_last_start_below(fs, off, i) && e == #[trigger] fs[i] && e.spec_contains(off);
            }
        }
    }
}

/// The entry of `data` that covers `offset`.
fn find_entry(data: &UnwindData, offset: u32) -> (r: Option<FunctionEntry>)
    ensures
        r == lookup_entry(data.functions(), offset),
{
    let r = match data.find_by_offset(offset) {
        Some(e) => Some(*e),
        None => None,
    };
    proof {
        lemma_lookup_entry(data.functions(), offset, r);
    }
    r
}

/// The stack pointer of the caller of the function at `ip`, whose frame
/// starts at `sp`, from the unwind information of its module.
pub fn caller_stack_pointer(data: &UnwindData, ip: GuestVirtAddr, sp: GuestVirtAddr) -> (r: VmResult<
    GuestVirtAddr,
>)
    ensures
        match caller_sp(data.functions(), data.base().0, ip.0, sp.0) {
            Some(c) => r == Ok::<GuestVirtAddr, VmError>(GuestVirtAddr(c)),
            None => r matches Err(VmError::Other(_)),
        },
{
    let d = ip.0.wrapping_sub(data.offset().0);
    let off = #[verifier::truncate] (d as u32);
    match find_entry(data, off) {
        None => Ok(sp),
        Some(f) => {
            let mut size = f.stack_frame_size as u64;
            if let Some(m) = f.mother {
                match find_entry(data, m.start) {
                    Some(mf) => {
                        size = size + mf.stack_frame_size as u64;
                    },
                    None => {
                        return Err(VmError::Other("cannot find mother function".to_owned()));
                    },
                }
            }
            if sp.0 > u64::MAX - size {
                return Err(VmError::Other("stack pointer overflow".to_owned()));
            }
            Ok(sp.add_offset(size))
        },
    }
}

/// The unwind entries, sorted by start, of the image mapped from `start` to
/// `end`: `None` where the area cannot be read, is not a 64-bit PE image,
/// has no exception directory, or holds one that cannot be decoded.
#[verifier::opaque]
pub open spec fn unwind_result<M: Memory + ?Sized>(m: &M, pgd: u64, start: u64, end: u64) -> Option<
    Seq<FunctionEntry>,
> {
    if end < start || end - start > usize::MAX {
        None
    } else {
        match virt_read_lenient(m, pgd, start as int, (end - start) as nat) {
            Err(_) => None,
            Ok(image) => match pe_exception_range(image) {
                Some(Some((dir_start, dir_size))) => match directory_entries(image, dir_start, dir_size) {
                    Some(fs) => Some(arranged(fs)),
                    None => None,
                },
                _ => None,
            },
        }
    }
}

/// Reads the image mapped from `start` to `end`, pages that are not mapped
/// reading as zeroes, and decodes its exception directory.
pub fn init_unwind_data<M: Memory + ?Sized>(
    mem: &M,
    pgd: GuestPhysAddr,
    start: GuestVirtAddr,
    end: GuestVirtAddr,
) -> (r: VmResult<UnwindData>)
    requires
        start.0 <= end.0,
    ensures
        (end.0 - start.0) <= usize::MAX ==> match virt_read_lenient(
            mem,
            pgd.0,
            start.0 as int,
            (end.0 - start.0) as nat,
        ) {
            Err(e) => r == Err::<UnwindData, VmError>(VmError::Translation(e)),
            Ok(image) => match pe_exception_range(image) {
                Some(Some((dir_start, dir_size))) => match directory_entries(
                    image,
                    dir_start,
                    dir_size,
                ) {
                    Some(fs) => r matches Ok(u) && u.base() == start && u.functions() == arranged(fs),
                    None => r matches Err(VmError::Parse(_)),
                },
                _ => r matches Err(VmError::Parse(_)),
            },
        },
        (end.0 - start.0) > usize::MAX ==> r is Err,
        match unwind_result(mem, pgd.0, start.0, end.0) {
            Some(fs) => r matches Ok(u) && u.base() == start && u.functions() == fs,
            None => r is Err,
        },
{
    proof {
        reveal(unwind_result);
    }
    let size = end.0 - start.0;
    if size > usize::MAX as u64 {
        return Err(VmError::Other("memory area too large".to_owned()));
    }
    let content = match try_read_virtual_memory(mem, pgd, start, size as usize) {
        Ok(c) => c,
        Err(e) => return Err(VmError::Translation(e)),
    };
    match pe_exception_directory(content.as_slice()) {
        None => Err(VmError::Parse("failed to parse PE".to_owned())),
        Some(None) => Err(VmError::Parse("failed to get exception directory".to_owned())),
        Some(Some((dir_start, dir_size))) => match parse_directory_range(
            content.as_slice(),
            dir_start,
            dir_size,
        ) {
            None => Err(VmError::Parse("invalid exception directory".to_owned())),
            Some(functions) => Ok(UnwindData::new(start, functions)),
        },
    }
}

/// A memory area of the process with its lazily read unwind information.
pub struct VmaEntry {
    pub start: GuestVirtAddr,
    pub end: GuestVirtAddr,
    pub vma: Vma,
    pub unwind_data: Option<UnwindData>,
}

/// The bounds and handles of the areas.
pub open spec fn bounds(areas: Seq<VmaEntry>) -> Seq<(u64, u64, Vma)> {
    Seq::new(areas.len(), |a: int| (areas[a].start.0, areas[a].end.0, areas[a].vma))
}

/// `i` is the last area starting at or below `addr`.
pub open spec fn is_last_start_at_or_below(b: Seq<(u64, u64, Vma)>, addr: u64, i: int) -> bool {
    &&& 0 <= i < b.len()
    &&& b[i].0 <= addr
    &&& forall|j: int| i < j < b.len() ==> (#[trigger] b[j]).0 > addr
}

/// The area that holds `addr`: the last one starting at or below it, when
/// it ends past `addr`.
pub open spec fn area_of(b: Seq<(u64, u64, Vma)>, addr: u64) -> Option<int> {
    if exists|i: int| is_last_start_at_or_below(b, addr, i) {
        let i = choose|i: int| is_last_start_at_or_below(b, addr, i);
        if addr < b[i].1 {
            Some(i)
        } else {
            None
        }
    } else {
        None
    }
}

/// Each area's start with its position.
pub open spec fn area_keys(vmas: Seq<(GuestVirtAddr, GuestVirtAddr, Vma)>) -> Seq<(u64, usize)> {
    Seq::new(vmas.len(), |k: int| (vmas[k].0.0, k as usize))
}

/// The bounds of the areas that `keys` point to, in the order of `keys`,
/// those that end before they start left out.
pub open spec fn kept_areas(vmas: Seq<(GuestVirtAddr, GuestVirtAddr, Vma)>, keys: Seq<(u64, usize)>) -> Seq<
    (u64, u64, Vma),
>
    decreases keys.len(),
{
    if keys.len() == 0 {
        Seq::empty()
    } else {
        let rest = kept_areas(vmas, keys.drop_last());
        let e = vmas[keys.last().1 as int];
        if e.0.0 <= e.1.0 {
            rest.push((e.0.0, e.1.0, e.2))
        } else {
            rest
        }
    }
}

/// The bounds that a context made from `vmas` holds: the areas sorted by
/// start, then position, those that end before they start left out.
pub open spec fn context_bounds(vmas: Seq<(GuestVirtAddr, GuestVirtAddr, Vma)>) -> Seq<(u64, u64, Vma)> {
    kept_areas(vmas, sorted_pairs(area_keys(vmas)))
}

/// `e` is one of the areas `(start, end, handle)` of `vmas`.
pub open spec fn area_from(e: VmaEntry, vmas: Seq<(GuestVirtAddr, GuestVirtAddr, Vma)>) -> bool {
    exists|j: int| 0 <= j < vmas.len() && e.start == vmas[j].0 && e.end == vmas[j].1 && e.vma == vmas[j].2
}

/// What a walk over one process needs: its page tables and its memory areas
/// sorted by start.
pub struct Context {
    pgd: GuestPhysAddr,
    vmas: Vec<VmaEntry>,
}

impl Context {
    /// Areas sorted by start, none ending before it starts.
    pub closed spec fn wf(&self) -> bool {
        &&& forall|i: int, j: int|
            0 <= i < j < self.vmas@.len() ==> self.vmas@[i].start.0 <= self.vmas@[j].start.0
        &&& forall|i: int| 0 <= i < self.vmas@.len() ==> (#[trigger] self.vmas@[i]).start.0 <= self.vmas@[i].end.0
    }

    /// Every unwind table already read is the one its area holds in `mem`.
    pub open spec fn cache_valid<M: Memory + ?Sized>(&self, mem: &M) -> bool {
        forall|i: int|
            0 <= i < self.areas().len() ==> ((#[trigger] self.areas()[i]).unwind_data matches Some(u)
                ==> u.base() == self.areas()[i].start && unwind_result(
                mem,
                self.spec_pgd().0,
                self.areas()[i].start.0,
                self.areas()[i].end.0,
            ) == Some(u.functions()))
    }

    /// The page tables of the process.
    pub closed spec fn spec_pgd(&self) -> GuestPhysAddr {
        self.pgd
    }

    pub fn pgd(&self) -> (r: GuestPhysAddr)
        ensures
            r == self.spec_pgd(),
    {
        self.pgd
    }

    /// The areas, sorted by start.
    pub closed spec fn areas(&self) -> Seq<VmaEntry> {
        self.vmas@
    }

    /// Snapshots the areas `(start, end, handle)` of a process, sorted by
    /// start; areas that end before they start are left out, all others are
    /// kept.
    pub fn new(pgd: GuestPhysAddr, vmas: Vec<(GuestVirtAddr, GuestVirtAddr, Vma)>) -> (r: Context)
        ensures
            r.wf(),
            r.spec_pgd() == pgd,
            bounds(r.areas()) == context_bounds(vmas@),
            forall|i: int| 0 <= i < r.areas().len() ==> area_from(#[trigger] r.areas()[i], vmas@),
            forall|j: int|
                0 <= j < vmas@.len() && (#[trigger] vmas@[j]).0.0 <= vmas@[j].1.0 ==> exists|i: int|
                    0 <= i < r.areas().len() && r.areas()[i].start == vmas@[j].0 && r.areas()[i].end
                        == vmas@[j].1 && r.areas()[i].vma == vmas@[j].2,
            forall|i: int| 0 <= i < r.areas().len() ==> (#[trigger] r.areas()[i]).unwind_data is None,
    {
        let n = vmas.len();
        let mut keys: Vec<(u64, usize)> = Vec::new();
        let mut i: usize = 0;
        while i < n
            invariant
                n == vmas@.len(),
                i <= n,
                keys@.len() == i,
                forall|k: int| 0 <= k < i ==> #[trigger] keys@[k] == (vmas@[k].0.0, k as usize),
            decreases n - i,
        {
            keys.push((vmas[i].0.0, i));
            i += 1;
        }
        let ghost before = keys@;
        assert(before =~= area_keys(vmas@));
        sort_pairs(&mut keys);
        proof {
            assert(keys@.len() == keys@.to_multiset().len());
            assert(before.len() == before.to_multiset().len());
            assert(keys@.subrange(0, 0) =~= Seq::<(u64, usize)>::empty());
            assert(bounds(Seq::<VmaEntry>::empty()) =~= Seq::<(u64, u64, Vma)>::empty());
            assert forall|k: int| 0 <= k < keys@.len() implies #[trigger] keys@[k].1 < n
                && keys@[k].0 == vmas@[keys@[k].1 as int].0.0 by {
                assert(keys@.contains(keys@[k]));
                assert(before.to_multiset().count(keys@[k]) > 0);
                assert(before.contains(keys@[k]));
            }
            assert forall|q: int| 0 <= q < n implies #[trigger] keys@.contains(before[q]) by {
                assert(before.contains(before[q]));
                assert(before.to_multiset().count(before[q]) > 0);
                assert(keys@.to_multiset().count(before[q]) > 0);
            }
        }
        let mut sorted: Vec<VmaEntry> = Vec::new();
        let mut k: usize = 0;
        while k < n
            invariant
                n == vmas@.len(),
                keys@.len() == n,
                k <= n,
                forall|q: int| 0 <= q < keys@.len() ==> #[trigger] keys@[q].1 < n
                    && keys@[q].0 == vmas@[keys@[q].1 as int].0.0,
                forall|q: int| 0 <= q < n ==> #[trigger] keys@.contains(before[q]),
                before.len() == n,
                keys@ == sorted_pairs(area_keys(vmas@)),
                bounds(sorted@) == kept_areas(vmas@, keys@.subrange(0, k as int)),
                forall|q: int| 0 <= q < n ==> #[trigger] before[q] == (vmas@[q].0.0, q as usize),
                forall|a: int, b: int| 0 <= a < b < n ==> pair_le(keys@[a], keys@[b]),
                forall|a: int, b: int| 0 <= a < b < sorted@.len() ==> sorted@[a].start.0 <= sorted@[b].start.0,
                sorted@.len() <= k,
                k > 0 ==> forall|q: int| 0 <= q < sorted@.len() ==> (#[trigger] sorted@[q]).start.0 <= keys@[k as int - 1].0,
                forall|q: int| 0 <= q < sorted@.len() ==> (#[trigger] sorted@[q]).start.0 <= sorted@[q].end.0
                    && sorted@[q].unwind_data is None,
                forall|q: int| 0 <= q < sorted@.len() ==> area_from(#[trigger] sorted@[q], vmas@),
                forall|q: int| 0 <= q < k ==> (vmas@[#[trigger] keys@[q].1 as int].0.0 <= vmas@[keys@[q].1 as int].1.0
                    ==> exists|i: int| 0 <= i < sorted@.len() && sorted@[i].start == vmas@[keys@[q].1 as int].0
                        && sorted@[i].end == vmas@[keys@[q].1 as int].1 && sorted@[i].vma == vmas@[keys@[q].1 as int].2),
            decreases n - k,
        {
            let (start, end, vma) = vmas[keys[k].1];
            let ghost old_sorted = sorted@;
            proof {
                assert(keys@.subrange(0, k + 1).drop_last() =~= keys@.subrange(0, k as int));
                assert(keys@.subrange(0, k + 1).last() == keys@[k as int]);
                if k > 0 {
                    assert(pair_le(keys@[k - 1], keys@[k as int]));
                }
            }
            if start.0 <= end.0 {
                sorted.push(VmaEntry { start, end, vma, unwind_data: None });
                proof {
                    assert(bounds(sorted@) =~= bounds(old_sorted).push((start.0, end.0, vma)));
                    let last = sorted@.len() - 1;
                    assert(sorted@[last].start == vmas@[keys@[k as int].1 as int].0);
                    assert forall|q: int| 0 <= q < sorted@.len() implies area_from(#[trigger] sorted@[q], vmas@) by {
                        if q < last {
                            assert(sorted@[q] == old_sorted[q]);
                        } else {
                            let j = keys@[k as int].1 as int;
                            assert(sorted@[q].start == vmas@[j].0);
                        }
                    }
                }
            }
            proof {
                assert forall|q: int| 0 <= q < k + 1 implies (vmas@[#[trigger] keys@[q].1 as int].0.0 <= vmas@[keys@[q].1 as int].1.0
                    ==> exists|i: int| 0 <= i < sorted@.len() && sorted@[i].start == vmas@[keys@[q].1 as int].0
                        && sorted@[i].end == vmas@[keys@[q].1 as int].1 && sorted@[i].vma == vmas@[keys@[q].1 as int].2) by {
                    let j = keys@[q].1 as int;
                    if vmas@[j].0.0 <= vmas@[j].1.0 {
                        if q < k {
                            let i = choose|i: int| 0 <= i < old_sorted.len() && old_sorted[i].start == vmas@[j].0
                                && old_sorted[i].end == vmas@[j].1 && old_sorted[i].vma == vmas@[j].2;
                            assert(sorted@[i] == old_sorted[i]);
                        } else {
                            assert(sorted@[sorted@.len() - 1].start == vmas@[j].0);
                        }
                    }
                }
            }
            k += 1;
        }
        proof {
            assert forall|j: int|
                0 <= j < vmas@.len() && (#[trigger] vmas@[j]).0.0 <= vmas@[j].1.0 implies exists|i: int|
                    0 <= i < sorted@.len() && sorted@[i].start == vmas@[j].0 && sorted@[i].end
                        == vmas@[j].1 && sorted@[i].vma == vmas@[j].2 by {
                assert(keys@.contains(before[j]));
                let q = choose|q: int| 0 <= q < keys@.len() && keys@[q] == before[j];
                assert(keys@[q].1 == j);
            }
        }
        assert(keys@.subrange(0, n as int) =~= keys@);
        let r = Context { pgd, vmas: sorted };
        assert(r.areas() == r.vmas@);
        r
    }

    /// Reads the unwind information of the area at `i`, unless it was read
    /// before: each area's is read at most once.
    pub fn load_unwind_data<M: Memory + ?Sized>(&mut self, mem: &M, i: usize) -> (r: VmResult<()>)
        requires
            old(self).wf(),
            old(self).cache_valid(mem),
            i < old(self).areas().len(),
        ensures
            final(self).wf(),
            final(self).cache_valid(mem),
            r is Ok <==> unwind_result(
                mem,
                old(self).spec_pgd().0,
                old(self).areas()[i as int].start.0,
                old(self).areas()[i as int].end.0,
            ) is Some,
            final(self).spec_pgd() == old(self).spec_pgd(),
            final(self).areas().len() == old(self).areas().len(),
            forall|k: int|
                0 <= k < old(self).areas().len() ==> (#[trigger] final(self).areas()[k]).start == old(
                    self,
                ).areas()[k].start && final(self).areas()[k].end == old(self).areas()[k].end
                    && final(self).areas()[k].vma == old(self).areas()[k].vma,
            forall|k: int|
                0 <= k < old(self).areas().len() && (k != i || old(self).areas()[k].unwind_data is Some)
                    ==> (#[trigger] final(self).areas()[k]).unwind_data == old(self).areas()[k].unwind_data,
            r is Ok ==> final(self).areas()[i as int].unwind_data is Some,
            old(self).areas()[i as int].unwind_data is Some ==> r is Ok,
    {
        if self.vmas[i].unwind_data.is_some() {
            return Ok(());
        }
        let data = init_unwind_data(mem, self.pgd, self.vmas[i].start, self.vmas[i].end)?;
        let mut e = self.vmas.remove(i);
        e.unwind_data = Some(data);
        self.vmas.insert(i, e);
        assert(self.vmas@ =~= old(self).vmas@.update(
            i as int,
            VmaEntry { unwind_data: self.vmas@[i as int].unwind_data, ..old(self).vmas@[i as int] },
        ));
        Ok(())
    }

    /// The unwind information of the area at `i`, once read.
    pub fn unwind_of(&self, i: usize) -> (r: &UnwindData)
        requires
            i < self.areas().len(),
            self.areas()[i as int].unwind_data is Some,
        ensures
            Some(*r) == self.areas()[i as int].unwind_data,
    {
        match &self.vmas[i].unwind_data {
            Some(d) => d,
            None => {
                proof {
                    assert(false);
                }
                &self.vmas[i].unwind_data.as_ref().unwrap()
            },
        }
    }

    /// The handle of the area at `i`.
    pub fn area_vma(&self, i: usize) -> (r: Vma)
        requires
            i < self.areas().len(),
        ensures
            r == self.areas()[i as int].vma,
    {
        self.vmas[i].vma
    }

    /// Index of the area that holds `addr`: the last one starting at or below it,
    /// when it ends past `addr`.
    pub fn find_vma_by_address(&self, addr: GuestVirtAddr) -> (r: Option<usize>)
        requires
            self.wf(),
        ensures
            match r {
                Some(i) => area_of(bounds(self.areas()), addr.0) == Some(i as int),
                None => area_of(bounds(self.areas()), addr.0) is None,
            },
            r matches Some(i) ==> i < self.areas().len() && self.areas()[i as int].start.0 <= addr.0
                < self.areas()[i as int].end.0,
            r is None ==> forall|i: int|
                0 <= i < self.areas().len() ==> !((#[trigger] self.areas()[i]).start.0 <= addr.0
                    < self.areas()[i].end.0) || exists|j: int|
                    i < j < self.areas().len() && self.areas()[j].start.0 <= addr.0,
    {
        let mut lo: usize = 0;
        let mut hi: usize = self.vmas.len();
        while lo < hi
            invariant
                self.wf(),
                lo <= hi <= self.vmas@.len(),
                forall|k: int| 0 <= k < lo ==> (#[trigger] self.vmas@[k]).start.0 <= addr.0,
                forall|k: int| hi <= k < self.vmas@.len() ==> (#[trigger] self.vmas@[k]).start.0 > addr.0,
            decreases hi - lo,
        {
            let mid = lo + (hi - lo) / 2;
            if self.vmas[mid].start.0 <= addr.0 {
                lo = mid + 1;
            } else {
                hi = mid;
            }
        }
        let ghost b = bounds(self.areas());
        if lo == 0 {
            proof {
                if exists|i: int| is_last_start_at_or_below(b, addr.0, i) {
                    let i = choose|i: int| is_last_start_at_or_below(b, addr.0, i);
                    assert(b[i].0 == self.vmas@[i].start.0);
                }
            }
            return None;
        }
        let v = &self.vmas[lo - 1];
        proof {
            assert(is_last_start_at_or_below(b, addr.0, lo - 1)) by {
                assert forall|j: int| lo - 1 < j < b.len() implies (#[trigger] b[j]).0 > addr.0 by {
                    assert(b[j].0 == self.vmas@[j].start.0);
                }
            }
            let c = choose|c: int| is_last_start_at_or_below(b, addr.0, c);
            if c < lo - 1 {
                assert(b[lo - 1].0 > addr.0);
            } else if c > lo - 1 {
                assert(b[c].0 > addr.0);
            }
        }
        if addr.0 < v.end.0 {
            Some(lo - 1)
        } else {
            proof {
                assert forall|i: int|
                    0 <= i < self.areas().len() && (#[trigger] self.areas()[i]).start.0 <= addr.0 < self.areas()[i].end.0
                    implies exists|j: int| i < j < self.areas().len() && self.areas()[j].start.0 <= addr.0 by {
                    assert(i != lo - 1);
                    assert(i < lo);
                    assert(self.areas()[lo - 1].start.0 <= addr.0);
                }
            }
            None
        }
    }
}

/// The value that a successful 8-byte read at `addr` gives, if any.
pub open spec fn stack_word<M: Memory + ?Sized>(mem: &M, pgd: u64, addr: int) -> Option<u64> {
    match virt_read(mem, pgd, addr, 8) {
        Ok(b) => Some(le_u64(b)),
        Err(_) => None,
    }
}

/// A frame as `(instruction pointer, stack pointer, area)`.
pub open spec fn frames_view(v: Seq<StackFrame>) -> Seq<(u64, u64, Vma)> {
    Seq::new(v.len(), |k: int| (v[k].instruction_pointer.0, v[k].stack_pointer.0, v[k].vma))
}

/// Why a walk stops without reaching a null return address.
#[derive(Clone, Copy, Debug, PartialEq, Eq, Structural)]
pub enum WalkStop {
    /// An instruction pointer in the kernel half.
    KernelIp,
    /// An instruction pointer outside every area.
    Unmapped,
    /// An area whose unwind information cannot be read.
    NoUnwindData,
    /// A chained function that is missing, or a caller stack pointer that
    /// overflows.
    NoCaller,
    /// A return address that cannot be read.
    Unreadable(TranslationError),
    /// More frames than the walk may emit.
    TooDeep,
}

/// The frames of a walk from `ip` and `sp` over the areas `b`: the frame of
/// `ip`, then, from the word at the caller's stack pointer, the caller's
/// frame, until that word is null; or why the walk stops first.
pub open spec fn walk<M: Memory + ?Sized>(
    m: &M,
    pgd: u64,
    b: Seq<(u64, u64, Vma)>,
    ip: u64,
    sp: u64,
    fuel: nat,
) -> Result<Seq<(u64, u64, Vma)>, WalkStop>
    decreases fuel,
{
    if ip >= 0x8000_0000_0000_0000u64 {
        Err(WalkStop::KernelIp)
    } else {
        match area_of(b, ip) {
            None => Err(WalkStop::Unmapped),
            Some(a) => match unwind_result(m, pgd, b[a].0, b[a].1) {
                None => Err(WalkStop::NoUnwindData),
                Some(fs) => match caller_sp(fs, b[a].0, ip, sp) {
                    None => Err(WalkStop::NoCaller),
                    Some(c) => if c > u64::MAX - 8 {
                        Err(WalkStop::NoCaller)
                    } else {
                        match virt_read(m, pgd, c as int, 8) {
                            Err(e) => Err(WalkStop::Unreadable(e)),
                            Ok(bytes) => if le_u64(bytes) == 0 {
                                Ok(seq![(ip, sp, b[a].2)])
                            } else if fuel <= 1 {
                                Err(WalkStop::TooDeep)
                            } else {
                                match walk(m, pgd, b, le_u64(bytes), (c + 8) as u64, (fuel - 1) as nat) {
                                    Err(e) => Err(e),
                                    Ok(rest) => Ok(seq![(ip, sp, b[a].2)] + rest),
                                }
                            },
                        }
                    },
                },
            },
        }
    }
}

/// What a call-stack walk returns for the outcome `w` of the spec walk: its
/// frames, or the error that names why it stopped.
pub open spec fn walk_outcome(r: VmResult<Vec<StackFrame>>, w: Result<Seq<(u64, u64, Vma)>, WalkStop>) -> bool {
    match w {
        Ok(s) => r matches Ok(f) && frames_view(f@) == s,
        Err(WalkStop::KernelIp) => r matches Err(VmError::Other(msg)) && msg@ == "encountered kernel IP"@,
        Err(WalkStop::Unmapped) => r matches Err(VmError::Other(msg)) && msg@ == "encountered unmapped page"@,
        Err(WalkStop::NoUnwindData) => r matches Err(VmError::Other(msg)) && msg@ == "cannot get unwind data"@,
        Err(WalkStop::NoCaller) => r matches Err(VmError::Other(_)),
        Err(WalkStop::Unreadable(e)) => r == Err::<Vec<StackFrame>, VmError>(VmError::Translation(e)),
        Err(WalkStop::TooDeep) => r matches Err(VmError::Other(msg)) && msg@ == "call stack too deep"@,
    }
}

/// A walk gives at least one frame and at most `fuel`.
pub proof fn lemma_walk_len<M: Memory + ?Sized>(
    m: &M,
    pgd: u64,
    b: Seq<(u64, u64, Vma)>,
    ip: u64,
    sp: u64,
    fuel: nat,
)
    requires
        fuel >= 1,
    ensures
        walk(m, pgd, b, ip, sp, fuel) matches Ok(s) ==> 1 <= s.len() <= fuel,
    decreases fuel,
{
    if let Some(a) = area_of(b, ip) {
        if let Some(fs) = unwind_result(m, pgd, b[a].0, b[a].1) {
            if let Some(c) = caller_sp(fs, b[a].0, ip, sp) {
                if c <= u64::MAX - 8 {
                    if let Ok(bytes) = virt_read(m, pgd, c as int, 8) {
                        if le_u64(bytes) != 0 && fuel > 1 {
                            lemma_walk_len(m, pgd, b, le_u64(bytes), (c + 8) as u64, (fuel - 1) as nat);
                        }
                    }
                }
            }
        }
    }
}

/// Walks the call stack from `ip` and `sp` towards the callers, one frame per
/// function, until a null return address; at most `MAX_FRAMES` frames.
#[verifier::rlimit(80)]
pub fn iter_callstack<M: Memory + ?Sized>(
    mem: &M,
    ctx: &mut Context,
    ip: GuestVirtAddr,
    sp: GuestVirtAddr,
) -> (r: VmResult<Vec<StackFrame>>)
    requires
        old(ctx).wf(),
        old(ctx).cache_valid(mem),
    ensures
        final(ctx).wf(),
        final(ctx).cache_valid(mem),
        final(ctx).spec_pgd() == old(ctx).spec_pgd(),
        bounds(final(ctx).areas()) == bounds(old(ctx).areas()),
        walk_outcome(r, walk(mem, old(ctx).spec_pgd().0, bounds(old(ctx).areas()), ip.0, sp.0, MAX_FRAMES as nat)),
        r matches Ok(frames) ==> 1 <= frames@.len() <= MAX_FRAMES,
{
    let pgd = ctx.pgd();
    let ghost b = bounds(ctx.areas());
    let mut frames: Vec<StackFrame> = Vec::new();
    let mut cur_ip = ip;
    let mut cur_sp = sp;
    let mut fuel: usize = MAX_FRAMES;
    loop
        invariant
            ctx.wf(),
            ctx.cache_valid(mem),
            ctx.spec_pgd() == pgd,
            pgd == old(ctx).spec_pgd(),
            b == bounds(old(ctx).areas()),
            bounds(ctx.areas()) == b,
            fuel == MAX_FRAMES - frames@.len(),
            1 <= fuel <= MAX_FRAMES,
            walk(mem, pgd.0, b, ip.0, sp.0, MAX_FRAMES as nat) == match walk(
                mem,
                pgd.0,
                b,
                cur_ip.0,
                cur_sp.0,
                fuel as nat,
            ) {
                Ok(rest) => Ok(frames_view(frames@) + rest),
                Err(e) => Err::<Seq<(u64, u64, Vma)>, WalkStop>(e),
            },
        decreases fuel,
    {
        if cur_ip.is_kernel() {
            return Err(VmError::Other("encountered kernel IP".to_owned()));
        }
        let vi = match ctx.find_vma_by_address(cur_ip) {
            Some(vi) => vi,
            None => return Err(VmError::Other("encountered unmapped page".to_owned())),
        };
        let vma = ctx.area_vma(vi);
        proof {
            assert(b[vi as int] == (ctx.areas()[vi as int].start.0, ctx.areas()[vi as int].end.0, vma));
        }
        let loaded = ctx.load_unwind_data(mem, vi);
        if loaded.is_err() {
            return Err(VmError::Other("cannot get unwind data".to_owned()));
        }
        proof {
            assert(bounds(ctx.areas()) =~= b);
        }
        let caller_sp = match caller_stack_pointer(ctx.unwind_of(vi), cur_ip, cur_sp) {
            Ok(c) => c,
            Err(e) => return Err(e),
        };
        if caller_sp.0 > u64::MAX - 8 {
            return Err(VmError::Other("stack pointer overflow".to_owned()));
        }
        let next = match read_u64_virtual(mem, pgd, caller_sp) {
            Ok(v) => v,
            Err(e) => return Err(VmError::Translation(e)),
        };
        let ghost before = frames_view(frames@);
        let frame = StackFrame { instruction_pointer: cur_ip, stack_pointer: cur_sp, vma };
        frames.push(frame);
        proof {
            assert(frames_view(frames@) =~= before.push((cur_ip.0, cur_sp.0, vma)));
            assert(stack_word(mem, pgd.0, caller_sp.0 as int) == Some(next));
        }
        if next == 0 {
            proof {
                assert(before + seq![(cur_ip.0, cur_sp.0, vma)] =~= frames_view(frames@));
                lemma_walk_len(mem, pgd.0, b, ip.0, sp.0, MAX_FRAMES as nat);
            }
            return Ok(frames);
        }
        if fuel == 1 {
            return Err(VmError::Other("call stack too deep".to_owned()));
        }
        let ghost rest = walk(mem, pgd.0, b, next, (caller_sp.0 + 8) as u64, (fuel - 1) as nat);
        proof {
            if let Ok(rs) = rest {
                assert(before + (seq![(cur_ip.0, cur_sp.0, vma)] + rs) =~= frames_view(frames@) + rs);
            }
        }
        cur_ip = GuestVirtAddr(next);
        cur_sp = caller_sp.add_offset(8);
        fuel = fuel - 1;
    }
}

} // verus!
