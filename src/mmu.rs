use vstd::prelude::*;

use crate::addr::{GuestPhysAddr, GuestVirtAddr, MmPte};
use crate::error::TranslationError;
use crate::mem::{bytes_view, lemma_read_physical, phys_read, Memory, MemoryAccessError};

verus! {

/// Size of a small page.
pub const PAGE_SIZE: u64 = 0x1000;

/// The little-endian value of the first eight bytes of `b`.
pub open spec fn le_u64(b: Seq<u8>) -> u64 {
    (b[0] as u64) | ((b[1] as u64) << 8u64) | ((b[2] as u64) << 16u64) | ((b[3] as u64) << 24u64)
        | ((b[4] as u64) << 32u64) | ((b[5] as u64) << 40u64) | ((b[6] as u64) << 48u64) | ((
    b[7] as u64) << 56u64)
}

/// Decodes eight little-endian bytes.
pub fn u64_from_le(b: &[u8]) -> (r: u64)
    requires
        b@.len() >= 8,
    ensures
        r == le_u64(b@),
{
    (b[0] as u64) | ((b[1] as u64) << 8u64) | ((b[2] as u64) << 16u64) | ((b[3] as u64) << 24u64)
        | ((b[4] as u64) << 32u64) | ((b[5] as u64) << 40u64) | ((b[6] as u64) << 48u64) | ((
    b[7] as u64) << 56u64)
}

pub open spec fn present(e: u64) -> bool {
    e & 1 != 0
}

pub open spec fn large(e: u64) -> bool {
    e & 0x80 != 0
}

/// The entry at `index` of the table at physical address `table`.
pub open spec fn entry_at<M: Memory + ?Sized>(m: &M, table: int, index: u64) -> Result<
    u64,
    TranslationError,
> {
    match phys_read(m, table + 8 * index, 8) {
        Ok(b) => Ok(le_u64(b)),
        Err(e) => Err(TranslationError::Memory(e)),
    }
}

/// The four-level walk of x86-64 paging, from the top table at `root`.
pub open spec fn translate<M: Memory + ?Sized>(m: &M, root: u64, v: u64) -> Result<
    u64,
    TranslationError,
> {
    match entry_at(m, root as int, (v >> 39u64) & 0x1ff) {
        Err(e) => Err(e),
        Ok(e4) => if !present(e4) {
            Err(TranslationError::NotMapped)
        } else {
            match entry_at(m, (e4 & 0xffff_ffff_f000) as int, (v >> 30u64) & 0x1ff) {
                Err(e) => Err(e),
                Ok(e3) => if !present(e3) {
                    Err(TranslationError::NotMapped)
                } else if large(e3) {
                    Ok(((e3 & 0x000f_ffff_c000_0000) + (v & 0x3fff_ffff)) as u64)
                } else {
                    match entry_at(m, (e3 & 0xffff_ffff_f000) as int, (v >> 21u64) & 0x1ff) {
                        Err(e) => Err(e),
                        Ok(e2) => if !present(e2) {
                            Err(TranslationError::NotMapped)
                        } else if large(e2) {
                            Ok(((e2 & 0x000f_ffff_ffe0_0000) + (v & 0x1f_ffff)) as u64)
                        } else {
                            match entry_at(
                                m,
                                (e2 & 0xffff_ffff_f000) as int,
                                (v >> 12u64) & 0x1ff,
                            ) {
                                Err(e) => Err(e),
                                Ok(e1) => if !present(e1) {
                                    Err(TranslationError::NotMapped)
                                } else {
                                    Ok(((e1 & 0xffff_ffff_f000) + (v & 0xfff)) as u64)
                                },
                            }
                        },
                    }
                },
            }
        },
    }
}

/// Reads the entry at `index` of the table at `table`.
fn read_entry<M: Memory + ?Sized>(mem: &M, table: GuestPhysAddr, index: u64) -> (r: Result<
    MmPte,
    TranslationError,
>)
    requires
        index < 512,
    ensures
        match r {
            Ok(e) => entry_at(mem, table.0 as int, index) == Ok::<u64, TranslationError>(e.0),
            Err(e) => entry_at(mem, table.0 as int, index) == Err::<u64, TranslationError>(e),
        },
{
    let off = 8 * index;
    if table.0 > u64::MAX - off {
        return Err(TranslationError::Memory(MemoryAccessError::OutOfBounds));
    }
    let r = mem.read_physical(table.add_offset(off), 8);
    proof {
        lemma_read_physical(mem, GuestPhysAddr((table.0 + off) as u64), 8, r);
    }
    match r {
        Ok(b) => Ok(MmPte(u64_from_le(b.as_slice()))),
        Err(e) => Err(TranslationError::Memory(e)),
    }
}

/// Translates `addr` through the page tables rooted at `mmu_addr`.
pub fn virtual_to_physical<M: Memory + ?Sized>(
    mem: &M,
    mmu_addr: GuestPhysAddr,
    addr: GuestVirtAddr,
) -> (r: Result<GuestPhysAddr, TranslationError>)
    ensures
        match r {
            Ok(p) => translate(mem, mmu_addr.0, addr.0) == Ok::<u64, TranslationError>(p.0),
            Err(e) => translate(mem, mmu_addr.0, addr.0) == Err::<u64, TranslationError>(e),
        },
{
    let e4 = read_entry(mem, mmu_addr, addr.pml4e())?;
    if !e4.is_valid() {
        return Err(TranslationError::NotMapped);
    }
    let e3 = read_entry(mem, e4.page_frame(), addr.pdpe())?;
    if !e3.is_valid() {
        return Err(TranslationError::NotMapped);
    }
    if e3.is_large() {
        return Ok(e3.huge_page_frame().add_offset(addr.huge_page_offset()));
    }
    let e2 = read_entry(mem, e3.page_frame(), addr.pde())?;
    if !e2.is_valid() {
        return Err(TranslationError::NotMapped);
    }
    if e2.is_large() {
        return Ok(e2.large_page_frame().add_offset(addr.large_page_offset()));
    }
    let e1 = read_entry(mem, e2.page_frame(), addr.pte())?;
    if !e1.is_valid() {
        return Err(TranslationError::NotMapped);
    }
    Ok(e1.page_frame().add_offset(addr.page_offset()))
}

/// How many bytes of a read of `len` bytes at `v` stay in the page of `v`.
pub open spec fn chunk_len(v: int, len: nat) -> nat {
    let room = 0x1000 - v % 0x1000;
    if len < room {
        len
    } else {
        room as nat
    }
}

/// What reading `len` bytes of virtual memory from `v` gives: each page is
/// translated on its own.
pub open spec fn virt_read<M: Memory + ?Sized>(m: &M, root: u64, v: int, len: nat) -> Result<
    Seq<u8>,
    TranslationError,
>
    decreases len,
{
    if len == 0 || v < 0 {
        Ok(Seq::empty())
    } else {
        let n = chunk_len(v, len);
        match translate(m, root, v as u64) {
            Err(e) => Err(e),
            Ok(p) => match phys_read(m, p as int, n) {
                Err(e) => Err(TranslationError::Memory(e)),
                Ok(b) => match virt_read(m, root, v + n, (len - n) as nat) {
                    Err(e) => Err(e),
                    Ok(rest) => Ok(b + rest),
                },
            },
        }
    }
}

/// As `virt_read`, but a page that is not mapped reads as zeroes.
pub open spec fn virt_read_lenient<M: Memory + ?Sized>(
    m: &M,
    root: u64,
    v: int,
    len: nat,
) -> Result<Seq<u8>, TranslationError>
    decreases len,
{
    if len == 0 || v < 0 {
        Ok(Seq::empty())
    } else {
        let n = chunk_len(v, len);
        let chunk = match translate(m, root, v as u64) {
            Err(TranslationError::NotMapped) => Ok(Seq::new(n, |i: int| 0u8)),
            Err(e) => Err(e),
            Ok(p) => match phys_read(m, p as int, n) {
                Err(e) => Err(TranslationError::Memory(e)),
                Ok(b) => Ok(b),
            },
        };
        match chunk {
            Err(e) => Err(e),
            Ok(b) => match virt_read_lenient(m, root, v + n, (len - n) as nat) {
                Err(e) => Err(e),
                Ok(rest) => Ok(b + rest),
            },
        }
    }
}

/// `prefix` followed by what `rest` holds, or the error of `rest`.
pub open spec fn prepend(prefix: Seq<u8>, rest: Result<Seq<u8>, TranslationError>) -> Result<
    Seq<u8>,
    TranslationError,
> {
    match rest {
        Ok(s) => Ok(prefix + s),
        Err(e) => Err(e),
    }
}

proof fn lemma_prepend_assoc(a: Seq<u8>, b: Seq<u8>, r: Result<Seq<u8>, TranslationError>)
    ensures
        prepend(a, prepend(b, r)) == prepend(a + b, r),
{
    if let Ok(s) = r {
        assert(a + (b + s) =~= (a + b) + s);
    }
}

/// Reads `len` bytes of virtual memory at `addr`, translating each page
/// through the tables rooted at `mmu_addr`.
pub fn read_virtual_memory<M: Memory + ?Sized>(
    mem: &M,
    mmu_addr: GuestPhysAddr,
    addr: GuestVirtAddr,
    len: usize,
) -> (r: Result<Vec<u8>, TranslationError>)
    requires
        addr.0 + len <= 0x1_0000_0000_0000_0000,
    ensures
        bytes_view(r) == virt_read(mem, mmu_addr.0, addr.0 as int, len as nat),
{
    let mut out: Vec<u8> = Vec::new();
    let mut done: usize = 0;
    while done < len
        invariant
            done <= len,
            addr.0 + len <= 0x1_0000_0000_0000_0000,
            virt_read(mem, mmu_addr.0, addr.0 as int, len as nat) == prepend(
                out@,
                virt_read(mem, mmu_addr.0, addr.0 + done, (len - done) as nat),
            ),
        decreases len - done,
    {
        let cur = GuestVirtAddr(addr.0 + done as u64);
        let room = PAGE_SIZE - cur.page_offset();
        let want = (len - done) as u64;
        let n = if want < room { want } else { room };
        let ghost rest = virt_read(mem, mmu_addr.0, addr.0 + done + n, (len - done - n) as nat);
        let phys = match virtual_to_physical(mem, mmu_addr, cur) {
            Ok(p) => p,
            Err(e) => return Err(e),
        };
        let r = mem.read_physical(phys, n as usize);
        proof {
            lemma_read_physical(mem, phys, n as usize, r);
        }
        let bytes = match r {
            Ok(b) => b,
            Err(e) => return Err(TranslationError::Memory(e)),
        };
        proof {
            lemma_prepend_assoc(out@, bytes@, rest);
        }
        let mut bytes = bytes;
        out.append(&mut bytes);
        done = done + n as usize;
    }
    proof {
        assert(out@ + Seq::<u8>::empty() =~= out@);
    }
    Ok(out)
}

/// Reads `len` bytes of virtual memory at `addr` as `read_virtual_memory`
/// does, but fills the pages that are not mapped with zeroes.
pub fn try_read_virtual_memory<M: Memory + ?Sized>(
    mem: &M,
    mmu_addr: GuestPhysAddr,
    addr: GuestVirtAddr,
    len: usize,
) -> (r: Result<Vec<u8>, TranslationError>)
    requires
        addr.0 + len <= 0x1_0000_0000_0000_0000,
    ensures
        bytes_view(r) == virt_read_lenient(mem, mmu_addr.0, addr.0 as int, len as nat),
{
    let mut out: Vec<u8> = Vec::new();
    let mut done: usize = 0;
    while done < len
        invariant
            done <= len,
            addr.0 + len <= 0x1_0000_0000_0000_0000,
            virt_read_lenient(mem, mmu_addr.0, addr.0 as int, len as nat) == prepend(
                out@,
                virt_read_lenient(mem, mmu_addr.0, addr.0 + done, (len - done) as nat),
            ),
        decreases len - done,
    {
        let cur = GuestVirtAddr(addr.0 + done as u64);
        let room = PAGE_SIZE - cur.page_offset();
        let want = (len - done) as u64;
        let n = if want < room { want } else { room };
        let ghost rest = virt_read_lenient(
            mem,
            mmu_addr.0,
            addr.0 + done + n,
            (len - done - n) as nat,
        );
        let mut bytes = match virtual_to_physical(mem, mmu_addr, cur) {
            Ok(phys) => {
                let r = mem.read_physical(phys, n as usize);
                proof {
                    lemma_read_physical(mem, phys, n as usize, r);
                }
                match r {
                    Ok(b) => b,
                    Err(e) => return Err(TranslationError::Memory(e)),
                }
            },
            Err(TranslationError::NotMapped) => {
                let mut z: Vec<u8> = Vec::new();
                while z.len() < n as usize
                    invariant
                        z@.len() <= n,
                        forall|i: int| 0 <= i < z@.len() ==> z@[i] == 0u8,
                    decreases n - z@.len(),
                {
                    z.push(0u8);
                }
                assert(z@ =~= Seq::new(n as nat, |i: int| 0u8));
                z
            },
            Err(e) => return Err(e),
        };
        proof {
            lemma_prepend_assoc(out@, bytes@, rest);
        }
        out.append(&mut bytes);
        done = done + n as usize;
    }
    proof {
        assert(out@ + Seq::<u8>::empty() =~= out@);
    }
    Ok(out)
}

/// A successful read holds as many bytes as were asked for.
pub proof fn lemma_virt_read_len<M: Memory + ?Sized>(m: &M, root: u64, v: int, len: nat)
    ensures
        virt_read(m, root, v, len) matches Ok(s) ==> s.len() == len || v < 0,
    decreases len,
{
    if len > 0 && v >= 0 {
        let n = chunk_len(v, len);
        lemma_virt_read_len(m, root, v + n, (len - n) as nat);
    }
}

/// A read that crosses a page boundary gives the bytes of a read up to the
/// boundary followed by those of a read from the boundary on; it fails where
/// either of the two fails, with the first error.
pub proof fn lemma_read_across_page_boundary<M: Memory + ?Sized>(
    m: &M,
    root: u64,
    v: int,
    after: nat,
)
    requires
        v >= 0,
    ensures
        ({
            let before = (0x1000 - v % 0x1000) as nat;
            virt_read(m, root, v, before + after) == match virt_read(m, root, v, before) {
                Ok(head) => prepend(head, virt_read(m, root, v + before, after)),
                Err(e) => Err(e),
            }
        }),
{
    let before = (0x1000 - v % 0x1000) as nat;
    assert(chunk_len(v, before + after) == before);
    assert(chunk_len(v, before) == before);
    assert(virt_read(m, root, v + before, 0) == Ok::<Seq<u8>, TranslationError>(Seq::empty()));
    match translate(m, root, v as u64) {
        Err(e) => {},
        Ok(p) => match phys_read(m, p as int, before) {
            Err(e) => {},
            Ok(b) => {
                assert(b + Seq::<u8>::empty() =~= b);
            },
        },
    }
}

/// The walk for `v` reaches a leaf entry, of whichever page size, whose
/// frame is the base of `v`'s own page: the tables map that page to itself.
pub open spec fn maps_page_to_itself<M: Memory + ?Sized>(m: &M, root: u64, v: u64) -> bool {
    match entry_at(m, root as int, (v >> 39u64) & 0x1ff) {
        Err(_) => false,
        Ok(e4) => present(e4) && match entry_at(m, (e4 & 0xffff_ffff_f000) as int, (v >> 30u64) & 0x1ff) {
            Err(_) => false,
            Ok(e3) => present(e3) && if large(e3) {
                e3 & 0x000f_ffff_c000_0000 == v & 0x000f_ffff_c000_0000
            } else {
                match entry_at(m, (e3 & 0xffff_ffff_f000) as int, (v >> 21u64) & 0x1ff) {
                    Err(_) => false,
                    Ok(e2) => present(e2) && if large(e2) {
                        e2 & 0x000f_ffff_ffe0_0000 == v & 0x000f_ffff_ffe0_0000
                    } else {
                        match entry_at(m, (e2 & 0xffff_ffff_f000) as int, (v >> 12u64) & 0x1ff) {
                            Err(_) => false,
                            Ok(e1) => present(e1) && e1 & 0xffff_ffff_f000 == v & 0xffff_ffff_f000,
                        }
                    },
                }
            },
        },
    }
}

/// Where the page tables map the page of `v` to itself, with 4 KiB, 2 MiB or
/// 1 GiB pages, `v` translates to itself: identity-mapped tables give the
/// identity on the range they map.
pub proof fn lemma_identity_mapping<M: Memory + ?Sized>(m: &M, root: u64, v: u64)
    requires
        v >> 48u64 == 0,
        maps_page_to_itself(m, root, v),
    ensures
        translate(m, root, v) == Ok::<u64, TranslationError>(v),
{
    assert(((v & 0x000f_ffff_c000_0000) + (v & 0x3fff_ffff)) as u64 == v) by (bit_vector)
        requires
            v >> 48u64 == 0,
    ;
    assert(((v & 0x000f_ffff_ffe0_0000) + (v & 0x1f_ffff)) as u64 == v) by (bit_vector)
        requires
            v >> 48u64 == 0,
    ;
    assert(((v & 0xffff_ffff_f000) + (v & 0xfff)) as u64 == v) by (bit_vector)
        requires
            v >> 48u64 == 0,
    ;
}

/// Reads a little-endian 64-bit value from virtual memory.
pub fn read_u64_virtual<M: Memory + ?Sized>(
    mem: &M,
    mmu_addr: GuestPhysAddr,
    addr: GuestVirtAddr,
) -> (r: Result<u64, TranslationError>)
    requires
        addr.0 + 8 <= 0x1_0000_0000_0000_0000,
    ensures
        match virt_read(mem, mmu_addr.0, addr.0 as int, 8) {
            Ok(b) => r == Ok::<u64, TranslationError>(le_u64(b)),
            Err(e) => r == Err::<u64, TranslationError>(e),
        },
{
    let b = read_virtual_memory(mem, mmu_addr, addr, 8)?;
    proof {
        lemma_virt_read_len(mem, mmu_addr.0, addr.0 as int, 8);
    }
    Ok(u64_from_le(b.as_slice()))
}

} // verus!
