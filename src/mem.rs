use vstd::prelude::*;

use crate::addr::GuestPhysAddr;

verus! {

/// Why a read of guest physical memory failed.
#[derive(Clone, Copy, Debug, PartialEq, Eq, Structural)]
pub enum MemoryAccessError {
    /// Part of the range lies outside every memory mapping.
    OutOfBounds,
    /// The underlying source failed.
    Io,
    /// The backend cannot do this.
    Unsupported,
}

/// Whether `len` bytes from `addr` all exist in `m`.
pub open spec fn readable<M: Memory + ?Sized>(m: &M, addr: int, len: nat) -> bool {
    &&& 0 <= addr
    &&& addr + len <= 0x1_0000_0000_0000_0000
    &&& forall|i: int| 0 <= i < len ==> (#[trigger] m.phys_byte(addr + i)) is Some
}

/// What reading `len` bytes from `addr` gives.
pub open spec fn phys_read<M: Memory + ?Sized>(m: &M, addr: int, len: nat) -> Result<
    Seq<u8>,
    MemoryAccessError,
> {
    if readable(m, addr, len) {
        Ok(Seq::new(len, |i: int| m.phys_byte(addr + i)->Some_0))
    } else {
        Err(MemoryAccessError::OutOfBounds)
    }
}

/// The bytes held by a read result.
pub open spec fn bytes_view<E>(r: Result<Vec<u8>, E>) -> Result<Seq<u8>, E> {
    match r {
        Ok(v) => Ok(v@),
        Err(e) => Err(e),
    }
}

/// Guest physical memory.
pub trait Memory {
    /// The byte at `addr`, where some mapping covers it.
    spec fn phys_byte(&self, addr: int) -> Option<u8>;

    /// Reads `len` bytes from `addr`.
    fn read_physical(&self, addr: GuestPhysAddr, len: usize) -> (r: Result<
        Vec<u8>,
        MemoryAccessError,
    >)
        ensures
            r is Ok <==> (addr.0 + len <= 0x1_0000_0000_0000_0000 && forall|i: int|
                0 <= i < len ==> (#[trigger] self.phys_byte(addr.0 + i)) is Some),
            r matches Ok(v) ==> v@.len() == len && forall|i: int|
                0 <= i < len ==> self.phys_byte(addr.0 + i) == Some(#[trigger] v@[i]),
            r matches Err(e) ==> e == MemoryAccessError::OutOfBounds,
    ;
}

/// The contract of `Memory::read_physical`, stated over `phys_read`.
pub proof fn lemma_read_physical<M: Memory + ?Sized>(
    m: &M,
    addr: GuestPhysAddr,
    len: usize,
    r: Result<Vec<u8>, MemoryAccessError>,
)
    requires
        r is Ok <==> (addr.0 + len <= 0x1_0000_0000_0000_0000 && forall|i: int|
            0 <= i < len ==> (#[trigger] m.phys_byte(addr.0 + i)) is Some),
        r matches Ok(v) ==> v@.len() == len && forall|i: int|
            0 <= i < len ==> m.phys_byte(addr.0 + i) == Some(#[trigger] v@[i]),
        r matches Err(e) ==> e == MemoryAccessError::OutOfBounds,
    ensures
        bytes_view(r) == phys_read(m, addr.0 as int, len as nat),
{
    if let Ok(v) = r {
        assert(v@ =~= Seq::new(len as nat, |i: int| m.phys_byte(addr.0 + i)->Some_0));
    }
}

/// A run of guest physical memory held in a buffer.
#[derive(Clone, Debug)]
pub struct MemoryRegion {
    pub start: GuestPhysAddr,
    pub data: Vec<u8>,
}

impl MemoryRegion {
    pub open spec fn covers(self, addr: int) -> bool {
        self.start.0 <= addr < self.start.0 + self.data@.len()
    }

    pub open spec fn end(self) -> int {
        self.start.0 + self.data@.len()
    }
}

/// Guest physical memory as a list of disjoint regions, as a dump holds it.
#[derive(Debug)]
pub struct RawMemory {
    regions: Vec<MemoryRegion>,
}

/// The byte that a covering region holds is the byte of the memory.
proof fn lemma_region_byte(r: Seq<MemoryRegion>, i: int, addr: int)
    requires
        regions_wf(r),
        0 <= i < r.len(),
        r[i].covers(addr),
    ensures
        region_byte(r, addr) == Some(r[i].data@[addr - r[i].start.0]),
{
    let j = choose|j: int| 0 <= j < r.len() && #[trigger] r[j].covers(addr);
    if j != i {
        assert(r[i].end() <= r[j].start.0 || r[j].end() <= r[i].start.0);
    }
}

/// No two regions share an address, and none runs past the address space.
pub open spec fn regions_wf(r: Seq<MemoryRegion>) -> bool {
    &&& forall|i: int| 0 <= i < r.len() ==> #[trigger] r[i].end() <= 0x1_0000_0000_0000_0000
    &&& forall|i: int, j: int|
        0 <= i < r.len() && 0 <= j < r.len() && i != j ==> (#[trigger] r[i].end() <= r[j].start.0
            || #[trigger] r[j].end() <= r[i].start.0)
}

/// The byte that the regions hold at `addr`.
pub open spec fn region_byte(r: Seq<MemoryRegion>, addr: int) -> Option<u8> {
    if exists|i: int| 0 <= i < r.len() && #[trigger] r[i].covers(addr) {
        let i = choose|i: int| 0 <= i < r.len() && #[trigger] r[i].covers(addr);
        Some(r[i].data@[addr - r[i].start.0])
    } else {
        None
    }
}

impl RawMemory {
    pub closed spec fn view(&self) -> Seq<MemoryRegion> {
        self.regions@
    }

    #[verifier::type_invariant]
    pub closed spec fn wf(&self) -> bool {
        regions_wf(self.regions@)
    }

    /// Builds the memory from its regions; `None` where two regions overlap or
    /// one runs past the end of the address space.
    pub fn new(regions: Vec<MemoryRegion>) -> (r: Option<RawMemory>)
        ensures
            r is Some <==> regions_wf(regions@),
            r matches Some(m) ==> m@ == regions@,
    {
        let n = regions.len();
        let mut i: usize = 0;
        while i < n
            invariant
                n == regions@.len(),
                i <= n,
                forall|a: int| 0 <= a < i ==> #[trigger] regions@[a].end() <= 0x1_0000_0000_0000_0000,
                forall|a: int, b: int|
                    0 <= a < i && 0 <= b < n && a != b ==> (#[trigger] regions@[a].end()
                        <= regions@[b].start.0 || #[trigger] regions@[b].end() <= regions@[a].start.0),
            decreases n - i,
        {
            let ri = &regions[i];
            if (ri.data.len() as u128) + (ri.start.0 as u128) > 0x1_0000_0000_0000_0000u128 {
                proof {
                    assert(regions@[i as int].end() > 0x1_0000_0000_0000_0000);
                }
                return None;
            }
            let mut j: usize = 0;
            while j < n
                invariant
                    n == regions@.len(),
                    i < n,
                    j <= n,
                    ri == regions@[i as int],
                    forall|b: int|
                        0 <= b < j && b != i ==> (#[trigger] regions@[i as int].end()
                            <= regions@[b].start.0 || #[trigger] regions@[b].end()
                            <= regions@[i as int].start.0),
                decreases n - j,
            {
                if j != i {
                    let rj = &regions[j];
                    let ei = ri.start.0 as u128 + ri.data.len() as u128;
                    let ej = rj.start.0 as u128 + rj.data.len() as u128;
                    if !(ei <= rj.start.0 as u128 || ej <= ri.start.0 as u128) {
                        proof {
                            assert(!(regions@[i as int].end() <= regions@[j as int].start.0
                                || regions@[j as int].end() <= regions@[i as int].start.0));
                        }
                        return None;
                    }
                }
                j += 1;
            }
            i += 1;
        }
        Some(RawMemory { regions })
    }

    /// Index of the region that covers `addr`.
    fn find_region(&self, addr: u64) -> (r: Option<usize>)
        ensures
            r matches Some(i) ==> i < self@.len() && self@[i as int].covers(addr as int),
            r is None ==> forall|i: int| 0 <= i < self@.len() ==> !(#[trigger] self@[i].covers(addr as int)),
    {
        let mut i: usize = 0;
        while i < self.regions.len()
            invariant
                i <= self@.len(),
                forall|k: int| 0 <= k < i ==> !(#[trigger] self@[k].covers(addr as int)),
            decreases self@.len() - i,
        {
            let r = &self.regions[i];
            if r.start.0 <= addr && (addr - r.start.0) < r.data.len() as u64 {
                return Some(i);
            }
            i += 1;
        }
        None
    }
}

impl Memory for RawMemory {
    open spec fn phys_byte(&self, addr: int) -> Option<u8> {
        region_byte(self@, addr)
    }

    fn read_physical(&self, addr: GuestPhysAddr, len: usize) -> (r: Result<Vec<u8>, MemoryAccessError>)
    {
        proof {
            use_type_invariant(self);
        }
        if (addr.0 as u128) + (len as u128) > 0x1_0000_0000_0000_0000u128 {
            return Err(MemoryAccessError::OutOfBounds);
        }
        let mut out: Vec<u8> = Vec::new();
        while out.len() < len
            invariant
                self.wf(),
                out@.len() <= len,
                addr.0 + len <= 0x1_0000_0000_0000_0000,
                forall|k: int|
                    0 <= k < out@.len() ==> self.phys_byte(addr.0 + k) == Some(#[trigger] out@[k]),
            decreases len - out@.len(),
        {
            let cur = addr.0 + out.len() as u64;
            match self.find_region(cur) {
                None => {
                    proof {
                        let k = out@.len() as int;
                        assert(!(exists|i: int| 0 <= i < self@.len() && #[trigger] self@[i].covers(addr.0 + k)));
                        assert(self.phys_byte(addr.0 + k) is None);
                    }
                    return Err(MemoryAccessError::OutOfBounds);
                },
                Some(i) => {
                    let region = &self.regions[i];
                    assert(cur - region.start.0 < region.data@.len());
                    let off = (cur - region.start.0) as usize;
                    let avail = region.data.len() - off;
                    let want = len - out.len();
                    let take = if avail < want { avail } else { want };
                    let mut k: usize = 0;
                    let ghost base = out@.len();
                    while k < take
                        invariant
                            self.wf(),
                            i < self@.len(),
                            *region == self@[i as int],
                            base + take <= len,
                            off + take <= region.data@.len() <= usize::MAX,
                            cur == addr.0 + base,
                            off == cur - region.start.0,
                            k <= take,
                            out@.len() == base + k,
                            addr.0 + len <= 0x1_0000_0000_0000_0000,
                            forall|q: int|
                                0 <= q < out@.len() ==> self.phys_byte(addr.0 + q) == Some(
                                    #[trigger] out@[q],
                                ),
                        decreases take - k,
                    {
                        proof {
                            lemma_region_byte(self@, i as int, addr.0 + base + k);
                        }
                        out.push(region.data[off + k]);
                        k += 1;
                    }
                },
            }
        }
        assert forall|q: int| 0 <= q < len implies (#[trigger] self.phys_byte(addr.0 + q)) is Some by {
            assert(self.phys_byte(addr.0 + q) == Some(out@[q]));
        }
        Ok(out)
    }
}

} // verus!
