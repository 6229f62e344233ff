use vstd::prelude::*;

verus! {

/// The low `n` bits set, as a specification value.
pub open spec fn low_bits(n: u64) -> u64 {
    ((1u64 << n) - 1) as u64
}

/// A value with its `size` low bits set.
pub fn mask(size: u32) -> (r: u64)
    requires
        size < 64,
    ensures
        r == low_bits(size as u64),
        r as int + 1 == pow2_u64(size as u64),
{
    let s = size as u64;
    let r = !(!0u64 << s);
    assert(!(!0u64 << s) == ((1u64 << s) - 1) as u64) by (bit_vector)
        requires s < 64;
    assert((1u64 << s) >= 1 && ((1u64 << s) - 1) as u64 + 1 == (1u64 << s)) by (bit_vector)
        requires s < 64;
    r
}

/// The masks that the address and entry accessors use.
pub proof fn lemma_low_bits()
    ensures
        low_bits(9) == 0x1ffu64,
        low_bits(12) == 0xfffu64,
        low_bits(21) == 0x1f_ffffu64,
        low_bits(22) == 0x3f_ffffu64,
        low_bits(30) == 0x3fff_ffffu64,
        low_bits(31) == 0x7fff_ffffu64,
        low_bits(36) == 0xf_ffff_ffffu64,
        low_bits(40) == 0xff_ffff_ffffu64,
{
    assert(((1u64 << 9u64) - 1) as u64 == 0x1ffu64) by (bit_vector);
    assert(((1u64 << 12u64) - 1) as u64 == 0xfffu64) by (bit_vector);
    assert(((1u64 << 21u64) - 1) as u64 == 0x1f_ffffu64) by (bit_vector);
    assert(((1u64 << 22u64) - 1) as u64 == 0x3f_ffffu64) by (bit_vector);
    assert(((1u64 << 30u64) - 1) as u64 == 0x3fff_ffffu64) by (bit_vector);
    assert(((1u64 << 31u64) - 1) as u64 == 0x7fff_ffffu64) by (bit_vector);
    assert(((1u64 << 36u64) - 1) as u64 == 0xf_ffff_ffffu64) by (bit_vector);
    assert(((1u64 << 40u64) - 1) as u64 == 0xff_ffff_ffffu64) by (bit_vector);
}

/// `2^n` for `n < 64`, through the left shift of one.
pub open spec fn pow2_u64(n: u64) -> int {
    (1u64 << n) as int
}

/// A guest physical address.
#[derive(Clone, Copy, Debug, PartialEq, Eq, Hash, Structural)]
pub struct GuestPhysAddr(pub u64);

impl GuestPhysAddr {
    /// The address `n` bytes further.
    pub fn add_offset(self, n: u64) -> (r: GuestPhysAddr)
        requires
            self.0 + n <= u64::MAX,
        ensures
            r.0 == self.0 + n,
    {
        GuestPhysAddr(self.0 + n)
    }

    /// The address moved by a signed offset.
    pub fn add_signed(self, n: i64) -> (r: GuestPhysAddr)
        requires
            0 <= self.0 + n <= u64::MAX,
        ensures
            r.0 == self.0 + n,
    {
        if n < 0 {
            let m: u64 = if n == i64::MIN { 0x8000_0000_0000_0000u64 } else { (-n) as u64 };
            GuestPhysAddr(self.0 - m)
        } else {
            GuestPhysAddr(self.0 + n as u64)
        }
    }

    /// The address `n` bytes before.
    pub fn sub_offset(self, n: u64) -> (r: GuestPhysAddr)
        requires
            n <= self.0,
        ensures
            r.0 == self.0 - n,
    {
        GuestPhysAddr(self.0 - n)
    }
}

/// A guest virtual address.
#[derive(Clone, Copy, Debug, PartialEq, Eq, Hash, Structural)]
pub struct GuestVirtAddr(pub u64);

impl GuestVirtAddr {
    /// Whether the address lies in the upper (kernel) half.
    pub open spec fn spec_is_kernel(self) -> bool {
        self.0 >= 0x8000_0000_0000_0000u64
    }

    pub fn is_null(self) -> (r: bool)
        ensures
            r == (self.0 == 0),
    {
        self.0 == 0
    }

    pub fn is_kernel(self) -> (r: bool)
        ensures
            r == self.spec_is_kernel(),
    {
        self.0 >= 0x8000_0000_0000_0000u64
    }

    /// Index in the level-4 table: bits 39 to 47.
    pub fn pml4e(self) -> (r: u64)
        ensures
            r == (self.0 >> 39u64) & 0x1ff,
            r < 512,
    {
        let v = self.0;
        proof {
            lemma_low_bits();
        }
        assert((v >> 39u64) & 0x1ff < 512) by (bit_vector);
        (v >> 39u64) & mask(9)
    }

    /// Index in the page-directory-pointer table: bits 30 to 38.
    pub fn pdpe(self) -> (r: u64)
        ensures
            r == (self.0 >> 30u64) & 0x1ff,
            r < 512,
    {
        let v = self.0;
        proof {
            lemma_low_bits();
        }
        assert((v >> 30u64) & 0x1ff < 512) by (bit_vector);
        (v >> 30u64) & mask(9)
    }

    /// Index in the page directory: bits 21 to 29.
    pub fn pde(self) -> (r: u64)
        ensures
            r == (self.0 >> 21u64) & 0x1ff,
            r < 512,
    {
        let v = self.0;
        proof {
            lemma_low_bits();
        }
        assert((v >> 21u64) & 0x1ff < 512) by (bit_vector);
        (v >> 21u64) & mask(9)
    }

    /// Index in the page table: bits 12 to 20.
    pub fn pte(self) -> (r: u64)
        ensures
            r == (self.0 >> 12u64) & 0x1ff,
            r < 512,
    {
        let v = self.0;
        proof {
            lemma_low_bits();
        }
        assert((v >> 12u64) & 0x1ff < 512) by (bit_vector);
        (v >> 12u64) & mask(9)
    }

    /// Offset in a 4 KiB page: bits 0 to 11.
    pub fn page_offset(self) -> (r: u64)
        ensures
            r == self.0 & 0xfff,
            r == self.0 % 0x1000,
    {
        let v = self.0;
        proof {
            lemma_low_bits();
        }
        assert(v & 0xfff == v % 0x1000) by (bit_vector);
        v & mask(12)
    }

    /// Offset in a 2 MiB page: bits 0 to 20.
    pub fn large_page_offset(self) -> (r: u64)
        ensures
            r == self.0 & 0x1f_ffff,
            r == self.0 % 0x20_0000,
    {
        let v = self.0;
        proof {
            lemma_low_bits();
        }
        assert(v & 0x1f_ffff == v % 0x20_0000) by (bit_vector);
        v & mask(21)
    }

    /// Offset in a 1 GiB page: bits 0 to 29.
    pub fn huge_page_offset(self) -> (r: u64)
        ensures
            r == self.0 & 0x3fff_ffff,
            r == self.0 % 0x4000_0000,
    {
        let v = self.0;
        proof {
            lemma_low_bits();
        }
        assert(v & 0x3fff_ffff == v % 0x4000_0000) by (bit_vector);
        v & mask(30)
    }

    /// The address `n` bytes further.
    pub fn add_offset(self, n: u64) -> (r: GuestVirtAddr)
        requires
            self.0 + n <= u64::MAX,
        ensures
            r.0 == self.0 + n,
    {
        GuestVirtAddr(self.0 + n)
    }

    /// The address moved by a signed offset.
    pub fn add_signed(self, n: i64) -> (r: GuestVirtAddr)
        requires
            0 <= self.0 + n <= u64::MAX,
        ensures
            r.0 == self.0 + n,
    {
        if n < 0 {
            let m: u64 = if n == i64::MIN { 0x8000_0000_0000_0000u64 } else { (-n) as u64 };
            GuestVirtAddr(self.0 - m)
        } else {
            GuestVirtAddr(self.0 + n as u64)
        }
    }

    /// The address `n` bytes before.
    pub fn sub_offset(self, n: u64) -> (r: GuestVirtAddr)
        requires
            n <= self.0,
        ensures
            r.0 == self.0 - n,
    {
        GuestVirtAddr(self.0 - n)
    }

    /// The signed distance from `rhs` to `self`, wrapping around 64 bits.
    pub fn diff(self, rhs: GuestVirtAddr) -> (r: i64)
        ensures
            r as int == wrapped_delta(self.0, rhs.0),
    {
        let d = self.0.wrapping_sub(rhs.0);
        if d <= i64::MAX as u64 {
            d as i64
        } else {
            let n = (u64::MAX - d) as i64;
            -n - 1
        }
    }
}

/// `a - b` taken modulo 2^64 and read as a two's-complement 64-bit value.
pub open spec fn wrapped_delta(a: u64, b: u64) -> int {
    let d = if a >= b {
        a - b
    } else {
        a - b + 0x1_0000_0000_0000_0000
    };
    if d >= 0x8000_0000_0000_0000 {
        d - 0x1_0000_0000_0000_0000
    } else {
        d
    }
}

/// A page-table entry.
#[derive(Clone, Copy, Debug, PartialEq, Eq, Structural)]
pub struct MmPte(pub u64);

impl MmPte {
    /// Frame of a 4 KiB page: bits 12 to 47.
    pub fn page_frame(self) -> (r: GuestPhysAddr)
        ensures
            r.0 == self.0 & 0xffff_ffff_f000,
            r.0 <= 0xffff_ffff_f000,
    {
        let v = self.0;
        proof {
            lemma_low_bits();
        }
        let m = mask(36);
        assert(0xf_ffff_ffffu64 << 12u64 == 0xffff_ffff_f000u64) by (bit_vector);
        assert(v & 0xffff_ffff_f000u64 <= 0xffff_ffff_f000u64) by (bit_vector);
        GuestPhysAddr(v & (m << 12u64))
    }

    /// Frame of a 2 MiB page: bits 21 to 51.
    pub fn large_page_frame(self) -> (r: GuestPhysAddr)
        ensures
            r.0 == self.0 & 0x000f_ffff_ffe0_0000,
            r.0 <= 0x000f_ffff_ffe0_0000,
    {
        let v = self.0;
        proof {
            lemma_low_bits();
        }
        let m = mask(31);
        assert(0x7fff_ffffu64 << 21u64 == 0x000f_ffff_ffe0_0000u64) by (bit_vector);
        assert(v & 0x000f_ffff_ffe0_0000u64 <= 0x000f_ffff_ffe0_0000u64) by (bit_vector);
        GuestPhysAddr(v & (m << 21u64))
    }

    /// Frame of a 1 GiB page: bits 30 to 51.
    pub fn huge_page_frame(self) -> (r: GuestPhysAddr)
        ensures
            r.0 == self.0 & 0x000f_ffff_c000_0000,
            r.0 <= 0x000f_ffff_c000_0000,
    {
        let v = self.0;
        proof {
            lemma_low_bits();
        }
        let m = mask(22);
        assert(0x3f_ffffu64 << 30u64 == 0x000f_ffff_c000_0000u64) by (bit_vector);
        assert(v & 0x000f_ffff_c000_0000u64 <= 0x000f_ffff_c000_0000u64) by (bit_vector);
        GuestPhysAddr(v & (m << 30u64))
    }

    /// Whether the present bit (bit 0) is set.
    pub fn is_valid(self) -> (r: bool)
        ensures
            r == (self.0 & 1 != 0),
    {
        self.0 & 1 != 0
    }

    /// Whether the page-size bit (bit 7) is set.
    pub fn is_large(self) -> (r: bool)
        ensures
            r == (self.0 & 0x80 != 0),
    {
        self.0 & 0x80 != 0
    }
}

/// Putting the five slices of a virtual address back in place gives the
/// address again, for every address whose bits above 47 are clear.
pub proof fn lemma_virt_addr_slices(v: GuestVirtAddr)
    requires
        v.0 >> 48u64 == 0,
    ensures
        ((((v.0 >> 39u64) & 0x1ff) << 39u64) | (((v.0 >> 30u64) & 0x1ff) << 30u64) | (((v.0
            >> 21u64) & 0x1ff) << 21u64) | (((v.0 >> 12u64) & 0x1ff) << 12u64) | (v.0 & 0xfff))
            == v.0,
{
    let x = v.0;
    assert(((((x >> 39u64) & 0x1ff) << 39u64) | (((x >> 30u64) & 0x1ff) << 30u64) | (((x
        >> 21u64) & 0x1ff) << 21u64) | (((x >> 12u64) & 0x1ff) << 12u64) | (x & 0xfff)) == x)
        by (bit_vector)
        requires
            x >> 48u64 == 0,
    ;
}

/// The frames of an entry are aligned on their page size.
pub proof fn lemma_pte_frames_aligned(e: MmPte)
    requires
        e.0 & 1 != 0,
    ensures
        (e.0 & 0xffff_ffff_f000) & 0xfff == 0,
        (e.0 & 0x000f_ffff_ffe0_0000) & 0x1f_ffff == 0,
        (e.0 & 0x000f_ffff_c000_0000) & 0x3fff_ffff == 0,
{
    let x = e.0;
    assert((x & 0xffff_ffff_f000) & 0xfff == 0) by (bit_vector);
    assert((x & 0x000f_ffff_ffe0_0000) & 0x1f_ffff == 0) by (bit_vector);
    assert((x & 0x000f_ffff_c000_0000) & 0x3fff_ffff == 0) by (bit_vector);
}

} // verus!
