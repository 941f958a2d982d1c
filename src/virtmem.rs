use vstd::prelude::*;

verus! {

/// Sign-extension of bit 47 into bits 48..63, as a specification.
pub open spec fn canonical_of(addr: u64) -> u64 {
    if addr & 0x0000_8000_0000_0000 != 0 {
        addr | 0xFFFF_0000_0000_0000
    } else {
        addr & 0x0000_FFFF_FFFF_FFFF
    }
}

/// Canonicalize a 64-bit address such that bits [63:48] are sign extended
/// from bit 47.
pub fn canonicalize_address(addr: u64) -> (r: u64)
    ensures
        r == canonical_of(addr),
{
    let r: u64 = if addr & 0x0000_8000_0000_0000 != 0 {
        addr | 0xFFFF_0000_0000_0000
    } else {
        addr & 0x0000_FFFF_FFFF_FFFF
    };
    r
}

} // verus!

verus! {

/// Bit positions of an x86-64 page-table entry.
pub enum PTBits {
    Present,
    Writable,
    User,
    WriteThrough,
    CacheDisable,
    Accessed,
    Dirty,
    /// Only meaningful in PDPTEs and PDEs.
    PageSize,
    Global,
    ExecuteDisable,
}

impl PTBits {
    /// The mask of this bit within an entry.
    pub fn mask(&self) -> (r: u64)
        ensures
            r == pt_bit_mask(*self),
    {
        match self {
            PTBits::Present => PT_PRESENT,
            PTBits::Writable => 0x2,
            PTBits::User => 0x4,
            PTBits::WriteThrough => 0x8,
            PTBits::CacheDisable => 0x10,
            PTBits::Accessed => PT_ACCESSED,
            PTBits::Dirty => PT_DIRTY,
            PTBits::PageSize => PT_PAGE_SIZE,
            PTBits::Global => 0x100,
            PTBits::ExecuteDisable => 0x8000_0000_0000_0000,
        }
    }
}

pub open spec fn pt_bit_mask(b: PTBits) -> u64 {
    match b {
        PTBits::Present => 0x1,
        PTBits::Writable => 0x2,
        PTBits::User => 0x4,
        PTBits::WriteThrough => 0x8,
        PTBits::CacheDisable => 0x10,
        PTBits::Accessed => 0x20,
        PTBits::Dirty => 0x40,
        PTBits::PageSize => 0x80,
        PTBits::Global => 0x100,
        PTBits::ExecuteDisable => 0x8000_0000_0000_0000,
    }
}

pub const PT_PRESENT: u64 = 0x1;
pub const PT_ACCESSED: u64 = 0x20;
pub const PT_DIRTY: u64 = 0x40;
pub const PT_PAGE_SIZE: u64 = 0x80;

/// Physical address bits 12..51 of an entry (or of CR3).
pub const PT_ADDR_MASK: u64 = 0x000F_FFFF_FFFF_F000;

/// Physical address bits of a 1 GiB mapping (bits 30..51 of a PDPTE).
pub const PT_1G_MASK: u64 = 0x000F_FFFF_C000_0000;

/// Physical address bits of a 2 MiB mapping (bits 21..51 of a PDE).
pub const PT_2M_MASK: u64 = 0x000F_FFFF_FFE0_0000;

/// Valid page mapping sizes.
pub enum MapSize {
    Mapping1GiB,
    Mapping2MiB,
    Mapping4KiB,
}

impl MapSize {
    /// Number of bytes covered by a mapping of this size.
    pub fn bytes(&self) -> (r: u64)
        ensures
            r == map_size_bytes(*self),
    {
        match self {
            MapSize::Mapping1GiB => 0x4000_0000,
            MapSize::Mapping2MiB => 0x20_0000,
            MapSize::Mapping4KiB => 0x1000,
        }
    }
}

pub open spec fn map_size_bytes(s: MapSize) -> u64 {
    match s {
        MapSize::Mapping1GiB => 0x4000_0000,
        MapSize::Mapping2MiB => 0x20_0000,
        MapSize::Mapping4KiB => 0x1000,
    }
}

/// A physical memory access hit an address with no backing.
#[derive(Debug, PartialEq, Eq, Clone, Copy)]
pub enum PhysMemError {
    Unmapped,
}

/// Guest physical memory as seen by the page-table walker: 64-bit words
/// addressed by byte address.
pub trait PhysMem: Sized {
    /// The 64-bit little-endian word at `addr`, if all eight bytes are backed.
    spec fn qword(&self, addr: u64) -> Option<u64>;

    /// Read the 64-bit word at `addr`.
    fn read_phys_int(&mut self, addr: u64) -> (r: Result<u64, PhysMemError>)
        ensures
            *final(self) == *old(self),
            match old(self).qword(addr) {
                Some(v) => r == Ok::<u64, PhysMemError>(v),
                None => r is Err,
            },
    ;

    /// Write the 64-bit word `val` at `addr`.
    fn write_phys(&mut self, addr: u64, val: u64) -> (r: Result<(), PhysMemError>)
        ensures
            old(self).qword(addr) is None ==> r is Err && *final(self) == *old(self),
            old(self).qword(addr) is Some ==> r is Ok && final(self).qword(addr) == Some(val),
            forall|a: u64|
                a + 8 <= addr || addr + 8 <= a ==> #[trigger] final(self).qword(a) == old(
                    self,
                ).qword(a),
    ;
}

/// Failure of a virtual-to-physical translation.
#[derive(Debug, PartialEq, Eq, Clone, Copy)]
pub enum WalkError {
    /// The virtual address is not in canonical 48-bit form.
    NonCanonical,
    /// A page-table entry could not be read or written.
    PhysAccess,
    /// The PageSize bit was set on a PML4 entry, where it must be zero.
    ReservedPageSize,
}

/// Result of walking the tables, as a specification.
pub enum Translation {
    Fault,
    NotPresent,
    Reserved,
    Mapped { phys: u64, size: u64 },
}

/// The 9-bit table index of `vaddr` at `level` (0 = PML4, 3 = PT).
pub open spec fn pt_index(vaddr: u64, level: int) -> u64 {
    if level == 0 {
        (vaddr >> 39u64) & 0x1ff
    } else if level == 1 {
        (vaddr >> 30u64) & 0x1ff
    } else if level == 2 {
        (vaddr >> 21u64) & 0x1ff
    } else {
        (vaddr >> 12u64) & 0x1ff
    }
}

/// Address of the entry for `vaddr` in the table at `table`.
pub open spec fn entry_addr(table: u64, vaddr: u64, level: int) -> u64 {
    (table + pt_index(vaddr, level) * 8) as u64
}

/// The translation of `vaddr` starting at the table `table` of `level`.
pub open spec fn walk_from<T: PhysMem>(mem: T, table: u64, vaddr: u64, level: nat) -> Translation
    decreases 4 - level,
{
    if level >= 4 {
        Translation::NotPresent
    } else {
        match mem.qword(entry_addr(table, vaddr, level as int)) {
            None => Translation::Fault,
            Some(e) => if e & PT_PRESENT == 0 {
                Translation::NotPresent
            } else if e & PT_PAGE_SIZE != 0 && level == 0 {
                Translation::Reserved
            } else if e & PT_PAGE_SIZE != 0 && level == 1 {
                Translation::Mapped {
                    phys: ((e & PT_1G_MASK) + (vaddr & 0x3FFF_FFFF)) as u64,
                    size: 0x4000_0000,
                }
            } else if e & PT_PAGE_SIZE != 0 && level == 2 {
                Translation::Mapped {
                    phys: ((e & PT_2M_MASK) + (vaddr & 0x1F_FFFF)) as u64,
                    size: 0x20_0000,
                }
            } else if level == 3 {
                Translation::Mapped {
                    phys: ((e & PT_ADDR_MASK) + (vaddr & 0xFFF)) as u64,
                    size: 0x1000,
                }
            } else {
                walk_from(mem, e & PT_ADDR_MASK, vaddr, level + 1)
            },
        }
    }
}

/// The translation of `vaddr` through the tables rooted at `cr3`.
pub open spec fn translate<T: PhysMem>(mem: T, cr3: u64, vaddr: u64) -> Translation {
    walk_from(mem, cr3 & PT_ADDR_MASK, vaddr, 0)
}

/// What `virt_to_phys_dirty` returns for a canonical address.
pub open spec fn translation_result(t: Translation) -> Result<Option<(u64, u64)>, WalkError> {
    match t {
        Translation::Fault => Err(WalkError::PhysAccess),
        Translation::NotPresent => Ok(None),
        Translation::Reserved => Err(WalkError::ReservedPageSize),
        Translation::Mapped { phys, size } => Ok(Some((phys, size))),
    }
}

/// Base of the table consulted at `level` while translating `vaddr`.
pub open spec fn table_at<T: PhysMem>(mem: T, cr3: u64, vaddr: u64, level: nat) -> u64
    decreases level,
{
    if level == 0 {
        cr3 & PT_ADDR_MASK
    } else {
        let prev = table_at(mem, cr3, vaddr, (level - 1) as nat);
        match mem.qword(entry_addr(prev, vaddr, level - 1)) {
            Some(e) => e & PT_ADDR_MASK,
            None => 0,
        }
    }
}

/// Address of the entry consulted at `level` while translating `vaddr`.
pub open spec fn walk_entry<T: PhysMem>(mem: T, cr3: u64, vaddr: u64, level: nat) -> u64 {
    entry_addr(table_at(mem, cr3, vaddr, level), vaddr, level as int)
}

/// Table level of the leaf entry for a mapping of `size` bytes.
pub open spec fn leaf_level(size: u64) -> nat {
    if size == 0x4000_0000 {
        1
    } else if size == 0x20_0000 {
        2
    } else {
        3
    }
}

/// Two words that differ at most in the Accessed and Dirty bits.
pub open spec fn same_but_ad(x: u64, y: u64) -> bool {
    x & !0x60u64 == y & !0x60u64
}

/// Two memories whose aligned words differ at most in Accessed/Dirty bits.
pub open spec fn equiv_but_ad<T: PhysMem>(m1: T, m2: T) -> bool {
    forall|a: u64|
        a % 8 == 0 ==> match (#[trigger] m1.qword(a), m2.qword(a)) {
            (None, None) => true,
            (Some(x), Some(y)) => same_but_ad(x, y),
            _ => false,
        }
}

/// Address `a` is the entry consulted at one of the first `n` levels.
pub open spec fn visited<T: PhysMem>(mem: T, cr3: u64, vaddr: u64, a: u64, n: nat) -> bool {
    exists|l: nat| l < n && #[trigger] walk_entry(mem, cr3, vaddr, l) == a
}

/// `after` is `before` with Accessed set on the entries consulted at the
/// first `n` levels of translating `vaddr`, and nothing else changed.
pub open spec fn accessed_through<T: PhysMem>(before: T, after: T, cr3: u64, vaddr: u64, n: nat) -> bool {
    forall|a: u64|
        a % 8 == 0 ==> #[trigger] after.qword(a) == dirty_word(before.qword(a), visited(before, cr3, vaddr, a, n), false)
}

/// A word with Accessed set when `accessed` and Dirty set when `dirty`.
pub open spec fn dirty_word(w: Option<u64>, accessed: bool, dirty: bool) -> Option<u64> {
    match w {
        Some(x) => Some(
            x | (if accessed {
                PT_ACCESSED
            } else {
                0
            }) | (if dirty {
                PT_DIRTY
            } else {
                0
            }),
        ),
        None => None,
    }
}

proof fn lemma_dirty_word_id(w: Option<u64>)
    ensures
        dirty_word(w, false, false) == w,
{
    if let Some(x) = w {
        assert(x | 0u64 | 0u64 == x) by (bit_vector);
    }
}

proof fn lemma_dirty_word_step(x: u64, acc: bool)
    ensures
        (dirty_word(Some(x), acc, false)->Some_0 | PT_ACCESSED) == x | PT_ACCESSED | 0,
        (dirty_word(Some(x), acc, false)->Some_0 | PT_ACCESSED | PT_DIRTY) == x | PT_ACCESSED | PT_DIRTY,
{
    assert((x | 0x20u64 | 0u64) | 0x20u64 == x | 0x20u64 | 0u64) by (bit_vector);
    assert((x | 0u64 | 0u64) | 0x20u64 == x | 0x20u64 | 0u64) by (bit_vector);
    assert((x | 0x20u64 | 0u64) | 0x20u64 | 0x40u64 == x | 0x20u64 | 0x40u64) by (bit_vector);
    assert((x | 0u64 | 0u64) | 0x20u64 | 0x40u64 == x | 0x20u64 | 0x40u64) by (bit_vector);
}

proof fn lemma_visited_step<T: PhysMem>(mem: T, cr3: u64, vaddr: u64, a: u64, n: nat)
    requires
        walk_entry(mem, cr3, vaddr, n) != a,
    ensures
        visited(mem, cr3, vaddr, a, n + 1) == visited(mem, cr3, vaddr, a, n),
{
    if visited(mem, cr3, vaddr, a, n + 1) {
        let l = choose|l: nat| l < n + 1 && #[trigger] walk_entry(mem, cr3, vaddr, l) == a;
        assert(l < n);
    }
}

proof fn lemma_ad_bits(x: u64, y: u64)
    requires
        same_but_ad(x, y),
    ensures
        x & PT_PRESENT == y & PT_PRESENT,
        x & PT_PAGE_SIZE == y & PT_PAGE_SIZE,
        x & PT_ADDR_MASK == y & PT_ADDR_MASK,
        x & PT_1G_MASK == y & PT_1G_MASK,
        x & PT_2M_MASK == y & PT_2M_MASK,
        (x & PT_1G_MASK) + 0x4000_0000 <= 0x0010_0000_0000_0000,
        (x & PT_2M_MASK) + 0x20_0000 <= 0x0010_0000_0000_0000,
{
    assert(x & !0x60u64 == y & !0x60u64 ==> x & 1 == y & 1 && x & 0x80 == y & 0x80 && x
        & 0x000F_FFFF_FFFF_F000 == y & 0x000F_FFFF_FFFF_F000) by (bit_vector);
    assert(x & !0x60u64 == y & !0x60u64 ==> x & 0x000F_FFFF_C000_0000 == y & 0x000F_FFFF_C000_0000
        && x & 0x000F_FFFF_FFE0_0000 == y & 0x000F_FFFF_FFE0_0000) by (bit_vector);
    assert(x & 0x000F_FFFF_C000_0000 <= 0x000F_FFFF_C000_0000 && x & 0x000F_FFFF_FFE0_0000
        <= 0x000F_FFFF_FFE0_0000) by (bit_vector);
}

proof fn lemma_set_ad(x: u64, y: u64)
    requires
        same_but_ad(x, y),
    ensures
        same_but_ad(x, y | 0x20),
        same_but_ad(x, y | 0x20 | 0x40),
        (y | 0x20) & 0x20 == 0x20,
        (y | 0x20 | 0x40) & 0x20 == 0x20,
        (y | 0x20 | 0x40) & 0x40 == 0x40,
{
    assert(x & !0x60u64 == y & !0x60u64 ==> x & !0x60u64 == (y | 0x20) & !0x60u64 && x
        & !0x60u64 == (y | 0x20 | 0x40) & !0x60u64) by (bit_vector);
    assert((y | 0x20) & 0x20 == 0x20 && (y | 0x20 | 0x40) & 0x20 == 0x20 && (y | 0x20 | 0x40)
        & 0x40 == 0x40) by (bit_vector);
}

proof fn lemma_masked_aligned(x: u64)
    ensures
        (x & PT_ADDR_MASK) % 8 == 0,
        x & PT_ADDR_MASK <= 0x000F_FFFF_FFFF_F000,
{
    assert((x & 0x000F_FFFF_FFFF_F000) % 8 == 0 && x & 0x000F_FFFF_FFFF_F000
        <= 0x000F_FFFF_FFFF_F000) by (bit_vector);
}

proof fn lemma_aligned_disjoint(a: u64, b: u64)
    requires
        a % 8 == 0,
        b % 8 == 0,
        a != b,
    ensures
        a + 8 <= b || b + 8 <= a,
{
}

proof fn lemma_index_bound(vaddr: u64, level: int)
    ensures
        pt_index(vaddr, level) < 512,
{
    assert((vaddr >> 39u64) & 0x1ff < 512) by (bit_vector);
    assert((vaddr >> 30u64) & 0x1ff < 512) by (bit_vector);
    assert((vaddr >> 21u64) & 0x1ff < 512) by (bit_vector);
    assert((vaddr >> 12u64) & 0x1ff < 512) by (bit_vector);
}

proof fn lemma_offsets(vaddr: u64)
    ensures
        vaddr & 0x3FFF_FFFF < 0x4000_0000,
        vaddr & 0x1F_FFFF < 0x20_0000,
        vaddr & 0xFFF < 0x1000,
{
    assert(vaddr & 0x3FFF_FFFF < 0x4000_0000) by (bit_vector);
    assert(vaddr & 0x1F_FFFF < 0x20_0000) by (bit_vector);
    assert(vaddr & 0xFFF < 0x1000) by (bit_vector);
}

/// Structure representing a page table rooted at a physical address.
pub struct PageTable {
    backing: u64,
}

impl PageTable {
    pub closed spec fn root(&self) -> u64 {
        self.backing
    }

    /// A page table whose root is the physical address `existing` (a CR3 value).
    pub fn from_existing(existing: u64) -> (r: PageTable)
        ensures
            r.root() == existing,
    {
        PageTable { backing: existing }
    }

    /// The root of this page table: the value that would be put in CR3.
    pub fn get_backing(&self) -> (r: u64)
        ensures
            r == self.root(),
    {
        self.backing
    }

    /// Translate a virtual address to a physical address, optionally setting
    /// Accessed on every traversed entry and Dirty on the leaf.
    ///
    /// Returns `(physical address, page size)`.
    pub fn virt_to_phys_dirty<T: PhysMem>(&self, physmem: &mut T, vaddr: u64, dirty: bool) -> (r:
        Result<Option<(u64, u64)>, WalkError>)
        ensures
            canonical_of(vaddr) != vaddr ==> r == Err::<Option<(u64, u64)>, WalkError>(
                WalkError::NonCanonical) && *final(physmem) == *old(physmem),
            canonical_of(vaddr) == vaddr ==> r == translation_result(
                translate(*old(physmem), self.root(), vaddr),
            ),
            !dirty ==> *final(physmem) == *old(physmem),
            equiv_but_ad(*old(physmem), *final(physmem)),
            dirty ==> (r matches Ok(Some((_, size))) ==> forall|a: u64|
                a % 8 == 0 ==> #[trigger] final(physmem).qword(a) == dirty_word(
                    old(physmem).qword(a),
                    visited(*old(physmem), self.root(), vaddr, a, leaf_level(size) + 1),
                    a == walk_entry(*old(physmem), self.root(), vaddr, leaf_level(size)),
                )),
            dirty ==> (!(r matches Ok(Some(_))) ==> exists|n: nat|
                n <= 4 && #[trigger] accessed_through(*old(physmem), *final(physmem), self.root(), vaddr, n)),
    {
        if canonicalize_address(vaddr) != vaddr {
            proof {
                assert forall|a: u64| a % 8 == 0 implies #[trigger] physmem.qword(a) == dirty_word(
                    physmem.qword(a),
                    visited(*physmem, self.backing, vaddr, a, 0),
                    false,
                ) by {
                    lemma_dirty_word_id(physmem.qword(a));
                }
                assert(accessed_through(*physmem, *physmem, self.backing, vaddr, 0));
            }
            return Err(WalkError::NonCanonical);
        }
        let ghost m0 = *physmem;
        let ghost root = self.backing;
        let mut cur: u64 = self.backing & PT_ADDR_MASK;
        let mut depth: u64 = 0;
        proof {
            lemma_masked_aligned(root);
            lemma_index_bound(vaddr, 0);
            assert(walk_entry(m0, root, vaddr, 0) % 8 == 0);
            assert forall|a: u64| a % 8 == 0 implies #[trigger] physmem.qword(a) == dirty_word(
                m0.qword(a),
                visited(m0, root, vaddr, a, 0),
                false,
            ) by {
                lemma_dirty_word_id(m0.qword(a));
            }
        }
        while depth < 4
            invariant
                canonical_of(vaddr) == vaddr,
                m0 == *old(physmem),
                root == self.root(),
                depth <= 4,
                cur % 8 == 0,
                cur <= PT_ADDR_MASK,
                cur == table_at(m0, root, vaddr, depth as nat),
                walk_from(m0, root & PT_ADDR_MASK, vaddr, 0) == walk_from(m0, cur, vaddr, depth as nat),
                equiv_but_ad(m0, *physmem),
                !dirty ==> *physmem == m0,
                dirty ==> accessed_through(m0, *physmem, root, vaddr, depth as nat),
                forall|l: nat| l <= depth ==> (#[trigger] walk_entry(m0, root, vaddr, l)) % 8 == 0,
            decreases 4 - depth,
        {
            proof {
                lemma_index_bound(vaddr, depth as int);
            }
            let idx: u64 = if depth == 0 {
                (vaddr >> 39u64) & 0x1ff
            } else if depth == 1 {
                (vaddr >> 30u64) & 0x1ff
            } else if depth == 2 {
                (vaddr >> 21u64) & 0x1ff
            } else {
                (vaddr >> 12u64) & 0x1ff
            };
            let addr: u64 = cur + idx * 8;
            assert(addr == walk_entry(m0, root, vaddr, depth as nat));
            let ghost before = *physmem;
            assert(match (m0.qword(addr), before.qword(addr)) {
                (None, None) => true,
                (Some(x), Some(y)) => same_but_ad(x, y),
                _ => false,
            });
            let entry = match physmem.read_phys_int(addr) {
                Ok(e) => e,
                Err(_) => {
                    assert(m0.qword(addr) is None);
                    assert(*final(physmem) == *physmem);
                    assert(dirty ==> accessed_through(m0, *physmem, root, vaddr, depth as nat));
                    return Err(WalkError::PhysAccess);
                },
            };
            let ghost e0 = m0.qword(addr)->Some_0;
            let ghost acc = visited(m0, root, vaddr, addr, depth as nat);
            proof {
                lemma_ad_bits(e0, entry);
                lemma_masked_aligned(entry);
                lemma_offsets(vaddr);
                if dirty {
                    assert(before.qword(addr) == dirty_word(m0.qword(addr), acc, false));
                }
            }
            if entry & PT_PRESENT == 0 {
                assert(*final(physmem) == *physmem);
                assert(dirty ==> accessed_through(m0, *physmem, root, vaddr, depth as nat));
                return Ok(None);
            }
            let large = entry & PT_PAGE_SIZE != 0;
            if large && depth == 0 {
                assert(*final(physmem) == *physmem);
                assert(dirty ==> accessed_through(m0, *physmem, root, vaddr, depth as nat));
                return Err(WalkError::ReservedPageSize);
            }
            let leaf = depth == 3 || large;
            if dirty {
                let val = if leaf {
                    entry | PT_ACCESSED | PT_DIRTY
                } else {
                    entry | PT_ACCESSED
                };
                proof {
                    lemma_set_ad(e0, entry);
                    lemma_set_ad(entry, entry);
                    lemma_dirty_word_step(e0, acc);
                }
                let ghost mid = *physmem;
                match physmem.write_phys(addr, val) {
                    Ok(_) => {},
                    Err(_) => {
                        assert(*final(physmem) == *physmem);
                        return Err(WalkError::PhysAccess);
                    },
                }
                proof {
                    assert forall|a: u64| a % 8 == 0 implies match (
                        #[trigger] m0.qword(a),
                        physmem.qword(a),
                    ) {
                        (None, None) => true,
                        (Some(x), Some(y)) => same_but_ad(x, y),
                        _ => false,
                    } by {
                        if a != addr {
                            lemma_aligned_disjoint(a, addr);
                            assert(physmem.qword(a) == mid.qword(a));
                        }
                    }
                    assert forall|a: u64| a % 8 == 0 implies #[trigger] physmem.qword(a) == dirty_word(
                        m0.qword(a),
                        visited(m0, root, vaddr, a, (depth + 1) as nat),
                        leaf && a == addr,
                    ) by {
                        if a != addr {
                            lemma_aligned_disjoint(a, addr);
                            assert(physmem.qword(a) == mid.qword(a));
                            lemma_visited_step(m0, root, vaddr, a, depth as nat);
                        } else {
                            assert(visited(m0, root, vaddr, a, (depth + 1) as nat)) by {
                                assert(walk_entry(m0, root, vaddr, depth as nat) == a);
                            }
                        }
                    }
                }
            }
            let next = entry & PT_ADDR_MASK;
            if large && depth == 1 {
                assert(*final(physmem) == *physmem);
                return Ok(Some(((entry & PT_1G_MASK) + (vaddr & 0x3FFF_FFFF), 0x4000_0000)));
            }
            if large && depth == 2 {
                assert(*final(physmem) == *physmem);
                return Ok(Some(((entry & PT_2M_MASK) + (vaddr & 0x1F_FFFF), 0x20_0000)));
            }
            if depth == 3 {
                assert(*final(physmem) == *physmem);
                return Ok(Some((next + (vaddr & 0xFFF), 0x1000)));
            }
            cur = next;
            depth = depth + 1;
            proof {
                lemma_index_bound(vaddr, depth as int);
                assert(walk_entry(m0, root, vaddr, depth as nat) % 8 == 0);
            }
        }
        Ok(None)
    }

    /// Translate a virtual address to a physical address without touching
    /// the Accessed or Dirty bits.
    ///
    /// Returns `(physical address, page size)`.
    pub fn virt_to_phys<T: PhysMem>(&self, physmem: &mut T, vaddr: u64) -> (r: Result<
        Option<(u64, u64)>,
        WalkError,
    >)
        ensures
            *final(physmem) == *old(physmem),
            canonical_of(vaddr) != vaddr ==> r == Err::<Option<(u64, u64)>, WalkError>(
                WalkError::NonCanonical),
            canonical_of(vaddr) == vaddr ==> r == translation_result(
                translate(*old(physmem), self.root(), vaddr),
            ),
    {
        self.virt_to_phys_dirty(physmem, vaddr, false)
    }
}

/// Bytes of virtual address space covered by one entry at `level`.
pub open spec fn entry_span(level: nat) -> u64 {
    if level == 0 {
        0x80_0000_0000
    } else if level == 1 {
        0x4000_0000
    } else if level == 2 {
        0x20_0000
    } else {
        0x1000
    }
}

/// The `(virtual, physical)` 4 KiB pages reachable through the first `n`
/// entries of the table at `table` of `level`, whose entries map virtual
/// addresses from `vbase`; `None` if an entry cannot be read.
pub open spec fn entries_pages<T: PhysMem>(mem: T, table: u64, level: nat, vbase: u64, n: nat) -> Option<
    Seq<(u64, u64)>,
>
    decreases 4 - level, n,
{
    if level >= 4 || n == 0 {
        Some(Seq::empty())
    } else {
        match entries_pages(mem, table, level, vbase, (n - 1) as nat) {
            None => None,
            Some(front) => match entry_pages(mem, table, level, vbase, (n - 1) as nat) {
                None => None,
                Some(back) => Some(front + back),
            },
        }
    }
}

/// The pages reachable through entry `i` of the table at `table`.
pub open spec fn entry_pages<T: PhysMem>(mem: T, table: u64, level: nat, vbase: u64, i: nat) -> Option<
    Seq<(u64, u64)>,
>
    decreases 4 - level, 0nat,
{
    if level >= 4 || i >= 512 {
        Some(Seq::empty())
    } else {
        match mem.qword((table + i * 8) as u64) {
            None => None,
            Some(e) => if e & PT_PRESENT == 0 {
                Some(Seq::empty())
            } else if level == 3 {
                Some(seq![((vbase + i * 0x1000) as u64, e & PT_ADDR_MASK)])
            } else {
                entries_pages(
                    mem,
                    e & PT_ADDR_MASK,
                    level + 1,
                    (vbase + i * entry_span(level)) as u64,
                    512,
                )
            },
        }
    }
}

impl PageTable {
    /// Every present 4 KiB page of this page table as `(virtual address,
    /// physical address)`, in ascending table order. Large-page entries are
    /// walked as if they pointed to a table.
    pub fn for_each_page<T: PhysMem>(&self, physmem: &mut T) -> (r: Result<Vec<(u64, u64)>, PhysMemError>)
        ensures
            *final(physmem) == *old(physmem),
            match entries_pages(*old(physmem), self.root() & PT_ADDR_MASK, 0, 0, 512) {
                Some(s) => r matches Ok(v) && v@ == s,
                None => r is Err,
            },
    {
        let mut out: Vec<(u64, u64)> = Vec::new();
        proof {
            lemma_masked_aligned(self.backing);
        }
        let res = collect_pages(physmem, self.backing & PT_ADDR_MASK, 0, 0, &mut out);
        assert(out@ =~= Seq::<(u64, u64)>::empty() + out@);
        match res {
            Ok(()) => Ok(out),
            Err(e) => Err(e),
        }
    }
}

fn collect_pages<T: PhysMem>(physmem: &mut T, table: u64, level: u64, vbase: u64, out: &mut Vec<(u64, u64)>) -> (r:
    Result<(), PhysMemError>)
    requires
        level < 4,
        table <= PT_ADDR_MASK,
        vbase as int + 512 * entry_span(level as nat) <= 0x1_0000_0000_0000,
    ensures
        *final(physmem) == *old(physmem),
        match entries_pages(*old(physmem), table, level as nat, vbase, 512) {
            Some(s) => r is Ok && final(out)@ == old(out)@ + s,
            None => r is Err,
        },
    decreases 4 - level,
{
    let span: u64 = if level == 0 {
        0x80_0000_0000
    } else if level == 1 {
        0x4000_0000
    } else if level == 2 {
        0x20_0000
    } else {
        0x1000
    };
    let ghost m0 = *physmem;
    let ghost out0 = out@;
    let mut i: u64 = 0;
    while i < 512
        invariant
            level < 4,
            table <= PT_ADDR_MASK,
            span == entry_span(level as nat),
            vbase as int + 512 * span <= 0x1_0000_0000_0000,
            i <= 512,
            *physmem == m0,
            m0 == *old(physmem),
            out0 == old(out)@,
            entries_pages(m0, table, level as nat, vbase, i as nat) matches Some(s) && out@ == out0 + s,
        decreases 512 - i,
    {
        let ghost before = out@;
        let ghost prefix = entries_pages(m0, table, level as nat, vbase, i as nat)->Some_0;
        let ghost ep = entry_pages(m0, table, level as nat, vbase, i as nat);
        assert(entries_pages(m0, table, level as nat, vbase, (i + 1) as nat) == match ep {
            None => None,
            Some(back) => Some(prefix + back),
        });
        let entry = match physmem.read_phys_int(table + i * 8) {
            Ok(e) => e,
            Err(e) => {
                proof {
                    assert(ep is None);
                    lemma_entries_none(m0, table, level as nat, vbase, (i + 1) as nat, 512);
                }
                assert(*final(physmem) == *physmem);
                return Err(e);
            },
        };
        proof {
            lemma_masked_aligned(entry);
        }
        if entry & PT_PRESENT != 0 {
            if level == 3 {
                out.push((vbase + i * 0x1000, entry & PT_ADDR_MASK));
                assert(ep == Some(seq![((vbase + i * 0x1000) as u64, entry & PT_ADDR_MASK)]));
            } else {
                assert(vbase + i * span + 512 * entry_span((level + 1) as nat) <= 0x1_0000_0000_0000) by {
                    assert(512 * entry_span((level + 1) as nat) == span);
                    assert(i * span + span <= 512 * span) by (nonlinear_arith)
                        requires
                            i < 512,
                    ;
                }
                assert(ep == entries_pages(m0, entry & PT_ADDR_MASK, (level + 1) as nat, (vbase + i * span) as u64, 512));
                match collect_pages(physmem, entry & PT_ADDR_MASK, level + 1, vbase + i * span, out) {
                    Ok(()) => {},
                    Err(e) => {
                        proof {
                            lemma_entries_none(m0, table, level as nat, vbase, (i + 1) as nat, 512);
                        }
                        assert(*final(physmem) == *physmem);
                        return Err(e);
                    },
                }
            }
        } else {
            assert(ep == Some(Seq::<(u64, u64)>::empty()));
        }
        proof {
            assert(out@ =~= out0 + entries_pages(m0, table, level as nat, vbase, (i + 1) as nat)->Some_0);
        }
        i = i + 1;
    }
    Ok(())
}

/// Once a prefix of the entries fails, every longer prefix fails.
proof fn lemma_entries_none<T: PhysMem>(mem: T, table: u64, level: nat, vbase: u64, n: nat, m: nat)
    requires
        entries_pages(mem, table, level, vbase, n) is None,
        n <= m,
    ensures
        entries_pages(mem, table, level, vbase, m) is None,
    decreases m - n,
{
    if n < m {
        lemma_entries_none(mem, table, level, vbase, n, (m - 1) as nat);
    }
}

} // verus!
