use vstd::prelude::*;

verus! {

/// Page granularity of guest physical mappings.
pub const PAGE_SIZE: u64 = 0x1000;

/// Mapping permissions, as the hypervisor's map flags.
pub const PERM_NONE: u32 = 0;
pub const PERM_READ: u32 = 1;
pub const PERM_WRITE: u32 = 2;
pub const PERM_EXECUTE: u32 = 4;
/// Asks the hypervisor to track writes to the mapping.
pub const PERM_DIRTY: u32 = 8;

/// Start and end of the legacy firmware window that is never mapped.
pub const BIOS_START: u64 = 0x000C_0000;
pub const BIOS_END: u64 = 0x0010_0000;

/// Host pointers the emulator reports for one guest page under each access
/// kind; zero means "no backing for that kind".
#[derive(Clone, Copy, Debug, PartialEq, Eq)]
pub struct PageBacking {
    pub read: u64,
    pub write: u64,
    pub execute: u64,
}

/// A guest physical range installed into the hypervisor with uniform
/// permissions and contiguous host backing.
#[derive(Clone, Copy, Debug, PartialEq, Eq)]
pub struct MemoryRegion {
    /// Guest physical address of the first byte.
    pub paddr: u64,
    /// Host address backing the first byte.
    pub backing: u64,
    /// `PERM_*` flags.
    pub perms: u32,
    /// Length in bytes.
    pub size: u64,
}

/// The backing pointer and permissions a page gets, or `None` when it has
/// no backing at all. The backing is the first non-zero pointer in the
/// order read, write, execute; each kind whose pointer equals it grants its
/// permission, the others are dropped.
pub open spec fn page_map(b: PageBacking) -> Option<(u64, u32)> {
    if b.read == 0 && b.write == 0 && b.execute == 0 {
        None
    } else {
        let first = if b.read != 0 {
            b.read
        } else if b.write != 0 {
            b.write
        } else {
            b.execute
        };
        let perms = (if b.read == first {
            PERM_READ
        } else {
            0
        }) + (if b.write == first {
            PERM_WRITE
        } else {
            0
        }) + (if b.execute == first {
            PERM_EXECUTE
        } else {
            0
        });
        Some((first, perms as u32))
    }
}

/// What page number `p` (address `p * 4096`) is mapped to, if anything.
pub open spec fn page_mapping(backings: Seq<PageBacking>, p: int) -> Option<(u64, u32)> {
    if BIOS_START <= p * 4096 < BIOS_END {
        None
    } else {
        page_map(backings[p])
    }
}

pub open spec fn region_has(r: MemoryRegion, a: int) -> bool {
    r.paddr <= a < r.paddr + r.size
}

/// Two regions that could be one: adjacent in guest space and in host
/// space, with the same permissions.
pub open spec fn mergeable(a: MemoryRegion, b: MemoryRegion) -> bool {
    &&& a.perms == b.perms
    &&& a.paddr + a.size == b.paddr
    &&& a.backing + a.size == b.backing
}

/// The regions describe exactly the mapped pages among the first `npages`:
/// each region is page aligned, non-empty and uniform; they are in
/// ascending, non-overlapping order; every mapped page lies in one; and no
/// two neighbours could be merged.
pub open spec fn regions_exact(regions: Seq<MemoryRegion>, backings: Seq<PageBacking>, npages: int) -> bool {
    &&& forall|i: int|
        0 <= i < regions.len() ==> {
            let r = #[trigger] regions[i];
            &&& r.size > 0
            &&& r.paddr % 4096 == 0
            &&& r.size % 4096 == 0
            &&& r.paddr + r.size <= npages * 4096
        }
    &&& forall|i: int, p: int|
        0 <= i < regions.len() && region_has(#[trigger] regions[i], #[trigger] (p * 4096)) ==> page_mapping(
            backings,
            p,
        ) == Some(((regions[i].backing + (p * 4096 - regions[i].paddr)) as u64, regions[i].perms))
    &&& forall|p: int|
        0 <= p < npages && #[trigger] page_mapping(backings, p) is Some ==> exists|i: int|
            0 <= i < regions.len() && region_has(#[trigger] regions[i], p * 4096)
    &&& forall|i: int, j: int|
        0 <= i < j < regions.len() ==> #[trigger] regions[i].paddr + regions[i].size <= #[trigger] regions[j].paddr
    &&& forall|i: int|
        0 <= i < regions.len() - 1 ==> !mergeable(#[trigger] regions[i], regions[i + 1])
}

/// The backing pointer and permissions for one page.
pub fn page_backing_perms(b: PageBacking) -> (r: Option<(u64, u32)>)
    ensures
        r == page_map(b),
{
    if b.read == 0 && b.write == 0 && b.execute == 0 {
        return None;
    }
    let first = if b.read != 0 {
        b.read
    } else if b.write != 0 {
        b.write
    } else {
        b.execute
    };
    let mut perms: u32 = 0;
    if b.read == first {
        perms = perms + PERM_READ;
    }
    if b.write == first {
        perms = perms + PERM_WRITE;
    }
    if b.execute == first {
        perms = perms + PERM_EXECUTE;
    }
    Some((first, perms))
}

proof fn lemma_page_index(q: int, p: int)
    requires
        q * 4096 >= p * 4096,
        q * 4096 < p * 4096 + 4096,
    ensures
        q == p,
{
    assert(q == p) by (nonlinear_arith)
        requires
            q * 4096 >= p * 4096,
            q * 4096 < p * 4096 + 4096,
    ;
}

proof fn lemma_skip_page(s: Seq<MemoryRegion>, b: Seq<PageBacking>, p: int)
    requires
        0 <= p,
        regions_exact(s, b, p),
        page_mapping(b, p) is None,
    ensures
        regions_exact(s, b, p + 1),
{
}

proof fn lemma_push_page(s: Seq<MemoryRegion>, b: Seq<PageBacking>, p: int, r: MemoryRegion)
    requires
        0 <= p,
        regions_exact(s, b, p),
        r.paddr == p * 4096,
        r.size == 4096,
        page_mapping(b, p) == Some((r.backing, r.perms)),
        s.len() > 0 ==> !mergeable(s.last(), r),
    ensures
        regions_exact(s.push(r), b, p + 1),
{
    let t = s.push(r);
    assert forall|q: int|
        0 <= q < p + 1 && #[trigger] page_mapping(b, q) is Some implies exists|i: int|
            0 <= i < t.len() && region_has(#[trigger] t[i], q * 4096) by {
        if q < p {
            let i = choose|i: int| 0 <= i < s.len() && region_has(#[trigger] s[i], q * 4096);
            assert(region_has(t[i], q * 4096));
        } else {
            assert(region_has(t[s.len() as int], q * 4096));
        }
    }
    assert forall|i: int, q: int|
        0 <= i < t.len() && region_has(#[trigger] t[i], #[trigger] (q * 4096)) implies page_mapping(b, q)
            == Some(((t[i].backing + (q * 4096 - t[i].paddr)) as u64, t[i].perms)) by {
        if i == s.len() {
            lemma_page_index(q, p);
        } else {
            assert(region_has(s[i], q * 4096));
        }
    }
    assert forall|i: int, j: int| 0 <= i < j < t.len() implies #[trigger] t[i].paddr + t[i].size
        <= #[trigger] t[j].paddr by {
        if j == s.len() {
            assert(s[i].paddr + s[i].size <= p * 4096);
        }
    }
}

proof fn lemma_extend_page(s: Seq<MemoryRegion>, b: Seq<PageBacking>, p: int, r: MemoryRegion)
    requires
        0 <= p,
        regions_exact(s, b, p),
        s.len() > 0,
        r.paddr == s.last().paddr,
        r.backing == s.last().backing,
        r.perms == s.last().perms,
        r.size == s.last().size + 4096,
        s.last().paddr + s.last().size == p * 4096,
        page_mapping(b, p) == Some(((s.last().backing + s.last().size) as u64, r.perms)),
        s.last().backing + s.last().size <= u64::MAX,
    ensures
        regions_exact(s.update(s.len() - 1, r), b, p + 1),
{
    let n = s.len() - 1;
    let t = s.update(n, r);
    assert forall|q: int|
        0 <= q < p + 1 && #[trigger] page_mapping(b, q) is Some implies exists|i: int|
            0 <= i < t.len() && region_has(#[trigger] t[i], q * 4096) by {
        if q < p {
            let i = choose|i: int| 0 <= i < s.len() && region_has(#[trigger] s[i], q * 4096);
            assert(region_has(t[i], q * 4096));
        } else {
            assert(region_has(t[n], q * 4096));
        }
    }
    assert forall|i: int, q: int|
        0 <= i < t.len() && region_has(#[trigger] t[i], #[trigger] (q * 4096)) implies page_mapping(b, q)
            == Some(((t[i].backing + (q * 4096 - t[i].paddr)) as u64, t[i].perms)) by {
        if i == n && q * 4096 >= p * 4096 {
            lemma_page_index(q, p);
        } else {
            assert(region_has(s[i], q * 4096));
        }
    }
    assert forall|i: int, j: int| 0 <= i < j < t.len() implies #[trigger] t[i].paddr + t[i].size
        <= #[trigger] t[j].paddr by {
        assert(s[i].paddr + s[i].size <= s[j].paddr);
    }
    assert forall|i: int| 0 <= i < t.len() - 1 implies !mergeable(#[trigger] t[i], t[i + 1]) by {
        assert(!mergeable(s[i], s[i + 1]));
    }
}

/// Derive the memory regions to install from the per-page backing queries
/// `backings` (page `i` is guest physical address `i * 4096`).
pub fn synthesize_regions(pmem_size: u64, backings: &Vec<PageBacking>) -> (r: Vec<MemoryRegion>)
    requires
        pmem_size % 4096 == 0,
        backings@.len() == pmem_size / 4096,
    ensures
        regions_exact(r@, backings@, backings@.len() as int),
{
    let mut regions: Vec<MemoryRegion> = Vec::new();
    let npages = backings.len();
    let mut p: usize = 0;
    while p < npages
        invariant
            npages == backings@.len(),
            npages * 4096 == pmem_size,
            p <= npages,
            regions_exact(regions@, backings@, p as int),
        decreases npages - p,
    {
        let paddr: u64 = (p as u64) * PAGE_SIZE;
        let mapping = page_backing_perms(backings[p]);
        if paddr >= BIOS_START && paddr < BIOS_END {
            proof {
                lemma_skip_page(regions@, backings@, p as int);
            }
        } else {
            match mapping {
                None => {
                    proof {
                        lemma_skip_page(regions@, backings@, p as int);
                    }
                },
                Some((backing, perms)) => {
                    let n = regions.len();
                    let mut extended = false;
                    if n > 0 {
                        let last = regions[n - 1];
                        if last.perms == perms && last.paddr + last.size == paddr {
                            if let Some(end) = last.backing.checked_add(last.size) {
                                if end == backing {
                                    let grown = MemoryRegion { size: last.size + PAGE_SIZE, ..last };
                                    proof {
                                        lemma_extend_page(regions@, backings@, p as int, grown);
                                    }
                                    regions.set(n - 1, grown);
                                    extended = true;
                                }
                            }
                        }
                    }
                    if !extended {
                        let fresh = MemoryRegion { paddr, backing, perms, size: PAGE_SIZE };
                        proof {
                            lemma_push_page(regions@, backings@, p as int, fresh);
                        }
                        regions.push(fresh);
                    }
                },
            }
        }
        p = p + 1;
    }
    regions
}

} // verus!
