use bochservisor::regions::{
    page_backing_perms, synthesize_regions, MemoryRegion, PageBacking, PERM_EXECUTE, PERM_READ,
    PERM_WRITE,
};

fn uniform(pages: usize, base: u64) -> Vec<PageBacking> {
    (0..pages)
        .map(|i| {
            let p = base + (i as u64) * 0x1000;
            PageBacking { read: p, write: p, execute: p }
        })
        .collect()
}

#[test]
fn region_synthesis_two_regions() {
    let backings = vec![
        PageBacking { read: 0x1000, write: 0x1000, execute: 0x1000 },
        PageBacking { read: 0x2000, write: 0x3000, execute: 0 },
    ];
    let regions = synthesize_regions(0x2000, &backings);
    assert_eq!(
        regions,
        vec![
            MemoryRegion {
                paddr: 0x0000,
                backing: 0x1000,
                perms: PERM_READ | PERM_WRITE | PERM_EXECUTE,
                size: 0x1000
            },
            MemoryRegion { paddr: 0x1000, backing: 0x2000, perms: PERM_READ, size: 0x1000 },
        ]
    );
}

#[test]
fn bios_window_is_never_mapped() {
    let backings = uniform(0x100, 0x7000_0000);
    let regions = synthesize_regions(0x10_0000, &backings);
    for r in &regions {
        assert!(r.paddr + r.size <= 0xC0000 || r.paddr >= 0x10_0000);
    }
    assert_eq!(
        regions,
        vec![MemoryRegion {
            paddr: 0,
            backing: 0x7000_0000,
            perms: PERM_READ | PERM_WRITE | PERM_EXECUTE,
            size: 0xC0000
        }]
    );
}

#[test]
fn regions_split_on_backing_gap_and_merge_when_contiguous() {
    let mut backings = uniform(4, 0x10_0000);
    backings[2] = PageBacking { read: 0x90_0000, write: 0x90_0000, execute: 0x90_0000 };
    backings[3] = PageBacking { read: 0, write: 0, execute: 0 };
    let regions = synthesize_regions(0x4000, &backings);
    assert_eq!(regions.len(), 2);
    assert_eq!(regions[0], MemoryRegion { paddr: 0, backing: 0x10_0000, perms: 7, size: 0x2000 });
    assert_eq!(regions[1], MemoryRegion { paddr: 0x2000, backing: 0x90_0000, perms: 7, size: 0x1000 });
}

#[test]
fn unbacked_memory_gives_no_regions() {
    let backings = vec![PageBacking { read: 0, write: 0, execute: 0 }; 8];
    assert!(synthesize_regions(0x8000, &backings).is_empty());
    assert!(synthesize_regions(0, &Vec::new()).is_empty());
}

#[test]
fn page_permissions_follow_first_pointer() {
    assert_eq!(page_backing_perms(PageBacking { read: 0, write: 0x5000, execute: 0x5000 }), Some((0x5000, 6)));
    assert_eq!(page_backing_perms(PageBacking { read: 0, write: 0, execute: 0x5000 }), Some((0x5000, 4)));
    assert_eq!(page_backing_perms(PageBacking { read: 0x1, write: 0x2, execute: 0x1 }), Some((0x1, 5)));
    assert_eq!(page_backing_perms(PageBacking { read: 0, write: 0, execute: 0 }), None);
}
