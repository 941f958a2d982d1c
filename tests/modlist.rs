use bochservisor::modlist::{find_kernel_modlist, get_modlist, get_modlist_user};
use bochservisor::physmem::{MemReader, PhysRegion};
use bochservisor::tracker::CoverageTracker;
use bochservisor::win32::{ModuleList, OrdinalLookup};

fn put64(m: &mut MemReader, a: u64, v: u64) {
    assert_eq!(m.write_phys(a, &v.to_le_bytes()), 8);
}

fn put_name(m: &mut MemReader, a: u64, s: &str) -> u16 {
    let bytes: Vec<u8> = s.encode_utf16().flat_map(|u| u.to_le_bytes()).collect();
    assert_eq!(m.write_phys(a, &bytes), bytes.len());
    bytes.len() as u16
}

fn entry(m: &mut MemReader, node: u64, next: u64, base: u64, size: u32, name_at: u64, name: &str, ts: u32) {
    put64(m, node, next);
    put64(m, node + 0x30, base);
    assert_eq!(m.write_phys(node + 0x40, &size.to_le_bytes()), 4);
    let n = put_name(m, name_at, name);
    assert_eq!(m.write_phys(node + 0x58, &n.to_le_bytes()), 2);
    put64(m, node + 0x60, name_at);
    assert_eq!(m.write_phys(node + 0x80, &ts.to_le_bytes()), 4);
}

/// A guest whose first 2 MiB are identity mapped (tables at 0x1000), with a
/// TEB at 0x10000 and a two-entry loader list.
fn guest() -> MemReader {
    let mut m = MemReader::new(vec![PhysRegion { paddr: 0, bytes: vec![0u8; 0x20_0000] }]);
    put64(&mut m, 0x1000, 0x2000 | 3);
    put64(&mut m, 0x2000, 0x3000 | 3);
    put64(&mut m, 0x3000, 0x83);
    put64(&mut m, 0x10000 + 0x60, 0x11000);
    put64(&mut m, 0x11000 + 0x18, 0x12000);
    put64(&mut m, 0x12000 + 0x10, 0x13000);
    put64(&mut m, 0x12000 + 0x18, 0x14000);
    entry(&mut m, 0x13000, 0x14000, 0x7000_0000, 0x5000, 0x15000, "app.exe", 0xAABB);
    entry(&mut m, 0x14000, 0x12010, 0x1000_0000, 0x2000, 0x15100, "ntdll.dll", 0xCCDD);
    m
}

#[test]
fn user_module_list_walk() {
    let mut m = guest();
    let mut table = OrdinalLookup::new();
    let l = get_modlist(&mut m, &mut table, 0x1000, true, 0x10000, 0x33, None).unwrap();
    assert_eq!(l.len(), 2);
    assert_eq!(l.get_modoff_string(0x1000_0010), "ntdll.dll+0x10");
    assert_eq!(l.get_modoff_string(0x7000_4fff), "app.exe+0x4fff");
    let (m0, _) = l.get_modoff(0x7000_0000);
    let info = m0.unwrap();
    assert_eq!((info.time(), info.size(), info.ordinal()), (0xAABB, 0x5000, 0));
    assert_eq!(table.len(), 2);
}

#[test]
fn module_walk_mode_checks() {
    let mut m = guest();
    let mut table = OrdinalLookup::new();
    let mut l = ModuleList::new();
    assert!(get_modlist_user(&mut l, &mut table, 0x1000, true, 0, 0x33, &mut m).is_err());
    assert!(get_modlist_user(&mut l, &mut table, 0x1000, false, 0x10000, 0x33, &mut m).is_err());
    assert!(get_modlist(&mut m, &mut table, 0x1000, true, 0x10000, 0x10, None).is_err());
    assert!(find_kernel_modlist(0x1000, true, 0x10000, 0x10, &mut m).is_err());
    assert!(find_kernel_modlist(0x1000, true, 0xFFFF_8000_0000_0000, 0x33, &mut m).is_err());
    assert_eq!(l.len(), 0);
}

#[test]
fn coverage_reports() {
    let mut m = guest();
    let mut t = CoverageTracker::new();
    assert!(!t.report_coverage(&mut m, 0x1000, false, 0x10000, 0x33, 0x7000_0010));
    assert!(t.report_coverage(&mut m, 0x1000, true, 0x10000, 0x33, 0x7000_0010));
    assert!(!t.report_coverage(&mut m, 0x1000, true, 0x10000, 0x33, 0x7000_0010));
    assert!(t.report_coverage(&mut m, 0x1000, true, 0x10000, 0x33, 0x1000_0010));
    assert!(!t.report_coverage(&mut m, 0x1000, true, 0x10000, 0x33, 0x5000_0000));
    assert_eq!(t.module_list_walks, 2);
    assert_eq!(t.coverage_callbacks, 4);
    assert_eq!(t.coverage.unique(0), 1);
}
