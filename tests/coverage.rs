use bochservisor::coverage::CoverageStore;
use bochservisor::win32::{ordinal_to_modinfo, ModuleEntry, ModuleInfo, ModuleList, OrdinalLookup};

#[test]
fn coverage_first_occurrence_only() {
    let mut c = CoverageStore::new();
    assert!(c.record(0, 0x100, 0x10));
    assert!(!c.record(0, 0x100, 0x10));
    assert!(c.record(0, 0x100, 0x11));
    assert!(c.record(3, 0x20, 0x0));
    assert!(!c.record(3, 0x20, 0x0));
    assert_eq!(c.unique(0), 2);
    assert_eq!(c.unique(3), 1);
    assert_eq!(c.unique(1), 0);
    // Beyond the image: not recorded.
    assert!(!c.record(3, 0x20, 0x20));
    assert_eq!(c.unique(3), 1);
}

fn list(table: &mut OrdinalLookup) -> ModuleList {
    let mut l = ModuleList::new();
    let k = ModuleInfo::new(table, "kernel32.dll".to_string(), 0x1234, 0x1000);
    let n = ModuleInfo::new(table, "ntdll.dll".to_string(), 0x5678, 0x2000);
    l.add_module(ModuleEntry { info: n, base: 0x7000_0000, len: 0x2000 });
    l.add_module(ModuleEntry { info: k, base: 0x1000_0000, len: 0x1000 });
    l
}

#[test]
fn modoff_lookup() {
    let mut table = OrdinalLookup::new();
    let l = list(&mut table);
    let (m, off) = l.get_modoff(0x1000_0010);
    assert_eq!(m.unwrap().name(), "kernel32.dll");
    assert_eq!(off, 0x10);
    let (m, off) = l.get_modoff(0x7000_0000);
    assert_eq!(m.unwrap().name(), "ntdll.dll");
    assert_eq!(off, 0);
    let (m, off) = l.get_modoff(0x1000_1000);
    assert!(m.is_none());
    assert_eq!(off, 0x1000_1000);
    assert!(l.get_modoff(0x10).0.is_none());
    assert_eq!(l.get_modoff_string(0x7000_1abc), "ntdll.dll+0x1abc");
    assert_eq!(l.get_modoff_string(0x10), "0x10");
    let mut s = String::from("stale");
    l.get_modoff_string_int(0x1000_0000, &mut s);
    assert_eq!(s, "kernel32.dll+0x0");
}

#[test]
fn ordinals_are_stable() {
    let mut table = OrdinalLookup::new();
    let a = ModuleInfo::new(&mut table, "a.dll".to_string(), 1, 2);
    let b = ModuleInfo::new(&mut table, "b.dll".to_string(), 1, 2);
    let a2 = ModuleInfo::new(&mut table, "a.dll".to_string(), 1, 2);
    let a3 = ModuleInfo::new(&mut table, "a.dll".to_string(), 1, 3);
    assert_eq!(a.ordinal(), 0);
    assert_eq!(b.ordinal(), 1);
    assert_eq!(a2.ordinal(), 0);
    assert_eq!(a3.ordinal(), 2);
    assert_eq!(table.len(), 3);
    let info = ordinal_to_modinfo(&table, 1).unwrap();
    assert_eq!((info.name(), info.time(), info.size(), info.ordinal()), ("b.dll", 1, 2, 1));
    assert!(ordinal_to_modinfo(&table, 3).is_none());
}

#[test]
fn same_rip_same_ordinal() {
    let mut table = OrdinalLookup::new();
    let l = list(&mut table);
    let first = l.get_modoff(0x7000_0100).0.unwrap().ordinal();
    let second = l.get_modoff(0x7000_0100).0.unwrap().ordinal();
    assert_eq!(first, second);
    assert_eq!(l.find_module(0x7000_0100), Some(1));
    assert_eq!(l.len(), 2);
}

use bochservisor::symbols::{SymbolContext, Symbols};

#[test]
fn symbol_resolution() {
    let mut table = OrdinalLookup::new();
    let calc = ModuleInfo::new(&mut table, "calc.exe".to_string(), 0x8F598A9E, 0xB000);
    let other = ModuleInfo::new(&mut table, "other.dll".to_string(), 1, 1);
    let mut syms = Symbols::new();
    assert!(syms.resolve(&calc, 0x1000).is_none());
    let ctx = SymbolContext {
        symbols: vec![(0x1000, "main".to_string(), 0x10), (0x2000, "helper".to_string(), 0x20)],
        sourceline: Vec::new(),
    };
    syms.insert(calc.ordinal(), ctx);
    assert!(syms.is_loaded(calc.ordinal()));
    assert!(!syms.is_loaded(other.ordinal()));
    assert_eq!(syms.resolve(&calc, 0x1000).as_deref(), Some("calc.exe!main+0x0"));
    assert_eq!(syms.resolve(&calc, 0x1fff).as_deref(), Some("calc.exe!main+0xfff"));
    assert_eq!(syms.resolve(&calc, 0x2010).as_deref(), Some("calc.exe!helper+0x10"));
    assert!(syms.resolve(&calc, 0xfff).is_none());
    assert!(syms.resolve(&other, 0x2000).is_none());
    syms.insert(other.ordinal(), SymbolContext::empty());
    assert!(syms.resolve(&other, 0x2000).is_none());
}

#[test]
fn coverage_summary_sorted_by_unique() {
    let mut c = CoverageStore::new();
    for off in 0..5 {
        c.record(2, 0x40, off);
    }
    c.record(0, 0x40, 1);
    c.record(5, 0x40, 1);
    c.record(5, 0x40, 2);
    let s = c.summary();
    assert_eq!(s, vec![(0, 1), (5, 2), (2, 5)]);
    assert!(CoverageStore::new().summary().is_empty());
}
