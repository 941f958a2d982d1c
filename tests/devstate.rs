use bochservisor::devstate::{DeviceRegistry, RegistryError};

#[test]
fn register_and_coalesce() {
    let mut r = DeviceRegistry::new();
    assert_eq!(r.register_state(Some("pic".to_string()), 0x2000, 0x10), Ok(true));
    assert_eq!(r.register_state(Some("ram.memory.bochs.bochs".to_string()), 0x9000, 0x100), Ok(false));
    assert_eq!(r.register_state(Some("memory.vgacore.vga.bochs.bochs".to_string()), 0x9000, 0x100), Ok(false));
    assert_eq!(r.register_state(None, 0x1000, 0x1000), Ok(true));
    assert_eq!(r.register_state(Some("pit".to_string()), 0x3000, 0x8), Ok(true));
    assert_eq!(r.register_state(Some("x".to_string()), 0x4000, 0), Err(RegistryError::ZeroSize));
    assert_eq!(r.len(), 3);
    assert_eq!(r.lock(), Ok(()));
    assert!(r.locked());
    assert_eq!(r.len(), 2);
    let (a, l, o) = r.record(0);
    assert_eq!((a, l, o.is_none()), (0x1000, 0x1010, true));
    let (a, l, _) = r.record(1);
    assert_eq!((a, l), (0x3000, 0x8));
    assert_eq!(r.register_state(Some("late".to_string()), 0x5000, 4), Err(RegistryError::Locked));
    assert_eq!(r.capture_original(1, vec![7u8; 8]), Ok(()));
    assert_eq!(r.record(1).2.unwrap(), &vec![7u8; 8]);
    assert_eq!(r.capture_original(1, vec![7u8; 4]), Err(RegistryError::BadRecord));
    assert_eq!(r.capture_original(2, vec![7u8; 8]), Err(RegistryError::BadRecord));
}

#[test]
fn overlap_is_refused() {
    let mut r = DeviceRegistry::new();
    r.register_state(None, 0x1000, 0x20).unwrap();
    r.register_state(None, 0x1010, 0x20).unwrap();
    assert_eq!(r.lock(), Err(RegistryError::Overlap));
    let mut empty = DeviceRegistry::new();
    assert_eq!(empty.lock(), Err(RegistryError::Empty));
}

#[test]
fn wrapping_record_is_refused() {
    let mut r = DeviceRegistry::new();
    r.register_state(None, u64::MAX - 4, 0x10).unwrap();
    assert_eq!(r.lock(), Err(RegistryError::Wraps));
}

#[test]
fn close_locks_without_reordering() {
    let mut r = DeviceRegistry::new();
    r.register_state(None, 0x2000, 0x10).unwrap();
    r.register_state(None, 0x1000, 0x10).unwrap();
    r.close();
    assert!(r.locked());
    assert_eq!(r.record(0).0, 0x2000);
    assert_eq!(r.register_state(None, 0x3000, 4), Err(RegistryError::Locked));
}
