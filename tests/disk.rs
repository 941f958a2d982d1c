use bochservisor::disk::{BlockSource, DiskError, VirtualDisk, WriteTarget};

#[test]
fn open_checks_length() {
    assert!(matches!(VirtualDisk::open(0), Err(DiskError::BadLength)));
    assert!(matches!(VirtualDisk::open(1000), Err(DiskError::BadLength)));
    let d = VirtualDisk::open(4096).unwrap();
    assert_eq!(d.get_size(), 8);
    assert!(d.is_volatile());
}

#[test]
fn volatile_round_trip_and_discard() {
    let mut d = VirtualDisk::open(4096).unwrap();
    assert_eq!(d.read(3), Ok(BlockSource::File(3 * 512)));
    let data = [0x5Au8; 512];
    assert_eq!(d.write(3, &data), Ok(WriteTarget::Overlay));
    assert_eq!(d.read(3), Ok(BlockSource::Overlay(data)));
    let data2 = [0x11u8; 512];
    assert_eq!(d.write(3, &data2), Ok(WriteTarget::Overlay));
    assert_eq!(d.read(3), Ok(BlockSource::Overlay(data2)));
    assert_eq!(d.set_non_volatile(), Err(DiskError::PendingChanges));
    assert_eq!(d.discard_changes(), Ok(()));
    assert_eq!(d.read(3), Ok(BlockSource::File(3 * 512)));
}

#[test]
fn non_volatile_goes_to_file() {
    let mut d = VirtualDisk::open(4096).unwrap();
    assert_eq!(d.set_non_volatile(), Ok(()));
    assert!(!d.is_volatile());
    assert_eq!(d.set_non_volatile(), Ok(()));
    assert_eq!(d.write(7, &[1u8; 512]), Ok(WriteTarget::File(7 * 512)));
    assert_eq!(d.read(7), Ok(BlockSource::File(7 * 512)));
    assert_eq!(d.discard_changes(), Err(DiskError::NotVolatile));
}

#[test]
fn out_of_range_blocks() {
    let mut d = VirtualDisk::open(4096).unwrap();
    assert_eq!(d.read(8), Err(DiskError::OutOfRange));
    assert_eq!(d.read(u64::MAX), Err(DiskError::OutOfRange));
    assert_eq!(d.write(8, &[0u8; 512]), Err(DiskError::OutOfRange));
}

#[test]
fn discard_without_disk_is_a_no_op() {
    let mut none: Option<VirtualDisk> = None;
    assert_eq!(bochservisor::disk::vdisk_discard_changes(&mut none), Ok(()));
    let mut d = VirtualDisk::open(1024).unwrap();
    d.write(1, &[3u8; 512]).unwrap();
    let mut some = Some(d);
    assert_eq!(bochservisor::disk::vdisk_discard_changes(&mut some), Ok(()));
    assert_eq!(some.as_ref().unwrap().read(1), Ok(BlockSource::File(512)));
    some.as_mut().unwrap().set_non_volatile().unwrap();
    assert_eq!(bochservisor::disk::vdisk_discard_changes(&mut some), Err(DiskError::NotVolatile));
}
