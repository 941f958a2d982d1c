use vstd::prelude::*;
use std::collections::HashMap;

verus! {

broadcast use vstd::std_specs::hash::group_hash_axioms;

/// Size of one disk block in bytes.
pub const BLOCK_SIZE: u64 = 512;

/// Disk failures.
#[derive(Clone, Copy, Debug, PartialEq, Eq)]
pub enum DiskError {
    /// The backing file is empty or not a whole number of blocks.
    BadLength,
    /// The block lies beyond the end of the disk.
    OutOfRange,
    /// Volatile mode cannot be left while the overlay holds writes.
    PendingChanges,
    /// There is no overlay to discard.
    NotVolatile,
}

/// Where the contents of a block come from.
#[derive(Clone, Copy, Debug, PartialEq, Eq)]
pub enum BlockSource {
    /// The overlay holds the block.
    Overlay([u8; 512]),
    /// Read 512 bytes of the backing file at this byte offset.
    File(u64),
}

/// Where a block write goes.
#[derive(Clone, Copy, Debug, PartialEq, Eq)]
pub enum WriteTarget {
    /// Stored in the overlay; the file is untouched.
    Overlay,
    /// Write 512 bytes to the backing file at this byte offset and flush.
    File(u64),
}

/// A flat-file block device with an optional copy-on-write overlay.
pub struct VirtualDisk {
    length: u64,
    volatile_store: Option<HashMap<u64, [u8; 512]>>,
}

/// Block `blk` lies on a disk of `length` bytes.
pub open spec fn block_in_range(length: u64, blk: u64) -> bool {
    blk * 512 < length
}

/// What a read of block `blk` yields: the overlay's bytes, `None` for "the
/// file's bytes at `blk * 512`", or an error.
pub open spec fn read_source(overlay: Option<Map<u64, Seq<u8>>>, length: u64, blk: u64) -> Result<
    Option<Seq<u8>>,
    DiskError,
> {
    if !block_in_range(length, blk) {
        Err(DiskError::OutOfRange)
    } else {
        match overlay {
            Some(m) => if m.contains_key(blk) {
                Ok(Some(m[blk]))
            } else {
                Ok(None)
            },
            None => Ok(None),
        }
    }
}

impl VirtualDisk {
    /// Length of the disk in bytes.
    pub closed spec fn spec_length(&self) -> u64 {
        self.length
    }

    /// The overlay (block number to contents), or `None` in non-volatile mode.
    pub closed spec fn overlay(&self) -> Option<Map<u64, Seq<u8>>> {
        match self.volatile_store {
            Some(m) => Some(m@.map_values(|b: [u8; 512]| b@)),
            None => None,
        }
    }

    /// A disk over a backing file of `length` bytes, in volatile mode with
    /// an empty overlay.
    pub fn open(length: u64) -> (r: Result<VirtualDisk, DiskError>)
        ensures
            (length > 0 && length % 512 == 0) <==> r is Ok,
            r matches Ok(d) ==> d.spec_length() == length && d.overlay() == Some(Map::<u64, Seq<u8>>::empty()),
            r matches Err(e) ==> e == DiskError::BadLength,
    {
        if length == 0 || length % BLOCK_SIZE != 0 {
            return Err(DiskError::BadLength);
        }
        let d = VirtualDisk { length, volatile_store: Some(HashMap::new()) };
        assert(d.overlay()->Some_0 =~= Map::<u64, Seq<u8>>::empty());
        Ok(d)
    }

    /// Number of blocks on the disk.
    pub fn get_size(&self) -> (r: u64)
        ensures
            r == self.spec_length() / 512,
    {
        self.length / BLOCK_SIZE
    }

    /// Whether writes go to the overlay.
    pub fn is_volatile(&self) -> (r: bool)
        ensures
            r == self.overlay() is Some,
    {
        self.volatile_store.is_some()
    }

    /// Leave volatile mode so that writes reach the file. Refused while the
    /// overlay holds writes; a no-op when already non-volatile.
    pub fn set_non_volatile(&mut self) -> (r: Result<(), DiskError>)
        ensures
            final(self).spec_length() == old(self).spec_length(),
            old(self).overlay() matches Some(m) && m.len() > 0 ==> r == Err::<(), DiskError>(
                DiskError::PendingChanges) && final(self).overlay() == old(self).overlay(),
            !(old(self).overlay() matches Some(m) && m.len() > 0) ==> r is Ok && final(self).overlay() is None,
    {
        match &self.volatile_store {
            Some(store) => {
                assert(self.overlay()->Some_0.dom() =~= store@.dom());
                if store.len() != 0 {
                    return Err(DiskError::PendingChanges);
                }
            },
            None => {
                return Ok(());
            },
        }
        self.volatile_store = None;
        Ok(())
    }

    /// Drop every write held in the overlay.
    pub fn discard_changes(&mut self) -> (r: Result<(), DiskError>)
        ensures
            final(self).spec_length() == old(self).spec_length(),
            old(self).overlay() is Some ==> r is Ok && final(self).overlay() == Some(Map::<u64, Seq<u8>>::empty()),
            old(self).overlay() is None ==> r == Err::<(), DiskError>(DiskError::NotVolatile)
                && final(self).overlay() is None,
    {
        match &mut self.volatile_store {
            Some(store) => {
                store.clear();
            },
            None => {
                return Err(DiskError::NotVolatile);
            },
        }
        assert(self.overlay()->Some_0 =~= Map::<u64, Seq<u8>>::empty());
        Ok(())
    }

    /// Where to read block `blk` from.
    pub fn read(&self, blk: u64) -> (r: Result<BlockSource, DiskError>)
        ensures
            match r {
                Ok(BlockSource::Overlay(b)) => read_source(self.overlay(), self.spec_length(), blk) == Ok::<
                    Option<Seq<u8>>,
                    DiskError,
                >(Some(b@)),
                Ok(BlockSource::File(off)) => read_source(self.overlay(), self.spec_length(), blk) == Ok::<
                    Option<Seq<u8>>,
                    DiskError,
                >(None) && off == blk * 512,
                Err(e) => read_source(self.overlay(), self.spec_length(), blk) == Err::<Option<Seq<u8>>, DiskError>(e),
            },
    {
        let lba = match blk.checked_mul(BLOCK_SIZE) {
            Some(l) => l,
            None => {
                return Err(DiskError::OutOfRange);
            },
        };
        if lba >= self.length {
            return Err(DiskError::OutOfRange);
        }
        if let Some(store) = &self.volatile_store {
            if let Some(sector) = store.get(&blk) {
                assert(self.overlay()->Some_0.contains_key(blk));
                return Ok(BlockSource::Overlay(*sector));
            }
            assert(!self.overlay()->Some_0.contains_key(blk));
        }
        Ok(BlockSource::File(lba))
    }

    /// Write `data` to block `blk`: into the overlay in volatile mode, else
    /// to the file at the returned offset.
    pub fn write(&mut self, blk: u64, data: &[u8; 512]) -> (r: Result<WriteTarget, DiskError>)
        ensures
            final(self).spec_length() == old(self).spec_length(),
            !block_in_range(old(self).spec_length(), blk) ==> r == Err::<WriteTarget, DiskError>(
                DiskError::OutOfRange) && final(self).overlay() == old(self).overlay(),
            block_in_range(old(self).spec_length(), blk) ==> match old(self).overlay() {
                Some(m) => r == Ok::<WriteTarget, DiskError>(WriteTarget::Overlay) && final(self).overlay() == Some(
                    m.insert(blk, data@),
                ),
                None => r == Ok::<WriteTarget, DiskError>(WriteTarget::File((blk * 512) as u64))
                    && final(self).overlay() is None,
            },
    {
        let lba = match blk.checked_mul(BLOCK_SIZE) {
            Some(l) => l,
            None => {
                return Err(DiskError::OutOfRange);
            },
        };
        if lba >= self.length {
            return Err(DiskError::OutOfRange);
        }
        match &mut self.volatile_store {
            Some(store) => {
                let ghost before = store@;
                store.insert(blk, *data);
                proof {
                    assert(store@.map_values(|b: [u8; 512]| b@) =~= before.map_values(
                        |b: [u8; 512]| b@,
                    ).insert(blk, data@));
                }
                Ok(WriteTarget::Overlay)
            },
            None => Ok(WriteTarget::File(lba)),
        }
    }
}

/// Discard the changes made to the open disk, if any: the reset step of a
/// snapshot restore. Without an open disk this does nothing.
pub fn vdisk_discard_changes(disk: &mut Option<VirtualDisk>) -> (r: Result<(), DiskError>)
    ensures
        *old(disk) is None ==> r is Ok && *final(disk) is None,
        *old(disk) matches Some(d) ==> *final(disk) matches Some(f) && f.spec_length() == d.spec_length() && (
        d.overlay() is Some ==> r is Ok && f.overlay() == Some(Map::<u64, Seq<u8>>::empty())) && (d.overlay() is None
            ==> r == Err::<(), DiskError>(DiskError::NotVolatile) && f.overlay() is None),
{
    match disk {
        Some(d) => d.discard_changes(),
        None => Ok(()),
    }
}

} // verus!
