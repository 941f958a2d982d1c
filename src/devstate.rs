use vstd::prelude::*;
use vstd::string::StringExecFns;

verus! {

/// Emulator state names tracked by other means (guest RAM, VGA memory).
pub const RAM_STATE_NAME: &'static str = "ram.memory.bochs.bochs";
pub const VGA_STATE_NAME: &'static str = "memory.vgacore.vga.bochs.bochs";

/// Registry failures.
#[derive(Clone, Copy, Debug, PartialEq, Eq)]
pub enum RegistryError {
    /// State was registered after the registry was locked.
    Locked,
    /// A record of zero bytes.
    ZeroSize,
    /// A record whose end lies beyond the address space.
    Wraps,
    /// Two records overlap.
    Overlap,
    /// Nothing was registered.
    Empty,
    /// No such record, or the saved bytes do not match its length.
    BadRecord,
}

/// One piece of emulator device state: a host address range and, once
/// captured, its original bytes.
pub struct DeviceState {
    pub addr: u64,
    pub len: u64,
    pub original: Option<Vec<u8>>,
}

/// Host byte address `a` lies in record `r`.
pub open spec fn record_has(r: DeviceState, a: int) -> bool {
    r.addr <= a < r.addr + r.len
}

/// Some record of `s` holds byte address `a`.
pub open spec fn covers(s: Seq<DeviceState>, a: int) -> bool {
    exists|i: int| 0 <= i < s.len() && record_has(#[trigger] s[i], a)
}

/// Ascending, pairwise disjoint and never adjacent records.
pub open spec fn coalesced(s: Seq<DeviceState>) -> bool {
    &&& forall|i: int| 0 <= i < s.len() ==> #[trigger] s[i].len > 0 && s[i].addr + s[i].len <= u64::MAX
    &&& forall|i: int, j: int| 0 <= i < j < s.len() ==> #[trigger] s[i].addr + s[i].len < #[trigger] s[j].addr
}

/// A record is non-empty and ends inside the address space.
pub open spec fn sound_record(r: DeviceState) -> bool {
    r.len > 0 && r.addr + r.len <= u64::MAX
}

/// Some record of `s` is empty.
pub open spec fn any_empty(s: Seq<DeviceState>) -> bool {
    exists|i: int| 0 <= i < s.len() && (#[trigger] s[i]).len == 0
}

/// Some record of `s` runs past the end of the address space.
pub open spec fn any_wraps(s: Seq<DeviceState>) -> bool {
    exists|i: int| 0 <= i < s.len() && (#[trigger] s[i]).addr + s[i].len > u64::MAX
}

/// Record `y` of `s` starts inside a different record `x`.
pub open spec fn starts_inside(s: Seq<DeviceState>, x: int, y: int) -> bool {
    x != y && s[x].addr <= s[y].addr < s[x].addr + s[x].len
}

/// Two records of `s` overlap.
pub open spec fn records_overlap(s: Seq<DeviceState>) -> bool {
    exists|x: int, y: int| 0 <= x < s.len() && 0 <= y < s.len() && #[trigger] starts_inside(s, x, y)
}

/// The emulator's device state, registered during its initialisation and
/// locked on first entry to the execution loop.
pub struct DeviceRegistry {
    records: Vec<DeviceState>,
    locked: bool,
}

impl DeviceRegistry {
    pub closed spec fn records(&self) -> Seq<DeviceState> {
        self.records@
    }

    pub closed spec fn is_locked(&self) -> bool {
        self.locked
    }

    /// An empty, unlocked registry.
    pub fn new() -> (r: DeviceRegistry)
        ensures
            r.records() == Seq::<DeviceState>::empty(),
            !r.is_locked(),
    {
        DeviceRegistry { records: Vec::new(), locked: false }
    }

    /// Whether the registry is locked.
    pub fn locked(&self) -> (r: bool)
        ensures
            r == self.is_locked(),
    {
        self.locked
    }

    /// Number of records.
    pub fn len(&self) -> (r: usize)
        ensures
            r == self.records().len(),
    {
        self.records.len()
    }

    /// Address, length and saved bytes of record `i`.
    pub fn record(&self, i: usize) -> (r: (u64, u64, Option<&Vec<u8>>))
        requires
            i < self.records().len(),
        ensures
            r.0 == self.records()[i as int].addr,
            r.1 == self.records()[i as int].len,
            r.2 == match self.records()[i as int].original {
                Some(v) => Some(&v),
                None => None::<&Vec<u8>>,
            },
    {
        let d = &self.records[i];
        (d.addr, d.len, d.original.as_ref())
    }

    /// Register `size` bytes of device state at host address `data` under
    /// `name`. Returns whether it was recorded: guest RAM and VGA memory are
    /// ignored. Fails once locked or for an empty record.
    pub fn register_state(&mut self, name: Option<String>, data: u64, size: u64) -> (r: Result<
        bool,
        RegistryError,
    >)
        ensures
            final(self).is_locked() == old(self).is_locked(),
            old(self).is_locked() ==> r == Err::<bool, RegistryError>(RegistryError::Locked),
            !old(self).is_locked() && size == 0 ==> r == Err::<bool, RegistryError>(RegistryError::ZeroSize),
            r is Err || r == Ok::<bool, RegistryError>(false) ==> final(self).records() == old(self).records(),
            r == Ok::<bool, RegistryError>(true) ==> final(self).records() == old(self).records().push(
                DeviceState { addr: data, len: size, original: None },
            ),
            !old(self).is_locked() && size > 0 ==> (r == Ok::<bool, RegistryError>(false) <==> (name matches Some(
                n,
            ) && (n@ == RAM_STATE_NAME@ || n@ == VGA_STATE_NAME@))),
            !old(self).is_locked() && size > 0 && !(name matches Some(n) && (n@ == RAM_STATE_NAME@ || n@
                == VGA_STATE_NAME@)) ==> r == Ok::<bool, RegistryError>(true),
    {
        if self.locked {
            return Err(RegistryError::Locked);
        }
        if size == 0 {
            return Err(RegistryError::ZeroSize);
        }
        if let Some(n) = &name {
            let ram = String::from_str(RAM_STATE_NAME);
            let vga = String::from_str(VGA_STATE_NAME);
            if n.eq(&ram) || n.eq(&vga) {
                return Ok(false);
            }
        }
        self.records.push(DeviceState { addr: data, len: size, original: None });
        Ok(true)
    }

    /// Close the registry to further registration without reorganising it
    /// (record mode, where no original bytes are kept).
    pub fn close(&mut self)
        ensures
            final(self).is_locked(),
            final(self).records() == old(self).records(),
    {
        self.locked = true;
    }

    /// Lock the registry: sort the records by address and merge records
    /// that touch. Refused when nothing was registered, when a record is
    /// empty or runs past the end of the address space, and when two records
    /// overlap. The bytes covered are unchanged.
    pub fn lock(&mut self) -> (r: Result<(), RegistryError>)
        ensures
            final(self).is_locked(),
            old(self).records().len() == 0 ==> r == Err::<(), RegistryError>(RegistryError::Empty),
            old(self).records().len() > 0 && any_empty(old(self).records()) ==> r == Err::<(), RegistryError>(
                RegistryError::ZeroSize),
            old(self).records().len() > 0 && !any_empty(old(self).records()) && any_wraps(old(self).records())
                ==> r == Err::<(), RegistryError>(RegistryError::Wraps),
            old(self).records().len() > 0 && !any_empty(old(self).records()) && !any_wraps(old(self).records())
                ==> (r == Err::<(), RegistryError>(RegistryError::Overlap) <==> records_overlap(old(self).records())),
            r is Ok <==> (old(self).records().len() > 0 && !any_empty(old(self).records()) && !any_wraps(
                old(self).records(),
            ) && !records_overlap(old(self).records())),
            r is Ok ==> coalesced(final(self).records()) && forall|a: int|
                covers(final(self).records(), a) == covers(old(self).records(), a),
            r is Ok ==> forall|i: int|
                0 <= i < final(self).records().len() ==> (#[trigger] final(self).records()[i]).original is None,
    {
        self.locked = true;
        let n = self.records.len();
        if n == 0 {
            return Err(RegistryError::Empty);
        }
        let ghost before = self.records@;
        // Every record must be non-empty and end inside the address space.
        let mut i: usize = 0;
        while i < n
            invariant
                n == before.len(),
                self.records@ == before,
                old(self).records() == before,
                self.locked,
                i <= n,
                forall|x: int| 0 <= x < i ==> (#[trigger] before[x]).len > 0,
            decreases n - i,
        {
            if self.records[i].len == 0 {
                assert(before[i as int].len == 0);
                return Err(RegistryError::ZeroSize);
            }
            i = i + 1;
        }
        let mut i: usize = 0;
        while i < n
            invariant
                n == before.len(),
                self.records@ == before,
                old(self).records() == before,
                self.locked,
                !any_empty(before),
                i <= n,
                forall|x: int| 0 <= x < i ==> (#[trigger] before[x]).addr + before[x].len <= u64::MAX,
            decreases n - i,
        {
            if self.records[i].addr.checked_add(self.records[i].len).is_none() {
                assert(before[i as int].addr + before[i as int].len > u64::MAX);
                return Err(RegistryError::Wraps);
            }
            i = i + 1;
        }
        // No record may start inside another.
        let mut i: usize = 0;
        while i < n
            invariant
                n == before.len(),
                self.records@ == before,
                old(self).records() == before,
                self.locked,
                !any_empty(before),
                !any_wraps(before),
                i <= n,
                forall|x: int, y: int| 0 <= x < i && 0 <= y < n ==> !#[trigger] starts_inside(before, x, y),
            decreases n - i,
        {
            let mut j: usize = 0;
            while j < n
                invariant
                    n == before.len(),
                    self.records@ == before,
                    old(self).records() == before,
                    self.locked,
                    !any_empty(before),
                    !any_wraps(before),
                    i < n,
                    j <= n,
                    forall|x: int, y: int| 0 <= x < i && 0 <= y < n ==> !#[trigger] starts_inside(before, x, y),
                    forall|y: int| 0 <= y < j ==> !#[trigger] starts_inside(before, i as int, y),
                decreases n - j,
            {
                let a = &self.records[i];
                let b = &self.records[j];
                if i != j && a.addr <= b.addr && b.addr < a.addr + a.len {
                    assert(starts_inside(before, i as int, j as int));
                    return Err(RegistryError::Overlap);
                }
                j = j + 1;
            }
            i = i + 1;
        }
        assert(!records_overlap(before));
        // Sort by address.
        let mut sorted: Vec<DeviceState> = Vec::new();
        while self.records.len() > 0
            invariant
                self.locked,
                before.len() > 0,
                old(self).records() == before,
                !any_empty(before),
                !any_wraps(before),
                !records_overlap(before),
                forall|i: int| 0 <= i < sorted@.len() ==> sound_record(#[trigger] sorted@[i]),
                forall|i: int| 0 <= i < self.records@.len() ==> sound_record(#[trigger] self.records@[i]),
                forall|i: int, j: int|
                    0 <= i <= j < sorted@.len() ==> #[trigger] sorted@[i].addr <= #[trigger] sorted@[j].addr,
                forall|a: int| covers(before, a) == (covers(sorted@, a) || covers(self.records@, a)),
            decreases self.records@.len(),
        {
            let ghost rest = self.records@;
            let d = self.records.pop().unwrap();
            assert(sound_record(rest[rest.len() - 1]));
            let ghost sorted0 = sorted@;
            let mut i: usize = sorted.len();
            while i > 0 && sorted[i - 1].addr > d.addr
                invariant
                    i <= sorted@.len(),
                    sorted@ == sorted0,
                    forall|j: int| i <= j < sorted@.len() ==> #[trigger] sorted@[j].addr > d.addr,
                decreases i,
            {
                i = i - 1;
            }
            sorted.insert(i, d);
            proof {
                let s = sorted@;
                assert(s == sorted0.insert(i as int, d));
                assert forall|x: int| 0 <= x < s.len() implies sound_record(#[trigger] s[x]) by {
                    if x < i {
                        assert(s[x] == sorted0[x]);
                    } else if x > i {
                        assert(s[x] == sorted0[x - 1]);
                    }
                }
                assert forall|x: int| 0 <= x < self.records@.len() implies sound_record(#[trigger] self.records@[x]) by {
                    assert(self.records@[x] == rest[x]);
                }
                assert forall|x: int, y: int| 0 <= x <= y < s.len() implies #[trigger] s[x].addr
                    <= #[trigger] s[y].addr by {
                    if i > 0 {
                        assert(sorted0[i - 1].addr <= d.addr);
                    }
                }
                assert(rest == self.records@.push(d));
                assert forall|a: int| covers(before, a) == (covers(s, a) || covers(self.records@, a)) by {
                    if covers(rest, a) {
                        let k = choose|k: int| 0 <= k < rest.len() && record_has(#[trigger] rest[k], a);
                        if k == rest.len() - 1 {
                            assert(record_has(s[i as int], a));
                        } else {
                            assert(record_has(self.records@[k], a));
                        }
                    }
                    if covers(sorted0, a) {
                        let k = choose|k: int| 0 <= k < sorted0.len() && record_has(#[trigger] sorted0[k], a);
                        if k < i {
                            assert(record_has(s[k], a));
                        } else {
                            assert(record_has(s[k + 1], a));
                        }
                    }
                    if covers(s, a) {
                        let k = choose|k: int| 0 <= k < s.len() && record_has(#[trigger] s[k], a);
                        if k < i {
                            assert(record_has(sorted0[k], a));
                        } else if k == i {
                            assert(record_has(rest[rest.len() - 1], a));
                        } else {
                            assert(record_has(sorted0[k - 1], a));
                        }
                    }
                    if covers(self.records@, a) {
                        let k = choose|k: int| 0 <= k < self.records@.len() && record_has(#[trigger] self.records@[k], a);
                        assert(record_has(rest[k], a));
                    }
                }
            }
        }
        proof {
            assert forall|a: int| covers(before, a) == covers(sorted@, a) by {
                if covers(self.records@, a) {
                    let k = choose|k: int| 0 <= k < self.records@.len() && record_has(#[trigger] self.records@[k], a);
                }
            }
        }
        // Merge records that touch.
        let ghost srt = sorted@;
        let mut merged: Vec<DeviceState> = Vec::new();
        let n = sorted.len();
        let mut k: usize = 0;
        while k < n
            invariant
                n == srt.len(),
                sorted@ == srt,
                k <= n,
                self.locked,
                old(self).records() == before,
                before.len() > 0,
                !any_empty(before),
                !any_wraps(before),
                !records_overlap(before),
                forall|a: int| covers(before, a) == covers(srt, a),
                forall|i: int, j: int| 0 <= i <= j < srt.len() ==> #[trigger] srt[i].addr <= #[trigger] srt[j].addr,
                forall|i: int| 0 <= i < srt.len() ==> sound_record(#[trigger] srt[i]),
                coalesced(merged@),
                merged@.len() > 0 ==> k > 0 && merged@.last().addr <= srt[k - 1].addr,
                forall|i: int| 0 <= i < merged@.len() ==> (#[trigger] merged@[i]).original is None,
                forall|a: int| covers(merged@, a) == (exists|i: int| 0 <= i < k && record_has(#[trigger] srt[i], a)),
                k > 0 ==> merged@.len() > 0,
            decreases n - k,
        {
            let d = &sorted[k];
            assert(sound_record(srt[k as int]));
            let end = d.addr + d.len;
            let m = merged.len();
            let ghost mg0 = merged@;
            if m > 0 && merged[m - 1].addr + merged[m - 1].len >= d.addr {
                let last = merged.pop().unwrap();
                let last_end = last.addr + last.len;
                let new_end = if end > last_end { end } else { last_end };
                merged.push(DeviceState { addr: last.addr, len: new_end - last.addr, original: None });
                proof {
                    let s = merged@;
                    assert forall|a: int| covers(s, a) == (exists|i: int| 0 <= i < k + 1 && record_has(#[trigger] srt[i], a)) by {
                        if covers(s, a) {
                            let x = choose|x: int| 0 <= x < s.len() && record_has(#[trigger] s[x], a);
                            if x < m - 1 {
                                assert(record_has(mg0[x], a));
                                assert(covers(mg0, a));
                            } else if a < last_end {
                                assert(record_has(mg0[m - 1], a));
                                assert(covers(mg0, a));
                            } else {
                                assert(record_has(srt[k as int], a));
                            }
                        }
                        if exists|i: int| 0 <= i < k + 1 && record_has(#[trigger] srt[i], a) {
                            let i = choose|i: int| 0 <= i < k + 1 && record_has(#[trigger] srt[i], a);
                            if i < k {
                                assert(covers(mg0, a));
                                let x = choose|x: int| 0 <= x < mg0.len() && record_has(#[trigger] mg0[x], a);
                                if x < m - 1 {
                                    assert(record_has(s[x], a));
                                } else {
                                    assert(record_has(s[m - 1], a));
                                }
                            } else {
                                assert(record_has(s[m - 1], a));
                            }
                        }
                    }
                    assert forall|i: int, j: int| 0 <= i < j < s.len() implies #[trigger] s[i].addr + s[i].len
                        < #[trigger] s[j].addr by {
                        assert(mg0[i].addr + mg0[i].len < mg0[j].addr);
                    }
                }
            } else {
                merged.push(DeviceState { addr: d.addr, len: d.len, original: None });
                proof {
                    let s = merged@;
                    assert forall|a: int| covers(s, a) == (exists|i: int| 0 <= i < k + 1 && record_has(#[trigger] srt[i], a)) by {
                        if covers(s, a) {
                            let x = choose|x: int| 0 <= x < s.len() && record_has(#[trigger] s[x], a);
                            if x < m {
                                assert(record_has(mg0[x], a));
                                assert(covers(mg0, a));
                            } else {
                                assert(record_has(srt[k as int], a));
                            }
                        }
                        if exists|i: int| 0 <= i < k + 1 && record_has(#[trigger] srt[i], a) {
                            let i = choose|i: int| 0 <= i < k + 1 && record_has(#[trigger] srt[i], a);
                            if i < k {
                                assert(covers(mg0, a));
                                let x = choose|x: int| 0 <= x < mg0.len() && record_has(#[trigger] mg0[x], a);
                                assert(record_has(s[x], a));
                            } else {
                                assert(record_has(s[m as int], a));
                            }
                        }
                    }
                    assert forall|i: int, j: int| 0 <= i < j < s.len() implies #[trigger] s[i].addr + s[i].len
                        < #[trigger] s[j].addr by {
                        if j == m && i < m - 1 {
                            assert(mg0[i].addr + mg0[i].len < mg0[m - 1].addr);
                        }
                    }
                }
            }
            k = k + 1;
        }
        self.records = merged;
        Ok(())
    }

    /// Save `bytes` as the original contents of record `i`.
    pub fn capture_original(&mut self, i: usize, bytes: Vec<u8>) -> (r: Result<(), RegistryError>)
        ensures
            final(self).is_locked() == old(self).is_locked(),
            final(self).records().len() == old(self).records().len(),
            (i < old(self).records().len() && bytes@.len() == old(self).records()[i as int].len) <==> r is Ok,
            r is Ok ==> (final(self).records()[i as int].original matches Some(v) && v@ == bytes@),
            forall|j: int|
                0 <= j < final(self).records().len() && j != i ==> #[trigger] final(self).records()[j] == old(
                    self,
                ).records()[j],
            forall|j: int|
                0 <= j < final(self).records().len() ==> #[trigger] final(self).records()[j].addr == old(
                    self,
                ).records()[j].addr && final(self).records()[j].len == old(self).records()[j].len,
    {
        if i >= self.records.len() || bytes.len() as u64 != self.records[i].len {
            return Err(RegistryError::BadRecord);
        }
        let mut d = DeviceState { addr: 0, len: 0, original: None };
        self.records.set_and_swap(i, &mut d);
        d.original = Some(bytes);
        self.records.set_and_swap(i, &mut d);
        Ok(())
    }
}

} // verus!
