use vstd::prelude::*;
use crate::virtmem::{
    PageTable, PhysMem, PhysMemError, Translation, canonical_of, translate,
};

verus! {

/// A contiguous run of guest physical memory and the bytes that back it.
pub struct PhysRegion {
    /// Guest physical address of the first byte.
    pub paddr: u64,
    /// Backing bytes; the region covers `paddr .. paddr + bytes.len()`.
    pub bytes: Vec<u8>,
}

pub open spec fn region_contains(r: PhysRegion, a: int) -> bool {
    r.paddr <= a < r.paddr + r.bytes@.len() && a <= u64::MAX
}

/// Index of the first region at or after `i` that contains `a`.
pub open spec fn find_from(s: Seq<PhysRegion>, a: int, i: nat) -> Option<nat>
    decreases s.len() - i,
{
    if i >= s.len() {
        None
    } else if region_contains(s[i as int], a) {
        Some(i)
    } else {
        find_from(s, a, i + 1)
    }
}

/// Regions with the same placement: same bases and sizes, in the same order.
pub open spec fn same_layout(s: Seq<PhysRegion>, t: Seq<PhysRegion>) -> bool {
    &&& s.len() == t.len()
    &&& forall|i: int|
        0 <= i < s.len() ==> #[trigger] s[i].paddr == t[i].paddr && s[i].bytes@.len()
            == t[i].bytes@.len()
}

proof fn lemma_find_same_layout(s: Seq<PhysRegion>, t: Seq<PhysRegion>, a: int, i: nat)
    requires
        same_layout(s, t),
    ensures
        find_from(s, a, i) == find_from(t, a, i),
    decreases s.len() - i,
{
    if i < s.len() {
        assert(s[i as int].paddr == t[i as int].paddr);
        lemma_find_same_layout(s, t, a, i + 1);
    }
}

proof fn lemma_find_bound(s: Seq<PhysRegion>, a: int, i: nat)
    ensures
        find_from(s, a, i) matches Some(j) ==> i <= j < s.len() && region_contains(s[j as int], a),
    decreases s.len() - i,
{
    if i < s.len() {
        lemma_find_bound(s, a, i + 1);
    }
}

/// Reader and writer of guest physical memory over a list of regions.
pub struct MemReader {
    regions: Vec<PhysRegion>,
}

impl MemReader {
    pub closed spec fn regions(&self) -> Seq<PhysRegion> {
        self.regions@
    }

    /// The byte at guest physical address `a`, taken from the first region
    /// that contains it.
    pub open spec fn byte(&self, a: int) -> Option<u8> {
        match find_from(self.regions(), a, 0) {
            Some(i) => Some(self.regions()[i as int].bytes@[a - self.regions()[i as int].paddr]),
            None => None,
        }
    }

    /// A memory reader over `memory_regions`.
    pub fn new(memory_regions: Vec<PhysRegion>) -> (r: MemReader)
        ensures
            r.regions() == memory_regions@,
    {
        MemReader { regions: memory_regions }
    }

    fn find_region(&self, a: u64) -> (r: Option<usize>)
        ensures
            r matches Some(i) ==> find_from(self.regions(), a as int, 0) == Some(i as nat),
            r is None ==> find_from(self.regions(), a as int, 0) is None,
    {
        let mut i: usize = 0;
        while i < self.regions.len()
            invariant
                i <= self.regions@.len(),
                find_from(self.regions@, a as int, 0) == find_from(self.regions@, a as int, i as nat),
            decreases self.regions@.len() - i,
        {
            let r = &self.regions[i];
            if r.paddr <= a && a - r.paddr < r.bytes.len() as u64 {
                return Some(i);
            }
            i = i + 1;
        }
        None
    }

    /// The byte at guest physical address `a`, if it is backed.
    pub fn read_byte(&self, a: u64) -> (r: Option<u8>)
        ensures
            r == self.byte(a as int),
    {
        proof {
            lemma_find_bound(self.regions(), a as int, 0);
        }
        match self.find_region(a) {
            Some(i) => {
                let r = &self.regions[i];
                assert(find_from(self.regions(), a as int, 0) == Some(i as nat));
                assert(region_contains(self.regions()[i as int], a as int));
                assert(self.regions()[i as int] == *r);
                let _n = r.bytes.len();
                let off = (a - r.paddr) as usize;
                Some(r.bytes[off])
            },
            None => None,
        }
    }

    /// Store `v` at guest physical address `a`; false if `a` is not backed.
    pub fn write_byte(&mut self, a: u64, v: u8) -> (r: bool)
        ensures
            r == old(self).byte(a as int) is Some,
            !r ==> *final(self) == *old(self),
            same_layout(old(self).regions(), final(self).regions()),
            forall|b: int|
                #[trigger] final(self).byte(b) == if r && b == a {
                    Some(v)
                } else {
                    old(self).byte(b)
                },
    {
        proof {
            lemma_find_bound(self.regions(), a as int, 0);
        }
        match self.find_region(a) {
            Some(i) => {
                let mut region = PhysRegion { paddr: 0, bytes: Vec::new() };
                self.regions.set_and_swap(i, &mut region);
                assert(region_contains(old(self).regions()[i as int], a as int));
                let _n = region.bytes.len();
                let off = (a - region.paddr) as usize;
                region.bytes.set(off, v);
                self.regions.set_and_swap(i, &mut region);
                proof {
                    let s = old(self).regions();
                    let t = self.regions();
                    assert(same_layout(s, t));
                    assert forall|b: int|
                        #[trigger] self.byte(b) == if b == a {
                            Some(v)
                        } else {
                            s_byte(s, b)
                        } by {
                        lemma_find_same_layout(s, t, b, 0);
                        lemma_find_bound(s, b, 0);
                    }
                }
                true
            },
            None => {
                assert(*final(self) == *self);
                false
            },
        }
    }

    /// Read physical memory at `paddr` into `output`. Returns the number of
    /// bytes read, smaller than `output.len()` when a gap is hit.
    pub fn read_phys(&mut self, paddr: u64, output: &mut [u8]) -> (r: usize)
        ensures
            *final(self) == *old(self),
            final(output)@.len() == old(output)@.len(),
            r <= old(output)@.len(),
            forall|i: int| 0 <= i < r ==> old(self).byte(paddr + i) == Some(#[trigger] final(output)@[i]),
            r < old(output)@.len() ==> old(self).byte(paddr + r) is None,
            forall|i: int| r <= i < old(output)@.len() ==> #[trigger] final(output)@[i] == old(output)@[i],
    {
        let len = output.len();
        let mut done: usize = 0;
        while done < len
            invariant
                done <= len,
                len == old(output)@.len(),
                output@.len() == len,
                forall|i: int| 0 <= i < done ==> self.byte(paddr + i) == Some(#[trigger] output@[i]),
                forall|i: int| done <= i < len ==> #[trigger] output@[i] == old(output)@[i],
            decreases len - done,
        {
            let a = match paddr.checked_add(done as u64) {
                Some(a) => a,
                None => {
                    proof {
                        lemma_find_bound(self.regions(), paddr + done, 0);
                    }
                    assert(final(output)@ == output@);
                    return done;
                },
            };
            match self.read_byte(a) {
                Some(b) => {
                    output[done] = b;
                },
                None => {
                    assert(final(output)@ == output@);
                    return done;
                },
            }
            done = done + 1;
        }
        done
    }

    /// Write `input` to physical memory at `paddr`. Returns the number of
    /// bytes written, smaller than `input.len()` when a gap is hit.
    pub fn write_phys(&mut self, paddr: u64, input: &[u8]) -> (r: usize)
        ensures
            r <= input@.len(),
            r < input@.len() ==> old(self).byte(paddr + r) is None,
            same_layout(old(self).regions(), final(self).regions()),
            forall|b: int|
                #[trigger] final(self).byte(b) == if paddr <= b < paddr + r {
                    Some(input@[b - paddr])
                } else {
                    old(self).byte(b)
                },
    {
        let len = input.len();
        let mut done: usize = 0;
        while done < len
            invariant
                done <= len,
                len == input@.len(),
                same_layout(old(self).regions(), self.regions()),
                forall|b: int|
                    #[trigger] self.byte(b) == if paddr <= b < paddr + done {
                        Some(input@[b - paddr])
                    } else {
                        old(self).byte(b)
                    },
            decreases len - done,
        {
            let a = match paddr.checked_add(done as u64) {
                Some(a) => a,
                None => {
                    proof {
                        lemma_find_bound(old(self).regions(), paddr + done, 0);
                    }
                    assert(*final(self) == *self);
                    return done;
                },
            };
            let ghost prev = *self;
            if !self.write_byte(a, input[done]) {
                assert(*final(self) == *self);
                return done;
            }
            proof {
                assert(same_layout(old(self).regions(), self.regions()));
            }
            done = done + 1;
        }
        done
    }
}

/// Little-endian value of eight bytes.
pub open spec fn le_u64(b0: u8, b1: u8, b2: u8, b3: u8, b4: u8, b5: u8, b6: u8, b7: u8) -> u64 {
    (b0 as u64) | ((b1 as u64) << 8u64) | ((b2 as u64) << 16u64) | ((b3 as u64) << 24u64) | ((
    b4 as u64) << 32u64) | ((b5 as u64) << 40u64) | ((b6 as u64) << 48u64) | ((b7 as u64)
        << 56u64)
}

/// Little-endian value of four bytes.
pub open spec fn le_u32(b0: u8, b1: u8, b2: u8, b3: u8) -> u32 {
    (b0 as u32) | ((b1 as u32) << 8u32) | ((b2 as u32) << 16u32) | ((b3 as u32) << 24u32)
}

/// Little-endian value of two bytes.
pub open spec fn le_u16(b0: u8, b1: u8) -> u16 {
    (b0 as u16) | ((b1 as u16) << 8u16)
}

proof fn lemma_le_u64_bytes(v: u64)
    ensures
        le_u64(
            v as u8,
            (v >> 8u64) as u8,
            (v >> 16u64) as u8,
            (v >> 24u64) as u8,
            (v >> 32u64) as u8,
            (v >> 40u64) as u8,
            (v >> 48u64) as u8,
            (v >> 56u64) as u8,
        ) == v,
{
    assert((v as u8 as u64) | (((v >> 8u64) as u8 as u64) << 8u64) | (((v >> 16u64) as u8 as u64)
        << 16u64) | (((v >> 24u64) as u8 as u64) << 24u64) | (((v >> 32u64) as u8 as u64)
        << 32u64) | (((v >> 40u64) as u8 as u64) << 40u64) | (((v >> 48u64) as u8 as u64)
        << 48u64) | (((v >> 56u64) as u8 as u64) << 56u64) == v) by (bit_vector);
}

/// The 64-bit little-endian word at guest physical address `a`, if all
/// eight bytes are backed.
pub open spec fn mem_qword(m: MemReader, a: u64) -> Option<u64> {
    if forall|k: int| 0 <= k < 8 ==> #[trigger] m.byte(a + k) is Some {
        Some(
            le_u64(
                m.byte(a + 0)->Some_0,
                m.byte(a + 1)->Some_0,
                m.byte(a + 2)->Some_0,
                m.byte(a + 3)->Some_0,
                m.byte(a + 4)->Some_0,
                m.byte(a + 5)->Some_0,
                m.byte(a + 6)->Some_0,
                m.byte(a + 7)->Some_0,
            ),
        )
    } else {
        None
    }
}

impl PhysMem for MemReader {
    open spec fn qword(&self, addr: u64) -> Option<u64> {
        mem_qword(*self, addr)
    }

    fn read_phys_int(&mut self, addr: u64) -> (r: Result<u64, PhysMemError>) {
        let mut bytes: [u8; 8] = [0u8; 8];
        let mut k: usize = 0;
        while k < 8
            invariant
                k <= 8,
                forall|j: int| 0 <= j < k ==> self.byte(addr + j) == Some(#[trigger] bytes@[j]),
            decreases 8 - k,
        {
            let a = match addr.checked_add(k as u64) {
                Some(a) => a,
                None => {
                    proof {
                        lemma_find_bound(self.regions(), addr + k, 0);
                    }
                    assert(self.byte(addr + k) is None);
                    return Err(PhysMemError::Unmapped);
                },
            };
            match self.read_byte(a) {
                Some(b) => {
                    bytes[k] = b;
                },
                None => {
                    return Err(PhysMemError::Unmapped);
                },
            }
            k = k + 1;
        }
        let v = (bytes[0] as u64) | ((bytes[1] as u64) << 8u64) | ((bytes[2] as u64) << 16u64) | ((
        bytes[3] as u64) << 24u64) | ((bytes[4] as u64) << 32u64) | ((bytes[5] as u64) << 40u64)
            | ((bytes[6] as u64) << 48u64) | ((bytes[7] as u64) << 56u64);
        assert(forall|j: int| 0 <= j < 8 ==> #[trigger] self.byte(addr + j) is Some);
        Ok(v)
    }

    fn write_phys(&mut self, addr: u64, val: u64) -> (r: Result<(), PhysMemError>) {
        if self.read_phys_int(addr).is_err() {
            return Err(PhysMemError::Unmapped);
        }
        assert(forall|j: int| 0 <= j < 8 ==> #[trigger] self.byte(addr + j) is Some);
        assert(addr + 7 <= u64::MAX) by {
            assert(self.byte(addr + 7) is Some);
            lemma_find_bound(self.regions(), addr + 7, 0);
        }
        let ghost start = *self;
        let mut k: u64 = 0;
        while k < 8
            invariant
                k <= 8,
                addr + 7 <= u64::MAX,
                forall|j: int| 0 <= j < 8 ==> #[trigger] start.byte(addr + j) is Some,
                forall|b: int|
                    #[trigger] self.byte(b) == if addr <= b < addr + k {
                        Some((val >> (8 * (b - addr)) as u64) as u8)
                    } else {
                        start.byte(b)
                    },
            decreases 8 - k,
        {
            let a = addr + k;
            let ok = self.write_byte(a, (val >> (8 * k)) as u8);
            assert(ok) by {
                assert(start.byte(addr + k) is Some);
            }
            k = k + 1;
        }
        proof {
            lemma_le_u64_bytes(val);
            assert(self.byte(addr + 0) == Some((val >> 0u64) as u8));
            assert(self.byte(addr + 1) == Some((val >> 8u64) as u8));
            assert(self.byte(addr + 2) == Some((val >> 16u64) as u8));
            assert(self.byte(addr + 3) == Some((val >> 24u64) as u8));
            assert(self.byte(addr + 4) == Some((val >> 32u64) as u8));
            assert(self.byte(addr + 5) == Some((val >> 40u64) as u8));
            assert(self.byte(addr + 6) == Some((val >> 48u64) as u8));
            assert(self.byte(addr + 7) == Some((val >> 56u64) as u8));
            assert((val >> 0u64) == val) by (bit_vector);
            assert(forall|j: int| 0 <= j < 8 ==> #[trigger] self.byte(addr + j) is Some);
            assert forall|a: u64| a + 8 <= addr || addr + 8 <= a implies #[trigger] mem_qword(*self, a)
                == mem_qword(start, a) by {
                assert(forall|j: int| 0 <= j < 8 ==> #[trigger] self.byte(a + j) == start.byte(a + j));
            }
        }
        assert(*final(self) == *self);
        Ok(())
    }
}

/// The byte at guest virtual address `va` under the tables rooted at `cr3`.
pub open spec fn virt_byte(m: MemReader, cr3: u64, va: int) -> Option<u8> {
    if va < 0 || va > u64::MAX || canonical_of(va as u64) != va as u64 {
        None
    } else {
        match translate(m, cr3, va as u64) {
            Translation::Mapped { phys, size } => m.byte(phys as int),
            _ => None,
        }
    }
}

/// The backed guest physical address that guest virtual `va` translates
/// to under `cr3`, if any.
pub open spec fn virt_target(m: MemReader, cr3: u64, va: int) -> Option<u64> {
    if va < 0 || va > u64::MAX || canonical_of(va as u64) != va as u64 {
        None
    } else {
        match translate(m, cr3, va as u64) {
            Translation::Mapped { phys, size } => if m.byte(phys as int) is Some {
                Some(phys)
            } else {
                None
            },
            _ => None,
        }
    }
}

/// Writing `v` at guest virtual `va` took `before` to `after`: the byte at
/// its physical target changed, nothing else did.
pub open spec fn virt_write_step(before: MemReader, after: MemReader, cr3: u64, va: int, v: u8) -> bool {
    match virt_target(before, cr3, va) {
        Some(p) => {
            &&& same_layout(before.regions(), after.regions())
            &&& forall|b: int| #[trigger] after.byte(b) == if b == p { Some(v) } else { before.byte(b) }
        },
        None => false,
    }
}

/// All `n` bytes at guest virtual address `va` are readable.
pub open spec fn virt_readable(m: MemReader, cr3: u64, va: int, n: int) -> bool {
    forall|k: int| 0 <= k < n ==> #[trigger] virt_byte(m, cr3, va + k) is Some
}

pub open spec fn vb(m: MemReader, cr3: u64, va: int, k: int) -> u8 {
    virt_byte(m, cr3, va + k)->Some_0
}

/// The little-endian 16-bit value at guest virtual address `va`, if readable.
#[verifier::opaque]
pub open spec fn virt_u16(m: MemReader, cr3: u64, va: int) -> Option<u16> {
    if virt_readable(m, cr3, va, 2) {
        Some(le_u16(vb(m, cr3, va, 0), vb(m, cr3, va, 1)))
    } else {
        None
    }
}

/// The little-endian 32-bit value at guest virtual address `va`, if readable.
#[verifier::opaque]
pub open spec fn virt_u32(m: MemReader, cr3: u64, va: int) -> Option<u32> {
    if virt_readable(m, cr3, va, 4) {
        Some(le_u32(vb(m, cr3, va, 0), vb(m, cr3, va, 1), vb(m, cr3, va, 2), vb(m, cr3, va, 3)))
    } else {
        None
    }
}

/// The little-endian 64-bit value at guest virtual address `va`, if readable.
#[verifier::opaque]
pub open spec fn virt_u64(m: MemReader, cr3: u64, va: int) -> Option<u64> {
    if virt_readable(m, cr3, va, 8) {
        Some(
            le_u64(
                vb(m, cr3, va, 0),
                vb(m, cr3, va, 1),
                vb(m, cr3, va, 2),
                vb(m, cr3, va, 3),
                vb(m, cr3, va, 4),
                vb(m, cr3, va, 5),
                vb(m, cr3, va, 6),
                vb(m, cr3, va, 7),
            ),
        )
    } else {
        None
    }
}

impl MemReader {
    /// Read virtual memory at `vaddr` through the page tables at `cr3` into
    /// `buf`. Returns the number of bytes read, smaller than `buf.len()` when
    /// a byte cannot be translated or is not backed.
    pub fn read_virt(&mut self, cr3: u64, vaddr: u64, buf: &mut [u8]) -> (r: usize)
        ensures
            *final(self) == *old(self),
            final(buf)@.len() == old(buf)@.len(),
            r <= old(buf)@.len(),
            forall|i: int|
                0 <= i < r ==> virt_byte(*old(self), cr3, vaddr + i) == Some(#[trigger] final(buf)@[i]),
            r < old(buf)@.len() ==> virt_byte(*old(self), cr3, vaddr + r) is None,
            forall|i: int| r <= i < old(buf)@.len() ==> #[trigger] final(buf)@[i] == old(buf)@[i],
    {
        let len = buf.len();
        let mut done: usize = 0;
        let table = PageTable::from_existing(cr3);
        while done < len
            invariant
                done <= len,
                len == old(buf)@.len(),
                buf@.len() == len,
                *self == *old(self),
                table.root() == cr3,
                forall|i: int|
                    0 <= i < done ==> virt_byte(*self, cr3, vaddr + i) == Some(#[trigger] buf@[i]),
                forall|i: int| done <= i < len ==> #[trigger] buf@[i] == old(buf)@[i],
            decreases len - done,
        {
            let va = match vaddr.checked_add(done as u64) {
                Some(va) => va,
                None => {
                    assert(final(buf)@ == buf@);
                    assert(*final(self) == *self);
                    return done;
                },
            };
            match table.virt_to_phys(self, va) {
                Ok(Some((phys, _size))) => match self.read_byte(phys) {
                    Some(b) => {
                        buf[done] = b;
                    },
                    None => {
                        assert(final(buf)@ == buf@);
                        assert(*final(self) == *self);
                        return done;
                    },
                },
                _ => {
                    assert(final(buf)@ == buf@);
                    assert(*final(self) == *self);
                    return done;
                },
            }
            done = done + 1;
        }
        done
    }

    /// Write `buf` to virtual memory at `vaddr` through the page tables at
    /// `cr3`, one byte at a time, each byte translated in memory as left by
    /// the bytes before it. Returns the number of bytes written, smaller
    /// than `buf.len()` when a byte cannot be translated or is not backed.
    pub fn write_virt(&mut self, cr3: u64, vaddr: u64, buf: &[u8]) -> (r: usize)
        ensures
            r <= buf@.len(),
            exists|states: Seq<MemReader>|
                {
                    &&& states.len() == r + 1
                    &&& states[0] == *old(self)
                    &&& states[r as int] == *final(self)
                    &&& forall|i: int|
                        0 <= i < r ==> virt_write_step(
                            #[trigger] states[i],
                            states[i + 1],
                            cr3,
                            vaddr + i,
                            buf@[i],
                        )
                    &&& r < buf@.len() ==> virt_target(states[r as int], cr3, vaddr + r) is None
                },
    {
        let len = buf.len();
        let mut done: usize = 0;
        let table = PageTable::from_existing(cr3);
        let ghost mut states: Seq<MemReader> = seq![*self];
        while done < len
            invariant
                done <= len,
                len == buf@.len(),
                table.root() == cr3,
                states.len() == done + 1,
                states[0] == *old(self),
                states[done as int] == *self,
                forall|i: int|
                    0 <= i < done ==> virt_write_step(#[trigger] states[i], states[i + 1], cr3, vaddr + i, buf@[i]),
            decreases len - done,
        {
            let va = match vaddr.checked_add(done as u64) {
                Some(va) => va,
                None => {
                    assert(*final(self) == *self);
                    return done;
                },
            };
            let ghost cur = *self;
            match table.virt_to_phys(self, va) {
                Ok(Some((phys, _size))) => {
                    if !self.write_byte(phys, buf[done]) {
                        assert(*final(self) == *self);
                        return done;
                    }
                    proof {
                        states = states.push(*self);
                        assert(virt_write_step(states[done as int], states[done + 1], cr3, vaddr + done, buf@[done as int]));
                    }
                },
                _ => {
                    assert(*final(self) == *self);
                    return done;
                },
            }
            done = done + 1;
        }
        done
    }

    /// Read a little-endian 16-bit value at guest virtual address `addr`.
    pub fn read_virt_u16(&mut self, cr3: u64, addr: u64) -> (r: Result<u16, ()>)
        ensures
            *final(self) == *old(self),
            r == virt_u16(*old(self), cr3, addr as int).ok_or(()),
    {
        reveal(virt_u16);
        let mut buf: Vec<u8> = vec![0u8; 2];
        let n = self.read_virt(cr3, addr, buf.as_mut_slice());
        if n != 2 {
            return Err(());
        }
        assert(virt_byte(*self, cr3, addr + 0) == Some(buf@[0]));
        assert(virt_byte(*self, cr3, addr + 1) == Some(buf@[1]));
        Ok((buf[0] as u16) | ((buf[1] as u16) << 8u16))
    }

    /// Read a little-endian 32-bit value at guest virtual address `addr`.
    pub fn read_virt_u32(&mut self, cr3: u64, addr: u64) -> (r: Result<u32, ()>)
        ensures
            *final(self) == *old(self),
            r == virt_u32(*old(self), cr3, addr as int).ok_or(()),
    {
        reveal(virt_u32);
        let mut buf: Vec<u8> = vec![0u8; 4];
        let n = self.read_virt(cr3, addr, buf.as_mut_slice());
        if n != 4 {
            return Err(());
        }
        assert(virt_byte(*self, cr3, addr + 0) == Some(buf@[0]));
        assert(virt_byte(*self, cr3, addr + 1) == Some(buf@[1]));
        assert(virt_byte(*self, cr3, addr + 2) == Some(buf@[2]));
        assert(virt_byte(*self, cr3, addr + 3) == Some(buf@[3]));
        Ok((buf[0] as u32) | ((buf[1] as u32) << 8u32) | ((buf[2] as u32) << 16u32) | ((
        buf[3] as u32) << 24u32))
    }

    /// Read a little-endian 64-bit value at guest virtual address `addr`.
    pub fn read_virt_u64(&mut self, cr3: u64, addr: u64) -> (r: Result<u64, ()>)
        ensures
            *final(self) == *old(self),
            r == virt_u64(*old(self), cr3, addr as int).ok_or(()),
    {
        reveal(virt_u64);
        let mut buf: Vec<u8> = vec![0u8; 8];
        let n = self.read_virt(cr3, addr, buf.as_mut_slice());
        if n != 8 {
            return Err(());
        }
        assert(virt_byte(*self, cr3, addr + 0) == Some(buf@[0]));
        assert(virt_byte(*self, cr3, addr + 1) == Some(buf@[1]));
        assert(virt_byte(*self, cr3, addr + 2) == Some(buf@[2]));
        assert(virt_byte(*self, cr3, addr + 3) == Some(buf@[3]));
        assert(virt_byte(*self, cr3, addr + 4) == Some(buf@[4]));
        assert(virt_byte(*self, cr3, addr + 5) == Some(buf@[5]));
        assert(virt_byte(*self, cr3, addr + 6) == Some(buf@[6]));
        assert(virt_byte(*self, cr3, addr + 7) == Some(buf@[7]));
        Ok((buf[0] as u64) | ((buf[1] as u64) << 8u64) | ((buf[2] as u64) << 16u64) | ((
        buf[3] as u64) << 24u64) | ((buf[4] as u64) << 32u64) | ((buf[5] as u64) << 40u64)
            | ((buf[6] as u64) << 48u64) | ((buf[7] as u64) << 56u64))
    }
}

pub open spec fn s_byte(s: Seq<PhysRegion>, a: int) -> Option<u8> {
    match find_from(s, a, 0) {
        Some(i) => Some(s[i as int].bytes@[a - s[i as int].paddr]),
        None => None,
    }
}

} // verus!
