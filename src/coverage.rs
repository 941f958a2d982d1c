use vstd::prelude::*;

verus! {

/// Number of set bits of a byte.
pub open spec fn popcount8(b: u8) -> int {
    (b & 1) as int + ((b >> 1u8) & 1) as int + ((b >> 2u8) & 1) as int + ((b >> 3u8) & 1) as int + ((
    b >> 4u8) & 1) as int + ((b >> 5u8) & 1) as int + ((b >> 6u8) & 1) as int + ((b >> 7u8) & 1) as int
}

/// Number of set bits of a bitmap.
pub open spec fn popcount(s: Seq<u8>) -> int
    decreases s.len(),
{
    if s.len() == 0 {
        0
    } else {
        popcount(s.drop_last()) + popcount8(s.last())
    }
}

/// Offset `off` is marked in `bitmap` (one bit per byte of the image).
pub open spec fn seen(bitmap: Seq<u8>, off: int) -> bool {
    0 <= off < bitmap.len() * 8 && (bitmap[off / 8] >> ((off % 8) as u8)) & 1 == 1
}

proof fn lemma_set_bit8(b: u8, k: u8)
    requires
        k < 8,
        (b >> k) & 1 == 0,
    ensures
        popcount8(b | (1u8 << k)) == popcount8(b) + 1,
        forall|j: u8| j < 8 ==> (((b | (1u8 << k)) >> j) & 1 == 1) == (((b >> j) & 1 == 1) || j == k),
{
    assert(popcount8(b | (1u8 << k)) == popcount8(b) + 1) by (bit_vector)
        requires
            k < 8,
            (b >> k) & 1 == 0,
    ;
    assert forall|j: u8| j < 8 implies (((b | (1u8 << k)) >> j) & 1 == 1) == (((b >> j) & 1 == 1) || j
        == k) by {
        assert((((b | (1u8 << k)) >> j) & 1 == 1) == (((b >> j) & 1 == 1) || j == k)) by (bit_vector)
            requires
                k < 8,
                j < 8,
        ;
    }
}

proof fn lemma_popcount_update(s: Seq<u8>, i: int, v: u8)
    requires
        0 <= i < s.len(),
    ensures
        popcount(s.update(i, v)) == popcount(s) - popcount8(s[i]) + popcount8(v),
    decreases s.len(),
{
    let t = s.update(i, v);
    if i == s.len() - 1 {
        assert(t.drop_last() =~= s.drop_last());
    } else {
        lemma_popcount_update(s.drop_last(), i, v);
        assert(t.drop_last() =~= s.drop_last().update(i, v));
    }
}

proof fn lemma_popcount_zeros(s: Seq<u8>)
    requires
        forall|i: int| 0 <= i < s.len() ==> s[i] == 0,
    ensures
        popcount(s) == 0,
    decreases s.len(),
{
    if s.len() > 0 {
        lemma_popcount_zeros(s.drop_last());
        assert(popcount8(0) == 0) by (bit_vector);
    }
}

proof fn lemma_popcount_bound(s: Seq<u8>)
    ensures
        0 <= popcount(s) <= 8 * s.len(),
    decreases s.len(),
{
    if s.len() > 0 {
        lemma_popcount_bound(s.drop_last());
        let b = s.last();
        assert(0 <= popcount8(b) <= 8) by (bit_vector);
    }
}

/// Coverage of one module: one bit per byte of its image, and the number
/// of distinct offsets seen.
pub struct CoverageEntry {
    pub bitmap: Vec<u8>,
    pub unique: u64,
}

impl CoverageEntry {
    /// The count of distinct offsets equals the bits set.
    pub open spec fn wf(&self) -> bool {
        &&& self.unique == popcount(self.bitmap@)
        &&& self.bitmap@.len() <= 0x2000_0000
    }
}

/// One `record` of `offset` in module `ordinal` of image size `size` took
/// `before` to `after` and answered `r`: new coverage exactly when the
/// offset lies in the image and was not covered before; afterwards it is
/// covered, the module has a bitmap of (size + 7) / 8 bytes, and nothing
/// else changed.
pub open spec fn record_step(
    before: CoverageStore,
    after: CoverageStore,
    ordinal: int,
    size: int,
    offset: int,
    r: bool,
) -> bool {
    &&& r == (0 <= offset < size && !before.covered(ordinal, offset))
    &&& 0 <= offset < size ==> after.covered(ordinal, offset)
    &&& forall|o: int, off: int|
        (o != ordinal || off != offset) ==> #[trigger] after.covered(o, off) == before.covered(o, off)
    &&& has_entry(after.entries(), ordinal)
    &&& bitmap_of(after.entries(), ordinal).len() == (size + 7) / 8
    &&& forall|o: int|
        o != ordinal ==> #[trigger] has_entry(after.entries(), o) == has_entry(before.entries(), o)
            && bitmap_of(after.entries(), o) == bitmap_of(before.entries(), o)
}

/// Per-ordinal coverage bitmaps.
pub struct CoverageStore {
    entries: Vec<Option<CoverageEntry>>,
}

/// Coverage has been started for `ordinal`.
pub open spec fn has_entry(entries: Seq<Option<CoverageEntry>>, ordinal: int) -> bool {
    0 <= ordinal < entries.len() && entries[ordinal] is Some
}

/// The bitmap recorded for `ordinal`, empty if nothing was recorded.
pub open spec fn bitmap_of(entries: Seq<Option<CoverageEntry>>, ordinal: int) -> Seq<u8> {
    if 0 <= ordinal < entries.len() && entries[ordinal] is Some {
        entries[ordinal]->Some_0.bitmap@
    } else {
        Seq::empty()
    }
}

impl CoverageStore {
    pub closed spec fn entries(&self) -> Seq<Option<CoverageEntry>> {
        self.entries@
    }

    /// Offset `off` of module `ordinal` has been recorded.
    pub open spec fn covered(&self, ordinal: int, off: int) -> bool {
        seen(bitmap_of(self.entries(), ordinal), off)
    }

    /// Every entry's unique count is the population count of its bitmap.
    pub open spec fn wf(&self) -> bool {
        forall|i: int|
            0 <= i < self.entries().len() && #[trigger] self.entries()[i] is Some ==> self.entries()[i]->Some_0.wf()
    }

    /// An empty store.
    pub fn new() -> (r: CoverageStore)
        ensures
            r.wf(),
            forall|o: int, off: int| !r.covered(o, off),
            forall|o: int| !has_entry(r.entries(), o),
    {
        CoverageStore { entries: Vec::new() }
    }

    /// Number of distinct offsets recorded for `ordinal`.
    pub fn unique(&self, ordinal: usize) -> (r: u64)
        requires
            self.wf(),
        ensures
            r == popcount(bitmap_of(self.entries(), ordinal as int)),
    {
        if ordinal < self.entries.len() {
            match &self.entries[ordinal] {
                Some(e) => e.unique,
                None => {
                    proof {
                        lemma_popcount_zeros(Seq::<u8>::empty());
                    }
                    0
                },
            }
        } else {
            proof {
                lemma_popcount_zeros(Seq::<u8>::empty());
            }
            0
        }
    }

    /// Record that offset `offset` of the module with ordinal `ordinal` and
    /// image size `size` was executed. Returns true iff this is new coverage.
    /// An offset beyond the image is not recorded.
    pub fn record(&mut self, ordinal: usize, size: u32, offset: u64) -> (r: bool)
        requires
            old(self).wf(),
            ordinal < usize::MAX,
            has_entry(old(self).entries(), ordinal as int) ==> bitmap_of(old(self).entries(), ordinal as int).len()
                == (size as int + 7) / 8,
        ensures
            final(self).wf(),
            record_step(*old(self), *final(self), ordinal as int, size as int, offset as int, r),
            forall|o: int|
                0 <= o < final(self).entries().len() && o != ordinal ==> #[trigger] final(self).entries()[o] == if o
                    < old(self).entries().len() {
                    old(self).entries()[o]
                } else {
                    None
                },
    {
        let ghost e0 = self.entries@;
        while self.entries.len() <= ordinal
            invariant
                ordinal < usize::MAX,
                self.entries@.len() >= e0.len(),
                forall|o: int| 0 <= o < e0.len() ==> #[trigger] self.entries@[o] == e0[o],
                forall|o: int| e0.len() <= o < self.entries@.len() ==> #[trigger] self.entries@[o] is None,
            decreases ordinal + 1 - self.entries@.len(),
        {
            self.entries.push(None);
        }
        let ghost e1 = self.entries@;
        assert forall|o: int| #[trigger] bitmap_of(e1, o) == bitmap_of(e0, o) by {}
        let mut entry = None;
        self.entries.set_and_swap(ordinal, &mut entry);
        assert(entry == e1[ordinal as int]);
        assert(entry is Some ==> ordinal < e0.len() && has_entry(e0, ordinal as int));
        let ghost had = entry is Some;
        let mut ent = match entry {
            Some(e) => e,
            None => {
                let n: usize = ((size as u64 + 7) / 8) as usize;
                let bitmap: Vec<u8> = vec![0u8; n];
                proof {
                    lemma_popcount_zeros(bitmap@);
                }
                CoverageEntry { bitmap, unique: 0 }
            },
        };
        let ghost bm0 = ent.bitmap@;
        assert(had ==> bm0 == bitmap_of(e0, ordinal as int));
        assert(!had ==> bitmap_of(e0, ordinal as int).len() == 0);
        assert(ent.wf());
        let mut fresh = false;
        assert((offset / 8 < bm0.len()) == (offset < bm0.len() * 8)) by (nonlinear_arith);
        assert(bm0.len() == (size as int + 7) / 8);
        assert(offset < size ==> offset < bm0.len() * 8) by (nonlinear_arith)
            requires
                bm0.len() == (size as int + 7) / 8,
        ;
        if offset < size as u64 && offset / 8 < ent.bitmap.len() as u64 {
            let byte = (offset / 8) as usize;
            let bit = (offset % 8) as u8;
            let v = ent.bitmap[byte];
            if (v >> bit) & 1 == 0 {
                proof {
                    lemma_set_bit8(v, bit);
                    lemma_popcount_update(bm0, byte as int, v | (1u8 << bit));
                    lemma_popcount_bound(bm0);
                }
                ent.bitmap.set(byte, v | (1u8 << bit));
                proof {
                    lemma_popcount_bound(ent.bitmap@);
                    assert(popcount(ent.bitmap@) <= 8 * ent.bitmap@.len());
                }
                assert(ent.unique < u64::MAX);
                ent.unique = ent.unique + 1;
                fresh = true;
                proof {
                    let bm = ent.bitmap@;
                    assert forall|off: int| off != offset implies seen(bm, off) == seen(bm0, off) by {
                        if 0 <= off < bm.len() * 8 && off / 8 == byte {
                            assert(((off % 8) as u8) < 8);
                            assert(((off % 8) as u8) != bit);
                        }
                    }
                    assert(seen(bm, offset as int));
                }
            } else {
                let x = (v >> bit) & 1;
                assert(x == 1) by (bit_vector)
                    requires
                        x == (v >> bit) & 1,
                        x != 0,
                ;
                assert(seen(bm0, offset as int));
            }
        }
        let ghost bm = ent.bitmap@;
        proof {
            if !had {
                assert forall|off: int| !seen(bm0, off) by {
                    if 0 <= off < bm0.len() * 8 {
                        let z = bm0[off / 8];
                        assert(z == 0);
                        let k = (off % 8) as u8;
                        assert((z >> k) & 1 == 0) by (bit_vector)
                            requires
                                z == 0,
                        ;
                    }
                }
            }
            assert forall|off: int| #[trigger] seen(bitmap_of(e0, ordinal as int), off) == seen(bm0, off) by {}
            assert forall|off: int| off != offset implies seen(bm, off) == seen(bm0, off) by {}
        }
        let mut slot = Some(ent);
        self.entries.set_and_swap(ordinal, &mut slot);
        assert(bitmap_of(self.entries(), ordinal as int) == bm);
        proof {
            assert forall|o: int| 0 <= o < self.entries().len() && #[trigger] self.entries()[o] is Some implies self.entries()[o]->Some_0.wf() by {
                if o != ordinal {
                    assert(self.entries@[o] == e1[o]);
                    if o < e0.len() {
                        assert(e0[o] is Some);
                    }
                }
            }
        }
        fresh
    }
}

impl CoverageStore {
    /// `(ordinal, unique offsets)` of every module with coverage, in
    /// ascending order of unique offsets.
    pub fn summary(&self) -> (r: Vec<(usize, u64)>)
        requires
            self.wf(),
        ensures
            forall|i: int, j: int| 0 <= i <= j < r@.len() ==> #[trigger] r@[i].1 <= #[trigger] r@[j].1,
            forall|i: int|
                0 <= i < r@.len() ==> has_entry(self.entries(), (#[trigger] r@[i]).0 as int) && r@[i].1
                    == popcount(bitmap_of(self.entries(), r@[i].0 as int)),
            forall|o: int|
                #[trigger] has_entry(self.entries(), o) ==> exists|i: int| 0 <= i < r@.len() && (#[trigger] r@[i]).0 == o,
    {
        let mut out: Vec<(usize, u64)> = Vec::new();
        let n = self.entries.len();
        let mut o: usize = 0;
        while o < n
            invariant
                n == self.entries().len(),
                self.wf(),
                o <= n,
                forall|i: int, j: int| 0 <= i <= j < out@.len() ==> #[trigger] out@[i].1 <= #[trigger] out@[j].1,
                forall|i: int|
                    0 <= i < out@.len() ==> (#[trigger] out@[i]).0 < o && has_entry(self.entries(), out@[i].0 as int)
                        && out@[i].1 == popcount(bitmap_of(self.entries(), out@[i].0 as int)),
                forall|x: int|
                    0 <= x < o && #[trigger] has_entry(self.entries(), x) ==> exists|i: int|
                        0 <= i < out@.len() && (#[trigger] out@[i]).0 == x,
            decreases n - o,
        {
            match &self.entries[o] {
                Some(e) => {
                    let u = e.unique;
                    let ghost before = out@;
                    let mut k: usize = out.len();
                    while k > 0 && out[k - 1].1 > u
                        invariant
                            k <= out@.len(),
                            out@ == before,
                            forall|j: int| k <= j < out@.len() ==> #[trigger] out@[j].1 > u,
                        decreases k,
                    {
                        k = k - 1;
                    }
                    out.insert(k, (o, u));
                    proof {
                        let s = out@;
                        assert(s == before.insert(k as int, (o, u)));
                        assert forall|i: int, j: int| 0 <= i <= j < s.len() implies #[trigger] s[i].1
                            <= #[trigger] s[j].1 by {
                            if k > 0 {
                                assert(before[k - 1].1 <= u);
                            }
                        }
                        assert(has_entry(self.entries(), o as int));
                        assert forall|i: int| 0 <= i < s.len() implies (#[trigger] s[i]).0 < o + 1 && has_entry(
                            self.entries(),
                            s[i].0 as int,
                        ) && s[i].1 == popcount(bitmap_of(self.entries(), s[i].0 as int)) by {
                            if i < k {
                                assert(s[i] == before[i]);
                            } else if i > k {
                                assert(s[i] == before[i - 1]);
                            } else {
                                assert(self.entries()[o as int] is Some);
                            }
                        }
                        assert forall|x: int|
                            0 <= x < o + 1 && #[trigger] has_entry(self.entries(), x) implies exists|i: int|
                                0 <= i < s.len() && (#[trigger] s[i]).0 == x by {
                            if x < o {
                                let i = choose|i: int| 0 <= i < before.len() && (#[trigger] before[i]).0 == x;
                                if i < k {
                                    assert(s[i] == before[i]);
                                } else {
                                    assert(s[i + 1] == before[i]);
                                }
                            } else {
                                assert(s[k as int].0 == x);
                            }
                        }
                    }
                },
                None => {},
            }
            o = o + 1;
        }
        out
    }
}

} // verus!
