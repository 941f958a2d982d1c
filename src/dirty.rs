use vstd::prelude::*;

verus! {

/// Bytes of guest physical memory covered by one L1 bit (1 MiB).
pub const L1_GRANULE: u64 = 0x10_0000;
/// Bytes covered by one L2 bit (one 4 KiB page).
pub const L2_GRANULE: u64 = 0x1000;
/// L2 words (64 pages each) under one L1 bit.
pub const L2_WORDS_PER_L1_BIT: u64 = 4;

/// Bit `b` of `w`.
pub open spec fn bit_set(w: u64, b: u64) -> bool {
    (w >> b) & 1 == 1
}

/// Page `p` is marked dirty in the L2 table.
pub open spec fn l2_dirty(l2: Seq<u64>, p: int) -> bool {
    0 <= p < l2.len() * 64 && bit_set(l2[p / 64], (p % 64) as u64)
}

/// The 1 MiB granule `g` is marked dirty in the L1 table.
pub open spec fn l1_dirty(l1: Seq<u64>, g: int) -> bool {
    0 <= g < l1.len() * 64 && bit_set(l1[g / 64], (g % 64) as u64)
}

/// The two-level invariant: an L2 bit set implies its covering L1 bit is set.
pub open spec fn dirty_consistent(l1: Seq<u64>, l2: Seq<u64>) -> bool {
    &&& l2.len() == l1.len() * 256
    &&& forall|p: int| #[trigger] l2_dirty(l2, p) ==> l1_dirty(l1, p / 256)
}

/// Every word of `s` is zero.
pub open spec fn all_zero(s: Seq<u64>) -> bool {
    forall|i: int| 0 <= i < s.len() ==> #[trigger] s[i] == 0
}

proof fn lemma_bits(w: u64, b: u64, c: u64)
    requires
        b < 64,
        c < 64,
    ensures
        bit_set(w & !(1u64 << b), c) == (bit_set(w, c) && c != b),
        bit_set(w | (1u64 << b), c) == (bit_set(w, c) || c == b),
        !bit_set(0, c),
        (w & (1u64 << b) != 0) == bit_set(w, b),
{
    assert(bit_set(w & !(1u64 << b), c) == (bit_set(w, c) && c != b)) by (bit_vector)
        requires
            b < 64,
            c < 64,
    ;
    assert(bit_set(w | (1u64 << b), c) == (bit_set(w, c) || c == b)) by (bit_vector)
        requires
            b < 64,
            c < 64,
    ;
    assert(!bit_set(0, c)) by (bit_vector);
    assert((w & (1u64 << b) != 0) == bit_set(w, b)) by (bit_vector)
        requires
            b < 64,
    ;
}

proof fn lemma_zero_word(w: u64)
    requires
        w != 0,
    ensures
        exists|c: u64| c < 64 && bit_set(w, c),
{
    if !(exists|c: u64| c < 64 && bit_set(w, c)) {
        assert forall|c: u64| c < 64 implies !bit_set(w, c) by {}
        assert(w == 0) by (bit_vector)
            requires
                !bit_set(w, 0), !bit_set(w, 1), !bit_set(w, 2), !bit_set(w, 3), !bit_set(w, 4),
                !bit_set(w, 5), !bit_set(w, 6), !bit_set(w, 7), !bit_set(w, 8), !bit_set(w, 9),
                !bit_set(w, 10), !bit_set(w, 11), !bit_set(w, 12), !bit_set(w, 13), !bit_set(w, 14),
                !bit_set(w, 15), !bit_set(w, 16), !bit_set(w, 17), !bit_set(w, 18), !bit_set(w, 19),
                !bit_set(w, 20), !bit_set(w, 21), !bit_set(w, 22), !bit_set(w, 23), !bit_set(w, 24),
                !bit_set(w, 25), !bit_set(w, 26), !bit_set(w, 27), !bit_set(w, 28), !bit_set(w, 29),
                !bit_set(w, 30), !bit_set(w, 31), !bit_set(w, 32), !bit_set(w, 33), !bit_set(w, 34),
                !bit_set(w, 35), !bit_set(w, 36), !bit_set(w, 37), !bit_set(w, 38), !bit_set(w, 39),
                !bit_set(w, 40), !bit_set(w, 41), !bit_set(w, 42), !bit_set(w, 43), !bit_set(w, 44),
                !bit_set(w, 45), !bit_set(w, 46), !bit_set(w, 47), !bit_set(w, 48), !bit_set(w, 49),
                !bit_set(w, 50), !bit_set(w, 51), !bit_set(w, 52), !bit_set(w, 53), !bit_set(w, 54),
                !bit_set(w, 55), !bit_set(w, 56), !bit_set(w, 57), !bit_set(w, 58), !bit_set(w, 59),
                !bit_set(w, 60), !bit_set(w, 61), !bit_set(w, 62), !bit_set(w, 63),
        ;
    }
}

proof fn lemma_page_of(j: int, len: int)
    requires
        0 <= j < len,
        len % 4096 == 0,
    ensures
        j / 4096 < len / 4096,
{
    assert(j / 4096 < len / 4096) by (nonlinear_arith)
        requires
            0 <= j < len,
            len % 4096 == 0,
    ;
}

/// Copy page `page` of `original` over `memory`, if the page is inside it.
fn restore_page(original: &[u8], memory: &mut [u8], page: u64)
    requires
        original@.len() == old(memory)@.len(),
        old(memory)@.len() % 4096 == 0,
    ensures
        final(memory)@.len() == old(memory)@.len(),
        forall|j: int|
            0 <= j < old(memory)@.len() ==> #[trigger] final(memory)@[j] == if j / 4096 == page {
                original@[j]
            } else {
                old(memory)@[j]
            },
{
    let len = memory.len();
    if page >= (len / 4096) as u64 {
        proof {
            assert forall|j: int| 0 <= j < len implies #[trigger] memory@[j] == if j / 4096 == page {
                original@[j]
            } else {
                memory@[j]
            } by {
                lemma_page_of(j, len as int);
            }
        }
        assert(final(memory)@ == memory@);
        return;
    }
    let start: usize = (page as usize) * 4096;
    let mut k: usize = 0;
    while k < 4096
        invariant
            len == memory@.len(),
            len == original@.len(),
            len % 4096 == 0,
            page < len / 4096,
            start == page * 4096,
            k <= 4096,
            forall|j: int|
                0 <= j < len ==> #[trigger] memory@[j] == if j / 4096 == page && j < start + k {
                    original@[j]
                } else {
                    old(memory)@[j]
                },
        decreases 4096 - k,
    {
        memory[start + k] = original[start + k];
        k = k + 1;
    }
}

/// Restore every page marked in L2 word `w`, clearing the word.
fn restore_l2_word(original: &[u8], memory: &mut [u8], l2: &mut [u64], w: usize)
    requires
        original@.len() == old(memory)@.len(),
        old(memory)@.len() % 4096 == 0,
        old(l2)@.len() * 64 <= usize::MAX,
        w < old(l2)@.len(),
    ensures
        final(memory)@.len() == old(memory)@.len(),
        final(l2)@ == old(l2)@.update(w as int, 0),
        forall|j: int|
            0 <= j < old(memory)@.len() ==> #[trigger] final(memory)@[j] == if j / 4096 / 64 == w
                && l2_dirty(old(l2)@, j / 4096) {
                original@[j]
            } else {
                old(memory)@[j]
            },
{
    let ghost m0 = memory@;
    let ghost l0 = l2@;
    let mut b: u64 = 0;
    while b < 64
        invariant
            original@.len() == m0.len(),
            m0.len() % 4096 == 0,
            l0.len() * 64 <= usize::MAX,
            memory@.len() == m0.len(),
            l2@.len() == l0.len(),
            w < l0.len(),
            b <= 64,
            forall|i: int| 0 <= i < l0.len() && i != w ==> #[trigger] l2@[i] == l0[i],
            forall|c: u64| c < 64 ==> #[trigger] bit_set(l2@[w as int], c) == (bit_set(l0[w as int], c) && c >= b),
            forall|j: int|
                0 <= j < m0.len() ==> #[trigger] memory@[j] == if j / 4096 / 64 == w && l2_dirty(l0, j / 4096)
                    && (j / 4096) % 64 < b {
                    original@[j]
                } else {
                    m0[j]
                },
        decreases 64 - b,
    {
        let word = l2[w];
        proof {
            lemma_bits(word, b, b);
        }
        if word & (1u64 << b) != 0 {
            let page: u64 = (w as u64) * 64 + b;
            restore_page(original, memory, page);
            l2[w] = word & !(1u64 << b);
        }
        proof {
            assert forall|c: u64| c < 64 implies #[trigger] bit_set(l2@[w as int], c) == (bit_set(l0[w as int], c) && c >= b + 1) by {
                lemma_bits(word, b, c);
            }
            assert forall|j: int| 0 <= j < m0.len() implies #[trigger] memory@[j] == if j / 4096 / 64 == w
                && l2_dirty(l0, j / 4096) && (j / 4096) % 64 < b + 1 {
                original@[j]
            } else {
                m0[j]
            } by {
                let p = j / 4096;
                if p / 64 == w && (p % 64) as u64 == b {
                    assert(p == w * 64 + b);
                }
            }
        }
        b = b + 1;
    }
    l2[w] = 0;
    proof {
        assert(l2@ =~= l0.update(w as int, 0));
    }
}

/// Restore every page dirty under L1 bit `g` (a 1 MiB granule), clearing
/// its L2 words.
fn restore_granule(original: &[u8], memory: &mut [u8], l2: &mut [u64], g: usize)
    requires
        original@.len() == old(memory)@.len(),
        old(memory)@.len() % 4096 == 0,
        old(l2)@.len() * 64 <= usize::MAX,
        (g + 1) * 4 <= old(l2)@.len(),
    ensures
        final(memory)@.len() == old(memory)@.len(),
        final(l2)@.len() == old(l2)@.len(),
        forall|i: int|
            0 <= i < old(l2)@.len() ==> #[trigger] final(l2)@[i] == if i / 4 == g {
                0
            } else {
                old(l2)@[i]
            },
        forall|j: int|
            0 <= j < old(memory)@.len() ==> #[trigger] final(memory)@[j] == if j / 4096 / 256 == g
                && l2_dirty(old(l2)@, j / 4096) {
                original@[j]
            } else {
                old(memory)@[j]
            },
{
    let ghost m0 = memory@;
    let ghost l0 = l2@;
    let mut k: usize = 0;
    while k < 4
        invariant
            original@.len() == m0.len(),
            m0.len() % 4096 == 0,
            l0.len() * 64 <= usize::MAX,
            memory@.len() == m0.len(),
            l2@.len() == l0.len(),
            (g + 1) * 4 <= l0.len(),
            k <= 4,
            forall|i: int|
                0 <= i < l0.len() ==> #[trigger] l2@[i] == if i / 4 == g && i % 4 < k {
                    0
                } else {
                    l0[i]
                },
            forall|j: int|
                0 <= j < m0.len() ==> #[trigger] memory@[j] == if j / 4096 / 256 == g && l2_dirty(l0, j / 4096)
                    && (j / 4096 / 64) % 4 < k {
                    original@[j]
                } else {
                    m0[j]
                },
        decreases 4 - k,
    {
        let w = g * 4 + k;
        let ghost mk = memory@;
        let ghost lk = l2@;
        restore_l2_word(original, memory, l2, w);
        proof {
            assert forall|j: int| 0 <= j < m0.len() implies #[trigger] memory@[j] == if j / 4096 / 256 == g
                && l2_dirty(l0, j / 4096) && (j / 4096 / 64) % 4 < k + 1 {
                original@[j]
            } else {
                m0[j]
            } by {
                let p = j / 4096;
                assert(p / 256 == p / 64 / 4);
                if p / 64 == w {
                    assert(lk[w as int] == l0[w as int]);
                }
            }
        }
        k = k + 1;
    }
}

/// Restore, from `original_memory`, every page of `memory` marked dirty in
/// the two-level bitmap, clearing both tables as it goes.
pub fn reset_dirty_pages(
    original_memory: &[u8],
    memory: &mut [u8],
    dirty_bits_l1: &mut [u64],
    dirty_bits_l2: &mut [u64],
)
    requires
        original_memory@.len() == old(memory)@.len(),
        old(memory)@.len() % 4096 == 0,
        old(dirty_bits_l2)@.len() * 64 <= usize::MAX,
        dirty_consistent(old(dirty_bits_l1)@, old(dirty_bits_l2)@),
    ensures
        final(memory)@.len() == old(memory)@.len(),
        final(dirty_bits_l1)@.len() == old(dirty_bits_l1)@.len(),
        final(dirty_bits_l2)@.len() == old(dirty_bits_l2)@.len(),
        all_zero(final(dirty_bits_l1)@),
        all_zero(final(dirty_bits_l2)@),
        forall|j: int|
            0 <= j < old(memory)@.len() ==> #[trigger] final(memory)@[j] == if l2_dirty(
                old(dirty_bits_l2)@,
                j / 4096,
            ) {
                original_memory@[j]
            } else {
                old(memory)@[j]
            },
{
    let ghost m0 = memory@;
    let ghost l1_0 = dirty_bits_l1@;
    let ghost l2_0 = dirty_bits_l2@;
    let n1 = dirty_bits_l1.len();
    let mut i: usize = 0;
    while i < n1
        invariant
            n1 == l1_0.len(),
            dirty_bits_l1@.len() == n1,
            dirty_bits_l2@.len() == l2_0.len(),
            memory@.len() == m0.len(),
            m0.len() % 4096 == 0,
            l2_0.len() * 64 <= usize::MAX,
            original_memory@.len() == m0.len(),
            dirty_consistent(l1_0, l2_0),
            i <= n1,
            forall|x: int| 0 <= x < n1 ==> #[trigger] dirty_bits_l1@[x] == if x < i { 0 } else { l1_0[x] },
            forall|x: int|
                0 <= x < l2_0.len() ==> #[trigger] dirty_bits_l2@[x] == if x / 256 < i { 0 } else { l2_0[x] },
            forall|j: int|
                0 <= j < m0.len() ==> #[trigger] memory@[j] == if l2_dirty(l2_0, j / 4096) && j / 4096 / 16384 < i {
                    original_memory@[j]
                } else {
                    m0[j]
                },
        decreases n1 - i,
    {
        let word = dirty_bits_l1[i];
        if word != 0 {
            let mut b: u64 = 0;
            while b < 64
                invariant
                    n1 == l1_0.len(),
                    i < n1,
                    word == l1_0[i as int],
                    dirty_bits_l1@.len() == n1,
                    dirty_bits_l2@.len() == l2_0.len(),
                    memory@.len() == m0.len(),
                    m0.len() % 4096 == 0,
                    l2_0.len() * 64 <= usize::MAX,
                    original_memory@.len() == m0.len(),
                    dirty_consistent(l1_0, l2_0),
                    b <= 64,
                    forall|x: int| 0 <= x < n1 ==> #[trigger] dirty_bits_l1@[x] == if x < i { 0 } else { l1_0[x] },
                    forall|x: int|
                        0 <= x < l2_0.len() ==> #[trigger] dirty_bits_l2@[x] == if x / 256 < i || (x / 256 == i
                            && (x / 4) % 64 < b && bit_set(word, ((x / 4) % 64) as u64)) {
                            0
                        } else {
                            l2_0[x]
                        },
                    forall|j: int|
                        0 <= j < m0.len() ==> #[trigger] memory@[j] == if l2_dirty(l2_0, j / 4096) && (j / 4096
                            / 16384 < i || (j / 4096 / 16384 == i && (j / 4096 / 256) % 64 < b)) {
                            original_memory@[j]
                        } else {
                            m0[j]
                        },
                decreases 64 - b,
            {
                proof {
                    lemma_bits(word, b, b);
                }
                if word & (1u64 << b) != 0 {
                    let g: usize = i * 64 + b as usize;
                    let ghost lb = dirty_bits_l2@;
                    let ghost mb = memory@;
                    restore_granule(original_memory, memory, dirty_bits_l2, g);
                    proof {
                        assert forall|x: int| 0 <= x < l2_0.len() implies #[trigger] dirty_bits_l2@[x] == if x / 256 < i
                            || (x / 256 == i && (x / 4) % 64 < b + 1 && bit_set(word, ((x / 4) % 64) as u64)) {
                            0
                        } else {
                            l2_0[x]
                        } by {
                            assert(x / 4 / 64 == x / 256);
                        }
                        assert forall|j: int| 0 <= j < m0.len() implies #[trigger] memory@[j] == if l2_dirty(
                            l2_0,
                            j / 4096,
                        ) && (j / 4096 / 16384 < i || (j / 4096 / 16384 == i && (j / 4096 / 256) % 64 < b + 1)) {
                            original_memory@[j]
                        } else {
                            m0[j]
                        } by {
                            let p = j / 4096;
                            assert(p / 256 / 64 == p / 16384);
                            if p / 256 == g {
                                assert(p / 64 / 4 == p / 256);
                                assert(lb[p / 64] == l2_0[p / 64]);
                            }
                        }
                    }
                } else {
                    proof {
                        assert forall|j: int| 0 <= j < m0.len() implies #[trigger] memory@[j] == if l2_dirty(
                            l2_0,
                            j / 4096,
                        ) && (j / 4096 / 16384 < i || (j / 4096 / 16384 == i && (j / 4096 / 256) % 64 < b + 1)) {
                            original_memory@[j]
                        } else {
                            m0[j]
                        } by {
                            let p = j / 4096;
                            assert(p / 256 / 64 == p / 16384);
                            if p / 16384 == i && (p / 256) % 64 == b && l2_dirty(l2_0, p) {
                                assert(l1_dirty(l1_0, p / 256));
                            }
                        }
                    }
                }
                b = b + 1;
            }
            dirty_bits_l1[i] = 0;
            proof {
                assert forall|x: int| 0 <= x < l2_0.len() implies #[trigger] dirty_bits_l2@[x] == if x / 256 < i + 1 {
                    0
                } else {
                    l2_0[x]
                } by {
                    if x / 256 == i && !bit_set(word, ((x / 4) % 64) as u64) {
                        assert(l2_0[x] == 0) by {
                            if l2_0[x] != 0 {
                                lemma_zero_word(l2_0[x]);
                                let c = choose|c: u64| c < 64 && bit_set(l2_0[x], c);
                                let p = x * 64 + c;
                                assert(p / 64 == x);
                                assert(l2_dirty(l2_0, p));
                                assert(p / 256 == i * 64 + (x / 4) % 64);
                            }
                        }
                    }
                }
            }
        } else {
            proof {
                assert forall|x: int| 0 <= x < l2_0.len() implies #[trigger] dirty_bits_l2@[x] == if x / 256 < i + 1 {
                    0
                } else {
                    l2_0[x]
                } by {
                    if x / 256 == i {
                        assert(l2_0[x] == 0) by {
                            if l2_0[x] != 0 {
                                lemma_zero_word(l2_0[x]);
                                let c = choose|c: u64| c < 64 && bit_set(l2_0[x], c);
                                let p = x * 64 + c;
                                assert(p / 64 == x);
                                assert(l2_dirty(l2_0, p));
                                lemma_bits(0, 0, ((p / 256) % 64) as u64);
                            }
                        }
                    }
                }
                assert forall|j: int| 0 <= j < m0.len() implies #[trigger] memory@[j] == if l2_dirty(l2_0, j / 4096)
                    && j / 4096 / 16384 < i + 1 {
                    original_memory@[j]
                } else {
                    m0[j]
                } by {
                    let p = j / 4096;
                    if p / 16384 == i && l2_dirty(l2_0, p) {
                        assert(l1_dirty(l1_0, p / 256));
                        assert(p / 256 / 64 == i);
                        lemma_bits(0, 0, ((p / 256) % 64) as u64);
                    }
                }
            }
        }
        i = i + 1;
    }
}

/// Page `p` is marked in the hypervisor's bitmap for the region of
/// `npages` pages starting at page `base`.
pub open spec fn hv_dirty(bitmap: Seq<u64>, base: int, npages: int, p: int) -> bool {
    base <= p < base + npages && bit_set(bitmap[(p - base) / 64], ((p - base) % 64) as u64)
}

/// Merge the hypervisor's per-page dirty bitmap of the region at `paddr`
/// of `size` bytes into the two-level table.
pub fn merge_dirty_bitmap(
    dirty_bits_l1: &mut [u64],
    dirty_bits_l2: &mut [u64],
    paddr: u64,
    size: u64,
    bitmap: &[u64],
)
    requires
        paddr % 4096 == 0,
        size % 4096 == 0,
        bitmap@.len() * 64 >= size as int / 4096,
        (paddr + size) / 4096 <= old(dirty_bits_l2)@.len() * 64,
        old(dirty_bits_l2)@.len() * 64 <= usize::MAX,
        dirty_consistent(old(dirty_bits_l1)@, old(dirty_bits_l2)@),
    ensures
        final(dirty_bits_l1)@.len() == old(dirty_bits_l1)@.len(),
        final(dirty_bits_l2)@.len() == old(dirty_bits_l2)@.len(),
        dirty_consistent(final(dirty_bits_l1)@, final(dirty_bits_l2)@),
        forall|p: int|
            #[trigger] l2_dirty(final(dirty_bits_l2)@, p) == (l2_dirty(old(dirty_bits_l2)@, p) || hv_dirty(
                bitmap@,
                paddr as int / 4096,
                size as int / 4096,
                p,
            )),
        forall|g: int|
            #[trigger] l1_dirty(final(dirty_bits_l1)@, g) == (l1_dirty(old(dirty_bits_l1)@, g) || exists|p: int|
                p / 256 == g && #[trigger] hv_dirty(bitmap@, paddr as int / 4096, size as int / 4096, p)),
{
    let ghost l1_0 = dirty_bits_l1@;
    let ghost l2_0 = dirty_bits_l2@;
    let base: u64 = paddr / 4096;
    let npages: u64 = size / 4096;
    let ghost b0 = base as int;
    let ghost n0 = npages as int;
    let mut k: u64 = 0;
    while k < npages
        invariant
            base == paddr as int / 4096,
            npages == size as int / 4096,
            b0 == base,
            n0 == npages,
            k <= npages,
            bitmap@.len() * 64 >= npages,
            base + npages <= l2_0.len() * 64,
            l2_0.len() * 64 <= usize::MAX,
            l2_0.len() == l1_0.len() * 256,
            dirty_bits_l1@.len() == l1_0.len(),
            dirty_bits_l2@.len() == l2_0.len(),
            dirty_consistent(dirty_bits_l1@, dirty_bits_l2@),
            forall|p: int|
                #[trigger] l2_dirty(dirty_bits_l2@, p) == (l2_dirty(l2_0, p) || (p < b0 + k && hv_dirty(
                    bitmap@,
                    b0,
                    n0,
                    p,
                ))),
            forall|g: int|
                #[trigger] l1_dirty(dirty_bits_l1@, g) == (l1_dirty(l1_0, g) || exists|p: int|
                    p / 256 == g && p < b0 + k && #[trigger] hv_dirty(bitmap@, b0, n0, p)),
        decreases npages - k,
    {
        let word = bitmap[(k / 64) as usize];
        let bit = k % 64;
        proof {
            lemma_bits(word, bit, bit);
        }
        if word & (1u64 << bit) != 0 {
            let page = base + k;
            let w2 = (page / 64) as usize;
            let b2 = page % 64;
            let g = page / 256;
            let w1 = (g / 64) as usize;
            let b1 = g % 64;
            let ghost l1_prev = dirty_bits_l1@;
            let ghost l2_prev = dirty_bits_l2@;
            let old2 = dirty_bits_l2[w2];
            dirty_bits_l2[w2] = old2 | (1u64 << b2);
            let old1 = dirty_bits_l1[w1];
            dirty_bits_l1[w1] = old1 | (1u64 << b1);
            proof {
                assert(hv_dirty(bitmap@, b0, n0, page as int));
                assert forall|p: int| #[trigger] l2_dirty(dirty_bits_l2@, p) == (l2_dirty(l2_prev, p) || p == page) by {
                    if 0 <= p < l2_0.len() * 64 && p / 64 == w2 {
                        lemma_bits(old2, b2, (p % 64) as u64);
                    }
                }
                assert forall|x: int| #[trigger] l1_dirty(dirty_bits_l1@, x) == (l1_dirty(l1_prev, x) || x == g) by {
                    if 0 <= x < l1_0.len() * 64 && x / 64 == w1 {
                        lemma_bits(old1, b1, (x % 64) as u64);
                    }
                }
                assert forall|p: int|
                    #[trigger] l2_dirty(dirty_bits_l2@, p) == (l2_dirty(l2_0, p) || (p < b0 + k + 1 && hv_dirty(
                        bitmap@,
                        b0,
                        n0,
                        p,
                    ))) by {}
                assert forall|x: int|
                    #[trigger] l1_dirty(dirty_bits_l1@, x) == (l1_dirty(l1_0, x) || exists|p: int|
                        p / 256 == x && p < b0 + k + 1 && #[trigger] hv_dirty(bitmap@, b0, n0, p)) by {
                    if x == g {
                        assert(page / 256 == x && page < b0 + k + 1 && hv_dirty(bitmap@, b0, n0, page as int));
                    }
                }
            }
        } else {
            proof {
                assert(!hv_dirty(bitmap@, b0, n0, b0 + k));
                assert forall|x: int|
                    #[trigger] l1_dirty(dirty_bits_l1@, x) == (l1_dirty(l1_0, x) || exists|p: int|
                        p / 256 == x && p < b0 + k + 1 && #[trigger] hv_dirty(bitmap@, b0, n0, p)) by {
                    if exists|p: int| p / 256 == x && p < b0 + k + 1 && #[trigger] hv_dirty(bitmap@, b0, n0, p) {
                        let p = choose|p: int| p / 256 == x && p < b0 + k + 1 && #[trigger] hv_dirty(bitmap@, b0, n0, p);
                        assert(p < b0 + k);
                    }
                }
            }
        }
        k = k + 1;
    }
    proof {
        assert forall|g: int|
            #[trigger] l1_dirty(dirty_bits_l1@, g) == (l1_dirty(l1_0, g) || exists|p: int|
                p / 256 == g && #[trigger] hv_dirty(bitmap@, b0, n0, p)) by {
            if exists|p: int| p / 256 == g && #[trigger] hv_dirty(bitmap@, b0, n0, p) {
                let p = choose|p: int| p / 256 == g && #[trigger] hv_dirty(bitmap@, b0, n0, p);
                assert(p < b0 + k);
            }
        }
    }
}

/// Set the L1 bit of every granule that has a page marked in L2, so that
/// the two-level invariant holds.
pub fn sync_l1_from_l2(dirty_bits_l1: &mut [u64], dirty_bits_l2: &[u64])
    requires
        dirty_bits_l2@.len() == old(dirty_bits_l1)@.len() * 256,
    ensures
        final(dirty_bits_l1)@.len() == old(dirty_bits_l1)@.len(),
        dirty_consistent(final(dirty_bits_l1)@, dirty_bits_l2@),
        forall|g: int|
            #[trigger] l1_dirty(final(dirty_bits_l1)@, g) == (l1_dirty(old(dirty_bits_l1)@, g) || exists|p: int|
                p / 256 == g && #[trigger] l2_dirty(dirty_bits_l2@, p)),
{
    let ghost l1_0 = dirty_bits_l1@;
    let l2 = dirty_bits_l2;
    let n = l2.len();
    let mut w: usize = 0;
    while w < n
        invariant
            n == l2@.len(),
            n == l1_0.len() * 256,
            dirty_bits_l1@.len() == l1_0.len(),
            w <= n,
            forall|p: int| 0 <= p < w * 64 && #[trigger] l2_dirty(l2@, p) ==> l1_dirty(dirty_bits_l1@, p / 256),
            forall|g: int|
                #[trigger] l1_dirty(dirty_bits_l1@, g) == (l1_dirty(l1_0, g) || exists|p: int|
                    p / 256 == g && p < w * 64 && #[trigger] l2_dirty(l2@, p)),
        decreases n - w,
    {
        let word = l2[w];
        if word != 0 {
            let g = w / 4;
            let w1 = g / 64;
            let b1 = (g % 64) as u64;
            let old1 = dirty_bits_l1[w1];
            let ghost prev = dirty_bits_l1@;
            dirty_bits_l1[w1] = old1 | (1u64 << b1);
            proof {
                lemma_zero_word(word);
                let c = choose|c: u64| c < 64 && bit_set(word, c);
                let q = w * 64 + c;
                assert(q / 64 == w);
                assert(l2_dirty(l2@, q as int));
                assert(q / 256 == g);
                assert forall|x: int| #[trigger] l1_dirty(dirty_bits_l1@, x) == (l1_dirty(prev, x) || x == g) by {
                    if 0 <= x < l1_0.len() * 64 && x / 64 == w1 {
                        lemma_bits(old1, b1, (x % 64) as u64);
                    }
                }
                assert forall|x: int|
                    #[trigger] l1_dirty(dirty_bits_l1@, x) == (l1_dirty(l1_0, x) || exists|p: int|
                        p / 256 == x && p < (w + 1) * 64 && #[trigger] l2_dirty(l2@, p)) by {
                    if x == g {
                        assert(q / 256 == x && q < (w + 1) * 64 && l2_dirty(l2@, q as int));
                    }
                    if exists|p: int| p / 256 == x && p < (w + 1) * 64 && #[trigger] l2_dirty(l2@, p) {
                        let p = choose|p: int| p / 256 == x && p < (w + 1) * 64 && #[trigger] l2_dirty(l2@, p);
                        if p >= w * 64 {
                            assert(p / 64 == w);
                            assert(p / 256 == g);
                        }
                    }
                }
                assert forall|p: int| 0 <= p < (w + 1) * 64 && #[trigger] l2_dirty(l2@, p) implies l1_dirty(
                    dirty_bits_l1@,
                    p / 256,
                ) by {
                    if p >= w * 64 {
                        assert(p / 64 == w);
                        assert(p / 256 == g);
                    }
                }
            }
        } else {
            proof {
                assert forall|p: int| w * 64 <= p < (w + 1) * 64 implies !#[trigger] l2_dirty(l2@, p) by {
                    assert(p / 64 == w);
                    lemma_bits(0, 0, (p % 64) as u64);
                }
                assert forall|x: int|
                    #[trigger] l1_dirty(dirty_bits_l1@, x) == (l1_dirty(l1_0, x) || exists|p: int|
                        p / 256 == x && p < (w + 1) * 64 && #[trigger] l2_dirty(l2@, p)) by {
                    if exists|p: int| p / 256 == x && p < (w + 1) * 64 && #[trigger] l2_dirty(l2@, p) {
                        let p = choose|p: int| p / 256 == x && p < (w + 1) * 64 && #[trigger] l2_dirty(l2@, p);
                        assert(p < w * 64);
                    }
                }
            }
        }
        w = w + 1;
    }
    proof {
        assert forall|p: int| #[trigger] l2_dirty(l2@, p) implies l1_dirty(dirty_bits_l1@, p / 256) by {}
        assert forall|g: int|
            #[trigger] l1_dirty(dirty_bits_l1@, g) == (l1_dirty(l1_0, g) || exists|p: int|
                p / 256 == g && #[trigger] l2_dirty(l2@, p)) by {
            if exists|p: int| p / 256 == g && #[trigger] l2_dirty(l2@, p) {
                let p = choose|p: int| p / 256 == g && #[trigger] l2_dirty(l2@, p);
                assert(p < n * 64);
            }
        }
    }
}

} // verus!
