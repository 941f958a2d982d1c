//! Properties that relate several operations of the library.
use vstd::prelude::*;
use crate::coverage::{CoverageStore, record_step};
use crate::dirty::l2_dirty;
use crate::disk::{DiskError, VirtualDisk, block_in_range, read_source};
use crate::modlist::{extends, tied};
use crate::win32::{ModuleEntry, ModuleList, OrdinalLookup, disjoint_modules, entry_contains};

verus! {

/// Restoring after a harvest brings memory back to the original: if every
/// byte that differs from the original lies in a page marked dirty, then
/// memory restored from the marked pages (what `reset_dirty_pages` yields)
/// equals the original byte for byte.
pub proof fn lemma_reset_restores_original(
    original: Seq<u8>,
    before: Seq<u8>,
    after: Seq<u8>,
    l2: Seq<u64>,
)
    requires
        original.len() == before.len(),
        after.len() == before.len(),
        forall|j: int| 0 <= j < before.len() && before[j] != original[j] ==> l2_dirty(l2, j / 4096),
        forall|j: int|
            0 <= j < before.len() ==> #[trigger] after[j] == if l2_dirty(l2, j / 4096) {
                original[j]
            } else {
                before[j]
            },
    ensures
        after == original,
{
    assert(after =~= original);
}

/// In a list of disjoint modules ordered by base, `find_module` (and so
/// `get_modoff`) finds a module exactly when some module contains the
/// address, and it finds that module.
pub proof fn lemma_modoff_exact(list: ModuleList, vaddr: u64)
    requires
        list.wf(),
        disjoint_modules(list.entries()),
    ensures
        list.find_module_spec(vaddr) is Some <==> exists|i: int|
            0 <= i < list.entries().len() && entry_contains(#[trigger] list.entries()[i], vaddr),
        forall|i: int|
            0 <= i < list.entries().len() && entry_contains(#[trigger] list.entries()[i], vaddr)
                ==> list.find_module_spec(vaddr) == Some(i),
{
    let s = list.entries();
    assert forall|i: int| 0 <= i < s.len() && entry_contains(#[trigger] s[i], vaddr) implies (forall|j: int|
        i < j < s.len() ==> #[trigger] s[j].base > vaddr) by {
        assert forall|j: int| i < j < s.len() implies #[trigger] s[j].base > vaddr by {
            assert(s[i].base + s[i].len <= s[j].base);
        }
    }
    assert forall|i: int|
        0 <= i < s.len() && entry_contains(#[trigger] s[i], vaddr) implies list.find_module_spec(vaddr) == Some(i) by {
        let k = list.find_module_spec(vaddr)->Some_0;
        assert(entry_contains(s[k], vaddr));
        if k < i {
            assert(s[k].base + s[k].len <= s[i].base);
        } else if i < k {
            assert(s[i].base + s[i].len <= s[k].base);
        }
    }
}

/// Recording the same offset twice: the first record reports new
/// coverage exactly when the offset is in the image and was not yet
/// covered, and the second never does.
pub proof fn lemma_coverage_once(
    s0: CoverageStore,
    s1: CoverageStore,
    s2: CoverageStore,
    ordinal: int,
    size: int,
    offset: int,
    r1: bool,
    r2: bool,
)
    requires
        record_step(s0, s1, ordinal, size, offset, r1),
        record_step(s1, s2, ordinal, size, offset, r2),
    ensures
        !r2,
        r1 == (0 <= offset < size && !s0.covered(ordinal, offset)),
{
}

/// Ordinals are unique to a module identity: in a well-formed table, two
/// ordinals with the same identity are the same ordinal.
pub proof fn lemma_same_identity_same_ordinal(table: OrdinalLookup, i: int, j: int)
    requires
        table.wf(),
        0 <= i < table@.len(),
        0 <= j < table@.len(),
        table@[i] == table@[j],
    ensures
        i == j,
{
    if i < j {
        assert(table@[i] != table@[j]);
    } else if j < i {
        assert(table@[j] != table@[i]);
    }
}

/// A module keeps its ordinal when its list is rebuilt: a module of a list
/// tied to an earlier state of the ordinal table and a module of a list tied
/// to the table now have the same ordinal when they have the same identity.
pub proof fn lemma_rebuilt_list_same_ordinal(
    earlier: Seq<ModuleEntry>,
    later: Seq<ModuleEntry>,
    earlier_table: Seq<(Seq<char>, u32, u32)>,
    table: OrdinalLookup,
    i: int,
    j: int,
)
    requires
        table.wf(),
        extends(earlier_table, table@),
        tied(earlier, earlier_table),
        tied(later, table@),
        0 <= i < earlier.len(),
        0 <= j < later.len(),
        earlier[i].info.key() == later[j].info.key(),
    ensures
        earlier[i].info.spec_ordinal() == later[j].info.spec_ordinal(),
{
    let o1 = earlier[i].info.spec_ordinal() as int;
    let o2 = later[j].info.spec_ordinal() as int;
    assert(table@[o1] == earlier_table[o1]);
    lemma_same_identity_same_ordinal(table, o1, o2);
}

/// After `discard_changes`, every in-range block reads the file's own
/// contents, whatever was written before.
pub proof fn lemma_discard_reads_file(disk: VirtualDisk, blk: u64)
    requires
        disk.overlay() == Some(Map::<u64, Seq<u8>>::empty()),
        block_in_range(disk.spec_length(), blk),
    ensures
        read_source(disk.overlay(), disk.spec_length(), blk) == Ok::<Option<Seq<u8>>, DiskError>(None),
{
}

/// In volatile mode a block reads back what was last written to it.
pub proof fn lemma_volatile_write_read(before: VirtualDisk, after: VirtualDisk, blk: u64, data: Seq<u8>)
    requires
        before.overlay() is Some,
        block_in_range(before.spec_length(), blk),
        after.spec_length() == before.spec_length(),
        after.overlay() == Some(before.overlay()->Some_0.insert(blk, data)),
    ensures
        read_source(after.overlay(), after.spec_length(), blk) == Ok::<Option<Seq<u8>>, DiskError>(Some(data)),
{
}

/// In non-volatile mode a block is written to and read from the same file
/// offset, so it reads back what was written there.
pub proof fn lemma_non_volatile_same_offset(disk: VirtualDisk, blk: u64)
    requires
        disk.overlay() is None,
        block_in_range(disk.spec_length(), blk),
    ensures
        read_source(disk.overlay(), disk.spec_length(), blk) == Ok::<Option<Seq<u8>>, DiskError>(None),
{
}

} // verus!
