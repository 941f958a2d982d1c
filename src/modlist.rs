use vstd::prelude::*;
use vstd::multiset::Multiset;
use crate::physmem::{MemReader, le_u16, vb, virt_byte, virt_readable, virt_u16, virt_u32, virt_u64};
use crate::win32::{ModuleEntry, ModuleInfo, ModuleList, OrdinalLookup};

verus! {

/// TEB offset of the PEB pointer.
pub const TEB_PEB: u64 = 0x60;
/// PEB offset of the loader data pointer.
pub const PEB_LDR: u64 = 0x18;
/// Loader data offsets of InLoadOrderModuleList's Flink and Blink.
pub const LDR_FLINK: u64 = 0x10;
pub const LDR_BLINK: u64 = 0x18;
/// Loader entry offsets.
pub const ENTRY_BASE: u64 = 0x30;
pub const ENTRY_SIZE: u64 = 0x40;
pub const ENTRY_NAME_LEN: u64 = 0x58;
pub const ENTRY_NAME_PTR: u64 = 0x60;
/// TimeDateStamp offset in a user-mode loader entry.
pub const USER_ENTRY_TIMESTAMP: u64 = 0x80;
/// TimeDateStamp offset in a kernel loader entry.
pub const KERNEL_ENTRY_TIMESTAMP: u64 = 0x9c;
/// Length in bytes of the UTF-16 name "ntoskrnl.exe".
pub const NTOSKRNL_NAME_LEN: u16 = 0x18;
/// Bytes of kernel memory searched for the loaded-module list head.
pub const KERNEL_SCAN_BYTES: u64 = 64 * 1024 * 1024;
/// Most list entries visited in one walk; guards against cyclic lists.
pub const MAX_LIST_NODES: u64 = 0x1_0000;

/// UTF-16 decoding: a code unit outside 0xD800..0xDFFF is that character,
/// a high surrogate followed by a low one is the supplementary character they
/// encode, and anything else (a lone surrogate) is invalid.
pub open spec fn utf16_decoded(units: Seq<u16>) -> Option<Seq<char>>
    decreases units.len(),
{
    if units.len() == 0 {
        Some(Seq::empty())
    } else if units[0] < 0xD800 || units[0] >= 0xE000 {
        match utf16_decoded(units.skip(1)) {
            Some(rest) => Some(seq![(units[0] as nat) as char] + rest),
            None => None,
        }
    } else if units[0] < 0xDC00 && units.len() >= 2 && 0xDC00 <= units[1] < 0xE000 {
        let c = 0x10000 + (units[0] - 0xD800) * 0x400 + (units[1] - 0xDC00);
        match utf16_decoded(units.skip(2)) {
            Some(rest) => Some(seq![(c as nat) as char] + rest),
            None => None,
        }
    } else {
        None
    }
}

/// Relies on `String::from_utf16`: decodes UTF-16, and fails exactly when
/// the input holds invalid data (a lone surrogate).
#[verifier::external_body]
fn decode_utf16(units: &[u16]) -> (r: Option<String>)
    ensures
        r is Some <==> utf16_decoded(units@) is Some,
        r is Some ==> utf16_decoded(units@) == Some(r->Some_0@),
{
    String::from_utf16(units).ok()
}

/// Fields of one loader entry.
#[derive(Clone, Copy, Debug, PartialEq, Eq)]
pub struct LoaderEntry {
    pub base: u64,
    pub len: u64,
    pub name_len: u16,
    pub name_ptr: u64,
    pub timedatestamp: u32,
    pub sizeofimage: u32,
}

/// The loader entry at guest virtual address `node`, with its TimeDateStamp
/// at `ts_off`, if every field is readable.
pub open spec fn entry_at(m: MemReader, cr3: u64, node: u64, ts_off: u64) -> Option<LoaderEntry> {
    match (
        virt_u64(m, cr3, node + ENTRY_BASE),
        virt_u32(m, cr3, node + ENTRY_SIZE),
        virt_u16(m, cr3, node + ENTRY_NAME_LEN),
        virt_u64(m, cr3, node + ENTRY_NAME_PTR),
        virt_u32(m, cr3, node + ts_off),
    ) {
        (Some(base), Some(size), Some(name_len), Some(name_ptr), Some(ts)) => Some(
            LoaderEntry {
                base,
                len: size as u64,
                name_len,
                name_ptr,
                timedatestamp: ts,
                sizeofimage: size,
            },
        ),
        _ => None,
    }
}

proof fn lemma_unreadable_beyond(m: MemReader, cr3: u64, va: int)
    requires
        va > u64::MAX,
    ensures
        virt_u16(m, cr3, va) is None,
        virt_u32(m, cr3, va) is None,
        virt_u64(m, cr3, va) is None,
{
    reveal(virt_u16);
    reveal(virt_u32);
    reveal(virt_u64);
    assert(virt_byte(m, cr3, va + 0) is None);
}

fn read_u64_at(memory: &mut MemReader, cr3: u64, base: u64, off: u64) -> (r: Result<u64, ()>)
    ensures
        *final(memory) == *old(memory),
        r == virt_u64(*old(memory), cr3, base + off).ok_or(()),
{
    match base.checked_add(off) {
        Some(a) => memory.read_virt_u64(cr3, a),
        None => {
            proof {
                lemma_unreadable_beyond(*memory, cr3, base + off);
            }
            Err(())
        },
    }
}

fn read_u32_at(memory: &mut MemReader, cr3: u64, base: u64, off: u64) -> (r: Result<u32, ()>)
    ensures
        *final(memory) == *old(memory),
        r == virt_u32(*old(memory), cr3, base + off).ok_or(()),
{
    match base.checked_add(off) {
        Some(a) => memory.read_virt_u32(cr3, a),
        None => {
            proof {
                lemma_unreadable_beyond(*memory, cr3, base + off);
            }
            Err(())
        },
    }
}

fn read_u16_at(memory: &mut MemReader, cr3: u64, base: u64, off: u64) -> (r: Result<u16, ()>)
    ensures
        *final(memory) == *old(memory),
        r == virt_u16(*old(memory), cr3, base + off).ok_or(()),
{
    match base.checked_add(off) {
        Some(a) => memory.read_virt_u16(cr3, a),
        None => {
            proof {
                lemma_unreadable_beyond(*memory, cr3, base + off);
            }
            Err(())
        },
    }
}

/// Read the loader entry at `node`.
pub fn read_loader_entry(memory: &mut MemReader, cr3: u64, node: u64, ts_off: u64) -> (r: Result<
    LoaderEntry,
    (),
>)
    ensures
        *final(memory) == *old(memory),
        r == entry_at(*old(memory), cr3, node, ts_off).ok_or(()),
{
    let base = read_u64_at(memory, cr3, node, ENTRY_BASE);
    let size = read_u32_at(memory, cr3, node, ENTRY_SIZE);
    let name_len = read_u16_at(memory, cr3, node, ENTRY_NAME_LEN);
    let name_ptr = read_u64_at(memory, cr3, node, ENTRY_NAME_PTR);
    let ts = read_u32_at(memory, cr3, node, ts_off);
    match (base, size, name_len, name_ptr, ts) {
        (Ok(base), Ok(size), Ok(name_len), Ok(name_ptr), Ok(ts)) => Ok(
            LoaderEntry {
                base,
                len: size as u64,
                name_len,
                name_ptr,
                timedatestamp: ts,
                sizeofimage: size,
            },
        ),
        _ => Err(()),
    }
}

/// The UTF-16 code units of the `len`-byte name at guest virtual `ptr`.
pub open spec fn name_units(m: MemReader, cr3: u64, ptr: u64, len: nat) -> Seq<u16> {
    Seq::new(len / 2, |k: int| le_u16(vb(m, cr3, ptr as int, 2 * k), vb(m, cr3, ptr as int, 2 * k + 1)))
}

/// The decoded name of a loader entry: `None` when it is empty, odd-sized,
/// unreadable or not valid UTF-16.
pub open spec fn entry_name(m: MemReader, cr3: u64, e: LoaderEntry) -> Option<Seq<char>> {
    if e.name_ptr == 0 || e.name_len == 0 || e.name_len % 2 != 0 {
        None
    } else if !virt_readable(m, cr3, e.name_ptr as int, e.name_len as int) {
        None
    } else {
        utf16_decoded(name_units(m, cr3, e.name_ptr, e.name_len as nat))
    }
}

/// Read and decode the UTF-16 name of `entry`.
pub fn read_entry_name(memory: &mut MemReader, cr3: u64, entry: &LoaderEntry) -> (r: Option<String>)
    ensures
        *final(memory) == *old(memory),
        r is Some <==> entry_name(*old(memory), cr3, *entry) is Some,
        r is Some ==> entry_name(*old(memory), cr3, *entry) == Some(r->Some_0@),
{
    if entry.name_ptr == 0 || entry.name_len == 0 || entry.name_len % 2 != 0 {
        return None;
    }
    let n = entry.name_len as usize;
    let mut bytes: Vec<u8> = vec![0u8; n];
    let got = memory.read_virt(cr3, entry.name_ptr, bytes.as_mut_slice());
    if got != n {
        assert(virt_byte(*memory, cr3, entry.name_ptr + got) is None);
        assert(!virt_readable(*memory, cr3, entry.name_ptr as int, n as int));
        return None;
    }
    assert forall|k: int| 0 <= k < n implies #[trigger] virt_byte(*memory, cr3, entry.name_ptr + k) is Some by {
        assert(virt_byte(*memory, cr3, entry.name_ptr + k) == Some(bytes@[k]));
    }
    assert(virt_readable(*memory, cr3, entry.name_ptr as int, n as int));
    let ghost m = *memory;
    let mut units: Vec<u16> = Vec::new();
    let mut i: usize = 0;
    while i < n
        invariant
            n == bytes@.len(),
            n == entry.name_len,
            n % 2 == 0,
            i % 2 == 0,
            i <= n,
            forall|j: int| 0 <= j < n ==> virt_byte(m, cr3, entry.name_ptr + j) == Some(#[trigger] bytes@[j]),
            units@ =~= name_units(m, cr3, entry.name_ptr, i as nat),
        decreases n - i,
    {
        assert(virt_byte(m, cr3, entry.name_ptr + i) == Some(bytes@[i as int]));
        assert(virt_byte(m, cr3, entry.name_ptr + (i + 1)) == Some(bytes@[i + 1]));
        units.push((bytes[i] as u16) | ((bytes[i + 1] as u16) << 8u16));
        i = i + 2;
        proof {
            assert forall|k: int| 0 <= k < i / 2 implies #[trigger] units@[k] == name_units(m, cr3, entry.name_ptr, i as nat)[k] by {
                if k == i / 2 - 1 {
                    assert(2 * k == i - 2);
                    assert(vb(m, cr3, entry.name_ptr as int, 2 * k) == bytes@[i - 2]);
                    assert(vb(m, cr3, entry.name_ptr as int, 2 * k + 1) == bytes@[i - 1]);
                } else {
                    assert(units@[k] == name_units(m, cr3, entry.name_ptr, (i - 2) as nat)[k]);
                }
            }
        }
    }
    decode_utf16(units.as_slice())
}

/// The entries visited when walking a loader list from `flink`: each is
/// read, the walk stops at a null link, at `blink` or when `fuel` runs out,
/// and fails (`None`) when an entry or a link cannot be read.
pub open spec fn walk_nodes(m: MemReader, cr3: u64, flink: u64, blink: u64, ts_off: u64, fuel: nat) -> Option<
    Seq<u64>,
>
    decreases fuel,
{
    if flink == 0 || fuel == 0 {
        Some(Seq::empty())
    } else if entry_at(m, cr3, flink, ts_off) is None {
        None
    } else if flink == blink {
        Some(seq![flink])
    } else {
        match virt_u64(m, cr3, flink as int) {
            None => None,
            Some(next) => match walk_nodes(m, cr3, next, blink, ts_off, (fuel - 1) as nat) {
                Some(rest) => Some(seq![flink] + rest),
                None => None,
            },
        }
    }
}

/// `v` followed by the walk `o`, if it succeeded.
pub open spec fn prepend(v: Seq<u64>, o: Option<Seq<u64>>) -> Option<Seq<u64>> {
    match o {
        Some(s) => Some(v + s),
        None => None,
    }
}

/// What a module list shows of a module: base, length, name, TimeDateStamp
/// and SizeOfImage.
pub type ModView = (u64, u64, Seq<char>, u32, u32);

pub open spec fn module_view(e: ModuleEntry) -> ModView {
    (e.base, e.len, e.info.spec_name(), e.info.spec_time(), e.info.spec_size())
}

/// The modules of `s`, as a multiset of views.
pub open spec fn views(s: Seq<ModuleEntry>) -> Multiset<ModView> {
    s.map_values(|e: ModuleEntry| module_view(e)).to_multiset()
}

/// The module the loader entry at `node` contributes: its fields and
/// decoded name, or nothing when it cannot be read or its name is invalid.
pub open spec fn node_module(m: MemReader, cr3: u64, ts_off: u64, node: u64) -> Option<ModView> {
    match entry_at(m, cr3, node, ts_off) {
        Some(le) => match entry_name(m, cr3, le) {
            Some(nm) => Some((le.base, le.len, nm, le.timedatestamp, le.sizeofimage)),
            None => None,
        },
        None => None,
    }
}

/// The modules contributed by the visited entries `nodes`, in order.
pub open spec fn walk_modules(m: MemReader, cr3: u64, ts_off: u64, nodes: Seq<u64>) -> Seq<ModView>
    decreases nodes.len(),
{
    if nodes.len() == 0 {
        Seq::empty()
    } else {
        walk_modules(m, cr3, ts_off, nodes.drop_last()) + match node_module(m, cr3, ts_off, nodes.last()) {
            Some(v) => seq![v],
            None => Seq::empty(),
        }
    }
}

/// Every module of `entries` carries the ordinal of its identity in `table`.
pub open spec fn tied(entries: Seq<ModuleEntry>, table: Seq<(Seq<char>, u32, u32)>) -> bool {
    forall|j: int|
        0 <= j < entries.len() ==> (#[trigger] entries[j]).info.spec_ordinal() < table.len()
            && table[entries[j].info.spec_ordinal() as int] == entries[j].info.key()
}

/// `t` is `s` with possibly more identities appended.
pub open spec fn extends(s: Seq<(Seq<char>, u32, u32)>, t: Seq<(Seq<char>, u32, u32)>) -> bool {
    s.len() <= t.len() && forall|i: int| 0 <= i < s.len() ==> #[trigger] t[i] == s[i]
}

proof fn lemma_views_insert(before: Seq<ModuleEntry>, i: int, e: ModuleEntry)
    requires
        0 <= i <= before.len(),
    ensures
        views(before.insert(i, e)) == views(before).insert(module_view(e)),
{
    let f = |x: ModuleEntry| module_view(x);
    assert(before.insert(i, e).map_values(f) =~= before.map_values(f).insert(i, module_view(e)));
    vstd::seq_lib::to_multiset_insert(before.map_values(f), i, module_view(e));
}

proof fn lemma_add_insert(a: Multiset<ModView>, b: Seq<ModView>, v: ModView)
    ensures
        a.add(b.to_multiset()).insert(v) == a.add((b + seq![v]).to_multiset()),
{
    broadcast use vstd::multiset::group_multiset_axioms;

    assert(b + seq![v] =~= b.push(v));
    vstd::seq_lib::to_multiset_build(b, v);
    assert(a.add(b.to_multiset()).insert(v) =~= a.add(b.to_multiset().insert(v)));
}

/// Ordinal ties survive appending identities to the table.
pub proof fn lemma_tied_extends(entries: Seq<ModuleEntry>, s: Seq<(Seq<char>, u32, u32)>, t: Seq<(Seq<char>, u32, u32)>)
    requires
        tied(entries, s),
        extends(s, t),
    ensures
        tied(entries, t),
{
    assert forall|j: int| 0 <= j < entries.len() implies (#[trigger] entries[j]).info.spec_ordinal() < t.len()
        && t[entries[j].info.spec_ordinal() as int] == entries[j].info.key() by {
        assert(s[entries[j].info.spec_ordinal() as int] == entries[j].info.key());
    }
}

/// Walk a loader list starting at `first`, stopping at `blink`, a null
/// link or after `MAX_LIST_NODES` entries, and add the module of each entry
/// with a valid name to `modlist`.
fn walk_loader_list(
    modlist: &mut ModuleList,
    table: &mut OrdinalLookup,
    memory: &mut MemReader,
    cr3: u64,
    first: u64,
    blink: u64,
    ts_off: u64,
) -> (r: Result<(), ()>)
    requires
        old(modlist).wf(),
        old(table).wf(),
    ensures
        final(modlist).wf(),
        final(table).wf(),
        *final(memory) == *old(memory),
        extends(old(table)@, final(table)@),
        tied(old(modlist).entries(), old(table)@) ==> tied(final(modlist).entries(), final(table)@),
        r is Ok <==> walk_nodes(*old(memory), cr3, first, blink, ts_off, MAX_LIST_NODES as nat) is Some,
        r is Ok ==> views(final(modlist).entries()) == views(old(modlist).entries()).add(
            walk_modules(
                *old(memory),
                cr3,
                ts_off,
                walk_nodes(*old(memory), cr3, first, blink, ts_off, MAX_LIST_NODES as nat)->Some_0,
            ).to_multiset(),
        ),
{
    let ghost m0 = *memory;
    let ghost l0 = modlist.entries();
    let ghost t0 = table@;
    let ghost all = walk_nodes(m0, cr3, first, blink, ts_off, MAX_LIST_NODES as nat);
    let ghost mut seen: Seq<u64> = Seq::empty();
    proof {
        broadcast use vstd::multiset::group_multiset_axioms;
        broadcast use vstd::seq_lib::group_to_multiset_ensures;

        assert(walk_modules(m0, cr3, ts_off, seen) =~= Seq::<ModView>::empty());
        assert(Seq::<ModView>::empty().to_multiset() =~= Multiset::<ModView>::empty());
        assert(views(l0).add(Seq::<ModView>::empty().to_multiset()) =~= views(l0));
    }
    let mut flink = first;
    let mut visited: u64 = 0;
    let mut done = false;
    while !done && flink != 0 && visited < MAX_LIST_NODES
        invariant
            modlist.wf(),
            table.wf(),
            *memory == *old(memory),
            m0 == *memory,
            l0 == old(modlist).entries(),
            t0 == old(table)@,
            extends(t0, table@),
            tied(l0, t0) ==> tied(modlist.entries(), table@),
            all == walk_nodes(m0, cr3, first, blink, ts_off, MAX_LIST_NODES as nat),
            visited <= MAX_LIST_NODES,
            done ==> all == Some(seen),
            !done ==> all == prepend(seen, walk_nodes(m0, cr3, flink, blink, ts_off, (MAX_LIST_NODES - visited) as nat)),
            views(modlist.entries()) == views(l0).add(walk_modules(m0, cr3, ts_off, seen).to_multiset()),
        decreases MAX_LIST_NODES - visited,
    {
        let ghost fuel = (MAX_LIST_NODES - visited) as nat;
        visited = visited + 1;
        let entry = match read_loader_entry(memory, cr3, flink, ts_off) {
            Ok(e) => e,
            Err(_) => {
                assert(*final(memory) == *memory);
                return Err(());
            },
        };
        let ghost seen0 = seen;
        proof {
            seen = seen.push(flink);
            assert(seen.drop_last() =~= seen0);
        }
        if let Some(name) = read_entry_name(memory, cr3, &entry) {
            let ghost nm = name@;
            let ghost tb = table@;
            let info = ModuleInfo::new(table, name, entry.timedatestamp, entry.sizeofimage);
            let e = ModuleEntry { info, base: entry.base, len: entry.len };
            let ghost before = modlist.entries();
            proof {
                assert(extends(tb, table@));
                assert(extends(t0, table@));
                if tied(l0, t0) {
                    lemma_tied_extends(before, tb, table@);
                }
            }
            modlist.add_module(e);
            proof {
                let after = modlist.entries();
                let i = choose|i: int| 0 <= i <= before.len() && after == before.insert(i, e);
                lemma_views_insert(before, i, e);
                assert(node_module(m0, cr3, ts_off, flink) == Some(module_view(e)));
                assert(walk_modules(m0, cr3, ts_off, seen) == walk_modules(m0, cr3, ts_off, seen0) + seq![module_view(e)]);
                lemma_add_insert(views(l0), walk_modules(m0, cr3, ts_off, seen0), module_view(e));
                if tied(l0, t0) {
                    assert forall|j: int| 0 <= j < after.len() implies (#[trigger] after[j]).info.spec_ordinal()
                        < table@.len() && table@[after[j].info.spec_ordinal() as int] == after[j].info.key() by {
                        if j < i {
                            assert(after[j] == before[j]);
                        } else if j > i {
                            assert(after[j] == before[j - 1]);
                        }
                    }
                }
            }
        } else {
            proof {
                assert(node_module(m0, cr3, ts_off, flink) is None);
                assert(walk_modules(m0, cr3, ts_off, seen) =~= walk_modules(m0, cr3, ts_off, seen0));
            }
        }
        if flink == blink {
            done = true;
            assert(walk_nodes(m0, cr3, flink, blink, ts_off, fuel) == Some(seq![flink]));
            assert(seen0 + seq![flink] =~= seen);
        } else {
            flink = match read_u64_at(memory, cr3, flink, 0) {
                Ok(f) => f,
                Err(_) => {
                    assert(*final(memory) == *memory);
                    return Err(());
                },
            };
            proof {
                let prev = seen.last();
                assert(walk_nodes(m0, cr3, prev, blink, ts_off, fuel) == prepend(seq![prev], walk_nodes(m0, cr3, flink, blink, ts_off, (fuel - 1) as nat)));
                match walk_nodes(m0, cr3, flink, blink, ts_off, (fuel - 1) as nat) {
                    Some(rest) => {
                        assert(seen0 + (seq![prev] + rest) =~= seen + rest);
                    },
                    None => {},
                }
            }
        }
    }
    proof {
        if !done {
            assert(walk_nodes(m0, cr3, flink, blink, ts_off, (MAX_LIST_NODES - visited) as nat) == Some(Seq::<u64>::empty()));
            assert(seen + Seq::<u64>::empty() =~= seen);
        }
    }
    Ok(())
}

/// Flink and Blink of the current process's InLoadOrderModuleList, read
/// through GS:0x60 -> PEB -> loader data.
pub open spec fn user_list_links(m: MemReader, cr3: u64, gs_base: u64) -> Option<(u64, u64)> {
    match virt_u64(m, cr3, gs_base + TEB_PEB) {
        Some(peb) => match virt_u64(m, cr3, peb + PEB_LDR) {
            Some(ldr) => match (virt_u64(m, cr3, ldr + LDR_FLINK), virt_u64(m, cr3, ldr + LDR_BLINK)) {
                (Some(f), Some(b)) => Some((f, b)),
                _ => None,
            },
            None => None,
        },
        None => None,
    }
}

/// Flink and Blink of the kernel's loaded-module list head at `head`.
pub open spec fn kernel_list_links(m: MemReader, cr3: u64, head: u64) -> Option<(u64, u64)> {
    match (virt_u64(m, cr3, head as int), virt_u64(m, cr3, head + 8)) {
        (Some(f), Some(b)) => Some((f, b)),
        _ => None,
    }
}

/// Walking the list with links `links` succeeds exactly when its entries
/// can be read, and then `after` holds the modules of `before` plus one per
/// walked entry with a valid name; a missing or null Blink fails.
pub open spec fn list_walked(
    m: MemReader,
    cr3: u64,
    links: Option<(u64, u64)>,
    ts_off: u64,
    ok: bool,
    before: Seq<ModuleEntry>,
    after: Seq<ModuleEntry>,
) -> bool {
    match links {
        Some((f, b)) => if b == 0 {
            !ok
        } else {
            &&& ok <==> walk_nodes(m, cr3, f, b, ts_off, MAX_LIST_NODES as nat) is Some
            &&& ok ==> views(after) == views(before).add(
                walk_modules(m, cr3, ts_off, walk_nodes(m, cr3, f, b, ts_off, MAX_LIST_NODES as nat)->Some_0).to_multiset(),
            )
        },
        None => !ok,
    }
}

/// The guest is in 64-bit user mode with a TEB in GS.
pub open spec fn user_mode_ok(lma: bool, gs_base: u64, cs: u16) -> bool {
    gs_base != 0 && lma && cs & 3 == 3
}

/// The guest is in 64-bit kernel mode.
pub open spec fn kernel_mode_ok(lma: bool, cs: u16) -> bool {
    lma && cs & 3 == 0
}

/// Add the modules of the current user-mode process, found through
/// GS:0x60 → PEB → loader data → InLoadOrderModuleList.
pub fn get_modlist_user(
    modlist: &mut ModuleList,
    table: &mut OrdinalLookup,
    cr3: u64,
    lma: bool,
    gs_base: u64,
    cs: u16,
    memory: &mut MemReader,
) -> (r: Result<(), ()>)
    requires
        old(modlist).wf(),
        old(table).wf(),
    ensures
        final(modlist).wf(),
        final(table).wf(),
        *final(memory) == *old(memory),
        !user_mode_ok(lma, gs_base, cs) ==> r is Err && *final(modlist) == *old(modlist)
            && *final(table) == *old(table),
        user_mode_ok(lma, gs_base, cs) ==> list_walked(*old(memory), cr3, user_list_links(*old(memory), cr3, gs_base), USER_ENTRY_TIMESTAMP, r is Ok, old(modlist).entries(), final(modlist).entries()),
        extends(old(table)@, final(table)@),
        tied(old(modlist).entries(), old(table)@) ==> tied(final(modlist).entries(), final(table)@),
{
    if !(gs_base != 0 && lma && (cs & 3) == 3) {
        return Err(());
    }
    let peb = read_u64_at(memory, cr3, gs_base, TEB_PEB)?;
    let ldr = read_u64_at(memory, cr3, peb, PEB_LDR)?;
    let flink = read_u64_at(memory, cr3, ldr, LDR_FLINK)?;
    let blink = read_u64_at(memory, cr3, ldr, LDR_BLINK)?;
    if blink == 0 {
        return Err(());
    }
    walk_loader_list(modlist, table, memory, cr3, flink, blink, USER_ENTRY_TIMESTAMP)
}

/// Add the kernel's loaded modules, walking the list whose head is at
/// `plml_ptr` (as found by `find_kernel_modlist`).
pub fn get_modlist_kernel(
    modlist: &mut ModuleList,
    table: &mut OrdinalLookup,
    cr3: u64,
    lma: bool,
    cs: u16,
    memory: &mut MemReader,
    plml_ptr: u64,
) -> (r: Result<(), ()>)
    requires
        old(modlist).wf(),
        old(table).wf(),
    ensures
        final(modlist).wf(),
        final(table).wf(),
        *final(memory) == *old(memory),
        !kernel_mode_ok(lma, cs) ==> r is Err && *final(modlist) == *old(modlist) && *final(table)
            == *old(table),
        kernel_mode_ok(lma, cs) ==> list_walked(*old(memory), cr3, kernel_list_links(*old(memory), cr3, plml_ptr), KERNEL_ENTRY_TIMESTAMP, r is Ok, old(modlist).entries(), final(modlist).entries()),
        extends(old(table)@, final(table)@),
        tied(old(modlist).entries(), old(table)@) ==> tied(final(modlist).entries(), final(table)@),
{
    if !(lma && (cs & 3) == 0) {
        return Err(());
    }
    let flink = read_u64_at(memory, cr3, plml_ptr, 0)?;
    let blink = read_u64_at(memory, cr3, plml_ptr, 8)?;
    if blink == 0 {
        return Err(());
    }
    walk_loader_list(modlist, table, memory, cr3, flink, blink, KERNEL_ENTRY_TIMESTAMP)
}

/// Walk the module list for the current operating context: the process's
/// list in ring 3, the kernel's list in ring 0 once its head is known.
pub fn get_modlist(
    memory: &mut MemReader,
    table: &mut OrdinalLookup,
    cr3: u64,
    lma: bool,
    gs_base: u64,
    cs: u16,
    plml_ptr: Option<u64>,
) -> (r: Result<ModuleList, ()>)
    requires
        old(table).wf(),
    ensures
        final(table).wf(),
        *final(memory) == *old(memory),
        r matches Ok(l) ==> l.wf() && tied(l.entries(), final(table)@),
        extends(old(table)@, final(table)@),
        cs & 3 == 3 && !user_mode_ok(lma, gs_base, cs) ==> r is Err,
        cs & 3 != 3 && (plml_ptr is None || !kernel_mode_ok(lma, cs)) ==> r is Err,
        user_mode_ok(lma, gs_base, cs) ==> list_walked(*old(memory), cr3, user_list_links(*old(memory), cr3, gs_base), USER_ENTRY_TIMESTAMP, r is Ok, Seq::empty(), match r { Ok(l) => l.entries(), Err(_) => Seq::empty() }),
        kernel_mode_ok(lma, cs) && plml_ptr is Some ==> list_walked(*old(memory), cr3, kernel_list_links(*old(memory), cr3, plml_ptr->Some_0), KERNEL_ENTRY_TIMESTAMP, r is Ok, Seq::empty(), match r { Ok(l) => l.entries(), Err(_) => Seq::empty() }),
{
    let mut ret = ModuleList::new();
    assert(tied(ret.entries(), table@));
    if (cs & 3) == 3 {
        get_modlist_user(&mut ret, table, cr3, lma, gs_base, cs, memory)?;
    } else if let Some(p) = plml_ptr {
        get_modlist_kernel(&mut ret, table, cr3, lma, cs, memory, p)?;
    } else {
        return Err(());
    }
    Ok(ret)
}

/// Byte `i` of the UTF-16LE text "ntoskrnl.exe" (ASCII, so each character
/// is its code followed by a zero byte).
pub open spec fn ntoskrnl_utf16(i: int) -> u8 {
    if i % 2 == 1 {
        0
    } else {
        "ntoskrnl.exe"@[i / 2] as u8
    }
}

fn ntoskrnl_byte(i: usize) -> (r: u8)
    requires
        i < 24,
    ensures
        r == ntoskrnl_utf16(i as int),
{
    proof {
        reveal_strlit("ntoskrnl.exe");
    }
    if i % 2 == 1 {
        return 0;
    }
    match i / 2 {
        0 => 'n' as u8,
        1 => 't' as u8,
        2 => 'o' as u8,
        3 => 's' as u8,
        4 => 'k' as u8,
        5 => 'r' as u8,
        6 => 'n' as u8,
        7 => 'l' as u8,
        8 => '.' as u8,
        9 => 'e' as u8,
        10 => 'x' as u8,
        _ => 'e' as u8,
    }
}

/// `a` holds the head of the kernel's loaded-module list: a self-linked
/// head whose first entry is named (UTF-16) "ntoskrnl.exe".
pub open spec fn kernel_list_head(m: MemReader, cr3: u64, a: u64) -> bool {
    match virt_u64(m, cr3, a as int) {
        Some(flink) => {
            &&& virt_u64(m, cr3, flink + 8) == Some(a)
            &&& virt_u16(m, cr3, flink + ENTRY_NAME_LEN) == Some(NTOSKRNL_NAME_LEN)
            &&& match virt_u64(m, cr3, flink + ENTRY_NAME_PTR) {
                Some(np) => forall|k: int|
                    0 <= k < 24 ==> #[trigger] virt_byte(m, cr3, np + k) == Some(ntoskrnl_utf16(k)),
                None => false,
            }
        },
        None => false,
    }
}

fn is_kernel_list_head(memory: &mut MemReader, cr3: u64, a: u64) -> (r: bool)
    ensures
        *final(memory) == *old(memory),
        r == kernel_list_head(*old(memory), cr3, a),
{
    let flink = match read_u64_at(memory, cr3, a, 0) {
        Ok(f) => f,
        Err(_) => {
            return false;
        },
    };
    match read_u64_at(memory, cr3, flink, 8) {
        Ok(b) => {
            if b != a {
                return false;
            }
        },
        Err(_) => {
            return false;
        },
    }
    match read_u16_at(memory, cr3, flink, ENTRY_NAME_LEN) {
        Ok(n) => {
            if n != NTOSKRNL_NAME_LEN {
                return false;
            }
        },
        Err(_) => {
            return false;
        },
    }
    let np = match read_u64_at(memory, cr3, flink, ENTRY_NAME_PTR) {
        Ok(p) => p,
        Err(_) => {
            return false;
        },
    };
    let mut buf: Vec<u8> = vec![0u8; 24];
    if memory.read_virt(cr3, np, buf.as_mut_slice()) != 24 {
        return false;
    }
    let ghost m0 = *memory;
    assert(forall|j: int| 0 <= j < 24 ==> virt_byte(m0, cr3, np + j) == Some(#[trigger] buf@[j]));
    let mut k: usize = 0;
    while k < 24
        invariant
            *memory == *old(memory),
            m0 == *memory,
            virt_u64(m0, cr3, a as int) == Some(flink),
            virt_u64(m0, cr3, flink + 8) == Some(a),
            virt_u16(m0, cr3, flink + ENTRY_NAME_LEN) == Some(NTOSKRNL_NAME_LEN),
            virt_u64(m0, cr3, flink + ENTRY_NAME_PTR) == Some(np),
            buf@.len() == 24,
            forall|j: int| 0 <= j < 24 ==> virt_byte(m0, cr3, np + j) == Some(#[trigger] buf@[j]),
            forall|j: int| 0 <= j < k ==> #[trigger] buf@[j] == ntoskrnl_utf16(j),
        decreases 24 - k,
    {
        if buf[k] != ntoskrnl_byte(k) {
            assert(*final(memory) == *memory);
            assert(virt_byte(m0, cr3, np + k) != Some(ntoskrnl_utf16(k as int)));
            return false;
        }
        k = k + 1;
    }
    assert forall|j: int| 0 <= j < 24 implies #[trigger] virt_byte(m0, cr3, np + j) == Some(ntoskrnl_utf16(j)) by {
        assert(virt_byte(m0, cr3, np + j) == Some(buf@[j]));
    }
    true
}

/// Find the kernel's loaded-module list head by scanning 64 MiB from the
/// kernel GS base in 8-byte steps.
pub fn find_kernel_modlist(cr3: u64, lma: bool, kernel_gs: u64, cs: u16, memory: &mut MemReader) -> (r:
    Result<u64, ()>)
    ensures
        *final(memory) == *old(memory),
        !(kernel_mode_ok(lma, cs) && kernel_gs & 0x8000_0000_0000_0000 != 0) ==> r is Err,
        r matches Ok(a) ==> kernel_list_head(*old(memory), cr3, a) && kernel_gs <= a < kernel_gs
            + KERNEL_SCAN_BYTES && (a - kernel_gs) % 8 == 0 && forall|off: u64|
            off < a - kernel_gs && off % 8 == 0 ==> !#[trigger] kernel_list_head(
                *old(memory),
                cr3,
                (kernel_gs + off) as u64,
            ),
        r is Err && kernel_mode_ok(lma, cs) && kernel_gs & 0x8000_0000_0000_0000 != 0 ==> forall|off: u64|
            off < KERNEL_SCAN_BYTES && off % 8 == 0 && kernel_gs + off <= u64::MAX ==> !#[trigger] kernel_list_head(
                *old(memory),
                cr3,
                (kernel_gs + off) as u64,
            ),
{
    if !(lma && (cs & 3) == 0 && (kernel_gs & 0x8000_0000_0000_0000) != 0) {
        return Err(());
    }
    let mut offset: u64 = 0;
    while offset < KERNEL_SCAN_BYTES
        invariant
            *memory == *old(memory),
            offset % 8 == 0,
            offset <= KERNEL_SCAN_BYTES,
            kernel_mode_ok(lma, cs) && kernel_gs & 0x8000_0000_0000_0000 != 0,
            forall|off: u64|
                off < offset && off % 8 == 0 ==> !#[trigger] kernel_list_head(*old(memory), cr3, (kernel_gs + off) as u64),
        decreases KERNEL_SCAN_BYTES - offset,
    {
        let a = match kernel_gs.checked_add(offset) {
            Some(a) => a,
            None => {
                assert(*final(memory) == *memory);
                return Err(());
            },
        };
        if is_kernel_list_head(memory, cr3, a) {
            assert(*final(memory) == *memory);
            return Ok(a);
        }
        offset = offset + 8;
    }
    Err(())
}

} // verus!
