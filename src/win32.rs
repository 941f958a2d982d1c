use vstd::prelude::*;
use vstd::string::StringExecFns;
use crate::fmt::{hex_text, push_hex};

verus! {

/// Dense identifier of an observed module.
pub type Ordinal = usize;

/// The identity of a module: name, TimeDateStamp and SizeOfImage.
pub struct ModuleKey {
    pub name: String,
    pub timedatestamp: u32,
    pub sizeofimage: u32,
}

pub open spec fn key_view(k: ModuleKey) -> (Seq<char>, u32, u32) {
    (k.name@, k.timedatestamp, k.sizeofimage)
}

/// Assignment of ordinals to module identities, in order of first sighting.
pub struct OrdinalLookup {
    ord_to_modinfo: Vec<ModuleKey>,
}

impl OrdinalLookup {
    /// The identities, indexed by ordinal.
    pub closed spec fn view(&self) -> Seq<(Seq<char>, u32, u32)> {
        self.ord_to_modinfo@.map_values(|k: ModuleKey| key_view(k))
    }

    /// No identity has two ordinals.
    pub open spec fn wf(&self) -> bool {
        forall|i: int, j: int|
            0 <= i < j < self@.len() ==> #[trigger] self@[i] != #[trigger] self@[j]
    }

    /// An empty table.
    pub fn new() -> (r: OrdinalLookup)
        ensures
            r@ == Seq::<(Seq<char>, u32, u32)>::empty(),
            r.wf(),
    {
        let r = OrdinalLookup { ord_to_modinfo: Vec::new() };
        assert(r@ =~= Seq::<(Seq<char>, u32, u32)>::empty());
        r
    }

    /// Number of ordinals handed out.
    pub fn len(&self) -> (r: usize)
        ensures
            r == self@.len(),
    {
        self.ord_to_modinfo.len()
    }

    /// Get the ordinal of a module identity, allocating the next one if it
    /// has not been seen before.
    pub fn allocate_ordinal(&mut self, name: &String, timedatestamp: u32, sizeofimage: u32) -> (r:
        Ordinal)
        requires
            old(self).wf(),
        ensures
            final(self).wf(),
            r < final(self)@.len(),
            final(self)@[r as int] == (name@, timedatestamp, sizeofimage),
            old(self)@.contains((name@, timedatestamp, sizeofimage)) ==> final(self)@ == old(self)@,
            !old(self)@.contains((name@, timedatestamp, sizeofimage)) ==> final(self)@ == old(
                self,
            )@.push((name@, timedatestamp, sizeofimage)),
    {
        let ghost key = (name@, timedatestamp, sizeofimage);
        let mut i: usize = 0;
        while i < self.ord_to_modinfo.len()
            invariant
                key == (name@, timedatestamp, sizeofimage),
                *self == *old(self),
                self.wf(),
                i <= self@.len(),
                self@.len() == self.ord_to_modinfo@.len(),
                forall|j: int| 0 <= j < i ==> self@[j] != key,
            decreases self@.len() - i,
        {
            let k = &self.ord_to_modinfo[i];
            assert(self@[i as int] == key_view(*k));
            let same_name = k.name.eq(name);
            if k.timedatestamp == timedatestamp && k.sizeofimage == sizeofimage && same_name {
                assert(self@[i as int] == key);
                assert(self@.contains(key));
                return i;
            }
            i = i + 1;
        }
        assert(!self@.contains(key));
        let ordinal = self.ord_to_modinfo.len();
        self.ord_to_modinfo.push(ModuleKey { name: name.clone(), timedatestamp, sizeofimage });
        assert(self@ =~= old(self)@.push(key));
        ordinal
    }
}

/// All information to uniquely identify a module.
pub struct ModuleInfo {
    name: String,
    timedatestamp: u32,
    sizeofimage: u32,
    ordinal: Ordinal,
}

impl ModuleInfo {
    pub closed spec fn spec_name(&self) -> Seq<char> {
        self.name@
    }

    pub closed spec fn spec_time(&self) -> u32 {
        self.timedatestamp
    }

    pub closed spec fn spec_size(&self) -> u32 {
        self.sizeofimage
    }

    pub closed spec fn spec_ordinal(&self) -> Ordinal {
        self.ordinal
    }

    /// The identity of this module.
    pub open spec fn key(&self) -> (Seq<char>, u32, u32) {
        (self.spec_name(), self.spec_time(), self.spec_size())
    }

    /// Create a `ModuleInfo`, giving it the ordinal of its identity in
    /// `table` (allocated if new).
    pub fn new(table: &mut OrdinalLookup, module: String, timedatestamp: u32, sizeofimage: u32) -> (r:
        ModuleInfo)
        requires
            old(table).wf(),
        ensures
            final(table).wf(),
            r.spec_name() == module@,
            r.spec_time() == timedatestamp,
            r.spec_size() == sizeofimage,
            r.spec_ordinal() < final(table)@.len(),
            final(table)@[r.spec_ordinal() as int] == r.key(),
            old(table)@.contains(r.key()) ==> final(table)@ == old(table)@,
            !old(table)@.contains(r.key()) ==> final(table)@ == old(table)@.push(r.key()),
    {
        let ordinal = table.allocate_ordinal(&module, timedatestamp, sizeofimage);
        ModuleInfo { name: module, timedatestamp, sizeofimage, ordinal }
    }

    pub fn name(&self) -> (r: &str)
        ensures
            r@ == self.spec_name(),
    {
        self.name.as_str()
    }

    pub fn time(&self) -> (r: u32)
        ensures
            r == self.spec_time(),
    {
        self.timedatestamp
    }

    pub fn size(&self) -> (r: u32)
        ensures
            r == self.spec_size(),
    {
        self.sizeofimage
    }

    pub fn ordinal(&self) -> (r: Ordinal)
        ensures
            r == self.spec_ordinal(),
    {
        self.ordinal
    }
}

/// Look up the module identity of an ordinal.
pub fn ordinal_to_modinfo(table: &OrdinalLookup, ordinal: Ordinal) -> (r: Option<ModuleInfo>)
    ensures
        ordinal < table@.len() <==> r is Some,
        r matches Some(m) ==> m.key() == table@[ordinal as int] && m.spec_ordinal() == ordinal,
{
    if ordinal < table.ord_to_modinfo.len() {
        let k = &table.ord_to_modinfo[ordinal];
        Some(
            ModuleInfo {
                name: k.name.clone(),
                timedatestamp: k.timedatestamp,
                sizeofimage: k.sizeofimage,
                ordinal,
            },
        )
    } else {
        None
    }
}

/// A module loaded in the guest: its identity, base and length.
pub struct ModuleEntry {
    pub info: ModuleInfo,
    pub base: u64,
    pub len: u64,
}

pub open spec fn entry_contains(e: ModuleEntry, vaddr: u64) -> bool {
    e.base <= vaddr < e.base + e.len
}

/// A list of modules, ordered by base address.
pub struct ModuleList {
    modules: Vec<ModuleEntry>,
}

pub open spec fn sorted_by_base(s: Seq<ModuleEntry>) -> bool {
    forall|i: int, j: int| 0 <= i <= j < s.len() ==> #[trigger] s[i].base <= #[trigger] s[j].base
}

/// No two modules overlap.
pub open spec fn disjoint_modules(s: Seq<ModuleEntry>) -> bool {
    forall|i: int, j: int|
        0 <= i < j < s.len() ==> #[trigger] s[i].base + s[i].len <= #[trigger] s[j].base
}

impl ModuleList {
    pub closed spec fn entries(&self) -> Seq<ModuleEntry> {
        self.modules@
    }

    pub open spec fn wf(&self) -> bool {
        sorted_by_base(self.entries())
    }

    /// An empty list.
    pub fn new() -> (r: ModuleList)
        ensures
            r.entries() == Seq::<ModuleEntry>::empty(),
            r.wf(),
    {
        ModuleList { modules: Vec::new() }
    }

    /// Number of modules.
    pub fn len(&self) -> (r: usize)
        ensures
            r == self.entries().len(),
    {
        self.modules.len()
    }

    /// Register a new module, keeping the list ordered by base.
    pub fn add_module(&mut self, module: ModuleEntry)
        requires
            old(self).wf(),
        ensures
            final(self).wf(),
            exists|i: int|
                0 <= i <= old(self).entries().len() && final(self).entries() == old(
                    self,
                ).entries().insert(i, module),
    {
        let ghost before = self.modules@;
        let mut i: usize = self.modules.len();
        while i > 0 && self.modules[i - 1].base > module.base
            invariant
                i <= self.modules@.len(),
                self.modules@ == before,
                sorted_by_base(before),
                forall|j: int| i <= j < before.len() ==> #[trigger] before[j].base > module.base,
            decreases i,
        {
            i = i - 1;
        }
        self.modules.insert(i, module);
        proof {
            let s = self.modules@;
            assert(s == before.insert(i as int, module));
            assert forall|a: int, b: int| 0 <= a <= b < s.len() implies #[trigger] s[a].base
                <= #[trigger] s[b].base by {
                if i > 0 {
                    assert(before[i - 1].base <= module.base);
                }
            }
        }
    }

    /// Index of the module containing `vaddr`: the module with the greatest
    /// base at or below `vaddr`, provided `vaddr` lies within its length.
    pub fn find_module(&self, vaddr: u64) -> (r: Option<usize>)
        requires
            self.wf(),
        ensures
            r matches Some(i) ==> i < self.entries().len() && entry_contains(self.entries()[i as int], vaddr)
                && forall|j: int| i < j < self.entries().len() ==> #[trigger] self.entries()[j].base > vaddr,
            r is None ==> forall|i: int|
                0 <= i < self.entries().len() && #[trigger] self.entries()[i].base <= vaddr && (forall|j: int|
                    i < j < self.entries().len() ==> #[trigger] self.entries()[j].base > vaddr)
                    ==> !entry_contains(self.entries()[i], vaddr),
            r matches Some(i) ==> self.find_module_spec(vaddr) == Some(i as int),
            r is None ==> self.find_module_spec(vaddr) is None,
    {
        let mut lo: usize = 0;
        let mut hi: usize = self.modules.len();
        while lo < hi
            invariant
                lo <= hi <= self.modules@.len(),
                sorted_by_base(self.modules@),
                forall|j: int| 0 <= j < lo ==> #[trigger] self.modules@[j].base <= vaddr,
                forall|j: int| hi <= j < self.modules@.len() ==> #[trigger] self.modules@[j].base > vaddr,
            decreases hi - lo,
        {
            let mid = lo + (hi - lo) / 2;
            if self.modules[mid].base <= vaddr {
                lo = mid + 1;
            } else {
                hi = mid;
            }
        }
        if lo == 0 {
            proof {
                if self.find_module_spec(vaddr) is Some {
                    let k = self.find_module_spec(vaddr)->Some_0;
                    assert(self.entries()[k].base <= vaddr);
                }
            }
            return None;
        }
        let e = &self.modules[lo - 1];
        proof {
            if self.find_module_spec(vaddr) is Some {
                let k = self.find_module_spec(vaddr)->Some_0;
                lemma_unique_containing(self.entries(), vaddr, lo - 1, k);
            }
        }
        if vaddr - e.base < e.len {
            Some(lo - 1)
        } else {
            None
        }
    }

    /// Ordinal, image size and offset of `vaddr` in module `i`.
    pub fn entry_key(&self, i: usize, vaddr: u64) -> (r: (Ordinal, u32, u64))
        requires
            i < self.entries().len(),
            entry_contains(self.entries()[i as int], vaddr),
        ensures
            r.0 == self.entries()[i as int].info.spec_ordinal(),
            r.1 == self.entries()[i as int].info.spec_size(),
            r.2 == vaddr - self.entries()[i as int].base,
    {
        let e = &self.modules[i];
        (e.info.ordinal(), e.info.size(), vaddr - e.base)
    }

    /// The module-offset form of a virtual address: the containing module
    /// and the offset into it, or no module and the address itself.
    pub fn get_modoff(&self, vaddr: u64) -> (r: (Option<&ModuleInfo>, u64))
        requires
            self.wf(),
        ensures
            r.0 matches Some(m) ==> exists|i: int|
                0 <= i < self.entries().len() && self.entries()[i].info == *m && entry_contains(
                    self.entries()[i],
                    vaddr,
                ) && r.1 == vaddr - self.entries()[i].base,
            r.0 is None ==> r.1 == vaddr,
            r.0 is None <==> self.find_module_spec(vaddr) is None,
    {
        match self.find_module(vaddr) {
            Some(i) => {
                let e = &self.modules[i];
                (Some(&e.info), vaddr - e.base)
            },
            None => (None, vaddr),
        }
    }

    /// Whether some module contains `vaddr`, as `find_module` decides it.
    pub open spec fn find_module_spec(&self, vaddr: u64) -> Option<int> {
        if exists|i: int|
            0 <= i < self.entries().len() && entry_contains(self.entries()[i], vaddr) && forall|j: int|
                i < j < self.entries().len() ==> #[trigger] self.entries()[j].base > vaddr {
            Some(
                choose|i: int|
                    0 <= i < self.entries().len() && entry_contains(self.entries()[i], vaddr) && forall|
                        j: int,
                    |
                        i < j < self.entries().len() ==> #[trigger] self.entries()[j].base > vaddr,
            )
        } else {
            None
        }
    }

    /// Write the module-offset form of `vaddr` into `output`:
    /// `name+0x<hex offset>` or `0x<hex address>`.
    pub fn get_modoff_string_int(&self, vaddr: u64, output: &mut String)
        requires
            self.wf(),
        ensures
            self.find_module_spec(vaddr) matches Some(i) ==> final(output)@ == self.entries()[i].info.spec_name()
                + "+0x"@ + hex_text((vaddr - self.entries()[i].base) as nat),
            self.find_module_spec(vaddr) is None ==> final(output)@ == "0x"@ + hex_text(vaddr as nat),
    {
        proof {
            reveal_strlit("+0x");
            reveal_strlit("0x");
        }
        *output = String::new();
        match self.find_module(vaddr) {
            Some(i) => {
                let e = &self.modules[i];
                output.append(e.info.name());
                output.append("+0x");
                push_hex(output, vaddr - e.base);
                proof {
                    let k = self.find_module_spec(vaddr)->Some_0;
                    lemma_unique_containing(self.entries(), vaddr, i as int, k);
                }
            },
            None => {
                output.append("0x");
                push_hex(output, vaddr);
            },
        }
    }

    /// The module-offset form of `vaddr` as a new string.
    pub fn get_modoff_string(&self, vaddr: u64) -> (r: String)
        requires
            self.wf(),
        ensures
            self.find_module_spec(vaddr) matches Some(i) ==> r@ == self.entries()[i].info.spec_name()
                + "+0x"@ + hex_text((vaddr - self.entries()[i].base) as nat),
            self.find_module_spec(vaddr) is None ==> r@ == "0x"@ + hex_text(vaddr as nat),
    {
        let mut ret = String::new();
        self.get_modoff_string_int(vaddr, &mut ret);
        ret
    }
}

proof fn lemma_unique_containing(s: Seq<ModuleEntry>, vaddr: u64, i: int, k: int)
    requires
        0 <= i < s.len(),
        0 <= k < s.len(),
        s[i].base <= vaddr,
        s[k].base <= vaddr,
        forall|j: int| i < j < s.len() ==> #[trigger] s[j].base > vaddr,
        forall|j: int| k < j < s.len() ==> #[trigger] s[j].base > vaddr,
    ensures
        i == k,
{
    if i < k {
        assert(s[k].base > vaddr);
    } else if k < i {
        assert(s[i].base > vaddr);
    }
}

} // verus!
