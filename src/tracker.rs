use vstd::prelude::*;
use crate::coverage::{CoverageStore, bitmap_of, has_entry, record_step};
use crate::modlist::{lemma_tied_extends, KERNEL_ENTRY_TIMESTAMP, USER_ENTRY_TIMESTAMP, extends, kernel_list_links, kernel_mode_ok, list_walked, tied, user_list_links, user_mode_ok};
use crate::modlist::get_modlist;
use crate::physmem::MemReader;
use crate::win32::{ModuleEntry, ModuleList, OrdinalLookup};

verus! {

/// State of the coverage collector across callbacks.
pub struct CoverageTracker {
    /// Modules of the context last walked, used until a lookup misses.
    pub module_list_cache: ModuleList,
    /// Ordinals of every module ever seen.
    pub ordinals: OrdinalLookup,
    /// Offsets seen per ordinal.
    pub coverage: CoverageStore,
    /// Address of the kernel's loaded-module list head, once found.
    pub kernel_module_list: Option<u64>,
    /// Number of coverage callbacks.
    pub coverage_callbacks: u64,
    /// Number of module-list walks.
    pub module_list_walks: u64,
}

/// The walk that rebuilt a module list: the process's list in ring 3, the
/// kernel's list at `plml_ptr` in ring 0, and `entries` holds exactly its
/// modules.
pub open spec fn rewalked(
    m: MemReader,
    cr3: u64,
    lma: bool,
    gs_base: u64,
    cs: u16,
    plml_ptr: Option<u64>,
    entries: Seq<ModuleEntry>,
) -> bool {
    if cs & 3 == 3 {
        user_mode_ok(lma, gs_base, cs) && list_walked(
            m,
            cr3,
            user_list_links(m, cr3, gs_base),
            USER_ENTRY_TIMESTAMP,
            true,
            Seq::empty(),
            entries,
        )
    } else {
        plml_ptr is Some && kernel_mode_ok(lma, cs) && list_walked(
            m,
            cr3,
            kernel_list_links(m, cr3, plml_ptr->Some_0),
            KERNEL_ENTRY_TIMESTAMP,
            true,
            Seq::empty(),
            entries,
        )
    }
}

/// What one coverage report did to `before`, given the module list
/// `list` it resolved `rip` against: if a module of the list holds `rip`,
/// the offset was recorded against that module's ordinal and image size;
/// otherwise the result is false and nothing changed.
pub open spec fn reported(before: CoverageStore, after: CoverageStore, list: ModuleList, rip: u64, r: bool) -> bool {
    match list.find_module_spec(rip) {
        Some(i) => {
            let e = list.entries()[i];
            e.info.spec_ordinal() < usize::MAX ==> record_step(
                before,
                after,
                e.info.spec_ordinal() as int,
                e.info.spec_size() as int,
                rip - e.base,
                r,
            )
        },
        None => !r && after == before,
    }
}

impl CoverageTracker {
    /// The cached modules carry the ordinals of their identities, and every
    /// coverage bitmap is sized for its module's image.
    pub open spec fn wf(&self) -> bool {
        &&& self.module_list_cache.wf()
        &&& self.ordinals.wf()
        &&& self.coverage.wf()
        &&& tied(self.module_list_cache.entries(), self.ordinals@)
        &&& forall|o: int|
            #[trigger] has_entry(self.coverage.entries(), o) ==> o < self.ordinals@.len() && bitmap_of(
                self.coverage.entries(),
                o,
            ).len() == (self.ordinals@[o].2 + 7) / 8
    }

    /// A tracker that has seen nothing.
    pub fn new() -> (r: CoverageTracker)
        ensures
            r.wf(),
            r.kernel_module_list is None,
    {
        CoverageTracker {
            module_list_cache: ModuleList::new(),
            ordinals: OrdinalLookup::new(),
            coverage: CoverageStore::new(),
            kernel_module_list: None,
            coverage_callbacks: 0,
            module_list_walks: 0,
        }
    }

    /// Record that the guest executed `rip`. Resolves `rip` to a module and
    /// offset, re-walking the guest's module list when the cached list has no
    /// module for it. Returns true iff this is new coverage. Only 64-bit
    /// code (`lma`) is tracked.
    pub fn report_coverage(
        &mut self,
        memory: &mut MemReader,
        cr3: u64,
        lma: bool,
        gs_base: u64,
        cs: u16,
        rip: u64,
    ) -> (r: bool)
        requires
            old(self).wf(),
        ensures
            final(self).wf(),
            *final(memory) == *old(memory),
            !lma ==> !r && *final(self) == *old(self),
            lma ==> extends(old(self).ordinals@, final(self).ordinals@),
            lma && old(self).module_list_cache.find_module_spec(rip) is Some ==> final(self).module_list_cache
                == old(self).module_list_cache,
            lma && old(self).module_list_cache.find_module_spec(rip) is None ==> final(self).module_list_cache
                == old(self).module_list_cache || rewalked(
                *old(memory),
                cr3,
                lma,
                gs_base,
                cs,
                old(self).kernel_module_list,
                final(self).module_list_cache.entries(),
            ),
            lma ==> reported(old(self).coverage, final(self).coverage, final(self).module_list_cache, rip, r),
    {
        if !lma {
            return false;
        }
        let ghost t0 = self.ordinals@;
        let ghost c0 = self.coverage;
        self.coverage_callbacks = self.coverage_callbacks.saturating_add(1);
        let found = match self.module_list_cache.find_module(rip) {
            Some(i) => Some(i),
            None => {
                self.module_list_walks = self.module_list_walks.saturating_add(1);
                let walked = get_modlist(
                    memory,
                    &mut self.ordinals,
                    cr3,
                    lma,
                    gs_base,
                    cs,
                    self.kernel_module_list,
                );
                proof {
                    lemma_tied_extends(old(self).module_list_cache.entries(), t0, self.ordinals@);
                    assert forall|o: int| #[trigger] has_entry(self.coverage.entries(), o) implies o
                        < self.ordinals@.len() && bitmap_of(self.coverage.entries(), o).len() == (
                    self.ordinals@[o].2 + 7) / 8 by {
                        assert(self.ordinals@[o] == t0[o]);
                    }
                }
                match walked {
                    Ok(ml) => {
                        self.module_list_cache = ml;
                        self.module_list_cache.find_module(rip)
                    },
                    Err(_) => {
                        assert(*final(memory) == *memory);
                        return false;
                    },
                }
            },
        };
        assert(*final(memory) == *memory);
        match found {
            Some(i) => {
                let (ordinal, size, offset) = self.module_list_cache.entry_key(i, rip);
                if ordinal == usize::MAX {
                    return false;
                }
                proof {
                    let e = self.module_list_cache.entries()[i as int];
                    assert(self.ordinals@[ordinal as int] == e.info.key());
                }
                let r = self.coverage.record(ordinal, size, offset);
                proof {
                    assert forall|o: int| #[trigger] has_entry(self.coverage.entries(), o) implies o
                        < self.ordinals@.len() && bitmap_of(self.coverage.entries(), o).len() == (
                    self.ordinals@[o].2 + 7) / 8 by {
                        if o != ordinal {
                            assert(has_entry(c0.entries(), o) || has_entry(old(self).coverage.entries(), o));
                        }
                    }
                }
                r
            },
            None => false,
        }
    }
}

} // verus!
