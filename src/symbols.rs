use vstd::prelude::*;
use vstd::string::StringExecFns;
use crate::fmt::{hex_text, push_hex};
use crate::win32::{ModuleInfo, Ordinal};

verus! {

/// Symbols of one module: `(offset, name, size)` sorted by offset, and
/// source lines in the same form.
pub struct SymbolContext {
    pub symbols: Vec<(u64, String, u64)>,
    pub sourceline: Vec<(u64, String, u64)>,
}

impl SymbolContext {
    /// A context with no symbols.
    pub fn empty() -> (r: SymbolContext)
        ensures
            r.symbols@.len() == 0,
            r.sourceline@.len() == 0,
    {
        SymbolContext { symbols: Vec::new(), sourceline: Vec::new() }
    }
}

pub open spec fn symbols_sorted(s: Seq<(u64, String, u64)>) -> bool {
    forall|i: int, j: int| 0 <= i <= j < s.len() ==> #[trigger] s[i].0 <= #[trigger] s[j].0
}

/// Symbol `i` is the nearest one at or below `offset`.
pub open spec fn nearest_symbol(s: Seq<(u64, String, u64)>, offset: u64, i: int) -> bool {
    &&& 0 <= i < s.len()
    &&& s[i].0 <= offset
    &&& forall|j: int| i < j < s.len() ==> #[trigger] s[j].0 > offset
}

/// Symbols per module, indexed by module ordinal.
pub struct Symbols {
    modules: Vec<Option<SymbolContext>>,
}

impl Symbols {
    pub closed spec fn contexts(&self) -> Seq<Option<SymbolContext>> {
        self.modules@
    }

    /// Every loaded symbol list is sorted by offset.
    pub open spec fn wf(&self) -> bool {
        forall|i: int|
            0 <= i < self.contexts().len() && #[trigger] self.contexts()[i] is Some ==> symbols_sorted(
                self.contexts()[i]->Some_0.symbols@,
            )
    }

    /// The symbols of module `ordinal`, if loaded.
    pub open spec fn context_of(&self, ordinal: int) -> Option<SymbolContext> {
        if 0 <= ordinal < self.contexts().len() {
            self.contexts()[ordinal]
        } else {
            None
        }
    }

    /// No symbols loaded.
    pub fn new() -> (r: Symbols)
        ensures
            r.wf(),
            forall|o: int| r.context_of(o) is None,
    {
        Symbols { modules: Vec::new() }
    }

    /// Whether symbols (possibly none) were loaded for `ordinal`.
    pub fn is_loaded(&self, ordinal: Ordinal) -> (r: bool)
        ensures
            r == self.context_of(ordinal as int) is Some,
    {
        ordinal < self.modules.len() && self.modules[ordinal].is_some()
    }

    /// Install the symbols of module `ordinal`.
    pub fn insert(&mut self, ordinal: Ordinal, context: SymbolContext)
        requires
            old(self).wf(),
            symbols_sorted(context.symbols@),
            ordinal < usize::MAX,
        ensures
            final(self).wf(),
            final(self).context_of(ordinal as int) == Some(context),
            forall|o: int| o != ordinal ==> #[trigger] final(self).context_of(o) == old(self).context_of(o),
    {
        let ghost before = self.modules@;
        while self.modules.len() <= ordinal
            invariant
                ordinal < usize::MAX,
                self.modules@.len() >= before.len(),
                forall|o: int| 0 <= o < before.len() ==> #[trigger] self.modules@[o] == before[o],
                forall|o: int| before.len() <= o < self.modules@.len() ==> #[trigger] self.modules@[o] is None,
            decreases ordinal + 1 - self.modules@.len(),
        {
            self.modules.push(None);
        }
        self.modules.set(ordinal, Some(context));
    }

    /// Index of the nearest symbol at or below `offset` in `syms`.
    fn nearest(syms: &Vec<(u64, String, u64)>, offset: u64) -> (r: Option<usize>)
        requires
            symbols_sorted(syms@),
        ensures
            r matches Some(i) ==> nearest_symbol(syms@, offset, i as int),
            r is None ==> forall|j: int| 0 <= j < syms@.len() ==> #[trigger] syms@[j].0 > offset,
    {
        let mut lo: usize = 0;
        let mut hi: usize = syms.len();
        while lo < hi
            invariant
                lo <= hi <= syms@.len(),
                symbols_sorted(syms@),
                forall|j: int| 0 <= j < lo ==> #[trigger] syms@[j].0 <= offset,
                forall|j: int| hi <= j < syms@.len() ==> #[trigger] syms@[j].0 > offset,
            decreases hi - lo,
        {
            let mid = lo + (hi - lo) / 2;
            if syms[mid].0 <= offset {
                lo = mid + 1;
            } else {
                hi = mid;
            }
        }
        if lo == 0 {
            None
        } else {
            Some(lo - 1)
        }
    }

    /// `module!symbol+0xoffset` for the nearest symbol at or below `offset`
    /// in `module`, or `None` without loaded symbols or such a symbol.
    pub fn resolve(&self, module: &ModuleInfo, offset: u64) -> (r: Option<String>)
        requires
            self.wf(),
        ensures
            self.context_of(module.spec_ordinal() as int) is None ==> r is None,
            self.context_of(module.spec_ordinal() as int) matches Some(c) ==> {
                &&& r is None <==> forall|j: int| 0 <= j < c.symbols@.len() ==> #[trigger] c.symbols@[j].0 > offset
                &&& r matches Some(s) ==> exists|i: int|
                    nearest_symbol(c.symbols@, offset, i) && s@ == module.spec_name() + "!"@ + (#[trigger] c.symbols@[i]).1@
                        + "+0x"@ + hex_text((offset - c.symbols@[i].0) as nat)
            },
    {
        proof {
            reveal_strlit("!");
            reveal_strlit("+0x");
        }
        let ordinal = module.ordinal();
        if ordinal >= self.modules.len() {
            return None;
        }
        match &self.modules[ordinal] {
            None => None,
            Some(ctx) => match Self::nearest(&ctx.symbols, offset) {
                None => None,
                Some(i) => {
                    let sym = &ctx.symbols[i];
                    let mut s = String::new();
                    s.append(module.name());
                    s.append("!");
                    s.append(sym.1.as_str());
                    s.append("+0x");
                    push_hex(&mut s, offset - sym.0);
                    proof {
                        assert(nearest_symbol(ctx.symbols@, offset, i as int));
                    }
                    Some(s)
                },
            },
        }
    }
}

} // verus!
