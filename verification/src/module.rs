//! The editable structural image of a binary module, and the two
//! transformation passes of the persistence pipeline.
//!
//! Only what the passes read and edit is modelled: globals, memories,
//! exports, imports and data segments. Code, types and every other section
//! stay with the binary itself and pass through the pipeline untouched.

use vstd::prelude::*;

use crate::names::{lemma_synth_name_injective, make_synth_name, synth_name};
use crate::values::ValKind;

verus! {

/// A typed, optionally mutable storage cell declared at module scope.
#[derive(Clone, Copy, Debug, PartialEq, Eq)]
pub struct Global {
    pub ty: ValKind,
    pub mutable: bool,
    /// Whether the cell's value is supplied by an import instead of its own
    /// initializer.
    pub imported: bool,
}

/// A linear memory: its page bounds, and whether its contents are supplied
/// by an import.
#[derive(Clone, Copy, Debug, PartialEq, Eq)]
pub struct Memory {
    pub min_pages: u64,
    pub max_pages: Option<u64>,
    pub imported: bool,
}

/// What an export or import points at within the module.
#[derive(Clone, Copy, Debug, PartialEq, Eq, Structural)]
pub enum ExternTarget {
    /// An index into the module's globals.
    Global(usize),
    /// An index into the module's memories.
    Memory(usize),
    /// Any other entity (function, table, tag); passed through unexamined.
    Other,
}

/// A named, externally visible binding to an entity of the module.
#[derive(Clone, Debug, PartialEq, Eq)]
pub struct Export {
    pub name: String,
    pub target: ExternTarget,
}

/// A declared requirement for an externally supplied entity.
#[derive(Clone, Debug, PartialEq, Eq)]
pub struct Import {
    pub namespace: String,
    pub name: String,
    pub target: ExternTarget,
}

/// A static initializer for a span of a memory; `memory` is `None` for a
/// passive segment.
#[derive(Clone, Copy, Debug, PartialEq, Eq)]
pub struct DataSegment {
    pub memory: Option<usize>,
}

/// The editable image of a module.
#[derive(Clone, Debug, PartialEq, Eq)]
pub struct Module {
    pub globals: Vec<Global>,
    pub memories: Vec<Memory>,
    pub exports: Vec<Export>,
    pub imports: Vec<Import>,
    pub data: Vec<DataSegment>,
}

/// The mathematical image of an `Export`.
pub struct ExportView {
    pub name: Seq<char>,
    pub target: ExternTarget,
}

/// The mathematical image of an `Import`.
pub struct ImportView {
    pub namespace: Seq<char>,
    pub name: Seq<char>,
    pub target: ExternTarget,
}

/// The mathematical image of a `Module`.
pub struct ModuleView {
    pub globals: Seq<Global>,
    pub memories: Seq<Memory>,
    pub exports: Seq<ExportView>,
    pub imports: Seq<ImportView>,
    pub data: Seq<DataSegment>,
}

impl View for Export {
    type V = ExportView;

    open spec fn view(&self) -> ExportView {
        ExportView { name: self.name@, target: self.target }
    }
}

impl DeepView for Export {
    type V = ExportView;

    open spec fn deep_view(&self) -> ExportView {
        self.view()
    }
}

impl View for Import {
    type V = ImportView;

    open spec fn view(&self) -> ImportView {
        ImportView { namespace: self.namespace@, name: self.name@, target: self.target }
    }
}

impl DeepView for Import {
    type V = ImportView;

    open spec fn deep_view(&self) -> ImportView {
        self.view()
    }
}

impl View for Module {
    type V = ModuleView;

    open spec fn view(&self) -> ModuleView {
        ModuleView {
            globals: self.globals@,
            memories: self.memories@,
            exports: self.exports.deep_view(),
            imports: self.imports.deep_view(),
            data: self.data@,
        }
    }
}

/// Whether a target stays within a module that declares `globals` globals
/// and `memories` memories.
pub open spec fn target_in_range(t: ExternTarget, globals: int, memories: int) -> bool {
    match t {
        ExternTarget::Global(i) => i < globals,
        ExternTarget::Memory(i) => i < memories,
        ExternTarget::Other => true,
    }
}

/// Whether some export among `exports` targets global `i`.
pub open spec fn exports_target_global(exports: Seq<ExportView>, i: int) -> bool {
    exists|j: int|
        0 <= j < exports.len() && (#[trigger] exports[j].target) == ExternTarget::Global(
            i as usize,
        )
}

/// Whether some export among `exports` targets memory `i`.
pub open spec fn exports_target_memory(exports: Seq<ExportView>, i: int) -> bool {
    exists|j: int|
        0 <= j < exports.len() && (#[trigger] exports[j].target) == ExternTarget::Memory(
            i as usize,
        )
}

impl ModuleView {
    /// Every export, import and data segment points at a declared entity.
    pub open spec fn wf(self) -> bool {
        &&& forall|j: int|
            0 <= j < self.exports.len() ==> target_in_range(
                (#[trigger] self.exports[j]).target,
                self.globals.len() as int,
                self.memories.len() as int,
            )
        &&& forall|j: int|
            0 <= j < self.imports.len() ==> target_in_range(
                (#[trigger] self.imports[j]).target,
                self.globals.len() as int,
                self.memories.len() as int,
            )
        &&& forall|j: int|
            0 <= j < self.data.len() ==> ((#[trigger] self.data[j]).memory matches Some(i)
                ==> i < self.memories.len())
    }

    /// Whether global `i` needs a synthetic export: mutable, not yet
    /// exported.
    pub open spec fn needs_export(self, i: int) -> bool {
        self.globals[i].mutable && !exports_target_global(self.exports, i)
    }
}

/// The synthetic exports the normalizer adds for the first `i` globals,
/// named from a counter that advances only for globals that receive one.
pub open spec fn synth_exports(m: ModuleView, i: nat) -> Seq<ExportView>
    decreases i,
{
    if i == 0 {
        Seq::empty()
    } else if m.needs_export(i - 1) {
        synth_exports(m, (i - 1) as nat) + seq![
            ExportView {
                name: synth_name(synth_count(m, (i - 1) as nat)),
                target: ExternTarget::Global((i - 1) as usize),
            },
        ]
    } else {
        synth_exports(m, (i - 1) as nat)
    }
}

/// How many of the first `i` globals receive a synthetic export.
pub open spec fn synth_count(m: ModuleView, i: nat) -> nat
    decreases i,
{
    if i == 0 {
        0
    } else if m.needs_export(i - 1) {
        synth_count(m, (i - 1) as nat) + 1
    } else {
        synth_count(m, (i - 1) as nat)
    }
}

/// The export normalizer: the module with a synthetic export added for
/// every mutable global that had none, and everything else untouched.
pub open spec fn spec_normalize(m: ModuleView) -> ModuleView {
    ModuleView { exports: m.exports + synth_exports(m, m.globals.len()), ..m }
}

/// The counter never outruns the number of globals seen.
proof fn lemma_synth_count_le(m: ModuleView, i: nat)
    ensures
        synth_count(m, i) <= i,
    decreases i,
{
    if i > 0 {
        lemma_synth_count_le(m, (i - 1) as nat);
    }
}

/// Whether one of the first `n` exports targets global `i`.
fn exported_in_prefix(exports: &Vec<Export>, n: usize, i: usize) -> (r: bool)
    requires
        n <= exports@.len(),
    ensures
        r == exports_target_global(exports.deep_view().take(n as int), i as int),
{
    let mut j: usize = 0;
    while j < n
        invariant
            j <= n <= exports@.len(),
            forall|k: int|
                0 <= k < j ==> (#[trigger] exports.deep_view()[k].target) != ExternTarget::Global(
                    i,
                ),
        decreases n - j,
    {
        if matches!(exports[j].target, ExternTarget::Global(g) if g == i) {
            assert(exports.deep_view().take(n as int)[j as int].target == ExternTarget::Global(i));
            return true;
        }
        j = j + 1;
    }
    assert(forall|k: int|
        0 <= k < n ==> (#[trigger] exports.deep_view().take(n as int)[k]).target
            != ExternTarget::Global(i));
    false
}

/// The export normalizer. For each global in declaration order that is
/// mutable and not already exported, adds one synthetic export named from a
/// monotonically increasing counter; touches nothing else.
pub fn normalize_exports(m: Module) -> (r: Module)
    ensures
        r@ == spec_normalize(m@),
{
    let ghost mv = m@;
    let Module { globals, memories, exports, imports, data } = m;
    let mut exports = exports;
    let orig_len = exports.len();
    let mut ctr: u64 = 0;
    let mut i: usize = 0;
    while i < globals.len()
        invariant
            orig_len == mv.exports.len(),
            orig_len <= exports@.len(),
            globals@ == mv.globals,
            i <= globals@.len(),
            exports.deep_view() == mv.exports + synth_exports(mv, i as nat),
            ctr as nat == synth_count(mv, i as nat),
            ctr <= i,
        decreases globals@.len() - i,
    {
        proof {
            lemma_synth_count_le(mv, i as nat);
            assert(mv.exports =~= exports.deep_view().take(orig_len as int));
        }
        if globals[i].mutable && !exported_in_prefix(&exports, orig_len, i) {
            let name = make_synth_name(ctr);
            let ghost before = exports.deep_view();
            exports.push(Export { name, target: ExternTarget::Global(i) });
            proof {
                assert(exports.deep_view() =~= before + seq![
                    ExportView {
                        name: synth_name(ctr as nat),
                        target: ExternTarget::Global(i),
                    },
                ]);
                assert(exports.deep_view() =~= mv.exports + synth_exports(mv, (i + 1) as nat));
            }
            ctr = ctr + 1;
        } else {
            proof {
                assert(synth_exports(mv, (i + 1) as nat) == synth_exports(mv, i as nat));
            }
        }
        i = i + 1;
    }
    Module { globals, memories, exports, imports, data }
}

/// The namespace under which the rewriter declares its imports.
pub open spec fn import_namespace() -> Seq<char> {
    "cursed-imports"@
}

/// The exports the rewriter keeps: those that target neither a global nor a
/// memory, taken from the first `n` exports in order.
pub open spec fn kept_exports(e: Seq<ExportView>, n: nat) -> Seq<ExportView>
    decreases n,
{
    if n == 0 {
        Seq::empty()
    } else if e[n - 1].target is Other {
        kept_exports(e, (n - 1) as nat) + seq![e[n - 1]]
    } else {
        kept_exports(e, (n - 1) as nat)
    }
}

/// The imports that replace the persisted exports among the first `n`
/// exports, in export order, each under the synthetic namespace with the
/// export's own name and target.
pub open spec fn converted_imports(e: Seq<ExportView>, n: nat) -> Seq<ImportView>
    decreases n,
{
    if n == 0 {
        Seq::empty()
    } else if e[n - 1].target is Other {
        converted_imports(e, (n - 1) as nat)
    } else {
        converted_imports(e, (n - 1) as nat) + seq![
            ImportView {
                namespace: import_namespace(),
                name: e[n - 1].name,
                target: e[n - 1].target,
            },
        ]
    }
}

/// A global, with its import binding recorded when some export targets it.
pub open spec fn rewritten_global(m: ModuleView, i: int) -> Global {
    Global { imported: m.globals[i].imported || exports_target_global(m.exports, i), ..m.globals[i] }
}

/// A memory, with its import binding recorded when some export targets it.
pub open spec fn rewritten_memory(m: ModuleView, i: int) -> Memory {
    Memory {
        imported: m.memories[i].imported || exports_target_memory(m.exports, i),
        ..m.memories[i]
    }
}

/// The import rewriter: every data segment deleted; every export that
/// targets a global or a memory replaced by an import of the same name and
/// target under the synthetic namespace; the targeted entities marked as
/// import-bound; all other exports and the pre-existing imports kept.
pub open spec fn spec_rewrite(m: ModuleView) -> ModuleView {
    ModuleView {
        globals: Seq::new(m.globals.len(), |i: int| rewritten_global(m, i)),
        memories: Seq::new(m.memories.len(), |i: int| rewritten_memory(m, i)),
        exports: kept_exports(m.exports, m.exports.len()),
        imports: m.imports + converted_imports(m.exports, m.exports.len()),
        data: Seq::empty(),
    }
}

/// Whether one of the first `n` exports targets memory `i`.
fn memory_exported_in_prefix(exports: &Vec<Export>, n: usize, i: usize) -> (r: bool)
    requires
        n <= exports@.len(),
    ensures
        r == exports_target_memory(exports.deep_view().take(n as int), i as int),
{
    let mut j: usize = 0;
    while j < n
        invariant
            j <= n <= exports@.len(),
            forall|k: int|
                0 <= k < j ==> (#[trigger] exports.deep_view()[k].target) != ExternTarget::Memory(
                    i,
                ),
        decreases n - j,
    {
        if matches!(exports[j].target, ExternTarget::Memory(g) if g == i) {
            assert(exports.deep_view().take(n as int)[j as int].target == ExternTarget::Memory(i));
            return true;
        }
        j = j + 1;
    }
    assert(forall|k: int|
        0 <= k < n ==> (#[trigger] exports.deep_view().take(n as int)[k]).target
            != ExternTarget::Memory(i));
    false
}

/// The import rewriter, applied only when preparing to restore saved state.
pub fn rewrite_for_reload(m: Module) -> (r: Module)
    ensures
        r@ == spec_rewrite(m@),
{
    let ghost mv = m@;
    let Module { globals, memories, exports, imports, data: _ } = m;
    let mut imports = imports;
    let n_exports = exports.len();

    let mut kept: Vec<Export> = Vec::new();
    let mut j: usize = 0;
    while j < n_exports
        invariant
            n_exports == mv.exports.len(),
            exports.deep_view() == mv.exports,
            j <= n_exports,
            kept.deep_view() == kept_exports(mv.exports, j as nat),
            imports.deep_view() == mv.imports + converted_imports(mv.exports, j as nat),
        decreases n_exports - j,
    {
        let ghost kept_before = kept.deep_view();
        let ghost imports_before = imports.deep_view();
        match exports[j].target {
            ExternTarget::Other => {
                kept.push(Export { name: exports[j].name.clone(), target: exports[j].target });
                proof {
                    assert(kept.deep_view() =~= kept_before + seq![mv.exports[j as int]]);
                }
            },
            _ => {
                imports.push(
                    Import {
                        namespace: String::from_str("cursed-imports"),
                        name: exports[j].name.clone(),
                        target: exports[j].target,
                    },
                );
                proof {
                    assert(imports.deep_view() =~= imports_before + seq![
                        ImportView {
                            namespace: import_namespace(),
                            name: mv.exports[j as int].name,
                            target: mv.exports[j as int].target,
                        },
                    ]);
                }
            },
        }
        j = j + 1;
    }

    let mut new_globals: Vec<Global> = Vec::new();
    let mut i: usize = 0;
    while i < globals.len()
        invariant
            globals@ == mv.globals,
            exports.deep_view() == mv.exports,
            n_exports == exports@.len(),
            i <= globals@.len(),
            new_globals@ == Seq::new(i as nat, |k: int| rewritten_global(mv, k)),
        decreases globals@.len() - i,
    {
        let ghost before = new_globals@;
        let g = globals[i];
        let targeted = exported_in_prefix(&exports, n_exports, i);
        proof {
            assert(exports.deep_view().take(n_exports as int) =~= mv.exports);
        }
        new_globals.push(Global { ty: g.ty, mutable: g.mutable, imported: g.imported || targeted });
        proof {
            assert(new_globals@ =~= Seq::new((i + 1) as nat, |k: int| rewritten_global(mv, k)));
        }
        i = i + 1;
    }

    let mut new_memories: Vec<Memory> = Vec::new();
    let mut i: usize = 0;
    while i < memories.len()
        invariant
            memories@ == mv.memories,
            exports.deep_view() == mv.exports,
            n_exports == exports@.len(),
            i <= memories@.len(),
            new_memories@ == Seq::new(i as nat, |k: int| rewritten_memory(mv, k)),
        decreases memories@.len() - i,
    {
        let m0 = memories[i];
        let targeted = memory_exported_in_prefix(&exports, n_exports, i);
        proof {
            assert(exports.deep_view().take(n_exports as int) =~= mv.exports);
        }
        new_memories.push(
            Memory {
                min_pages: m0.min_pages,
                max_pages: m0.max_pages,
                imported: m0.imported || targeted,
            },
        );
        proof {
            assert(new_memories@ =~= Seq::new((i + 1) as nat, |k: int| rewritten_memory(mv, k)));
        }
        i = i + 1;
    }

    let r = Module {
        globals: new_globals,
        memories: new_memories,
        exports: kept,
        imports,
        data: Vec::new(),
    };
    proof {
        assert(r@.data =~= Seq::<DataSegment>::empty());
        assert(r@ =~= spec_rewrite(mv));
    }
    r
}

/// Every synthetic export targets one of the first `i` globals.
proof fn lemma_synth_exports_targets(m: ModuleView, i: nat)
    ensures
        forall|k: int|
            0 <= k < synth_exports(m, i).len() ==> ((#[trigger] synth_exports(m, i)[k].target)
                matches ExternTarget::Global(g) && g < i),
    decreases i,
{
    if i > 0 {
        lemma_synth_exports_targets(m, (i - 1) as nat);
    }
}

/// The export normalizer preserves the module's well-formedness.
pub proof fn lemma_normalize_preserves_wf(m: ModuleView)
    requires
        m.wf(),
    ensures
        spec_normalize(m).wf(),
{
    lemma_synth_exports_targets(m, m.globals.len());
    let r = spec_normalize(m);
    assert forall|j: int| 0 <= j < r.exports.len() implies target_in_range(
        (#[trigger] r.exports[j]).target,
        r.globals.len() as int,
        r.memories.len() as int,
    ) by {
        if j < m.exports.len() {
            assert(r.exports[j] == m.exports[j]);
        } else {
            assert(r.exports[j] == synth_exports(m, m.globals.len())[j - m.exports.len()]);
        }
    }
}

/// The synthetic exports for the first `i` globals are as many as the
/// counter says, and each is named from a counter value below the final
/// one.
proof fn lemma_synth_names(m: ModuleView, i: nat)
    ensures
        synth_exports(m, i).len() == synth_count(m, i),
        forall|k: int|
            0 <= k < synth_exports(m, i).len() ==> exists|c: nat|
                c < synth_count(m, i) && (#[trigger] synth_exports(m, i)[k]).name == synth_name(c),
    decreases i,
{
    if i > 0 {
        lemma_synth_names(m, (i - 1) as nat);
        let prev = synth_exports(m, (i - 1) as nat);
        let s = synth_exports(m, i);
        assert forall|k: int|
            0 <= k < s.len() implies exists|c: nat|
            c < synth_count(m, i) && (#[trigger] s[k]).name == synth_name(c) by {
            if k < prev.len() {
                assert(s[k] == prev[k]);
                let c = choose|c: nat|
                    c < synth_count(m, (i - 1) as nat) && (#[trigger] prev[k]).name == synth_name(
                        c,
                    );
                assert(c < synth_count(m, i) && s[k].name == synth_name(c));
            } else {
                assert(s[k].name == synth_name(synth_count(m, (i - 1) as nat)));
            }
        }
    }
}

/// The synthetic exports carry pairwise distinct names.
proof fn lemma_synth_names_distinct(m: ModuleView, i: nat)
    ensures
        forall|k1: int, k2: int|
            0 <= k1 < k2 < synth_exports(m, i).len() ==> synth_exports(m, i)[k1].name
                != synth_exports(m, i)[k2].name,
    decreases i,
{
    if i > 0 {
        lemma_synth_names_distinct(m, (i - 1) as nat);
        lemma_synth_names(m, (i - 1) as nat);
        let prev = synth_exports(m, (i - 1) as nat);
        let s = synth_exports(m, i);
        assert forall|k1: int, k2: int|
            0 <= k1 < k2 < s.len() implies s[k1].name != s[k2].name by {
            if k2 >= prev.len() {
                assert(s[k1] == prev[k1]);
                let c = choose|c: nat|
                    c < synth_count(m, (i - 1) as nat) && (#[trigger] prev[k1]).name == synth_name(
                        c,
                    );
                assert(s[k2].name == synth_name(synth_count(m, (i - 1) as nat)));
                if s[k1].name == s[k2].name {
                    lemma_synth_name_injective(c, synth_count(m, (i - 1) as nat));
                }
            } else {
                assert(s[k1] == prev[k1] && s[k2] == prev[k2]);
            }
        }
    }
}

/// Each synthetic export targets a global that needed one, each a
/// different one.
proof fn lemma_synth_targets(m: ModuleView, i: nat)
    requires
        i <= usize::MAX,
    ensures
        forall|k: int|
            0 <= k < synth_exports(m, i).len() ==> ((#[trigger] synth_exports(m, i)[k]).target
                matches ExternTarget::Global(g) && g < i && m.needs_export(g as int)),
        forall|k1: int, k2: int|
            0 <= k1 < k2 < synth_exports(m, i).len() ==> synth_exports(m, i)[k1].target
                != synth_exports(m, i)[k2].target,
    decreases i,
{
    if i > 0 {
        lemma_synth_targets(m, (i - 1) as nat);
        let prev = synth_exports(m, (i - 1) as nat);
        let s = synth_exports(m, i);
        assert forall|k: int|
            0 <= k < s.len() implies ((#[trigger] s[k]).target matches ExternTarget::Global(g) && g
            < i && m.needs_export(g as int)) by {
            if k < prev.len() {
                assert(s[k] == prev[k]);
                assert(prev[k].target matches ExternTarget::Global(g) && g < i - 1
                    && m.needs_export(g as int));
            } else {
                assert(s[k].target == ExternTarget::Global((i - 1) as usize));
            }
        }
    }
}

/// Every global that needs a synthetic export receives one among the
/// synthetic exports for the first `n` globals.
proof fn lemma_synth_covers(m: ModuleView, n: nat)
    requires
        n <= usize::MAX,
    ensures
        forall|i: int|
            0 <= i < n && m.needs_export(i) ==> exists|k: int|
                0 <= k < synth_exports(m, n).len() && (#[trigger] synth_exports(m, n)[k].target)
                    == ExternTarget::Global(i as usize),
    decreases n,
{
    if n > 0 {
        lemma_synth_covers(m, (n - 1) as nat);
        let prev = synth_exports(m, (n - 1) as nat);
        let s = synth_exports(m, n);
        assert forall|i: int|
            0 <= i < n && m.needs_export(i) implies exists|k: int|
            0 <= k < s.len() && (#[trigger] s[k].target) == ExternTarget::Global(i as usize) by {
            if i < n - 1 {
                let k = choose|k: int|
                    0 <= k < prev.len() && prev[k].target == ExternTarget::Global(i as usize);
                assert(s[k].target == ExternTarget::Global(i as usize));
            } else {
                assert(s[s.len() - 1].target == ExternTarget::Global(i as usize));
            }
        }
    }
}

/// The normalizer's guarantee as an invariant of the result: the exports
/// grow by exactly one synthetic export per mutable, previously unexported
/// global; each such global is now exported; the synthetic exports carry
/// pairwise distinct names and pairwise distinct targets, and target only
/// globals that needed one.
pub proof fn lemma_normalize_invariant(m: ModuleView)
    requires
        m.globals.len() <= usize::MAX,
    ensures
        spec_normalize(m).exports.len() == m.exports.len() + synth_count(m, m.globals.len()),
        forall|i: int|
            0 <= i < m.globals.len() && m.needs_export(i) ==> exports_target_global(
                spec_normalize(m).exports,
                i,
            ),
        forall|k1: int, k2: int|
            m.exports.len() <= k1 < k2 < spec_normalize(m).exports.len() ==> spec_normalize(
                m,
            ).exports[k1].name != spec_normalize(m).exports[k2].name,
        forall|k1: int, k2: int|
            m.exports.len() <= k1 < k2 < spec_normalize(m).exports.len() ==> spec_normalize(
                m,
            ).exports[k1].target != spec_normalize(m).exports[k2].target,
        forall|k: int|
            m.exports.len() <= k < spec_normalize(m).exports.len() ==> ((#[trigger] spec_normalize(
                m,
            ).exports[k].target) matches ExternTarget::Global(g) && m.needs_export(g as int)),
{
    let s = synth_exports(m, m.globals.len());
    let r = spec_normalize(m);
    lemma_synth_names(m, m.globals.len());
    lemma_synth_names_distinct(m, m.globals.len());
    lemma_synth_targets(m, m.globals.len());
    lemma_synth_covers(m, m.globals.len());
    assert(forall|k: int| 0 <= k < s.len() ==> r.exports[m.exports.len() + k] == #[trigger] s[k]);
    assert forall|i: int|
        0 <= i < m.globals.len() && m.needs_export(i) implies exports_target_global(
        r.exports,
        i,
    ) by {
        let k = choose|k: int| 0 <= k < s.len() && s[k].target == ExternTarget::Global(i as usize);
        assert(r.exports[m.exports.len() + k].target == ExternTarget::Global(i as usize));
    }
}

/// Every export the rewriter keeps is one of the module's exports.
proof fn lemma_kept_exports_from(e: Seq<ExportView>, n: nat)
    ensures
        forall|k: int|
            0 <= k < kept_exports(e, n).len() ==> exists|j: int|
                0 <= j < n && (#[trigger] kept_exports(e, n)[k]) == e[j],
    decreases n,
{
    if n > 0 {
        lemma_kept_exports_from(e, (n - 1) as nat);
        assert forall|k: int| 0 <= k < kept_exports(e, n).len() implies exists|j: int|
            0 <= j < n && (#[trigger] kept_exports(e, n)[k]) == e[j] by {
            if k < kept_exports(e, (n - 1) as nat).len() {
                let j = choose|j: int|
                    0 <= j < n - 1 && kept_exports(e, (n - 1) as nat)[k] == e[j];
                assert(0 <= j < n && kept_exports(e, n)[k] == e[j]);
            } else {
                assert(kept_exports(e, n)[k] == e[n - 1]);
            }
        }
    }
}

/// Every import the rewriter adds carries the target of one of the
/// module's exports.
proof fn lemma_converted_imports_from(e: Seq<ExportView>, n: nat)
    ensures
        forall|k: int|
            0 <= k < converted_imports(e, n).len() ==> exists|j: int|
                0 <= j < n && (#[trigger] converted_imports(e, n)[k].target) == e[j].target,
    decreases n,
{
    if n > 0 {
        lemma_converted_imports_from(e, (n - 1) as nat);
        assert forall|k: int| 0 <= k < converted_imports(e, n).len() implies exists|j: int|
            0 <= j < n && (#[trigger] converted_imports(e, n)[k].target) == e[j].target by {
            if k < converted_imports(e, (n - 1) as nat).len() {
                let j = choose|j: int|
                    0 <= j < n - 1 && converted_imports(e, (n - 1) as nat)[k].target
                        == e[j].target;
                assert(0 <= j < n && converted_imports(e, n)[k].target == e[j].target);
            } else {
                assert(converted_imports(e, n)[k].target == e[n - 1].target);
            }
        }
    }
}

/// The import rewriter preserves the module's well-formedness.
pub proof fn lemma_rewrite_preserves_wf(m: ModuleView)
    requires
        m.wf(),
    ensures
        spec_rewrite(m).wf(),
{
    lemma_kept_exports_from(m.exports, m.exports.len());
    lemma_converted_imports_from(m.exports, m.exports.len());
    let r = spec_rewrite(m);
    assert forall|j: int| 0 <= j < r.exports.len() implies target_in_range(
        (#[trigger] r.exports[j]).target,
        r.globals.len() as int,
        r.memories.len() as int,
    ) by {
        let j0 = choose|j0: int| 0 <= j0 < m.exports.len() && r.exports[j] == m.exports[j0];
        assert(target_in_range(
            m.exports[j0].target,
            m.globals.len() as int,
            m.memories.len() as int,
        ));
    }
    assert forall|j: int| 0 <= j < r.imports.len() implies target_in_range(
        (#[trigger] r.imports[j]).target,
        r.globals.len() as int,
        r.memories.len() as int,
    ) by {
        if j < m.imports.len() {
            assert(r.imports[j] == m.imports[j]);
        } else {
            let k = j - m.imports.len();
            assert(r.imports[j] == converted_imports(m.exports, m.exports.len())[k]);
            let j0 = choose|j0: int|
                0 <= j0 < m.exports.len() && converted_imports(m.exports, m.exports.len())[k].target
                    == m.exports[j0].target;
            assert(target_in_range(
                m.exports[j0].target,
                m.globals.len() as int,
                m.memories.len() as int,
            ));
        }
    }
}

/// Fresh-load preparation: only the export normalizer runs, so the module
/// keeps its own initial values while every mutable global becomes
/// observable.
pub fn prepare_fresh(m: Module) -> (r: Module)
    ensures
        r@ == spec_normalize(m@),
{
    normalize_exports(m)
}

/// Reload preparation: the export normalizer followed by the import
/// rewriter, so every persisted entity must be supplied externally at
/// instantiation.
pub fn prepare_reload(m: Module) -> (r: Module)
    ensures
        r@ == spec_rewrite(spec_normalize(m@)),
{
    rewrite_for_reload(normalize_exports(m))
}

} // verus!
