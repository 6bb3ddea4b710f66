//! The guarantees the pipeline gives as a whole, stated over the
//! specification functions that the executable functions are proved equal
//! to.

use vstd::prelude::*;

use crate::PAGE_SIZE;
use crate::errors::{PersistErrorView, StateMismatchDetail, StateMismatchView};
use crate::externs::{
    lemma_build_err_extends, spec_build_externs, spec_build_imports, spec_build_one,
    ExternBindingView, ExternValView, spec_lookup,
};
use crate::module::{
    converted_imports, import_namespace, spec_rewrite, ExternTarget, ImportView, ModuleView,
};
use crate::state::{spec_serialize, CapturedExportView, CapturedExternView, GlobalEntryView,
    StateView};
use crate::values::Val;

verus! {

/// Saving is a pure function of the captured state: two saves of the same
/// state produce the same artifacts, so a save with no intervening mutation
/// is idempotent.
pub proof fn lemma_save_deterministic(c1: Seq<CapturedExportView>, c2: Seq<CapturedExportView>)
    requires
        c1 == c2,
    ensures
        spec_serialize(c1) == spec_serialize(c2),
{
}

/// The only way a save can fail is an unsupported extern.
proof fn lemma_serialize_err_form(c: Seq<CapturedExportView>)
    requires
        spec_serialize(c) is Err,
    ensures
        spec_serialize(c) == Err::<StateView, PersistErrorView>(
            PersistErrorView::UnsupportedExtern,
        ),
    decreases c.len(),
{
    if c.len() != 0 && spec_serialize(c.drop_last()) is Err {
        lemma_serialize_err_form(c.drop_last());
    }
}

/// A save that succeeded tagged every captured global, so every captured
/// global was of a persistable kind.
proof fn lemma_serialize_ok_supported(c: Seq<CapturedExportView>)
    requires
        spec_serialize(c) is Ok,
    ensures
        forall|j: int|
            0 <= j < c.len() ==> ((#[trigger] c[j].item) matches CapturedExternView::Global(v)
                ==> v.spec_tagged() is Some),
    decreases c.len(),
{
    if c.len() != 0 {
        lemma_serialize_ok_supported(c.drop_last());
        assert(forall|j: int| 0 <= j < c.len() - 1 ==> c[j] == c.drop_last()[j]);
    }
}

/// A captured mutable global of a reference-like kind is never silently
/// dropped: the whole save fails with the unsupported-extern error.
pub proof fn lemma_save_rejects_unsupported_global(c: Seq<CapturedExportView>, j: int, v: Val)
    requires
        0 <= j < c.len(),
        c[j].item == CapturedExternView::Global(v),
        v.spec_tagged() is None,
    ensures
        spec_serialize(c) == Err::<StateView, PersistErrorView>(
            PersistErrorView::UnsupportedExtern,
        ),
{
    if spec_serialize(c) is Ok {
        lemma_serialize_ok_supported(c);
    }
    lemma_serialize_err_form(c);
}

/// If every import before `j` restores successfully, restoring the first
/// `j` imports succeeds.
proof fn lemma_build_prefix_ok(m: ModuleView, st: StateView, imps: Seq<ImportView>, j: int)
    requires
        0 <= j <= imps.len(),
        forall|k: int| 0 <= k < j ==> spec_build_one(m, st, #[trigger] imps[k]) is Ok,
    ensures
        spec_build_imports(m, st, imps.take(j)) is Ok,
    decreases j,
{
    if j == 0 {
        assert(imps.take(0) =~= Seq::<ImportView>::empty());
    } else {
        lemma_build_prefix_ok(m, st, imps, j - 1);
        assert(imps.take(j).drop_last() =~= imps.take(j - 1));
        assert(imps.take(j).last() == imps[j - 1]);
    }
}

/// Restoration fails on the import at `j` with exactly the failure its own
/// restoration gives, when every import before it restores successfully.
proof fn lemma_build_fails_at(
    m: ModuleView,
    st: StateView,
    j: int,
    e: PersistErrorView,
)
    requires
        0 <= j < m.imports.len(),
        forall|k: int| 0 <= k < j ==> spec_build_one(m, st, #[trigger] m.imports[k]) is Ok,
        spec_build_one(m, st, m.imports[j]) == Err::<ExternBindingView, PersistErrorView>(e),
    ensures
        spec_build_externs(m, st) == Err::<Seq<ExternBindingView>, PersistErrorView>(e),
{
    lemma_build_prefix_ok(m, st, m.imports, j);
    assert(m.imports.take(j + 1).drop_last() =~= m.imports.take(j));
    assert(m.imports.take(j + 1).last() == m.imports[j]);
    assert(spec_build_imports(m, st, m.imports.take(j + 1)) == Err::<
        Seq<ExternBindingView>,
        PersistErrorView,
    >(e));
    lemma_build_err_extends(m, st, m.imports, (j + 1) as nat, e);
}

/// A declared import of any kind other than global or memory is never
/// silently dropped: restoration fails with the unsupported-extern error.
/// Stated for the first import that cannot be restored.
pub proof fn lemma_restore_rejects_unsupported_import(m: ModuleView, st: StateView, j: int)
    requires
        0 <= j < m.imports.len(),
        m.imports[j].target is Other,
        forall|k: int| 0 <= k < j ==> spec_build_one(m, st, #[trigger] m.imports[k]) is Ok,
    ensures
        spec_build_externs(m, st) == Err::<Seq<ExternBindingView>, PersistErrorView>(
            PersistErrorView::UnsupportedExtern,
        ),
{
    lemma_build_fails_at(m, st, j, PersistErrorView::UnsupportedExtern);
}

/// A memory artifact holding fewer pages than the module's declared
/// minimum is never truncated or padded: restoration fails with a state
/// mismatch naming both page counts. Stated for the first import that
/// cannot be restored.
pub proof fn lemma_restore_rejects_small_memory(
    m: ModuleView,
    st: StateView,
    j: int,
    i: usize,
)
    requires
        0 <= j < m.imports.len(),
        m.imports[j].target == ExternTarget::Memory(i),
        st.memory.len() % (PAGE_SIZE as nat) == 0,
        st.memory.len() / (PAGE_SIZE as nat) < m.memories[i as int].min_pages,
        forall|k: int| 0 <= k < j ==> spec_build_one(m, st, #[trigger] m.imports[k]) is Ok,
    ensures
        spec_build_externs(m, st) == Err::<Seq<ExternBindingView>, PersistErrorView>(
            PersistErrorView::StateMismatch(
                StateMismatchView {
                    detail: StateMismatchDetail::MemoryTooSmall {
                        saved_pages: (st.memory.len() / (PAGE_SIZE as nat)) as u64,
                        required_pages: m.memories[i as int].min_pages,
                    },
                },
            ),
        ),
{
    lemma_build_fails_at(
        m,
        st,
        j,
        PersistErrorView::StateMismatch(
            StateMismatchView {
                detail: StateMismatchDetail::MemoryTooSmall {
                    saved_pages: (st.memory.len() / (PAGE_SIZE as nat)) as u64,
                    required_pages: m.memories[i as int].min_pages,
                },
            },
        ),
    );
}

/// A memory artifact whose length is not a whole number of pages never
/// reaches the instance half-copied: restoration fails with a state
/// mismatch carrying the offending length. Stated for the first import
/// that cannot be restored.
pub proof fn lemma_restore_rejects_unaligned_memory(
    m: ModuleView,
    st: StateView,
    j: int,
    i: usize,
)
    requires
        0 <= j < m.imports.len(),
        m.imports[j].target == ExternTarget::Memory(i),
        st.memory.len() % (PAGE_SIZE as nat) != 0,
        forall|k: int| 0 <= k < j ==> spec_build_one(m, st, #[trigger] m.imports[k]) is Ok,
    ensures
        spec_build_externs(m, st) == Err::<Seq<ExternBindingView>, PersistErrorView>(
            PersistErrorView::StateMismatch(
                StateMismatchView {
                    detail: StateMismatchDetail::UnalignedMemory(st.memory.len() as u64),
                },
            ),
        ),
{
    lemma_build_fails_at(
        m,
        st,
        j,
        PersistErrorView::StateMismatch(
            StateMismatchView {
                detail: StateMismatchDetail::UnalignedMemory(st.memory.len() as u64),
            },
        ),
    );
}

/// A saved value mapping that lacks the key of a declared global import
/// fails restoration with a state mismatch identifying the missing name.
/// Stated for the first import that cannot be restored.
pub proof fn lemma_restore_rejects_missing_global(
    m: ModuleView,
    st: StateView,
    j: int,
    i: usize,
)
    requires
        0 <= j < m.imports.len(),
        m.imports[j].target == ExternTarget::Global(i),
        spec_lookup(st.globals, m.imports[j].name) is None,
        forall|k: int| 0 <= k < j ==> spec_build_one(m, st, #[trigger] m.imports[k]) is Ok,
    ensures
        spec_build_externs(m, st) == Err::<Seq<ExternBindingView>, PersistErrorView>(
            PersistErrorView::StateMismatch(
                StateMismatchView {
                    detail: StateMismatchDetail::MissingGlobal(m.imports[j].name),
                },
            ),
        ),
{
    lemma_build_fails_at(
        m,
        st,
        j,
        PersistErrorView::StateMismatch(
            StateMismatchView { detail: StateMismatchDetail::MissingGlobal(m.imports[j].name) },
        ),
    );
}

/// The value mapping a successful save of `c` produces.
pub open spec fn saved_entries(c: Seq<CapturedExportView>) -> Seq<GlobalEntryView>
    decreases c.len(),
{
    if c.len() == 0 {
        Seq::empty()
    } else {
        saved_entries(c.drop_last()) + (match c.last().item {
            CapturedExternView::Global(v) => match v.spec_tagged() {
                Some(sv) => seq![GlobalEntryView { name: c.last().name, value: sv }],
                None => Seq::empty(),
            },
            _ => Seq::empty(),
        })
    }
}

/// The byte image a successful save of `c` produces.
pub open spec fn saved_memory(c: Seq<CapturedExportView>) -> Seq<u8>
    decreases c.len(),
{
    if c.len() == 0 {
        Seq::empty()
    } else {
        saved_memory(c.drop_last()) + (match c.last().item {
            CapturedExternView::Memory(b) => b,
            _ => Seq::empty(),
        })
    }
}

/// A save whose every captured global is persistable succeeds, and its
/// artifacts are exactly the mapping and the byte image read off `c`.
proof fn lemma_serialize_of_capture(c: Seq<CapturedExportView>)
    requires
        forall|j: int|
            0 <= j < c.len() ==> ((#[trigger] c[j].item) matches CapturedExternView::Global(v)
                ==> v.spec_tagged() is Some),
    ensures
        spec_serialize(c) == Ok::<StateView, PersistErrorView>(
            StateView { globals: saved_entries(c), memory: saved_memory(c) },
        ),
    decreases c.len(),
{
    if c.len() == 0 {
        assert(spec_serialize(c) == Ok::<StateView, PersistErrorView>(
            StateView { globals: saved_entries(c), memory: saved_memory(c) },
        ));
    } else {
        assert(forall|j: int| 0 <= j < c.len() - 1 ==> c.drop_last()[j] == c[j]);
        lemma_serialize_of_capture(c.drop_last());
        assert(c[c.len() - 1] == c.last());
        match c.last().item {
            CapturedExternView::Global(v) => {
                assert(v.spec_tagged() is Some);
                assert(saved_memory(c) =~= saved_memory(c.drop_last()));
            },
            CapturedExternView::Memory(b) => {
                assert(saved_entries(c) =~= saved_entries(c.drop_last()));
            },
            CapturedExternView::Other => {
                assert(saved_entries(c) =~= saved_entries(c.drop_last()));
                assert(saved_memory(c) =~= saved_memory(c.drop_last()));
            },
        }
    }
}

/// Looking up in a concatenation: the front mapping wins where it has the
/// name, the back mapping answers otherwise.
proof fn lemma_lookup_append(a: Seq<GlobalEntryView>, b: Seq<GlobalEntryView>, name: Seq<char>)
    ensures
        spec_lookup(a + b, name) == (if spec_lookup(a, name) is Some {
            spec_lookup(a, name)
        } else {
            spec_lookup(b, name)
        }),
    decreases a.len(),
{
    if a.len() == 0 {
        assert(a + b =~= b);
    } else {
        assert((a + b)[0] == a[0]);
        if a[0].name != name {
            assert((a + b).drop_first() =~= a.drop_first() + b);
            lemma_lookup_append(a.drop_first(), b, name);
        }
    }
}

/// A mapping holds no entry under `name` exactly when lookup finds none.
proof fn lemma_lookup_none(gs: Seq<GlobalEntryView>, name: Seq<char>)
    requires
        forall|k: int| 0 <= k < gs.len() ==> (#[trigger] gs[k].name) != name,
    ensures
        spec_lookup(gs, name) is None,
    decreases gs.len(),
{
    if gs.len() != 0 {
        assert(forall|k: int| 0 <= k < gs.len() - 1 ==> gs.drop_first()[k] == gs[k + 1]);
        lemma_lookup_none(gs.drop_first(), name);
    }
}

/// Every name in the saved value mapping is the name of some captured
/// export.
proof fn lemma_saved_entries_names(c: Seq<CapturedExportView>)
    ensures
        forall|k: int|
            0 <= k < saved_entries(c).len() ==> exists|j: int|
                0 <= j < c.len() && (#[trigger] saved_entries(c)[k].name) == c[j].name,
    decreases c.len(),
{
    if c.len() != 0 {
        lemma_saved_entries_names(c.drop_last());
        assert(forall|j: int| 0 <= j < c.len() - 1 ==> c.drop_last()[j] == c[j]);
        assert forall|k: int| 0 <= k < saved_entries(c).len() implies exists|j: int|
            0 <= j < c.len() && (#[trigger] saved_entries(c)[k].name) == c[j].name by {
            if k < saved_entries(c.drop_last()).len() {
                assert(saved_entries(c)[k] == saved_entries(c.drop_last())[k]);
                let j = choose|j: int|
                    0 <= j < c.drop_last().len() && saved_entries(c.drop_last())[k].name == c.drop_last()[j].name;
                assert(0 <= j < c.len() && saved_entries(c)[k].name == c[j].name);
            } else {
                assert(saved_entries(c)[k].name == c[c.len() - 1].name);
            }
        }
    }
}

/// Under pairwise-distinct export names, the saved value of a captured
/// global is found again under its own name, exactly.
proof fn lemma_lookup_saved(c: Seq<CapturedExportView>, j: int)
    requires
        0 <= j < c.len(),
        forall|j1: int, j2: int|
            0 <= j1 < j2 < c.len() ==> (#[trigger] c[j1].name) != (#[trigger] c[j2].name),
        c[j].item matches CapturedExternView::Global(v) && v.spec_tagged() is Some,
    ensures
        spec_lookup(saved_entries(c), c[j].name) == (match c[j].item {
            CapturedExternView::Global(v) => v.spec_tagged(),
            _ => None,
        }),
    decreases c.len(),
{
    let d = c.drop_last();
    assert(forall|k: int| 0 <= k < c.len() - 1 ==> d[k] == c[k]);
    let tail = (match c.last().item {
        CapturedExternView::Global(v) => match v.spec_tagged() {
            Some(sv) => seq![GlobalEntryView { name: c.last().name, value: sv }],
            None => Seq::<GlobalEntryView>::empty(),
        },
        _ => Seq::<GlobalEntryView>::empty(),
    });
    assert(saved_entries(c) == saved_entries(d) + tail);
    lemma_lookup_append(saved_entries(d), tail, c[j].name);
    if j == c.len() - 1 {
        lemma_saved_entries_names(d);
        assert forall|k: int| 0 <= k < saved_entries(d).len() implies (#[trigger] saved_entries(
            d,
        )[k].name) != c[j].name by {
            let j2 = choose|j2: int| 0 <= j2 < d.len() && saved_entries(d)[k].name == d[j2].name;
            assert(c[j2].name != c[j].name);
        }
        lemma_lookup_none(saved_entries(d), c[j].name);
        assert(c.last() == c[j]);
        assert(tail.len() == 1);
        assert(spec_lookup(tail, c[j].name) == Some(tail[0].value));
    } else {
        lemma_lookup_saved(d, j);
    }
}

/// Whether `c` is a faithful capture of the exports of module `m`: names
/// follow the exports, names are pairwise distinct, each captured item has
/// the kind and type its export's target declares, exactly one export
/// targets a memory, and the captured image fits the declared bounds.
pub open spec fn captures(m: ModuleView, c: Seq<CapturedExportView>) -> bool {
    &&& c.len() == m.exports.len()
    &&& forall|j: int| 0 <= j < c.len() ==> (#[trigger] c[j].name) == m.exports[j].name
    &&& forall|j1: int, j2: int|
        0 <= j1 < j2 < c.len() ==> (#[trigger] c[j1].name) != (#[trigger] c[j2].name)
    &&& forall|j: int|
        0 <= j < c.len() ==> match (#[trigger] m.exports[j].target) {
            ExternTarget::Global(i) => c[j].item matches CapturedExternView::Global(v)
                && v.spec_tagged() matches Some(sv) && sv.kind() == m.globals[i as int].ty,
            ExternTarget::Memory(i) => c[j].item matches CapturedExternView::Memory(b) && b.len()
                % (PAGE_SIZE as nat) == 0 && b.len() / (PAGE_SIZE as nat)
                >= m.memories[i as int].min_pages,
            ExternTarget::Other => c[j].item is Other,
        }
    &&& exists|j: int| 0 <= j < c.len() && (#[trigger] m.exports[j].target) is Memory
    &&& forall|j1: int, j2: int|
        0 <= j1 < c.len() && 0 <= j2 < c.len() && (#[trigger] m.exports[j1].target) is Memory && (
        #[trigger] m.exports[j2].target) is Memory ==> j1 == j2
}

/// The externs a round trip hands back, read off the capture: one global
/// per persisted global export carrying the very value captured, and one
/// memory carrying the very bytes captured, each under the synthetic
/// namespace and the export's name.
pub open spec fn round_trip_bindings(m: ModuleView, c: Seq<CapturedExportView>, n: nat) -> Seq<
    ExternBindingView,
>
    decreases n,
{
    if n == 0 {
        Seq::empty()
    } else {
        let prev = round_trip_bindings(m, c, (n - 1) as nat);
        match m.exports[n - 1].target {
            ExternTarget::Other => prev,
            ExternTarget::Global(_) => prev + seq![
                ExternBindingView {
                    namespace: import_namespace(),
                    name: m.exports[n - 1].name,
                    value: ExternValView::Global(
                        (match c[n - 1].item {
                            CapturedExternView::Global(v) => v.spec_tagged(),
                            _ => None,
                        })->Some_0,
                    ),
                },
            ],
            ExternTarget::Memory(_) => prev + seq![
                ExternBindingView {
                    namespace: import_namespace(),
                    name: m.exports[n - 1].name,
                    value: ExternValView::Memory {
                        pages: (saved_memory(c).len() / (PAGE_SIZE as nat)) as u64,
                        bytes: saved_memory(c),
                    },
                },
            ],
        }
    }
}

/// When exactly one captured export is a memory, the saved byte image is
/// that memory's buffer, verbatim.
proof fn lemma_saved_memory_single(c: Seq<CapturedExportView>, jm: int)
    requires
        0 <= jm < c.len(),
        c[jm].item is Memory,
        forall|j: int| 0 <= j < c.len() && j != jm ==> !((#[trigger] c[j].item) is Memory),
    ensures
        saved_memory(c) == c[jm].item->Memory_0,
    decreases c.len(),
{
    let d = c.drop_last();
    assert(forall|k: int| 0 <= k < c.len() - 1 ==> d[k] == c[k]);
    if jm == c.len() - 1 {
        lemma_saved_memory_none(d);
        assert(saved_memory(c) =~= c[jm].item->Memory_0);
    } else {
        lemma_saved_memory_single(d, jm);
        assert(saved_memory(c) =~= saved_memory(d));
    }
}

/// With no memory among the captured exports the saved byte image is
/// empty.
proof fn lemma_saved_memory_none(c: Seq<CapturedExportView>)
    requires
        forall|j: int| 0 <= j < c.len() ==> !((#[trigger] c[j].item) is Memory),
    ensures
        saved_memory(c) == Seq::<u8>::empty(),
    decreases c.len(),
{
    if c.len() != 0 {
        assert(forall|k: int| 0 <= k < c.len() - 1 ==> c.drop_last()[k] == c[k]);
        lemma_saved_memory_none(c.drop_last());
        assert(saved_memory(c) =~= Seq::<u8>::empty());
    }
}

/// Restoring the imports converted from the first `n` exports succeeds and
/// yields exactly the round-trip bindings for those exports.
proof fn lemma_round_trip_prefix(m: ModuleView, c: Seq<CapturedExportView>, n: nat)
    requires
        m.wf(),
        captures(m, c),
        n <= m.exports.len(),
    ensures
        spec_build_imports(
            spec_rewrite(m),
            StateView { globals: saved_entries(c), memory: saved_memory(c) },
            converted_imports(m.exports, n),
        ) == Ok::<Seq<ExternBindingView>, PersistErrorView>(round_trip_bindings(m, c, n)),
    decreases n,
{
    let mr = spec_rewrite(m);
    let st = StateView { globals: saved_entries(c), memory: saved_memory(c) };
    if n == 0 {
    } else {
        lemma_round_trip_prefix(m, c, (n - 1) as nat);
        let prev = converted_imports(m.exports, (n - 1) as nat);
        let j = n - 1;
        match m.exports[j].target {
            ExternTarget::Other => {},
            ExternTarget::Global(i) => {
                let imp = ImportView {
                    namespace: import_namespace(),
                    name: m.exports[j].name,
                    target: m.exports[j].target,
                };
                assert(converted_imports(m.exports, n) == prev + seq![imp]);
                assert((prev + seq![imp]).drop_last() =~= prev);
                assert((prev + seq![imp]).last() == imp);
                lemma_lookup_saved(c, j);
                assert(c[j].name == m.exports[j].name);
                assert(mr.globals[i as int].ty == m.globals[i as int].ty);
                assert(spec_build_one(mr, st, imp) is Ok);
            },
            ExternTarget::Memory(i) => {
                let imp = ImportView {
                    namespace: import_namespace(),
                    name: m.exports[j].name,
                    target: m.exports[j].target,
                };
                assert(converted_imports(m.exports, n) == prev + seq![imp]);
                assert((prev + seq![imp]).drop_last() =~= prev);
                assert((prev + seq![imp]).last() == imp);
                assert forall|j2: int| 0 <= j2 < c.len() && j2 != j implies !((#[trigger] c[j2].item)
                    is Memory) by {
                    if c[j2].item is Memory {
                        assert(m.exports[j2].target is Memory);
                    }
                }
                lemma_saved_memory_single(c, j);
                assert(mr.memories[i as int].min_pages == m.memories[i as int].min_pages);
                assert(spec_build_one(mr, st, imp) is Ok);
            },
        }
    }
}

/// The round trip. For any module whose exports a save faithfully captured
/// — every persisted global numeric, exactly one memory, names distinct —
/// the save succeeds, and restoring the rewritten module from the saved
/// artifacts succeeds and supplies, under each persisted export's name,
/// the very value and the very bytes the save captured.
pub proof fn lemma_round_trip(m: ModuleView, c: Seq<CapturedExportView>)
    requires
        m.wf(),
        m.imports.len() == 0,
        captures(m, c),
    ensures
        spec_serialize(c) == Ok::<StateView, PersistErrorView>(
            StateView { globals: saved_entries(c), memory: saved_memory(c) },
        ),
        forall|j: int|
            0 <= j < c.len() && (#[trigger] m.exports[j].target) is Memory ==> saved_memory(c)
                == c[j].item->Memory_0,
        spec_build_externs(
            spec_rewrite(m),
            StateView { globals: saved_entries(c), memory: saved_memory(c) },
        ) == Ok::<Seq<ExternBindingView>, PersistErrorView>(
            round_trip_bindings(m, c, c.len() as nat),
        ),
{
    assert forall|j: int| 0 <= j < c.len() implies ((#[trigger] c[j].item)
        matches CapturedExternView::Global(v) ==> v.spec_tagged() is Some) by {
        if c[j].item is Global {
            assert(m.exports[j].target is Global);
        }
    }
    lemma_serialize_of_capture(c);
    assert forall|j: int|
        0 <= j < c.len() && (#[trigger] m.exports[j].target) is Memory implies saved_memory(c)
        == c[j].item->Memory_0 by {
        assert forall|j2: int| 0 <= j2 < c.len() && j2 != j implies !((#[trigger] c[j2].item)
            is Memory) by {
            if c[j2].item is Memory {
                assert(m.exports[j2].target is Memory);
            }
        }
        lemma_saved_memory_single(c, j);
    }
    lemma_round_trip_prefix(m, c, m.exports.len());
    assert(spec_rewrite(m).imports =~= converted_imports(m.exports, m.exports.len()));
}

} // verus!
