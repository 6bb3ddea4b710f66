//! Reconstruction of concrete externs from saved state.
//!
//! For each import the rewritten module declares, the builder produces the
//! concrete value the runtime must be handed at instantiation — a global
//! initialized to the saved value, or a memory description whose pages come
//! from the raw byte image — enforcing every size and typing invariant the
//! saved state must meet.

use vstd::prelude::*;

use crate::PAGE_SIZE;
use crate::errors::{
    PersistError, PersistErrorView, StateMismatch, StateMismatchDetail, StateMismatchView,
};
use crate::module::{ExternTarget, ImportView, Module, ModuleView};
use crate::state::{GlobalEntry, GlobalEntryView, SerializedState, StateView};
use crate::values::SerializableVal;

verus! {

/// The concrete value supplied for one import.
#[derive(Clone, Debug, PartialEq, Eq)]
pub enum ExternVal {
    /// A global initialized to the saved tagged value.
    Global(SerializableVal),
    /// A memory of exactly `pages` pages whose contents are `bytes`,
    /// the complete saved image.
    Memory { pages: u64, bytes: Vec<u8> },
}

/// One assembled extern, bound to its import by namespace and name rather
/// than by position.
#[derive(Clone, Debug, PartialEq, Eq)]
pub struct ExternBinding {
    pub namespace: String,
    pub name: String,
    pub value: ExternVal,
}

/// The mathematical image of an `ExternVal`.
pub enum ExternValView {
    Global(SerializableVal),
    Memory { pages: u64, bytes: Seq<u8> },
}

/// The mathematical image of an `ExternBinding`.
pub struct ExternBindingView {
    pub namespace: Seq<char>,
    pub name: Seq<char>,
    pub value: ExternValView,
}

impl View for ExternVal {
    type V = ExternValView;

    open spec fn view(&self) -> ExternValView {
        match self {
            ExternVal::Global(v) => ExternValView::Global(*v),
            ExternVal::Memory { pages, bytes } => (ExternValView::Memory {
                pages: *pages,
                bytes: bytes@,
            }),
        }
    }
}

impl View for ExternBinding {
    type V = ExternBindingView;

    open spec fn view(&self) -> ExternBindingView {
        ExternBindingView { namespace: self.namespace@, name: self.name@, value: self.value@ }
    }
}

impl DeepView for ExternBinding {
    type V = ExternBindingView;

    open spec fn deep_view(&self) -> ExternBindingView {
        self.view()
    }
}

/// The first saved value recorded under `name`, if any.
pub open spec fn spec_lookup(gs: Seq<GlobalEntryView>, name: Seq<char>) -> Option<SerializableVal>
    decreases gs.len(),
{
    if gs.len() == 0 {
        None
    } else if gs[0].name == name {
        Some(gs[0].value)
    } else {
        spec_lookup(gs.drop_first(), name)
    }
}

/// What restoring a single declared import yields: the extern to supply, or
/// the exact failure.
pub open spec fn spec_build_one(m: ModuleView, st: StateView, imp: ImportView) -> Result<
    ExternBindingView,
    PersistErrorView,
> {
    match imp.target {
        ExternTarget::Global(i) => match spec_lookup(st.globals, imp.name) {
            None => Err(
                PersistErrorView::StateMismatch(
                    StateMismatchView { detail: StateMismatchDetail::MissingGlobal(imp.name) },
                ),
            ),
            Some(sv) => if sv.kind() == m.globals[i as int].ty {
                Ok(
                    ExternBindingView {
                        namespace: imp.namespace,
                        name: imp.name,
                        value: ExternValView::Global(sv),
                    },
                )
            } else {
                Err(
                    PersistErrorView::StateMismatch(
                        StateMismatchView {
                            detail: StateMismatchDetail::GlobalTypeMismatch(imp.name),
                        },
                    ),
                )
            },
        },
        ExternTarget::Memory(i) => if st.memory.len() % (PAGE_SIZE as nat) != 0 {
            Err(
                PersistErrorView::StateMismatch(
                    StateMismatchView {
                        detail: StateMismatchDetail::UnalignedMemory(st.memory.len() as u64),
                    },
                ),
            )
        } else if st.memory.len() / (PAGE_SIZE as nat) < m.memories[i as int].min_pages {
            Err(
                PersistErrorView::StateMismatch(
                    StateMismatchView {
                        detail: StateMismatchDetail::MemoryTooSmall {
                            saved_pages: (st.memory.len() / (PAGE_SIZE as nat)) as u64,
                            required_pages: m.memories[i as int].min_pages,
                        },
                    },
                ),
            )
        } else {
            Ok(
                ExternBindingView {
                    namespace: imp.namespace,
                    name: imp.name,
                    value: ExternValView::Memory {
                        pages: (st.memory.len() / (PAGE_SIZE as nat)) as u64,
                        bytes: st.memory,
                    },
                },
            )
        },
        ExternTarget::Other => Err(PersistErrorView::UnsupportedExtern),
    }
}

/// Restoring a list of imports in declaration order, stopping at the first
/// failure.
pub open spec fn spec_build_imports(m: ModuleView, st: StateView, imps: Seq<ImportView>) -> Result<
    Seq<ExternBindingView>,
    PersistErrorView,
>
    decreases imps.len(),
{
    if imps.len() == 0 {
        Ok(Seq::empty())
    } else {
        match spec_build_imports(m, st, imps.drop_last()) {
            Err(e) => Err(e),
            Ok(bs) => match spec_build_one(m, st, imps.last()) {
                Err(e) => Err(e),
                Ok(b) => Ok(bs + seq![b]),
            },
        }
    }
}

/// The extern builder over the module's whole declared import list.
pub open spec fn spec_build_externs(m: ModuleView, st: StateView) -> Result<
    Seq<ExternBindingView>,
    PersistErrorView,
> {
    spec_build_imports(m, st, m.imports)
}

/// A restoration that has failed stays failed however many further imports
/// follow.
pub proof fn lemma_build_err_extends(
    m: ModuleView,
    st: StateView,
    imps: Seq<ImportView>,
    n: nat,
    e: PersistErrorView,
)
    requires
        n <= imps.len(),
        spec_build_imports(m, st, imps.take(n as int)) == Err::<
            Seq<ExternBindingView>,
            PersistErrorView,
        >(e),
    ensures
        spec_build_imports(m, st, imps) == Err::<Seq<ExternBindingView>, PersistErrorView>(e),
    decreases imps.len() - n,
{
    if n == imps.len() {
        assert(imps.take(n as int) =~= imps);
    } else {
        assert(imps.take(n as int + 1).drop_last() =~= imps.take(n as int));
        assert(imps.take(n as int + 1).len() != 0);
        lemma_build_err_extends(m, st, imps, n + 1, e);
    }
}

/// Looks a name up in the saved value mapping.
fn lookup(gs: &Vec<GlobalEntry>, name: &String) -> (r: Option<SerializableVal>)
    ensures
        r == spec_lookup(gs.deep_view(), name@),
{
    let ghost gv = gs.deep_view();
    let mut i: usize = 0;
    proof {
        assert(gv.skip(0) =~= gv);
    }
    while i < gs.len()
        invariant
            gv == gs.deep_view(),
            i <= gv.len(),
            spec_lookup(gv, name@) == spec_lookup(gv.skip(i as int), name@),
        decreases gv.len() - i,
    {
        proof {
            assert(gv.skip(i as int).len() != 0);
            assert(gv.skip(i as int)[0] == gv[i as int]);
            assert(gv.skip(i as int).drop_first() =~= gv.skip(i + 1));
        }
        if gs[i].name == *name {
            return Some(gs[i].value);
        }
        i = i + 1;
    }
    proof {
        assert(gv.skip(gv.len() as int).len() == 0);
    }
    None
}

/// The extern builder. For each import the module declares, in order,
/// constructs the extern the runtime must be handed: a global initialized
/// to the saved value of the same name and declared type, or a memory whose
/// page count is the saved image's and is no smaller than the declared
/// minimum. Every import of any other kind, and every disagreement between
/// the saved state and the declarations, fails with the exact error
/// `spec_build_one` gives.
pub fn build_externs(m: &Module, st: &SerializedState) -> (r: Result<
    Vec<ExternBinding>,
    PersistError,
>)
    requires
        m@.wf(),
    ensures
        match r {
            Ok(bs) => spec_build_externs(m@, st@) == Ok::<Seq<ExternBindingView>, PersistErrorView>(
                bs.deep_view(),
            ),
            Err(e) => spec_build_externs(m@, st@) == Err::<
                Seq<ExternBindingView>,
                PersistErrorView,
            >(e@),
        },
{
    let ghost iv = m@.imports;
    let mut out: Vec<ExternBinding> = Vec::new();
    let mut j: usize = 0;
    proof {
        assert(iv.take(0) =~= Seq::<ImportView>::empty());
        assert(out.deep_view() =~= Seq::<ExternBindingView>::empty());
    }
    while j < m.imports.len()
        invariant
            m@.wf(),
            iv == m@.imports,
            j <= iv.len(),
            spec_build_imports(m@, st@, iv.take(j as int)) == Ok::<
                Seq<ExternBindingView>,
                PersistErrorView,
            >(out.deep_view()),
        decreases iv.len() - j,
    {
        proof {
            assert(iv.take(j + 1).drop_last() =~= iv.take(j as int));
            assert(iv.take(j + 1).last() == iv[j as int]);
        }
        let imp = &m.imports[j];
        let ghost before = out.deep_view();
        match imp.target {
            ExternTarget::Global(i) => {
                match lookup(&st.globals, &imp.name) {
                    None => {
                        let e = PersistError::StateMismatch(
                            StateMismatch::MissingGlobal(imp.name.clone()),
                        );
                        proof {
                            lemma_build_err_extends(m@, st@, iv, (j + 1) as nat, e@);
                        }
                        return Err(e);
                    },
                    Some(sv) => {
                        if sv.exec_kind() == m.globals[i].ty {
                            out.push(
                                ExternBinding {
                                    namespace: imp.namespace.clone(),
                                    name: imp.name.clone(),
                                    value: ExternVal::Global(sv),
                                },
                            );
                            proof {
                                assert(out.deep_view() =~= before + seq![
                                    ExternBindingView {
                                        namespace: iv[j as int].namespace,
                                        name: iv[j as int].name,
                                        value: ExternValView::Global(sv),
                                    },
                                ]);
                            }
                        } else {
                            let e = PersistError::StateMismatch(
                                StateMismatch::GlobalTypeMismatch(imp.name.clone()),
                            );
                            proof {
                                lemma_build_err_extends(m@, st@, iv, (j + 1) as nat, e@);
                            }
                            return Err(e);
                        }
                    },
                }
            },
            ExternTarget::Memory(i) => {
                let len: u64 = st.memory.len() as u64;
                if len % PAGE_SIZE != 0 {
                    let e = PersistError::StateMismatch(StateMismatch::UnalignedMemory(len));
                    proof {
                        lemma_build_err_extends(m@, st@, iv, (j + 1) as nat, e@);
                    }
                    return Err(e);
                }
                let pages: u64 = len / PAGE_SIZE;
                let min_pages = m.memories[i].min_pages;
                if pages < min_pages {
                    let e = PersistError::StateMismatch(
                        StateMismatch::MemoryTooSmall {
                            saved_pages: pages,
                            required_pages: min_pages,
                        },
                    );
                    proof {
                        lemma_build_err_extends(m@, st@, iv, (j + 1) as nat, e@);
                    }
                    return Err(e);
                }
                let bytes = crate::state::copy_bytes(&st.memory);
                out.push(
                    ExternBinding {
                        namespace: imp.namespace.clone(),
                        name: imp.name.clone(),
                        value: ExternVal::Memory { pages, bytes },
                    },
                );
                proof {
                    assert(out.deep_view() =~= before + seq![
                        ExternBindingView {
                            namespace: iv[j as int].namespace,
                            name: iv[j as int].name,
                            value: ExternValView::Memory { pages: pages, bytes: st@.memory },
                        },
                    ]);
                }
            },
            ExternTarget::Other => {
                let e = PersistError::UnsupportedExtern;
                proof {
                    lemma_build_err_extends(m@, st@, iv, (j + 1) as nat, e@);
                }
                return Err(e);
            },
        }
        j = j + 1;
    }
    proof {
        assert(iv.take(iv.len() as int) =~= iv);
    }
    Ok(out)
}

} // verus!
