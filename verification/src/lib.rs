//! Persistence pipeline for sandboxed bytecode modules: transformation
//! passes that expose and rewire a module's mutable state, plus the
//! serialization and reconstruction logic for that state.

use vstd::prelude::*;

pub mod errors;
pub mod externs;
pub mod laws;
pub mod module;
pub mod names;
pub mod state;
pub mod values;

use crate::errors::{PersistError, PersistErrorView};
use crate::externs::{build_externs, spec_build_externs, ExternBinding, ExternBindingView};
use crate::module::{
    lemma_normalize_preserves_wf, lemma_rewrite_preserves_wf, prepare_reload, spec_normalize,
    spec_rewrite, Module,
};
use crate::state::SerializedState;

verus! {

/// Number of bytes in one linear-memory page.
pub const PAGE_SIZE: u64 = 65536;

/// Reload preparation against saved state: normalizes the module, rewrites
/// its persisted exports into imports, and assembles the extern for every
/// import the rewritten module declares. What comes back is everything the
/// runtime needs to be handed: the rewritten module to re-emit and the
/// externs to instantiate it with.
pub fn plan_reload(m: Module, st: &SerializedState) -> (r: Result<
    (Module, Vec<ExternBinding>),
    PersistError,
>)
    requires
        m@.wf(),
    ensures
        match r {
            Ok(p) => p.0@ == spec_rewrite(spec_normalize(m@)) && spec_build_externs(p.0@, st@)
                == Ok::<Seq<ExternBindingView>, PersistErrorView>(p.1.deep_view()),
            Err(e) => spec_build_externs(spec_rewrite(spec_normalize(m@)), st@) == Err::<
                Seq<ExternBindingView>,
                PersistErrorView,
            >(e@),
        },
{
    proof {
        lemma_normalize_preserves_wf(m@);
        lemma_rewrite_preserves_wf(spec_normalize(m@));
    }
    let rm = prepare_reload(m);
    match build_externs(&rm, st) {
        Ok(bs) => Ok((rm, bs)),
        Err(e) => Err(e),
    }
}

} // verus!
