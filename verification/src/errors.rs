//! The failures the persistence pipeline itself can produce.
//!
//! Parse, I/O and engine-level instantiation failures arise outside this
//! library and stay with the code that makes those calls; the pipeline's own
//! logic fails in exactly two ways: an extern kind it does not persist, or
//! saved state inconsistent with the module it is being restored into.

use vstd::prelude::*;

verus! {

/// A disagreement between the saved state and the module being restored.
#[derive(Clone, Debug, PartialEq, Eq)]
pub enum StateMismatch {
    /// A declared global import whose name the saved value mapping lacks.
    MissingGlobal(String),
    /// The saved tag for this name disagrees with the declared value type.
    GlobalTypeMismatch(String),
    /// The memory artifact's byte length, which is not a multiple of the
    /// page size.
    UnalignedMemory(u64),
    /// The memory artifact holds fewer pages than the declared minimum.
    MemoryTooSmall { saved_pages: u64, required_pages: u64 },
}

/// Any failure of the save or restore logic.
#[derive(Clone, Debug, PartialEq, Eq)]
pub enum PersistError {
    /// An extern kind outside the persisted set (numeric global, memory)
    /// where persistence or restoration required one.
    UnsupportedExtern,
    /// Saved state inconsistent with the module being restored.
    StateMismatch(StateMismatch),
}

/// The mathematical image of a `StateMismatch`: names as character
/// sequences.
pub struct StateMismatchView {
    pub detail: StateMismatchDetail,
}

/// The cases of `StateMismatchView`.
pub enum StateMismatchDetail {
    MissingGlobal(Seq<char>),
    GlobalTypeMismatch(Seq<char>),
    UnalignedMemory(u64),
    MemoryTooSmall { saved_pages: u64, required_pages: u64 },
}

/// The mathematical image of a `PersistError`.
pub enum PersistErrorView {
    UnsupportedExtern,
    StateMismatch(StateMismatchView),
}

impl View for StateMismatch {
    type V = StateMismatchView;

    open spec fn view(&self) -> StateMismatchView {
        StateMismatchView {
            detail: match self {
                StateMismatch::MissingGlobal(n) => StateMismatchDetail::MissingGlobal(n@),
                StateMismatch::GlobalTypeMismatch(n) => StateMismatchDetail::GlobalTypeMismatch(
                    n@,
                ),
                StateMismatch::UnalignedMemory(len) => StateMismatchDetail::UnalignedMemory(*len),
                StateMismatch::MemoryTooSmall { saved_pages, required_pages } => (
                StateMismatchDetail::MemoryTooSmall {
                    saved_pages: *saved_pages,
                    required_pages: *required_pages,
                }),
            },
        }
    }
}

impl View for PersistError {
    type V = PersistErrorView;

    open spec fn view(&self) -> PersistErrorView {
        match self {
            PersistError::UnsupportedExtern => PersistErrorView::UnsupportedExtern,
            PersistError::StateMismatch(m) => PersistErrorView::StateMismatch(m@),
        }
    }
}

impl PersistError {
    /// A short description, for callers that report the failure.
    pub fn describe(&self) -> String {
        match self {
            PersistError::UnsupportedExtern => String::from_str("unsupported extern kind"),
            PersistError::StateMismatch(m) => match m {
                StateMismatch::MissingGlobal(n) => String::from_str(
                    "state mismatch: no saved value for global ",
                ).concat(n.as_str()),
                StateMismatch::GlobalTypeMismatch(n) => String::from_str(
                    "state mismatch: saved value has the wrong type for global ",
                ).concat(n.as_str()),
                StateMismatch::UnalignedMemory(_) => String::from_str(
                    "state mismatch: memory artifact length is not a whole number of pages",
                ),
                StateMismatch::MemoryTooSmall { .. } => String::from_str(
                    "state mismatch: memory artifact smaller than the declared minimum",
                ),
            },
        }
    }
}

} // verus!
