//! Runtime values and their persisted, tagged form.
//!
//! A live instance hands back values of its globals; only the four numeric
//! kinds can be persisted. Float values are carried as their raw bit
//! patterns, so the tagged form is exact and needs no floating point.

use vstd::prelude::*;

verus! {

/// The declared type of a global: one of the four numeric kinds, or a
/// reference-like kind that this mechanism does not persist.
#[derive(Clone, Copy, Debug, PartialEq, Eq, Structural)]
pub enum ValKind {
    I32,
    I64,
    F32,
    F64,
    Ref,
}

/// The value read out of (or written into) a live global. Floats appear as
/// raw bits; every non-numeric value collapses into `Ref`, which carries
/// nothing because it can never be persisted.
#[derive(Clone, Copy, Debug, PartialEq, Eq, Structural)]
pub enum Val {
    I32(i32),
    I64(i64),
    F32(u32),
    F64(u64),
    Ref,
}

/// A tagged numeric value as it crosses the durability boundary.
#[derive(Clone, Copy, Debug, PartialEq, Eq, Structural)]
pub enum SerializableVal {
    I32(i32),
    I64(i64),
    F32(u32),
    F64(u64),
}

impl Val {
    /// The kind a value belongs to.
    pub open spec fn kind(self) -> ValKind {
        match self {
            Val::I32(_) => ValKind::I32,
            Val::I64(_) => ValKind::I64,
            Val::F32(_) => ValKind::F32,
            Val::F64(_) => ValKind::F64,
            Val::Ref => ValKind::Ref,
        }
    }

    /// The tagged form of a value, if its kind is persistable.
    pub open spec fn spec_tagged(self) -> Option<SerializableVal> {
        match self {
            Val::I32(x) => Some(SerializableVal::I32(x)),
            Val::I64(x) => Some(SerializableVal::I64(x)),
            Val::F32(x) => Some(SerializableVal::F32(x)),
            Val::F64(x) => Some(SerializableVal::F64(x)),
            Val::Ref => None,
        }
    }

    /// Converts a runtime value to its tagged form; a reference-like value
    /// has none.
    pub fn tagged(self) -> (r: Option<SerializableVal>)
        ensures
            r == self.spec_tagged(),
    {
        match self {
            Val::I32(x) => Some(SerializableVal::I32(x)),
            Val::I64(x) => Some(SerializableVal::I64(x)),
            Val::F32(x) => Some(SerializableVal::F32(x)),
            Val::F64(x) => Some(SerializableVal::F64(x)),
            Val::Ref => None,
        }
    }
}

impl SerializableVal {
    /// The kind recorded by the tag.
    pub open spec fn kind(self) -> ValKind {
        match self {
            SerializableVal::I32(_) => ValKind::I32,
            SerializableVal::I64(_) => ValKind::I64,
            SerializableVal::F32(_) => ValKind::F32,
            SerializableVal::F64(_) => ValKind::F64,
        }
    }

    /// The runtime value a tagged value stands for.
    pub open spec fn spec_to_val(self) -> Val {
        match self {
            SerializableVal::I32(x) => Val::I32(x),
            SerializableVal::I64(x) => Val::I64(x),
            SerializableVal::F32(x) => Val::F32(x),
            SerializableVal::F64(x) => Val::F64(x),
        }
    }

    /// Rebuilds the runtime value a tagged value stands for.
    pub fn to_val(self) -> (r: Val)
        ensures
            r == self.spec_to_val(),
    {
        match self {
            SerializableVal::I32(x) => Val::I32(x),
            SerializableVal::I64(x) => Val::I64(x),
            SerializableVal::F32(x) => Val::F32(x),
            SerializableVal::F64(x) => Val::F64(x),
        }
    }

    /// The exec mirror of `kind`.
    pub fn exec_kind(self) -> (r: ValKind)
        ensures
            r == self.kind(),
    {
        match self {
            SerializableVal::I32(_) => ValKind::I32,
            SerializableVal::I64(_) => ValKind::I64,
            SerializableVal::F32(_) => ValKind::F32,
            SerializableVal::F64(_) => ValKind::F64,
        }
    }
}

/// Tagging then rebuilding gives back the value it started from, for every
/// persistable value; so the tagged form loses nothing.
pub proof fn lemma_tag_round_trip(v: Val)
    requires
        v.kind() != ValKind::Ref,
    ensures
        v.spec_tagged() is Some,
        v.spec_tagged()->Some_0.spec_to_val() == v,
{
}

} // verus!
