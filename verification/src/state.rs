//! Captured instance state and its serialized form.
//!
//! A save pass walks the live instance's exports and hands the raw
//! observations to `serialize_state`, which produces the one value that
//! crosses the durability boundary: an ordered name-to-tagged-value mapping
//! for the globals, and one raw byte image for the memory.

use vstd::prelude::*;

use crate::errors::{PersistError, PersistErrorView};
use crate::values::{SerializableVal, Val};

verus! {

/// What a save pass reads off one export of the live instance.
#[derive(Clone, Debug, PartialEq, Eq)]
pub enum CapturedExtern {
    /// A global's current value.
    Global(Val),
    /// A memory's entire current backing buffer.
    Memory(Vec<u8>),
    /// An export of any other kind; ignored for persistence.
    Other,
}

/// One export of the live instance, as captured for a save.
#[derive(Clone, Debug, PartialEq, Eq)]
pub struct CapturedExport {
    pub name: String,
    pub item: CapturedExtern,
}

/// One entry of the saved value mapping.
#[derive(Clone, Debug, PartialEq, Eq)]
pub struct GlobalEntry {
    pub name: String,
    pub value: SerializableVal,
}

/// The serialized state: the ordered value mapping and the raw memory
/// image. This is everything that crosses the durability boundary; it is
/// meaningful only beside the exact binary it was saved from.
#[derive(Clone, Debug, PartialEq, Eq)]
pub struct SerializedState {
    pub globals: Vec<GlobalEntry>,
    pub memory: Vec<u8>,
}

/// The mathematical image of a `CapturedExtern`.
pub enum CapturedExternView {
    Global(Val),
    Memory(Seq<u8>),
    Other,
}

/// The mathematical image of a `CapturedExport`.
pub struct CapturedExportView {
    pub name: Seq<char>,
    pub item: CapturedExternView,
}

/// The mathematical image of a `GlobalEntry`.
pub struct GlobalEntryView {
    pub name: Seq<char>,
    pub value: SerializableVal,
}

/// The mathematical image of a `SerializedState`.
pub struct StateView {
    pub globals: Seq<GlobalEntryView>,
    pub memory: Seq<u8>,
}

impl View for CapturedExtern {
    type V = CapturedExternView;

    open spec fn view(&self) -> CapturedExternView {
        match self {
            CapturedExtern::Global(v) => CapturedExternView::Global(*v),
            CapturedExtern::Memory(b) => CapturedExternView::Memory(b@),
            CapturedExtern::Other => CapturedExternView::Other,
        }
    }
}

impl View for CapturedExport {
    type V = CapturedExportView;

    open spec fn view(&self) -> CapturedExportView {
        CapturedExportView { name: self.name@, item: self.item@ }
    }
}

impl DeepView for CapturedExport {
    type V = CapturedExportView;

    open spec fn deep_view(&self) -> CapturedExportView {
        self.view()
    }
}

impl View for GlobalEntry {
    type V = GlobalEntryView;

    open spec fn view(&self) -> GlobalEntryView {
        GlobalEntryView { name: self.name@, value: self.value }
    }
}

impl DeepView for GlobalEntry {
    type V = GlobalEntryView;

    open spec fn deep_view(&self) -> GlobalEntryView {
        self.view()
    }
}

impl View for SerializedState {
    type V = StateView;

    open spec fn view(&self) -> StateView {
        StateView { globals: self.globals.deep_view(), memory: self.memory@ }
    }
}

/// The state serializer. Exports are walked in order: each global's value
/// is tagged and appended to the mapping under the export's name, each
/// memory's buffer is appended verbatim to the byte image, every other
/// export kind is ignored. A global whose value cannot be tagged fails the
/// whole save with `UnsupportedExtern`.
pub open spec fn spec_serialize(c: Seq<CapturedExportView>) -> Result<
    StateView,
    PersistErrorView,
>
    decreases c.len(),
{
    if c.len() == 0 {
        Ok(StateView { globals: Seq::empty(), memory: Seq::empty() })
    } else {
        match spec_serialize(c.drop_last()) {
            Err(e) => Err(e),
            Ok(st) => match c.last().item {
                CapturedExternView::Global(v) => match v.spec_tagged() {
                    None => Err(PersistErrorView::UnsupportedExtern),
                    Some(sv) => Ok(
                        StateView {
                            globals: st.globals + seq![
                                GlobalEntryView { name: c.last().name, value: sv },
                            ],
                            memory: st.memory,
                        },
                    ),
                },
                CapturedExternView::Memory(bytes) => Ok(
                    StateView { globals: st.globals, memory: st.memory + bytes },
                ),
                CapturedExternView::Other => Ok(st),
            },
        }
    }
}

/// A serialization that has failed stays failed however many further
/// exports follow.
proof fn lemma_serialize_err_extends(c: Seq<CapturedExportView>, n: nat, e: PersistErrorView)
    requires
        n <= c.len(),
        spec_serialize(c.take(n as int)) == Err::<StateView, PersistErrorView>(e),
    ensures
        spec_serialize(c) == Err::<StateView, PersistErrorView>(e),
    decreases c.len() - n,
{
    if n == c.len() {
        assert(c.take(n as int) =~= c);
    } else {
        assert(c.take(n as int + 1).drop_last() =~= c.take(n as int));
        assert(c.take(n as int + 1).len() != 0);
        lemma_serialize_err_extends(c, n + 1, e);
    }
}

/// Copies a byte buffer.
pub fn copy_bytes(src: &Vec<u8>) -> (r: Vec<u8>)
    ensures
        r@ == src@,
{
    let mut r: Vec<u8> = Vec::new();
    let mut i: usize = 0;
    while i < src.len()
        invariant
            i <= src@.len(),
            r@ == src@.take(i as int),
        decreases src@.len() - i,
    {
        r.push(src[i]);
        proof {
            assert(r@ =~= src@.take(i + 1));
        }
        i = i + 1;
    }
    proof {
        assert(src@.take(src@.len() as int) =~= src@);
    }
    r
}

/// Appends `src` to `dst`.
fn append_bytes(dst: &mut Vec<u8>, src: &Vec<u8>)
    ensures
        final(dst)@ == old(dst)@ + src@,
{
    let mut i: usize = 0;
    while i < src.len()
        invariant
            i <= src@.len(),
            dst@ == old(dst)@ + src@.take(i as int),
        decreases src@.len() - i,
    {
        dst.push(src[i]);
        proof {
            assert(dst@ =~= old(dst)@ + src@.take(i + 1));
        }
        i = i + 1;
    }
    proof {
        assert(old(dst)@ + src@.take(src@.len() as int) =~= old(dst)@ + src@);
    }
}

/// The state serializer: walks the captured exports in order and produces
/// the serialized state, or fails on the first global whose value the
/// mechanism does not persist.
pub fn serialize_state(captured: &Vec<CapturedExport>) -> (r: Result<
    SerializedState,
    PersistError,
>)
    ensures
        match r {
            Ok(st) => spec_serialize(captured.deep_view()) == Ok::<StateView, PersistErrorView>(
                st@,
            ),
            Err(e) => spec_serialize(captured.deep_view()) == Err::<StateView, PersistErrorView>(
                e@,
            ),
        },
{
    let ghost cv = captured.deep_view();
    let mut globals: Vec<GlobalEntry> = Vec::new();
    let mut memory: Vec<u8> = Vec::new();
    let mut i: usize = 0;
    proof {
        assert(cv.take(0) =~= Seq::<CapturedExportView>::empty());
        assert(globals.deep_view() =~= Seq::<GlobalEntryView>::empty());
    }
    while i < captured.len()
        invariant
            cv == captured.deep_view(),
            i <= cv.len(),
            spec_serialize(cv.take(i as int)) == Ok::<StateView, PersistErrorView>(
                StateView { globals: globals.deep_view(), memory: memory@ },
            ),
        decreases cv.len() - i,
    {
        proof {
            assert(cv.take(i + 1).drop_last() =~= cv.take(i as int));
            assert(cv.take(i + 1).last() == cv[i as int]);
        }
        match &captured[i].item {
            CapturedExtern::Global(v) => {
                match v.tagged() {
                    None => {
                        proof {
                            lemma_serialize_err_extends(
                                cv,
                                (i + 1) as nat,
                                PersistErrorView::UnsupportedExtern,
                            );
                        }
                        return Err(PersistError::UnsupportedExtern);
                    },
                    Some(sv) => {
                        let ghost before = globals.deep_view();
                        globals.push(GlobalEntry { name: captured[i].name.clone(), value: sv });
                        proof {
                            assert(globals.deep_view() =~= before + seq![
                                GlobalEntryView { name: cv[i as int].name, value: sv },
                            ]);
                        }
                    },
                }
            },
            CapturedExtern::Memory(bytes) => {
                append_bytes(&mut memory, bytes);
            },
            CapturedExtern::Other => {},
        }
        i = i + 1;
    }
    proof {
        assert(cv.take(cv.len() as int) =~= cv);
    }
    Ok(SerializedState { globals, memory })
}

} // verus!
