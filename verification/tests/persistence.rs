//! Tests for state capture, serialization, and extern reconstruction.

use wasm_persist::errors::{PersistError, StateMismatch};
use wasm_persist::externs::{build_externs, ExternBinding, ExternVal};
use wasm_persist::module::{
    normalize_exports, rewrite_for_reload, DataSegment, Export, ExternTarget, Global, Import,
    Memory, Module,
};
use wasm_persist::plan_reload;
use wasm_persist::state::{serialize_state, CapturedExport, CapturedExtern, SerializedState};
use wasm_persist::values::{SerializableVal, Val, ValKind};
use wasm_persist::PAGE_SIZE;

const PAGE: usize = PAGE_SIZE as usize;

fn demo_module() -> Module {
    Module {
        globals: vec![Global { ty: ValKind::I32, mutable: true, imported: false }],
        memories: vec![Memory { min_pages: 1, max_pages: None, imported: false }],
        exports: vec![
            Export { name: "set".to_string(), target: ExternTarget::Other },
            Export { name: "get".to_string(), target: ExternTarget::Other },
            Export { name: "memory".to_string(), target: ExternTarget::Memory(0) },
        ],
        imports: vec![],
        data: vec![DataSegment { memory: Some(0) }],
    }
}

/// What a save pass would read off a live instance of the normalized demo
/// module after `set(42)` ran.
fn demo_capture() -> Vec<CapturedExport> {
    vec![
        CapturedExport { name: "set".to_string(), item: CapturedExtern::Other },
        CapturedExport { name: "get".to_string(), item: CapturedExtern::Other },
        CapturedExport { name: "memory".to_string(), item: CapturedExtern::Memory(vec![0u8; PAGE]) },
        CapturedExport {
            name: "$probed_global:0".to_string(),
            item: CapturedExtern::Global(Val::I32(42)),
        },
    ]
}

#[test]
fn scenario_set_then_save_then_reload() {
    // Fresh load: the module gains the synthetic export for its one
    // mutable global.
    let normalized = normalize_exports(demo_module());
    assert_eq!(normalized.exports[3].name, "$probed_global:0");

    // Save after `set(42)`: one mapping entry under the synthetic name,
    // and a memory artifact of exactly one page.
    let st = serialize_state(&demo_capture()).unwrap();
    assert_eq!(st.globals.len(), 1);
    assert_eq!(st.globals[0].name, "$probed_global:0");
    assert_eq!(st.globals[0].value, SerializableVal::I32(42));
    assert_eq!(st.memory.len(), PAGE);

    // Reload: the rewritten module's imports are satisfied with exactly
    // the captured values, so `get()` on the new instance sees 42.
    let rewritten = rewrite_for_reload(normalized);
    let externs = build_externs(&rewritten, &st).unwrap();
    assert_eq!(externs.len(), 2);
    assert_eq!(externs[0].namespace, "cursed-imports");
    assert_eq!(externs[0].name, "memory");
    match &externs[0].value {
        ExternVal::Memory { pages, bytes } => {
            assert_eq!(*pages, 1);
            assert_eq!(bytes, &vec![0u8; PAGE]);
        }
        other => panic!("expected a memory extern, got {:?}", other),
    }
    assert_eq!(externs[1].name, "$probed_global:0");
    assert_eq!(externs[1].value, ExternVal::Global(SerializableVal::I32(42)));
    assert_eq!(
        externs[1].value,
        ExternVal::Global(SerializableVal::I32(42)),
        "the restored global carries the value captured at save time"
    );
}

#[test]
fn save_is_idempotent() {
    let c = demo_capture();
    let first = serialize_state(&c).unwrap();
    let second = serialize_state(&c).unwrap();
    assert_eq!(first, second);
}

#[test]
fn save_rejects_reference_global() {
    let mut c = demo_capture();
    c.push(CapturedExport {
        name: "$probed_global:1".to_string(),
        item: CapturedExtern::Global(Val::Ref),
    });
    assert_eq!(serialize_state(&c), Err(PersistError::UnsupportedExtern));
}

#[test]
fn save_tags_every_numeric_kind() {
    let c = vec![
        CapturedExport { name: "a".to_string(), item: CapturedExtern::Global(Val::I32(-7)) },
        CapturedExport { name: "b".to_string(), item: CapturedExtern::Global(Val::I64(1 << 40)) },
        CapturedExport { name: "c".to_string(), item: CapturedExtern::Global(Val::F32(0x3f80_0000)) },
        CapturedExport {
            name: "d".to_string(),
            item: CapturedExtern::Global(Val::F64(0x3ff0_0000_0000_0000)),
        },
    ];
    let st = serialize_state(&c).unwrap();
    assert_eq!(st.globals.len(), 4);
    assert_eq!(st.globals[0].value, SerializableVal::I32(-7));
    assert_eq!(st.globals[1].value, SerializableVal::I64(1 << 40));
    assert_eq!(st.globals[2].value, SerializableVal::F32(0x3f80_0000));
    assert_eq!(st.globals[3].value, SerializableVal::F64(0x3ff0_0000_0000_0000));
    assert_eq!(st.memory.len(), 0);
}

#[test]
fn reload_rejects_truncated_memory() {
    // A memory artifact of half a page must be refused outright, not
    // copied into a half-initialized buffer.
    let rewritten = rewrite_for_reload(normalize_exports(demo_module()));
    let st = SerializedState {
        globals: serialize_state(&demo_capture()).unwrap().globals,
        memory: vec![0u8; PAGE / 2],
    };
    assert_eq!(
        build_externs(&rewritten, &st),
        Err(PersistError::StateMismatch(StateMismatch::UnalignedMemory(PAGE as u64 / 2)))
    );
}

#[test]
fn reload_rejects_memory_below_declared_minimum() {
    let mut m = demo_module();
    m.memories[0].min_pages = 2;
    let rewritten = rewrite_for_reload(normalize_exports(m));
    let st = SerializedState {
        globals: serialize_state(&demo_capture()).unwrap().globals,
        memory: vec![0u8; PAGE],
    };
    assert_eq!(
        build_externs(&rewritten, &st),
        Err(PersistError::StateMismatch(StateMismatch::MemoryTooSmall {
            saved_pages: 1,
            required_pages: 2,
        }))
    );
}

#[test]
fn reload_rejects_missing_global_key() {
    let rewritten = rewrite_for_reload(normalize_exports(demo_module()));
    let st = SerializedState { globals: vec![], memory: vec![0u8; PAGE] };
    assert_eq!(
        build_externs(&rewritten, &st),
        Err(PersistError::StateMismatch(StateMismatch::MissingGlobal(
            "$probed_global:0".to_string()
        )))
    );
}

#[test]
fn reload_rejects_mismatched_value_tag() {
    let rewritten = rewrite_for_reload(normalize_exports(demo_module()));
    let mut st = serialize_state(&demo_capture()).unwrap();
    st.globals[0].value = SerializableVal::I64(42);
    assert_eq!(
        build_externs(&rewritten, &st),
        Err(PersistError::StateMismatch(StateMismatch::GlobalTypeMismatch(
            "$probed_global:0".to_string()
        )))
    );
}

#[test]
fn reload_rejects_unsupported_import_kind() {
    let mut rewritten = rewrite_for_reload(normalize_exports(demo_module()));
    rewritten.imports.push(Import {
        namespace: "env".to_string(),
        name: "log".to_string(),
        target: ExternTarget::Other,
    });
    let st = serialize_state(&demo_capture()).unwrap();
    assert_eq!(build_externs(&rewritten, &st), Err(PersistError::UnsupportedExtern));
}

#[test]
fn plan_reload_matches_stepwise_pipeline() {
    let st = serialize_state(&demo_capture()).unwrap();
    let (rm, externs) = plan_reload(demo_module(), &st).unwrap();
    assert_eq!(rm, rewrite_for_reload(normalize_exports(demo_module())));
    assert_eq!(externs, build_externs(&rm, &st).unwrap());
}

#[test]
fn empty_capture_gives_empty_artifacts() {
    let st = serialize_state(&vec![]).unwrap();
    assert!(st.globals.is_empty());
    assert!(st.memory.is_empty());
}

#[test]
fn tagging_round_trips_every_numeric_value() {
    for v in [
        Val::I32(i32::MIN),
        Val::I64(i64::MAX),
        Val::F32(0xffff_ffff),
        Val::F64(0),
    ] {
        assert_eq!(v.tagged().unwrap().to_val(), v);
    }
    assert_eq!(Val::Ref.tagged(), None);
}

#[test]
fn error_description_names_missing_global() {
    let e = PersistError::StateMismatch(StateMismatch::MissingGlobal("$probed_global:0".into()));
    assert!(e.describe().contains("$probed_global:0"));
}

#[test]
fn bindings_expose_their_identity_for_name_based_matching() {
    let st = serialize_state(&demo_capture()).unwrap();
    let rewritten = rewrite_for_reload(normalize_exports(demo_module()));
    let externs: Vec<ExternBinding> = build_externs(&rewritten, &st).unwrap();
    // Every import is satisfiable by (namespace, name) identity, not by
    // position alone.
    for imp in &rewritten.imports {
        assert!(externs
            .iter()
            .any(|b| b.namespace == imp.namespace && b.name == imp.name));
    }
}
