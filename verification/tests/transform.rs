//! Tests for the two module-transformation passes.

use wasm_persist::module::{
    normalize_exports, prepare_reload, rewrite_for_reload, DataSegment, Export, ExternTarget,
    Global, Import, Memory, Module,
};
use wasm_persist::values::ValKind;

fn mutable_global(ty: ValKind) -> Global {
    Global { ty, mutable: true, imported: false }
}

fn one_page_memory() -> Memory {
    Memory { min_pages: 1, max_pages: None, imported: false }
}

fn demo_module() -> Module {
    // One mutable i32 global, one memory, two function exports and an
    // exported memory, as a small guest with `set`/`get` entry points
    // compiles to.
    Module {
        globals: vec![mutable_global(ValKind::I32)],
        memories: vec![one_page_memory()],
        exports: vec![
            Export { name: "set".to_string(), target: ExternTarget::Other },
            Export { name: "get".to_string(), target: ExternTarget::Other },
            Export { name: "memory".to_string(), target: ExternTarget::Memory(0) },
        ],
        imports: vec![],
        data: vec![DataSegment { memory: Some(0) }],
    }
}

#[test]
fn normalize_adds_synthetic_export() {
    let m = normalize_exports(demo_module());
    assert_eq!(m.exports.len(), 4);
    assert_eq!(m.exports[3].name, "$probed_global:0");
    assert_eq!(m.exports[3].target, ExternTarget::Global(0));
    // Everything else is untouched.
    assert_eq!(m.exports[0].name, "set");
    assert_eq!(m.globals.len(), 1);
    assert_eq!(m.data.len(), 1);
}

#[test]
fn normalize_skips_immutable_and_exported_globals() {
    let mut m = demo_module();
    m.globals = vec![
        Global { ty: ValKind::I64, mutable: false, imported: false },
        mutable_global(ValKind::I32),
        mutable_global(ValKind::F64),
    ];
    m.exports.push(Export { name: "counter".to_string(), target: ExternTarget::Global(1) });
    let r = normalize_exports(m);
    // Only the global at index 2 was mutable and unexported; the counter
    // advanced once.
    assert_eq!(r.exports.len(), 5);
    assert_eq!(r.exports[4].name, "$probed_global:0");
    assert_eq!(r.exports[4].target, ExternTarget::Global(2));
}

#[test]
fn normalize_counter_renders_decimals() {
    let mut m = demo_module();
    m.exports = vec![];
    m.globals = (0..12).map(|_| mutable_global(ValKind::I32)).collect();
    let r = normalize_exports(m);
    assert_eq!(r.exports.len(), 12);
    assert_eq!(r.exports[0].name, "$probed_global:0");
    assert_eq!(r.exports[9].name, "$probed_global:9");
    assert_eq!(r.exports[10].name, "$probed_global:10");
    assert_eq!(r.exports[11].name, "$probed_global:11");
}

#[test]
fn rewrite_moves_persisted_exports_to_imports() {
    let m = rewrite_for_reload(normalize_exports(demo_module()));
    // Data initializers are gone; function exports stay; the memory and
    // the synthetic global export became imports in export order.
    assert!(m.data.is_empty());
    assert_eq!(m.exports.len(), 2);
    assert_eq!(m.exports[0].name, "set");
    assert_eq!(m.exports[1].name, "get");
    assert_eq!(m.imports.len(), 2);
    assert_eq!(m.imports[0].namespace, "cursed-imports");
    assert_eq!(m.imports[0].name, "memory");
    assert_eq!(m.imports[0].target, ExternTarget::Memory(0));
    assert_eq!(m.imports[1].namespace, "cursed-imports");
    assert_eq!(m.imports[1].name, "$probed_global:0");
    assert_eq!(m.imports[1].target, ExternTarget::Global(0));
    // The targeted entities are now import-bound.
    assert!(m.globals[0].imported);
    assert!(m.memories[0].imported);
}

#[test]
fn rewrite_keeps_preexisting_imports() {
    let mut m = demo_module();
    m.imports.push(Import {
        namespace: "env".to_string(),
        name: "log".to_string(),
        target: ExternTarget::Other,
    });
    let r = rewrite_for_reload(m);
    assert_eq!(r.imports.len(), 2);
    assert_eq!(r.imports[0].namespace, "env");
    assert_eq!(r.imports[1].name, "memory");
}

#[test]
fn prepare_reload_composes_both_passes() {
    let direct = rewrite_for_reload(normalize_exports(demo_module()));
    let composed = prepare_reload(demo_module());
    assert_eq!(direct, composed);
}
