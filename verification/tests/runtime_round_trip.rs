//! One full round trip through the real toolchain: a guest module is built
//! with walrus, run under wasmtime, mutated, saved, and reconstructed into
//! a fresh instance — with every decision (which exports to add, which
//! imports to declare, which externs to supply) made by the library.

use walrus::{ConstExpr, ExportItem, FunctionBuilder, GlobalKind, ImportKind, ValType};
use wasmtime::{Engine, Extern, ExternType, Instance, Store, Val as RtVal};

use wasm_persist::externs::{build_externs, ExternVal};
use wasm_persist::module as pm;
use wasm_persist::state::{serialize_state, CapturedExport, CapturedExtern};
use wasm_persist::values::{SerializableVal, Val, ValKind};

/// The library's image of the guest built below: one mutable 32-bit global
/// (initially 7), one single-page memory exported as "memory", and a `get`
/// function export.
fn guest_image() -> pm::Module {
    pm::Module {
        globals: vec![pm::Global { ty: ValKind::I32, mutable: true, imported: false }],
        memories: vec![pm::Memory { min_pages: 1, max_pages: None, imported: false }],
        exports: vec![
            pm::Export { name: "memory".to_string(), target: pm::ExternTarget::Memory(0) },
            pm::Export { name: "get".to_string(), target: pm::ExternTarget::Other },
        ],
        imports: vec![],
        data: vec![],
    }
}

#[test]
fn runtime_round_trip_restores_global_and_memory() {
    // Build the guest: a mutable global the guest never exports itself.
    let mut wm = walrus::Module::with_config(walrus::ModuleConfig::new());
    let g = wm.globals.add_local(
        ValType::I32,
        true,
        false,
        ConstExpr::Value(walrus::ir::Value::I32(7)),
    );
    let mem = wm.memories.add_local(false, false, 1, None, None);
    wm.exports.add("memory", mem);
    let mut fb = FunctionBuilder::new(&mut wm.types, &[], &[ValType::I32]);
    fb.func_body().global_get(g);
    let get = fb.finish(vec![], &mut wm.funcs);
    wm.exports.add("get", get);

    // Fresh-load preparation: the library decides the synthetic exports.
    let normalized = pm::normalize_exports(guest_image());
    assert_eq!(normalized.exports.len(), 3);
    for ex in normalized.exports.iter().skip(2) {
        match ex.target {
            pm::ExternTarget::Global(0) => {
                wm.exports.add(&ex.name, g);
            }
            ref other => panic!("unexpected synthetic export target {:?}", other),
        }
    }
    let fresh_bytes = wm.emit_wasm();

    // Run it and mutate its state. Keep the engine's address-space
    // reservations small: the guest has a single page.
    let mut config = wasmtime::Config::new();
    config.memory_reservation(1 << 20);
    config.memory_guard_size(1 << 16);
    config.memory_reservation_for_growth(1 << 20);
    let engine = Engine::new(&config).unwrap();
    let module = wasmtime::Module::new(&engine, &fresh_bytes).unwrap();
    let mut store = Store::new(&engine, ());
    let instance = Instance::new(&mut store, &module, &[]).unwrap();
    let global = instance.get_global(&mut store, "$probed_global:0").unwrap();
    assert!(matches!(global.get(&mut store), RtVal::I32(7)));
    global.set(&mut store, RtVal::I32(42)).unwrap();
    let memory = instance.get_memory(&mut store, "memory").unwrap();
    memory.data_mut(&mut store)[10] = 99;

    // Save: capture the exports and let the library serialize them.
    let exports: Vec<(String, Extern)> = instance
        .exports(&mut store)
        .map(|e| (e.name().to_string(), e.into_extern()))
        .collect();
    let mut captured: Vec<CapturedExport> = Vec::new();
    for (name, ext) in exports {
        let item = match ext {
            Extern::Memory(m) => CapturedExtern::Memory(m.data(&store).to_vec()),
            Extern::Global(gl) => CapturedExtern::Global(match gl.get(&mut store) {
                RtVal::I32(x) => Val::I32(x),
                RtVal::I64(x) => Val::I64(x),
                RtVal::F32(x) => Val::F32(x),
                RtVal::F64(x) => Val::F64(x),
                _ => Val::Ref,
            }),
            _ => CapturedExtern::Other,
        };
        captured.push(CapturedExport { name, item });
    }
    let st = serialize_state(&captured).unwrap();
    assert_eq!(st.memory.len(), 65536);
    assert_eq!(st.memory[10], 99);
    assert!(st
        .globals
        .iter()
        .any(|e| e.name == "$probed_global:0" && e.value == SerializableVal::I32(42)));

    // Reload preparation: the library decides the rewrite; replay it on a
    // fresh parse of the very binary that was saved from.
    let rewritten = pm::rewrite_for_reload(normalized);
    let mut wm2 = walrus::Module::from_buffer(&fresh_bytes).unwrap();
    let data_ids: Vec<_> = wm2.data.iter().map(|d| d.id()).collect();
    for id in data_ids {
        wm2.data.delete(id);
    }
    let old_exports: Vec<(walrus::ExportId, String, ImportKind)> = wm2
        .exports
        .iter()
        .filter_map(|ex| {
            let kind = match ex.item {
                ExportItem::Memory(id) => Some(ImportKind::Memory(id)),
                ExportItem::Global(id) => Some(ImportKind::Global(id)),
                _ => None,
            }?;
            Some((ex.id(), ex.name.clone(), kind))
        })
        .collect();
    for (id, name, kind) in old_exports {
        wm2.exports.delete(id);
        let import_id = wm2.imports.add("cursed-imports", &name, kind.clone());
        match kind {
            ImportKind::Memory(mid) => wm2.memories.get_mut(mid).import = Some(import_id),
            ImportKind::Global(gid) => wm2.globals.get_mut(gid).kind = GlobalKind::Import(import_id),
            _ => {}
        }
    }
    let reload_bytes = wm2.emit_wasm();

    // The library assembles the externs from the saved state.
    let bindings = build_externs(&rewritten, &st).unwrap();
    let module2 = wasmtime::Module::new(&engine, &reload_bytes).unwrap();
    let mut externs: Vec<Extern> = Vec::new();
    let mut restored_memory = None;
    for import in module2.imports() {
        let b = bindings
            .iter()
            .find(|b| b.namespace == import.module() && b.name == import.name())
            .expect("an assembled extern for every declared import");
        match (&b.value, import.ty()) {
            (ExternVal::Global(sv), ExternType::Global(ty)) => {
                let val = match sv {
                    SerializableVal::I32(x) => RtVal::I32(*x),
                    SerializableVal::I64(x) => RtVal::I64(*x),
                    SerializableVal::F32(x) => RtVal::F32(*x),
                    SerializableVal::F64(x) => RtVal::F64(*x),
                };
                externs.push(wasmtime::Global::new(&mut store, ty, val).unwrap().into());
            }
            (ExternVal::Memory { pages, bytes }, ExternType::Memory(ty)) => {
                let m = wasmtime::Memory::new(&mut store, ty).unwrap();
                let delta = pages.saturating_sub(m.size(&store));
                m.grow(&mut store, delta).unwrap();
                m.data_mut(&mut store)[..bytes.len()].copy_from_slice(bytes);
                restored_memory = Some(m);
                externs.push(m.into());
            }
            _ => panic!("assembled extern does not match the declared import kind"),
        }
    }

    // The fresh instance observes the state captured at save time.
    let instance2 = Instance::new(&mut store, &module2, &externs).unwrap();
    let get2 = instance2.get_typed_func::<(), i32>(&mut store, "get").unwrap();
    assert_eq!(get2.call(&mut store, ()).unwrap(), 42);
    let m2 = restored_memory.unwrap();
    assert_eq!(m2.data(&store)[10], 99);
    assert_eq!(m2.size(&store), 1);
}
