use move_model::builder::{Action, Event, FrontError, FrontLabel, FrontLoc, ModelBuilder, Stage};
use move_model::bytecode::{addr_to_big_uint, big_uint_to_addr, run_bytecode_model_builder, AccountAddress, BytecodeModule};
use move_model::closure::{collect_related_modules, select_reachable};
use move_model::env::GlobalEnv;
use move_model::merge::{
    run_spec_checker, script_to_module, CompiledFunctionDef, CompiledModule, CompiledScript, CompiledStructDef,
    CompiledUnit, SCRIPT_ADDRESS,
};
use move_model::model::{
    Address, AddressDecl, Condition, ExpandedFunction, ExpandedModule, ExpandedProgram, ExpandedScript, Loc,
    ModuleIdent, SpecBlock,
};
use move_model::symbol::{Symbol, SymbolPool};
use move_model::{project_1st, project_2nd};

fn loc(file_id: usize) -> Loc {
    Loc { file_id, start: 0, end: 1 }
}

fn module(address: Address, name: usize, file: usize, neighbors: Vec<usize>) -> ExpandedModule {
    ExpandedModule {
        ident: ModuleIdent { address, name: Symbol(name) },
        loc: loc(file),
        immediate_neighbors: neighbors,
        friends: vec![],
        is_source_module: false,
        functions: vec![],
        specs: vec![],
    }
}

fn program(modules: Vec<ExpandedModule>, scripts: Vec<ExpandedScript>) -> ExpandedProgram {
    ExpandedProgram { addresses: vec![], modules, scripts }
}

fn fun(name: &str, handle: u16) -> CompiledFunctionDef {
    CompiledFunctionDef { name: name.to_string(), handle }
}

fn error(file: &str, message: &str) -> FrontError {
    FrontError {
        labels: vec![FrontLabel {
            loc: FrontLoc { file: file.to_string(), start: 3, end: 7 },
            message: message.to_string(),
        }],
    }
}

#[test]
fn closure_follows_uses_from_target() {
    // A (file 1, a dependency) has no neighbours; B (file 0) uses A.
    let p = program(
        vec![
            module(Address::Numeric(1), 0, 1, vec![]),
            module(Address::Numeric(1), 1, 0, vec![0]),
        ],
        vec![],
    );
    let sel = select_reachable(&p, &vec![1]);
    assert_eq!(sel.modules, vec![0, 1]);
}

#[test]
fn closure_leaves_out_unused_dependency() {
    let p = program(
        vec![
            module(Address::Numeric(1), 0, 1, vec![]),
            module(Address::Numeric(1), 1, 0, vec![]),
        ],
        vec![],
    );
    let sel = select_reachable(&p, &vec![1]);
    assert_eq!(sel.modules, vec![1]);
}

#[test]
fn closure_same_for_any_root_order() {
    let p = program(
        vec![
            module(Address::Numeric(1), 0, 0, vec![1]),
            module(Address::Numeric(1), 1, 0, vec![2]),
            module(Address::Numeric(1), 2, 0, vec![0]),
            module(Address::Numeric(1), 3, 0, vec![]),
            module(Address::Numeric(1), 4, 0, vec![3]),
        ],
        vec![],
    );
    let a = collect_related_modules(&p, &vec![1, 4]);
    let b = collect_related_modules(&p, &vec![4, 1, 4]);
    assert_eq!(a, b);
    assert_eq!(a, vec![true, true, true, true, true]);
    let c = collect_related_modules(&p, &vec![2]);
    assert_eq!(c, vec![true, true, true, false, false]);
}

#[test]
fn closure_is_idempotent() {
    let p = program(
        vec![
            module(Address::Numeric(1), 0, 0, vec![1]),
            module(Address::Numeric(1), 1, 0, vec![]),
            module(Address::Numeric(1), 2, 0, vec![0]),
        ],
        vec![],
    );
    let first = collect_related_modules(&p, &vec![0]);
    let roots: Vec<usize> = (0..first.len()).filter(|i| first[*i]).collect();
    let second = collect_related_modules(&p, &roots);
    assert_eq!(first, second);
    assert_eq!(first, vec![true, true, false]);
}

#[test]
fn closure_starts_from_script_neighbours() {
    let script = ExpandedScript {
        key: Symbol(9),
        loc: loc(0),
        immediate_neighbors: vec![1],
        function_name: Symbol(8),
        function: ExpandedFunction { name: Symbol(8), loc: loc(0) },
        specs: vec![],
    };
    let mut p = program(
        vec![
            module(Address::Named(Symbol(5)), 0, 1, vec![]),
            module(Address::Named(Symbol(6)), 1, 1, vec![]),
        ],
        vec![script],
    );
    p.addresses = vec![
        AddressDecl { name: Symbol(5), value: Some(1) },
        AddressDecl { name: Symbol(6), value: Some(2) },
    ];
    let sel = select_reachable(&p, &vec![1]);
    assert_eq!(sel.modules, vec![1]);
    assert_eq!(sel.addresses, vec![1]);
}

fn merge_fixture(env: &mut GlobalEnv) -> (ExpandedProgram, Vec<CompiledUnit>) {
    let m_name = env.symbols.make("M");
    let main = env.symbols.make("main");
    let key = env.symbols.make("script_0");
    let mut m = module(Address::Numeric(0x42), m_name.0, 0, vec![]);
    m.ident.name = m_name;
    let script = ExpandedScript {
        key,
        loc: loc(0),
        immediate_neighbors: vec![0],
        function_name: main,
        function: ExpandedFunction { name: main, loc: loc(0) },
        specs: vec![SpecBlock {
            loc: loc(0),
            target: None,
            conditions: vec![Condition { loc: loc(0), text: "aborts_if false".to_string() }],
        }],
    };
    let p = program(vec![m], vec![script]);
    let units = vec![
        CompiledUnit::Module {
            ident: ModuleIdent { address: Address::Numeric(0x42), name: m_name },
            module: CompiledModule {
                name: "M".to_string(),
                functions: vec![fun("f", 0), fun("g", 1)],
                structs: vec![CompiledStructDef { name: "S".to_string() }],
            },
        },
        CompiledUnit::Script { key, script: CompiledScript { function: fun("main", 0) } },
    ];
    (p, units)
}

#[test]
fn script_merges_into_pseudo_module() {
    let mut env = GlobalEnv::new();
    let (p, units) = merge_fixture(&mut env);
    run_spec_checker(&mut env, units, &p);
    assert_eq!(env.modules.len(), 2);
    let m = &env.modules[0];
    assert_eq!(m.id, 0);
    assert!(!m.is_script);
    assert_eq!(m.name.address, 0x42);
    assert_eq!(m.functions.len(), 2);
    assert_eq!(m.structs.len(), 1);
    assert_eq!(env.symbols.string(m.functions[1].name), "g");
    assert_eq!(m.functions[1].def_idx, 1);
    let s = &env.modules[1];
    assert_eq!(s.id, 1);
    assert!(s.is_script);
    assert_eq!(s.functions.len(), 1);
    assert_eq!(s.structs.len(), 0);
    assert_eq!(s.name.address, SCRIPT_ADDRESS);
    assert_ne!(s.name.address, m.name.address);
    assert_eq!(s.functions[0].spec.len(), 1);
    assert_eq!(s.functions[0].spec[0].text, "aborts_if false");
    assert_eq!(env.symbols.string(s.name.name), "main");
    assert!(env.diags.is_empty());
}

#[test]
fn unmatched_unit_is_skipped() {
    let mut env = GlobalEnv::new();
    let (p, mut units) = merge_fixture(&mut env);
    let other = env.symbols.make("N");
    units.insert(
        0,
        CompiledUnit::Module {
            ident: ModuleIdent { address: Address::Numeric(7), name: other },
            module: CompiledModule { name: "N".to_string(), functions: vec![], structs: vec![] },
        },
    );
    run_spec_checker(&mut env, units, &p);
    assert_eq!(env.modules.len(), 2);
    assert_eq!(env.modules[0].id, 0);
    assert_eq!(env.modules[0].name.address, 0x42);
    assert_eq!(env.modules[1].id, 1);
}

#[test]
fn undeclared_named_address_is_reported() {
    let mut env = GlobalEnv::new();
    let n = env.symbols.make("N");
    let named = env.symbols.make("Std");
    let mut m = module(Address::Named(named), n.0, 0, vec![]);
    m.ident.name = n;
    let p = program(vec![m], vec![]);
    let units = vec![CompiledUnit::Module {
        ident: ModuleIdent { address: Address::Named(named), name: n },
        module: CompiledModule { name: "N".to_string(), functions: vec![], structs: vec![] },
    }];
    run_spec_checker(&mut env, units, &p);
    assert_eq!(env.modules.len(), 1);
    assert_eq!(env.diags.len(), 1);
    assert_eq!(env.diags[0].primary.message, "undeclared address");
}

#[test]
fn declared_named_address_resolves() {
    let mut env = GlobalEnv::new();
    let n = env.symbols.make("N");
    let named = env.symbols.make("Std");
    let mut m = module(Address::Named(named), n.0, 0, vec![]);
    m.ident.name = n;
    let mut p = program(vec![m], vec![]);
    p.addresses = vec![AddressDecl { name: named, value: Some(0x1) }];
    let units = vec![CompiledUnit::Module {
        ident: ModuleIdent { address: Address::Named(named), name: n },
        module: CompiledModule { name: "N".to_string(), functions: vec![], structs: vec![] },
    }];
    run_spec_checker(&mut env, units, &p);
    assert_eq!(env.modules[0].name.address, 1);
    assert!(env.diags.is_empty());
}

#[test]
fn script_conversion_shape() {
    let s = ExpandedScript {
        key: Symbol(0),
        loc: loc(0),
        immediate_neighbors: vec![],
        function_name: Symbol(3),
        function: ExpandedFunction { name: Symbol(3), loc: loc(0) },
        specs: vec![],
    };
    let (ident, m) = script_to_module(&CompiledScript { function: fun("main", 4) }, &s);
    assert_eq!(ident.address, Address::Anonymous(SCRIPT_ADDRESS));
    assert_eq!(ident.name, Symbol(3));
    assert_eq!(m.functions.len(), 1);
    assert_eq!(m.functions[0].name, "main");
    assert_eq!(m.functions[0].handle, 4);
    assert!(m.structs.is_empty());
}

#[test]
fn parse_failure_registers_files_and_errors() {
    let mut b = ModelBuilder::new();
    let act = b.step(Event::ParseFailed {
        files: vec!["a.move".to_string(), "b.move".to_string()],
        errors: vec![error("b.move", "unexpected token")],
    });
    assert!(matches!(act, Action::Finish));
    assert!(b.stage == Stage::Done);
    assert_eq!(b.env.files.len(), 2);
    assert_eq!(b.env.files[0].name, "a.move");
    assert_eq!(b.env.files[1].name, "b.move");
    assert_eq!(b.env.diags.len(), 1);
    assert_eq!(b.env.diags[0].primary.loc, Loc { file_id: 1, start: 3, end: 7 });
    assert_eq!(b.env.diags[0].primary.message, "unexpected token");
    assert!(b.env.diags[0].secondary.is_empty());
}

#[test]
fn pipeline_runs_to_merge() {
    let mut b = ModelBuilder::new();
    let act = b.step(Event::Parsed {
        files: vec!["lib.move".to_string(), "main.move".to_string()],
        dep_files: vec!["lib.move".to_string()],
        comments: vec![("main.move".to_string(), "/// doc".to_string())],
    });
    assert!(matches!(act, Action::Expand));
    assert!(b.env.files[0].is_dep);
    assert!(!b.env.files[1].is_dep);
    assert_eq!(b.env.docs.len(), 1);
    assert_eq!(b.env.docs[0].0, 1);
    let a_name = b.env.symbols.make("A");
    let b_name = b.env.symbols.make("B");
    let c_name = b.env.symbols.make("C");
    let mut a = module(Address::Numeric(1), 0, 0, vec![]);
    a.ident.name = a_name;
    let mut c = module(Address::Numeric(1), 0, 0, vec![]);
    c.ident.name = c_name;
    let mut bm = module(Address::Numeric(1), 0, 1, vec![0]);
    bm.ident.name = b_name;
    let act = b.step(Event::Expanded { program: program(vec![a, c, bm], vec![]) });
    match act {
        Action::Compile { modules, addresses } => {
            assert_eq!(modules, vec![0, 2]);
            assert!(addresses.is_empty());
        },
        _ => panic!("expected a compile request"),
    }
    assert!(matches!(b.step(Event::Compiled), Action::Verify));
    let units = vec![
        CompiledUnit::Module {
            ident: ModuleIdent { address: Address::Numeric(1), name: a_name },
            module: CompiledModule { name: "A".to_string(), functions: vec![fun("f", 0)], structs: vec![] },
        },
        CompiledUnit::Module {
            ident: ModuleIdent { address: Address::Numeric(1), name: b_name },
            module: CompiledModule { name: "B".to_string(), functions: vec![], structs: vec![] },
        },
    ];
    assert!(matches!(b.step(Event::Verified { units }), Action::Finish));
    assert_eq!(b.env.modules.len(), 2);
    assert_eq!(b.env.modules[0].name.name, a_name);
    assert_eq!(b.env.modules[1].name.name, b_name);
    assert!(b.env.diags.is_empty());
}

#[test]
fn compile_failure_stops_with_diagnostics() {
    let mut b = ModelBuilder::new();
    b.step(Event::Parsed { files: vec!["m.move".to_string()], dep_files: vec![], comments: vec![] });
    b.step(Event::Expanded { program: program(vec![module(Address::Numeric(1), 0, 0, vec![])], vec![]) });
    let act = b.step(Event::CompileFailed { errors: vec![error("m.move", "type mismatch")] });
    assert!(matches!(act, Action::Finish));
    assert!(b.stage == Stage::Done);
    assert_eq!(b.env.diags.len(), 1);
    assert_eq!(b.env.diags[0].primary.loc.file_id, 0);
    assert!(b.env.modules.is_empty());
}

#[test]
fn secondary_labels_are_kept() {
    let mut b = ModelBuilder::new();
    b.step(Event::Parsed { files: vec!["m.move".to_string()], dep_files: vec![], comments: vec![] });
    let mut e = error("m.move", "first");
    e.labels.push(FrontLabel { loc: FrontLoc { file: "m.move".to_string(), start: 10, end: 12 }, message: "second".to_string() });
    b.step(Event::ExpandFailed { errors: vec![e] });
    assert_eq!(b.env.diags.len(), 1);
    assert_eq!(b.env.diags[0].secondary.len(), 1);
    assert_eq!(b.env.diags[0].secondary[0].loc, Loc { file_id: 0, start: 10, end: 12 });
    assert_eq!(b.env.diags[0].secondary[0].message, "second");
}

#[test]
fn address_numbers() {
    let mut bytes = [0u8; 16];
    bytes[15] = 1;
    assert_eq!(addr_to_big_uint(&AccountAddress { bytes }), 1);
    let mut bytes = [0u8; 16];
    bytes[0] = 1;
    assert_eq!(addr_to_big_uint(&AccountAddress { bytes }), 1u128 << 120);
    assert_eq!(addr_to_big_uint(&AccountAddress { bytes: [0xff; 16] }), u128::MAX);
}

#[test]
fn bytecode_builder_makes_stubs() {
    let mut bytes = [0u8; 16];
    bytes[15] = 0x10;
    let modules = vec![
        BytecodeModule {
            address: AccountAddress { bytes },
            name: "Vector".to_string(),
            functions: vec![fun("empty", 0), fun("push", 1)],
            structs: vec![],
        },
        BytecodeModule {
            address: AccountAddress { bytes },
            name: "Coin".to_string(),
            functions: vec![fun("empty", 2)],
            structs: vec![CompiledStructDef { name: "Coin".to_string() }],
        },
    ];
    let env = run_bytecode_model_builder(&modules);
    assert_eq!(env.modules.len(), 2);
    assert_eq!(env.modules[1].id, 1);
    assert_eq!(env.modules[0].name.address, 0x10);
    assert_eq!(env.symbols.string(env.modules[1].name.name), "Coin");
    assert_eq!(env.modules[0].functions[1].def_idx, 1);
    assert_eq!(env.modules[1].functions[0].handle_idx, 2);
    assert_eq!(env.modules[1].functions[0].name, env.modules[0].functions[0].name);
    assert_eq!(env.symbols.string(env.modules[1].structs[0].name), "Coin");
    assert!(env.modules[0].functions[0].spec.is_empty());
}

#[test]
fn symbols_are_interned_once() {
    let mut pool = SymbolPool::new();
    let a = pool.make("a");
    let b = pool.make("b");
    let a2 = pool.make("a");
    assert_eq!(a, a2);
    assert_ne!(a, b);
    assert_eq!(pool.names.len(), 2);
    assert_eq!(pool.string(b), "b");
}

#[test]
fn projections() {
    let v = vec![(1, "x"), (2, "y")];
    assert_eq!(project_1st(&v), vec![1, 2]);
    assert_eq!(project_2nd(&v), vec!["x", "y"]);
    let empty: Vec<(u8, u8)> = vec![];
    assert!(project_1st(&empty).is_empty());
}

#[test]
fn address_round_trip() {
    let a = big_uint_to_addr(0x1234);
    assert_eq!(a.bytes[15], 0x34);
    assert_eq!(a.bytes[14], 0x12);
    assert!(a.bytes[..14].iter().all(|b| *b == 0));
    assert_eq!(addr_to_big_uint(&a), 0x1234);
    assert_eq!(big_uint_to_addr(u128::MAX).bytes, [0xff; 16]);
}
