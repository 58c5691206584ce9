use move_model::function_target::{
    Annotation, AnnotationFormatter, Annotations, Bytecode, FunctionEnv, FunctionTarget, FunctionTargetData, Type,
};
use move_model::model::{Condition, Loc};

fn func_env() -> FunctionEnv {
    FunctionEnv {
        module_name: "M".to_string(),
        id: 3,
        name: "f".to_string(),
        loc: Loc { file_id: 0, start: 5, end: 50 },
        is_native: false,
        is_public: true,
        is_mutating: true,
        type_parameters: vec!["T".to_string()],
        parameter_count: 2,
        local_names: vec!["x".to_string(), "v".to_string(), "y".to_string()],
        spec_on_decl: vec![Condition { loc: Loc { file_id: 0, start: 1, end: 2 }, text: "ensures true".to_string() }],
        spec_on_impl: vec![(1, vec![])],
    }
}

fn data() -> FunctionTargetData {
    FunctionTargetData {
        code: vec![
            Bytecode { attr_id: 0, text: "$t3 := copy(x)".to_string() },
            Bytecode { attr_id: 1, text: "return $t3".to_string() },
        ],
        local_types: vec![
            Type::U64,
            Type::Reference(true, Box::new(Type::Vector(Box::new(Type::TypeParameter("T".to_string()))))),
            Type::Bool,
            Type::U64,
        ],
        return_types: vec![Type::U64, Type::Address],
        locations: vec![(1, Loc { file_id: 0, start: 20, end: 30 })],
        annotations: Annotations {
            entries: vec![
                Annotation { kind: "reaching_def".to_string(), offset: 0, text: "x@0".to_string() },
                Annotation { kind: "lifetime".to_string(), offset: 0, text: "live: x".to_string() },
                Annotation { kind: "lifetime".to_string(), offset: 1, text: "live: $t3".to_string() },
            ],
        },
    }
}

#[test]
fn display_without_formatters() {
    let fe = func_env();
    let d = data();
    let t = FunctionTarget::new(&fe, &d);
    let expected = "pub fun M::f<T>(x: u64, v: &mut vector<T>): (u64, address) {\n    var y: bool\n    var $t3: u64\n    $t3 := copy(x)\n    return $t3\n}\n";
    assert_eq!(t.display(), expected);
}

#[test]
fn display_with_formatters_in_registration_order() {
    let fe = func_env();
    let d = data();
    let mut t = FunctionTarget::new(&fe, &d);
    t.register_annotation_formatters_for_test();
    let expected = "pub fun M::f<T>(x: u64, v: &mut vector<T>): (u64, address) {\n    var y: bool\n    var $t3: u64\n    // live: x, x@0\n    $t3 := copy(x)\n    // live: $t3\n    return $t3\n}\n";
    let first = t.display();
    assert_eq!(first, expected);
    assert_eq!(t.display(), first);
    let mut t2 = FunctionTarget::new(&fe, &d);
    t2.register_annotation_formatter(AnnotationFormatter { kind: "reaching_def".to_string() });
    t2.register_annotation_formatter(AnnotationFormatter { kind: "lifetime".to_string() });
    assert!(t2.display().contains("    // x@0, live: x\n"));
}

#[test]
fn display_private_single_return_no_type_params() {
    let mut fe = func_env();
    fe.is_public = false;
    fe.type_parameters = vec![];
    fe.parameter_count = 0;
    let d = FunctionTargetData {
        code: vec![],
        local_types: vec![],
        return_types: vec![Type::Signer],
        locations: vec![],
        annotations: Annotations { entries: vec![] },
    };
    let t = FunctionTarget::new(&fe, &d);
    assert_eq!(t.display(), "fun M::f(): signer {\n}\n");
}

#[test]
fn queries_read_declaration_and_data() {
    let fe = func_env();
    let d = data();
    let t = FunctionTarget::new(&fe, &d);
    assert_eq!(t.get_name(), "f");
    assert_eq!(t.get_id(), 3);
    assert!(t.is_public());
    assert!(!t.is_native());
    assert!(t.is_mutating());
    assert_eq!(t.get_type_parameters().len(), 1);
    assert_eq!(t.get_parameter_count(), 2);
    assert_eq!(t.get_local_count(), 4);
    assert_eq!(t.get_user_local_count(), 3);
    assert_eq!(t.get_return_count(), 2);
    assert!(matches!(t.get_return_type(1), Type::Address));
    assert_eq!(t.get_return_types().len(), 2);
    assert!(matches!(t.get_local_type(2), Type::Bool));
    assert_eq!(t.get_local_name(1), "v");
    assert_eq!(t.get_local_name(3), "$t3");
    assert_eq!(t.get_local_name(12), "$t12");
    assert_eq!(t.get_specification_on_decl().len(), 1);
    assert!(t.get_specification_on_impl(1).is_some());
    assert!(t.get_specification_on_impl(0).is_none());
    assert_eq!(t.get_code().len(), 2);
    assert_eq!(t.get_annotations().entries.len(), 3);
}

#[test]
fn bytecode_location_falls_back_to_function() {
    let fe = func_env();
    let d = data();
    let t = FunctionTarget::new(&fe, &d);
    assert_eq!(t.get_bytecode_loc(1), Loc { file_id: 0, start: 20, end: 30 });
    assert_eq!(t.get_bytecode_loc(0), t.get_loc());
}
