use rhai_definitions::definitions::def_type_name;
use rhai_definitions::engine::{
    Engine, FnAccess, FuncInfo, FuncMetadata, Module, Scope, ScopeEntry,
};

fn func(name: &str, params: usize, info: &[&str], ret: &str) -> FuncInfo {
    FuncInfo {
        metadata: FuncMetadata {
            access: FnAccess::Public,
            name: name.to_string(),
            params,
            params_info: info.iter().map(|s| s.to_string()).collect(),
            return_type: ret.to_string(),
            comments: Vec::new(),
        },
    }
}

fn empty_engine() -> Engine {
    Engine {
        global_modules: Vec::new(),
        global_sub_modules: Vec::new(),
        custom_keywords: Vec::new(),
        custom_types: Vec::new(),
    }
}

fn module(vars: &[&str], functions: Vec<FuncInfo>) -> Module {
    Module {
        variables: vars.iter().map(|s| s.to_string()).collect(),
        functions,
    }
}

fn render(m: &Module, engine: &Engine) -> String {
    let defs = engine.definitions();
    m.definition(&defs)
}

#[test]
fn static_module_of_empty_engine_is_only_the_header() {
    let engine = empty_engine();
    assert_eq!(engine.definitions().static_module(), "module static;\n\n");
}

#[test]
fn static_module_joins_global_modules_with_blank_lines() {
    let mut engine = empty_engine();
    engine.global_modules.push(module(&["a"], Vec::new()));
    engine.global_modules.push(module(&["b"], Vec::new()));
    assert_eq!(
        engine.definitions().static_module(),
        "module static;\n\nconst a: ?;\n\nconst b: ?;"
    );
}

#[test]
fn empty_global_module_still_gets_its_separator() {
    let mut engine = empty_engine();
    engine.global_modules.push(module(&[], Vec::new()));
    engine.global_modules.push(module(&["b"], Vec::new()));
    assert_eq!(
        engine.definitions().static_module(),
        "module static;\n\n\n\nconst b: ?;"
    );
}

#[test]
fn scope_without_scope_is_only_the_header() {
    let engine = empty_engine();
    assert_eq!(engine.definitions().scope(), "module static;\n\n");
}

#[test]
fn scope_lists_constants_and_variables_in_order() {
    let engine = empty_engine();
    let scope = Scope {
        entries: vec![
            ScopeEntry { name: "x".to_string(), constant: true },
            ScopeEntry { name: "y".to_string(), constant: false },
        ],
    };
    assert_eq!(
        engine.definitions_with_scope(&scope).scope(),
        "module static;\n\nconst x;\n\nlet y;"
    );
}

#[test]
fn empty_scope_is_only_the_header() {
    let engine = empty_engine();
    let scope = Scope { entries: Vec::new() };
    assert_eq!(engine.definitions_with_scope(&scope).scope(), "module static;\n\n");
}

#[test]
fn variables_are_sorted_by_name() {
    let engine = empty_engine();
    let m = module(&["b", "a", "B"], Vec::new());
    assert_eq!(render(&m, &engine), "const B: ?;\n\nconst a: ?;\n\nconst b: ?;");
}

#[test]
fn functions_follow_variables() {
    let engine = empty_engine();
    let m = module(&["x"], vec![func("foo", 1, &["a: INT"], "INT")]);
    assert_eq!(render(&m, &engine), "const x: ?;\n\nfn foo(a: int) -> int;");
}

#[test]
fn functions_sorted_by_name_then_arity_then_signature() {
    let engine = empty_engine();
    let m = module(
        &[],
        vec![
            func("foo", 2, &["a: INT", "b: INT"], "INT"),
            func("bar", 0, &[], "()"),
            func("foo", 1, &["z: FLOAT"], "INT"),
            func("foo", 1, &["a: FLOAT"], "INT"),
        ],
    );
    assert_eq!(
        render(&m, &engine),
        "fn bar() -> ();\n\nfn foo(a: float) -> int;\n\nfn foo(z: float) -> int;\n\nfn foo(a: int, b: int) -> int;"
    );
}

#[test]
fn operators_are_written_with_types_only() {
    let engine = empty_engine();
    let m = module(&[], vec![func("+", 2, &["x: INT", "y: INT"], "INT")]);
    assert_eq!(render(&m, &engine), "op +(int, int) -> int;");
}

#[test]
fn keyword_named_functions_are_operators() {
    let engine = empty_engine();
    let m = module(&[], vec![func("in", 2, &["a: INT", "b: INT"], "bool")]);
    assert_eq!(render(&m, &engine), "op in(int, int) -> bool;");
}

#[test]
fn custom_keywords_are_operators() {
    let mut engine = empty_engine();
    engine.custom_keywords.push("foo".to_string());
    let m = module(&[], vec![func("foo", 1, &["x: INT"], "INT")]);
    assert_eq!(render(&m, &engine), "op foo(int) -> int;");
}

#[test]
fn getters_and_setters() {
    let engine = empty_engine();
    let m = module(
        &[],
        vec![
            func("get$len", 1, &["s: &mut ImmutableString"], "INT"),
            func("set$len", 2, &["s: &mut ImmutableString", "v: INT"], "()"),
        ],
    );
    assert_eq!(
        render(&m, &engine),
        "fn get len(s: String) -> int;\n\nfn set len(s: String, v: int) -> ();"
    );
}

#[test]
fn names_with_dollar_are_not_operators() {
    let engine = empty_engine();
    let m = module(&[], vec![func("index$get$", 0, &[], "Dynamic")]);
    assert_eq!(render(&m, &engine), "fn index$get$() -> ?;");
}

#[test]
fn missing_parameter_descriptions() {
    let engine = empty_engine();
    let m = module(&[], vec![func("f", 2, &["a"], "INT")]);
    assert_eq!(render(&m, &engine), "fn f(a: ?, _: ?) -> int;");
    let m = module(&[], vec![func("-", 2, &[], "INT")]);
    assert_eq!(render(&m, &engine), "op -(?, ?) -> int;");
}

#[test]
fn parameter_name_is_last_word_before_colon() {
    let engine = empty_engine();
    let m = module(&[], vec![func("f", 1, &["mut x: crate::Foo"], "INT")]);
    assert_eq!(render(&m, &engine), "fn f(x: Foo) -> int;");
}

#[test]
fn private_functions_leave_only_a_separator() {
    let engine = empty_engine();
    let mut hidden = func("a", 0, &[], "INT");
    hidden.metadata.access = FnAccess::Private;
    let m = module(&[], vec![hidden, func("b", 0, &[], "INT")]);
    assert_eq!(render(&m, &engine), "\n\nfn b() -> int;");
}

#[test]
fn comments_come_first() {
    let engine = empty_engine();
    let mut f = func("f", 0, &[], "INT");
    f.metadata.comments = vec!["/// One.".to_string(), "/// Two.".to_string()];
    let m = module(&[], vec![f]);
    assert_eq!(render(&m, &engine), "/// One.\n/// Two.\nfn f() -> int;");
}

#[test]
fn type_names_are_flattened() {
    let engine = empty_engine();
    assert_eq!(def_type_name("crate::foo::Bar", &engine), "Bar");
    assert_eq!(def_type_name("&mut Foo", &engine), "Foo");
    assert_eq!(def_type_name(" &mut Foo", &engine), "Foo");
    assert_eq!(def_type_name("&Foo", &engine), "Foo");
    assert_eq!(def_type_name("& mut  x::Foo", &engine), "Foo");
    assert_eq!(def_type_name("RhaiResultOf<Dynamic>", &engine), "?");
    assert_eq!(def_type_name("RhaiResultOf< INT >", &engine), "int");
    assert_eq!(def_type_name("Iterator<Item=INT>", &engine), "Iterator<int>");
    assert_eq!(def_type_name("&str", &engine), "String");
    assert_eq!(def_type_name("ImmutableString", &engine), "String");
    assert_eq!(def_type_name("Array<FLOAT>", &engine), "Array<float>");
    assert_eq!(def_type_name("  i64\t", &engine), "i64");
    assert_eq!(
        def_type_name("core::result::Result<INT, Box<EvalAltResult>>", &engine),
        "Result<int, Box<EvalAltResult>>"
    );
    assert_eq!(def_type_name("a:::b", &engine), ":b");
}

#[test]
fn paths_are_removed_inside_generics() {
    let engine = empty_engine();
    assert_eq!(def_type_name("Option<my::Foo>", &engine), "Option<Foo>");
    assert_eq!(
        def_type_name("std::collections::HashMap<crate::a::K, b::V>", &engine),
        "HashMap<K, V>"
    );
    assert_eq!(def_type_name("Vec<&mut x::Y>", &engine), "Vec<Y>");
    assert_eq!(def_type_name("(INT, my::F)", &engine), "(int, F)");
    assert_eq!(def_type_name("[x::Y; 3]", &engine), "[Y; 3]");
    assert_eq!(def_type_name("rhai::RhaiResultOf<my::Foo>", &engine), "Foo");
}

#[test]
fn associated_types_become_type_parameters() {
    let engine = empty_engine();
    assert_eq!(def_type_name("Foo<Output=INT>", &engine), "Foo<int>");
    assert_eq!(def_type_name("impl Iterator<Item = x::Y>", &engine), "impl Iterator<Y>");
}

#[test]
fn custom_type_display_names_are_used() {
    let mut engine = empty_engine();
    engine
        .custom_types
        .push(("my_crate::Thing".to_string(), "Thing".to_string()));
    assert_eq!(engine.format_type_name("my_crate::Thing"), "Thing");
    assert_eq!(engine.format_type_name("Other"), "Other");
    assert_eq!(def_type_name("my_crate::Thing", &engine), "Thing");
}

#[test]
fn modules_are_sorted_by_name_with_headers() {
    let mut engine = empty_engine();
    engine
        .global_sub_modules
        .push(("zeta".to_string(), module(&["z"], Vec::new())));
    engine
        .global_sub_modules
        .push(("alpha".to_string(), module(&[], vec![func("f", 0, &[], "INT")])));
    let mods = engine.definitions().modules();
    assert_eq!(
        mods,
        vec![
            ("alpha".to_string(), "module alpha;\n\nfn f() -> int;".to_string()),
            ("zeta".to_string(), "module zeta;\n\nconst z: ?;".to_string()),
        ]
    );
}

#[test]
fn iter_files_lists_all_files() {
    let mut engine = empty_engine();
    engine.global_modules.push(module(&["g"], Vec::new()));
    engine
        .global_sub_modules
        .push(("m".to_string(), module(&[], Vec::new())));
    let files = engine.definitions().iter_files("B", "O");
    let names: Vec<&str> = files.iter().map(|(n, _)| n.as_str()).collect();
    assert_eq!(
        names,
        vec!["__builtin__.d.rhai", "__builtin-operators__.d.rhai", "__static__.d.rhai", "m.d.rhai"]
    );
    assert_eq!(files[0].1, "B");
    assert_eq!(files[1].1, "O");
    assert_eq!(files[2].1, "module static;\n\nconst g: ?;");
    assert_eq!(files[3].1, "module m;\n\n");

    let scope = Scope {
        entries: vec![ScopeEntry { name: "v".to_string(), constant: false }],
    };
    let files = engine.definitions_with_scope(&scope).iter_files("B", "O");
    assert_eq!(files.len(), 5);
    assert_eq!(files[3], ("__scope__.d.rhai".to_string(), "module static;\n\nlet v;".to_string()));
    assert_eq!(files[4].0, "m.d.rhai");
}
