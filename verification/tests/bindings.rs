use nmbrs_runtime::bindings::{
    build_workload_root_kernel, collect_param_bindings_into, compile_bindings,
    compile_bindings_with_opts, compile_from_scope, ingests, legacy_chain_map_to_polydat_lines,
    parse_binding_chain, prepend_effective_pragmas, probe_source, split_args,
    strip_java_long_suffix, translate_legacy_func, BindingOp, BindingsDef, Pragma, PragmaSet,
    Referring,
};
use nmbrs_runtime::strmap::StrMap;

fn map(pairs: &[(&str, &str)]) -> StrMap<String> {
    let mut m = StrMap::new();
    for (k, v) in pairs {
        m.insert(k.to_string(), v.to_string());
    }
    m
}

fn texts(v: &[&str]) -> Vec<String> {
    v.iter().map(|s| s.to_string()).collect()
}

fn pragma(name: &str) -> Pragma {
    Pragma { name: name.into(), args: vec![], line: 1 }
}

#[test]
fn prepend_pragmas_strict_alias() {
    let pragmas = PragmaSet { entries: vec![pragma("strict")], parent: None };
    let body = "id := cycle\n";
    let out = prepend_effective_pragmas(&pragmas, body);
    // `strict` activates both — emit single combined directive.
    assert!(out.starts_with("pragma strict\n"));
    assert!(out.contains("id := cycle"));
}

#[test]
fn prepend_pragmas_individual_modes() {
    let pragmas = PragmaSet { entries: vec![pragma("strict_values")], parent: None };
    let out = prepend_effective_pragmas(&pragmas, "x := cycle");
    assert!(out.starts_with("pragma strict_values\n"));
    assert!(!out.contains("strict_types"));
}

#[test]
fn prepend_pragmas_no_op_when_empty() {
    let pragmas = PragmaSet::default();
    let out = prepend_effective_pragmas(&pragmas, "x := cycle");
    assert_eq!(out, "x := cycle");
}

#[test]
fn prepend_pragmas_walks_parent_chain() {
    let parent = PragmaSet { entries: vec![pragma("strict_values")], parent: None };
    let child = PragmaSet { entries: vec![], parent: Some(Box::new(parent)) };
    let out = prepend_effective_pragmas(&child, "x := cycle");
    assert!(
        out.starts_with("pragma strict_values\n"),
        "expected pragma to flow from parent chain, got:\n{out}"
    );
}

#[test]
fn pragmas_of_both_kinds_combine() {
    let parent = PragmaSet { entries: vec![pragma("strict_types")], parent: None };
    let child =
        PragmaSet { entries: vec![pragma("strict_values")], parent: Some(Box::new(parent)) };
    assert_eq!(prepend_effective_pragmas(&child, "x"), "pragma strict\n\nx");
    let only = PragmaSet { entries: vec![pragma("strict_types")], parent: None };
    assert_eq!(prepend_effective_pragmas(&only, "x"), "pragma strict_types\n\nx");
    let lib = texts(&["/lib"]);
    let q = compile_from_scope("x", texts(&["x"]), None, lib, true, "phase 'p'", Some(9), &only);
    assert_eq!(q.source, "pragma strict_types\n\nx");
    assert_eq!(q.required, texts(&["x"]));
    assert!(q.strict);
    let o = q.options.unwrap();
    assert_eq!((o.lib_paths, o.context.as_str(), o.cursor_limit), (texts(&["/lib"]), "phase 'p'", Some(9)));
}

#[test]
fn parse_simple_chain() {
    let chain = parse_binding_chain("Hash(); Mod(1000000)");
    assert_eq!(chain.len(), 2);
    assert_eq!(chain[0].name, "Hash");
    assert!(chain[0].args.is_empty());
    assert_eq!(chain[1].name, "Mod");
    assert_eq!(chain[1].args, vec!["1000000"]);
}

#[test]
fn parse_identity() {
    let chain = parse_binding_chain("Identity()");
    assert_eq!(chain.len(), 1);
    assert_eq!(chain[0].name, "Identity");
}

#[test]
fn parse_with_string_arg() {
    let chain = parse_binding_chain("Template('user-{}', ToString())");
    assert_eq!(chain.len(), 1);
    assert_eq!(chain[0].name, "Template");
    assert_eq!(chain[0].args.len(), 2);
}

#[test]
fn parse_long_chain() {
    let chain = parse_binding_chain("Add(10); Hash(); Mod(100); ToString()");
    assert_eq!(chain.len(), 4);
    assert_eq!(chain[0].name, "Add");
    assert_eq!(chain[1].name, "Hash");
    assert_eq!(chain[2].name, "Mod");
    assert_eq!(chain[3].name, "ToString");
}

#[test]
fn parse_with_long_suffix() {
    let chain = parse_binding_chain("Mod(1000000000L)");
    assert_eq!(chain[0].args, vec!["1000000000L"]);
}

#[test]
fn parse_keeps_nested_arguments_together() {
    let chain = parse_binding_chain(" ; Weighted( f(1,2) , 'a,b' ,); plain ");
    assert_eq!(chain.len(), 2);
    assert_eq!(chain[0].name, "Weighted");
    assert_eq!(chain[0].args, vec!["f(1,2)", "'a,b'"]);
    assert_eq!(chain[1].name, "plain");
    assert!(chain[1].args.is_empty());
    // An unbalanced closing parenthesis keeps later commas inside the argument.
    assert_eq!(split_args("a) , b"), vec!["a) , b"]);
    assert_eq!(split_args("a,,b"), vec!["a", "", "b"]);
}

#[test]
fn legacy_tostring_translates() {
    let (name, _) = translate_legacy_func("ToString", &vec![]);
    assert_eq!(name, "format_u64");
}

#[test]
fn legacy_uniform_translates() {
    let (name, _) = translate_legacy_func("Uniform", &vec!["0".into(), "1000".into()]);
    assert_eq!(name, "hash_range");
}

#[test]
fn chain_function_names_translate_in_any_case() {
    let of = |n: &str| translate_legacy_func(n, &vec![]);
    assert_eq!(of("ToHexString"), ("format_u64".to_string(), texts(&["16"])));
    assert_eq!(of("tooctalstring"), ("format_u64".to_string(), texts(&["8"])));
    assert_eq!(of("ToBinaryString"), ("format_u64".to_string(), texts(&["2"])));
    assert_eq!(of("to_string"), ("format_u64".to_string(), texts(&["10"])));
    assert_eq!(of("GAUSSIAN").0, "icd_normal");
    assert_eq!(of("Zipf").0, "dist_zipf");
    assert_eq!(of("HashRange").0, "hash_range");
    assert_eq!(of("HashInterval").0, "hash_interval");
    assert_eq!(of("Format").0, "printf");
    assert_eq!(of("NumberNames").0, "number_to_words");
    assert_eq!(of("Shuffle"), ("shuffle".to_string(), vec![]));
    // A name that is not known stands for its lower-case form, in every script.
    assert_eq!(of("MyÄFunc").0, "myäfunc");
}

#[test]
fn long_suffix_is_stripped_once() {
    assert_eq!(strip_java_long_suffix("10L"), "10");
    assert_eq!(strip_java_long_suffix("10l"), "10");
    assert_eq!(strip_java_long_suffix("10LL"), "10L");
    assert_eq!(strip_java_long_suffix("10"), "10");
    assert_eq!(strip_java_long_suffix(""), "");
}

#[test]
fn chains_become_wired_definitions() {
    let m = map(&[("user_id", "Hash(); Mod(1000000L); ToString()"), ("a", "Identity()")]);
    assert_eq!(
        legacy_chain_map_to_polydat_lines(&m).unwrap(),
        "a := identity(cycle)\n\
         __chain_user_id_0 := hash(cycle)\n\
         __chain_user_id_1 := mod(__chain_user_id_0, 1000000)\n\
         user_id := format_u64(__chain_user_id_1, 10)"
    );
    assert_eq!(
        legacy_chain_map_to_polydat_lines(&map(&[("x", " ; ")])).unwrap_err(),
        "empty binding expression for 'x'"
    );
    assert_eq!(legacy_chain_map_to_polydat_lines(&map(&[])).unwrap(), "");
}

#[test]
fn definitions_do_not_depend_on_the_order_of_entries() {
    let a = map(&[("x", "Hash()"), ("y", "Identity()")]);
    let b = map(&[("y", "Identity()"), ("x", "Hash()")]);
    assert_eq!(
        legacy_chain_map_to_polydat_lines(&a),
        legacy_chain_map_to_polydat_lines(&b)
    );
}

fn chain_op(bindings: &[(&str, &str)], references: &[&str]) -> BindingOp {
    BindingOp { bindings: BindingsDef::Chains(map(bindings)), references: texts(references) }
}

#[test]
fn compile_rejects_undeclared_bind_points() {
    // Op references {mystery} but no binding declared → error
    let ops = vec![chain_op(&[], &["mystery"])];
    let result = compile_bindings(&ops);
    assert!(result.is_err());
    assert!(result.err().unwrap().contains("undeclared bind point"));
}

/// The text and the outputs that are asked of the compiler for one op.
fn asked(bindings: &[(&str, &str)], references: &[&str]) -> (String, Vec<String>) {
    let q = compile_bindings(&vec![chain_op(bindings, references)]).ok().unwrap();
    assert!(!q.strict);
    assert_eq!(q.source_dir, None);
    assert!(q.options.is_none());
    (q.source, q.required)
}

#[test]
fn compile_identity_binding() {
    let (source, required) = asked(&[("myval", "Identity()")], &["myval"]);
    assert_eq!(source, "input cycle: u64\nmyval := identity(cycle)");
    assert_eq!(required, texts(&["myval"]));
}

#[test]
fn compile_hash_mod_binding() {
    let (source, required) = asked(&[("id", "Hash(); Mod(1000000)")], &["id"]);
    assert_eq!(
        source,
        "input cycle: u64\n__chain_id_0 := hash(cycle)\nid := mod(__chain_id_0, 1000000)"
    );
    assert_eq!(required, texts(&["id"]));
}

#[test]
fn compile_hash_mod_deterministic() {
    let once = asked(&[("id", "Hash(); Mod(100)")], &["id"]);
    let again = asked(&[("id", "Hash(); Mod(100)")], &["id"]);
    assert_eq!(once, again);
    assert_eq!(
        once.0,
        "input cycle: u64\n__chain_id_0 := hash(cycle)\nid := mod(__chain_id_0, 100)"
    );
}

#[test]
fn compile_multiple_bindings() {
    let (source, required) =
        asked(&[("a", "Identity()"), ("b", "Hash(); Mod(100)")], &["a", "b"]);
    assert_eq!(
        source,
        "input cycle: u64\na := identity(cycle)\n__chain_b_0 := hash(cycle)\nb := mod(__chain_b_0, 100)"
    );
    assert_eq!(required, texts(&["a", "b"]));
}

#[test]
fn compile_add_chain() {
    let (source, required) = asked(&[("val", "Add(100); Mod(1000)")], &["val"]);
    assert_eq!(
        source,
        "input cycle: u64\n__chain_val_0 := add(cycle, 100)\nval := mod(__chain_val_0, 1000)"
    );
    assert_eq!(required, texts(&["val"]));
}

#[test]
fn compile_provides_cycle_output() {
    let (source, required) = asked(&[], &["cycle"]);
    assert_eq!(source, "input cycle: u64");
    assert_eq!(required, texts(&["cycle"]));
}

#[test]
fn compile_request_of_chains() {
    let ops = vec![
        chain_op(&[("a", "Identity()"), ("b", "Hash(); Mod(100)")], &["a", "cycle", "a"]),
        chain_op(&[("a", "Hash()")], &["b"]),
    ];
    let q = compile_bindings(&ops).ok().unwrap();
    assert_eq!(
        q.source,
        "input cycle: u64\n\
         a := identity(cycle)\n\
         __chain_b_0 := hash(cycle)\n\
         b := mod(__chain_b_0, 100)"
    );
    assert_eq!(q.required, texts(&["a", "cycle", "b"]));
    assert!(!q.strict);
    assert_eq!(
        compile_bindings(&vec![chain_op(&[("a", "")], &["z"])]).err().unwrap(),
        "empty binding expression for 'a'"
    );
    assert_eq!(
        compile_bindings(&vec![chain_op(&[], &["y", "z"])]).err().unwrap(),
        "undeclared bind point references: y, z. Add these to your bindings section."
    );
}

#[test]
fn compile_request_of_definitions() {
    let blank = BindingOp {
        bindings: BindingsDef::PolydatSource("  ".into()),
        references: texts(&["q"]),
    };
    let native = BindingOp {
        bindings: BindingsDef::PolydatSource("id := hash(cycle)".into()),
        references: texts(&["id"]),
    };
    let q = compile_bindings_with_opts(&vec![blank, native], Some("dir".into()), true).ok().unwrap();
    assert_eq!(q.source, "id := hash(cycle)");
    assert_eq!(q.required, texts(&["q", "id"]));
    assert!(q.strict);
    assert_eq!(q.source_dir.as_deref(), Some("dir"));
}

#[test]
fn parameter_references_are_collected_once() {
    let mut params: StrMap<Referring> = StrMap::new();
    params.insert(
        "a".into(),
        Referring::Group(vec![
            Referring::Text(texts(&["x", "y"])),
            Referring::Plain,
            Referring::Group(vec![Referring::Text(texts(&["x", "z"]))]),
        ]),
    );
    params.insert("gutter".into(), Referring::Text(texts(&["recall"])));
    let mut required = texts(&["y"]);
    collect_param_bindings_into(&params, &texts(&["z"]), &mut required);
    assert_eq!(required, texts(&["y", "x"]));
}

#[test]
fn root_scope_gets_an_input_line_and_every_parameter() {
    let params = map(&[("b", "2"), ("a", "1")]);
    let build = |emitted: &str, validated: Result<(), String>, extra: &[&str], p: &StrMap<String>| {
        build_workload_root_kernel(
            emitted,
            &validated,
            &texts(&["x"]),
            Some("dir".into()),
            texts(&["/lib"]),
            true,
            &texts(extra),
            "workload root",
            Some(7),
            p,
        )
    };
    let r = build("x := 1", Ok(()), &["x", "n"], &params).ok().unwrap();
    assert!(r.strict);
    assert_eq!(r.source_dir.as_deref(), Some("dir"));
    assert_eq!(r.options.lib_paths, texts(&["/lib"]));
    assert_eq!((r.options.context.as_str(), r.options.cursor_limit), ("workload root", Some(7)));
    assert_eq!(r.source, "input cycle: u64\nx := 1");
    assert_eq!(r.required, texts(&["x", "n", "a", "b"]));
    assert_eq!(r.inherited, texts(&["a", "b"]));
    let own = build("x := 1\n  input row: u64\n", Ok(()), &[], &map(&[])).ok().unwrap();
    assert_eq!(own.source, "x := 1\n  input row: u64\n");
    assert_eq!(
        build("x := 1", Err("x is bound twice".into()), &[], &params).err().unwrap(),
        "workload root: x is bound twice"
    );
    assert!(!ingests(&Some(" \n".into())));
    assert!(ingests(&Some("x := 1".into())));
    assert!(!ingests(&None));
}

#[test]
fn probe_program_calls_the_function_once() {
    assert_eq!(
        probe_source("mod", &texts(&["cycle", "10"])),
        "input cycle: u64\nout := mod(cycle, 10)"
    );
    assert_eq!(probe_source("now", &vec![]), "input cycle: u64\nout := now(cycle)");
}
