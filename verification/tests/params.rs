use nmbrs_runtime::params::{
    format_value_as_polydat_literal, is_polydat_array_literal, is_polydat_quoted_string,
    params_fault, render_workload_params_source,
};
use nmbrs_runtime::strmap::StrMap;

fn h(pairs: &[(&str, &str)]) -> StrMap<String> {
    let mut m = StrMap::new();
    for (k, v) in pairs {
        m.insert(k.to_string(), v.to_string());
    }
    m
}

#[test]
fn renders_empty_params_as_placeholder() {
    let src = render_workload_params_source(&h(&[]));
    assert_eq!(src, "const __empty := 0\n");
}

#[test]
fn renders_typed_params_with_native_literals() {
    let src = render_workload_params_source(&h(&[
        ("dataset", "example"),
        ("k_values", "1,10"),
        ("count", "100"),
        ("ratio", "0.95"),
        ("strict", "true"),
    ]));
    let expected = "const count := 100\n\
                    const dataset := \"example\"\n\
                    const k_values := \"1,10\"\n\
                    const ratio := 0.95\n\
                    const strict := \"true\"\n";
    assert_eq!(src, expected);
}

#[test]
fn escapes_quotes_in_string_values() {
    let src = render_workload_params_source(&h(&[
        ("replication", r#"{'class': 'SimpleStrategy'}"#),
        ("with_quote", r#"a"b"#),
    ]));
    assert!(
        src.contains(r#"const replication := "{'class': 'SimpleStrategy'}""#),
        "unexpected: {src}"
    );
    assert!(
        src.contains(r#"const with_quote := "a\"b""#),
        "embedded double-quote not escaped: {src}"
    );
}

#[test]
fn deterministic_ordering_across_runs() {
    let p = h(&[("z_last", "1"), ("a_first", "2"), ("m_middle", "3")]);
    let s1 = render_workload_params_source(&p);
    let s2 = render_workload_params_source(&p);
    assert_eq!(s1, s2);
    // Names appear alphabetically.
    let a_pos = s1.find("a_first").unwrap();
    let m_pos = s1.find("m_middle").unwrap();
    let z_pos = s1.find("z_last").unwrap();
    assert!(a_pos < m_pos && m_pos < z_pos);
}

#[test]
fn boolean_values_emit_quoted_strings() {
    let src = render_workload_params_source(&h(&[("flag_t", "true"), ("flag_f", "false")]));
    assert!(src.contains("const flag_f := \"false\"\n"));
    assert!(src.contains("const flag_t := \"true\"\n"));
}

#[test]
fn the_order_of_insertion_does_not_matter() {
    let a = h(&[("b", "2"), ("a", "1")]);
    let b = h(&[("a", "1"), ("b", "2")]);
    assert_eq!(render_workload_params_source(&a), render_workload_params_source(&b));
}

#[test]
fn literals_by_kind() {
    let f = |s: &str| format_value_as_polydat_literal(s);
    assert_eq!(f(" 42 "), "42");
    assert_eq!(f("+7"), "+7");
    assert_eq!(f("-3"), "-3");
    assert_eq!(f("1e5"), "1e5");
    assert_eq!(f("inf"), "inf");
    assert_eq!(f(" \"kept\" "), "\"kept\"");
    assert_eq!(f("[1, \"]\"]"), "[1, \"]\"]");
    assert_eq!(f("a\\b"), "\"a\\\\b\"");
    assert_eq!(f(" padded "), "\" padded \"");
    assert_eq!(f(""), "\"\"");
}

#[test]
fn quoted_strings_are_recognized() {
    assert!(is_polydat_quoted_string("\"\""));
    assert!(is_polydat_quoted_string("\"a\\\"b\""));
    assert!(is_polydat_quoted_string("\"ends with \\\""));
    assert!(is_polydat_quoted_string("\"ünïcode\""));
    assert!(!is_polydat_quoted_string("\""));
    assert!(!is_polydat_quoted_string("\"a\"b\""));
    assert!(!is_polydat_quoted_string("plain"));
}

#[test]
fn array_literals_are_recognized() {
    assert!(is_polydat_array_literal("[]"));
    assert!(is_polydat_array_literal("[[1], [2]]"));
    assert!(is_polydat_array_literal("[\"a\\\"]\"]"));
    assert!(!is_polydat_array_literal("[]]["));
    assert!(!is_polydat_array_literal("[[]"));
    assert!(!is_polydat_array_literal("[\"]"));
    assert!(!is_polydat_array_literal("1]"));
    assert!(!is_polydat_array_literal(""));
}

#[test]
fn quoted_text_reads_back_as_one_literal() {
    for s in ["", "\"", "\\", "a\\\"b", "tab\tüber", "\\\\\""] {
        let quoted = format_value_as_polydat_literal(&format!("x{s}"));
        assert!(is_polydat_quoted_string(&quoted), "{quoted}");
        let inner = &quoted[1..quoted.len() - 1];
        let mut out = String::new();
        let mut it = inner.chars();
        while let Some(c) = it.next() {
            out.push(if c == '\\' { it.next().unwrap() } else { c });
        }
        assert_eq!(out, format!("x{s}"));
    }
}

#[test]
fn params_fault_shows_the_source() {
    assert_eq!(
        params_fault("bad token", "const a := 1\n"),
        "workload params kernel: bad token\n--- generated source ---\nconst a := 1\n"
    );
}
