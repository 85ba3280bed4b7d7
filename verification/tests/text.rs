use nmbrs_runtime::strmap::StrMap;
use nmbrs_runtime::text::{
    ascii_lower_text, contains_text, ends_with, is_float, join_texts, parse_u64, parse_usize,
    replace_text, split_text, starts_with, string_of, strip_end_text, strip_start_text, text_lt,
    trim_start_text, trim_text, u64_text,
};
use nmbrs_runtime::value::{Float, Json, JsonNumber, Value};

fn float(f: f64) -> Float {
    Float { bits: f.to_bits(), text: f.to_string() }
}

#[test]
fn numbers_are_read_and_written() {
    for n in [0, 7, 10, 4_294_967_296, u64::MAX] {
        assert_eq!(u64_text(n), n.to_string());
        assert_eq!(parse_u64(&u64_text(n)), Some(n));
    }
    for s in ["", "+", "-1", "1 ", "1_0", "0x1", "18446744073709551616", "99999999999999999999"] {
        assert_eq!(parse_u64(s), s.parse::<u64>().ok(), "{s}");
        assert_eq!(parse_usize(s), s.parse::<usize>().ok(), "{s}");
    }
    assert_eq!((parse_u64("+5"), parse_u64("007")), (Some(5), Some(7)));
}

#[test]
fn floats_are_told_by_their_text() {
    for s in [
        "1", "-1", "+1.5", ".5", "5.", "1e3", "1E-3", "1.e+2", "inf", "-INF", "infinity", "NaN",
        "+nan", "", ".", "e3", "1e", "1e+", "0x1", "1 ", " 1", "1.2.3", "infinit", "--1", "1_0",
    ] {
        assert_eq!(is_float(s), s.parse::<f64>().is_ok(), "{s}");
    }
}

#[test]
fn texts_are_trimmed_like_unicode() {
    for s in ["", "  a b ", "\u{a0}x\u{2003}", "\n\t x", "x"] {
        assert_eq!(trim_text(s), s.trim());
        assert_eq!(trim_start_text(s), s.trim_start());
    }
    assert_eq!(strip_start_text("{{a}", '{'), "a}");
    assert_eq!(strip_end_text("a}}", '}'), "a");
    assert_eq!(ascii_lower_text("AbÄ"), "abÄ");
}

#[test]
fn texts_are_searched_and_replaced() {
    assert!(starts_with("abc", "ab") && starts_with("abc", "") && !starts_with("ab", "abc"));
    assert!(ends_with("abc", "bc") && !ends_with("c", "bc"));
    assert!(contains_text("aab", "ab") && !contains_text("aab", "ba") && contains_text("", ""));
    assert_eq!(split_text("a,,b", ','), vec!["a", "", "b"]);
    assert_eq!(split_text("", ','), vec![""]);
    assert_eq!(replace_text("aXXa", "XX", "y"), "aya");
    assert_eq!(replace_text("XXX", "XX", "y"), "XXX".replace("XX", "y"));
    assert_eq!(join_texts(&vec!["a".into(), "b".into()], ", "), "a, b");
    assert_eq!(join_texts(&vec![], ", "), "");
    assert_eq!(string_of(&vec!['a', 'b', 'c'], 1, 3), "bc");
    assert!(text_lt("a", "b") && text_lt("a", "aa") && !text_lt("a", "a") && text_lt("Z", "a"));
}

#[test]
fn maps_are_in_name_order() {
    let mut m = StrMap::new();
    assert_eq!(m.len(), 0);
    m.insert("b".into(), 1);
    m.insert("a".into(), 2);
    m.insert("c".into(), 3);
    m.insert("b".into(), 4);
    assert_eq!(m.len(), 3);
    let all: Vec<(String, i32)> =
        (0..3).map(|i| (m.name_at(i).clone(), *m.value_at(i))).collect();
    assert_eq!(all, vec![("a".into(), 2), ("b".into(), 4), ("c".into(), 3)]);
    assert_eq!((m.get("b"), m.get("x")), (Some(&4), None));
    assert!(m.contains("c") && !m.contains("d"));
}

#[test]
fn values_are_shown_and_weighed() {
    assert_eq!(Value::U64(7).to_display_string(), "7");
    assert_eq!(Value::Bool(true).to_display_string(), "true");
    assert_eq!(Value::F64(float(0.5)).to_display_string(), "0.5");
    assert!(!Value::Absent.is_truthy() && !Value::Str("".into()).is_truthy());
    assert!(!Value::F64(float(-0.0)).is_truthy() && Value::F64(float(f64::NAN)).is_truthy());
    assert!(Value::Other("x".into()).is_truthy() && Value::Str("0".into()).is_truthy());
    assert!(matches!(Value::F64(float(f64::INFINITY)).to_json(), Json::Null));
    assert!(matches!(Value::U64(1).to_json(), Json::Number(JsonNumber::Unsigned(1))));
    let order = [f64::NEG_INFINITY, -1.5, -0.0, 0.0, 1.0e-300, 2.0, f64::INFINITY, f64::NAN];
    for a in order {
        for b in order {
            assert_eq!(float(a).at_most(&float(b)), a <= b, "{a} {b}");
        }
        assert_eq!(float(a).is_finite(), a.is_finite());
        assert_eq!(float(a).is_zero(), a == 0.0);
    }
}
