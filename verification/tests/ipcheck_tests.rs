use libs_tools::ipcheck::{
    build_current, build_new, compare_outputs, parse_answer, is_ref, is_unsupported, parse_addrs, parse_impls,
    render_report, select_reference, values_match, AddrResults, ImplSelection, IpValue, JsonValue,
};
use libs_tools::strmap::StrMap;

fn s(text: &str) -> JsonValue {
    JsonValue { rendered: format!("\"{text}\""), text: Some(text.to_string()), ip: None }
}

fn addr(text: &str, ip: IpValue) -> JsonValue {
    JsonValue { ip: Some(ip), ..s(text) }
}

fn b(v: bool) -> JsonValue {
    JsonValue { rendered: v.to_string(), text: None, ip: None }
}

fn out(entries: Vec<(&str, JsonValue)>) -> StrMap<JsonValue> {
    let mut m = StrMap::new();
    for (k, v) in entries {
        m.insert(k.to_string(), v);
    }
    m
}

#[test]
fn rust_implementations_are_references() {
    assert!(is_ref("Rust (New)"));
    assert!(is_ref("Rust (Current)"));
    assert!(!is_ref(".NET"));
}

#[test]
fn answers_compare_as_addresses_where_they_are_addresses() {
    assert!(values_match(&addr("::1", IpValue::V6(1)), &addr("0:0:0:0:0:0:0:1", IpValue::V6(1))));
    assert!(!values_match(&addr("::1", IpValue::V6(1)), &addr("::2", IpValue::V6(2))));
    assert!(!values_match(&addr("::1", IpValue::V6(1)), &s("0:0:0:0:0:0:0:1")));
    assert!(values_match(&s("x"), &s("x")));
    assert!(values_match(&b(true), &b(true)));
    assert!(!values_match(&b(true), &b(false)));
    assert!(is_unsupported(&s("<unsupported>")));
    assert!(!is_unsupported(&b(true)));
}

#[test]
fn a_cell_shows_the_differences() {
    let reference = out(vec![("is_global", b(true)), ("is_loopback", b(false)), ("to_ipv6", addr("::ffff:1.2.3.4", IpValue::V6(0xffff_0102_0304)))]);
    let same = out(vec![("is_global", b(true)), ("is_loopback", b(false)), ("to_ipv6", addr("::FFFF:1.2.3.4", IpValue::V6(0xffff_0102_0304)))]);
    let mut left = StrMap::new();
    let cell = compare_outputs("Go", &reference, &same, &mut left);
    assert_eq!(cell, " ✔️ |");
    let differs = out(vec![("is_global", b(false)), ("is_loopback", s("<unsupported>")), ("to_ipv6", addr("::2", IpValue::V6(2)))]);
    let mut left = StrMap::new();
    left.insert("is_global".to_string(), ());
    left.insert("is_loopback".to_string(), ());
    let cell = compare_outputs("Go", &reference, &differs, &mut left);
    assert_eq!(
        cell,
        " ❌ `{ is_global : true (Rust (New)) ≠ false (Go), to_ipv6 : \"::ffff:1.2.3.4\" (Rust (New)) ≠ \"::2\" (Go) }` |"
    );
    assert!(!left.contains_key("is_global"));
    assert!(left.contains_key("is_loopback"));
}

#[test]
fn the_report_is_a_table() {
    let reference = out(vec![("is_global", b(true)), ("mc_scope_reserved", b(false))]);
    let go = out(vec![("is_global", b(true)), ("mc_scope_reserved", s("<unsupported>"))]);
    let rows = vec![AddrResults { addr: "1.1.1.1".to_string(), reference, outputs: vec![go] }];
    let report = render_report(&vec!["Go".to_string()], &rows);
    assert_eq!(
        report,
        "| addr | Go |\n| - | - |\n| `1.1.1.1` | ✔️ |\n\nOperations with only a Rust implementation:\n- `mc_scope_reserved`\n"
    );
}

#[test]
fn implementations_are_listed_with_their_artifacts() {
    let impls = parse_impls("Rust (New): ../artifacts/rust_new/ipcheck_new\nGo: go run main.go: extra\n").unwrap();
    assert_eq!(
        impls,
        vec![
            ("Rust (New)".to_string(), "../artifacts/rust_new/ipcheck_new".to_string()),
            ("Go".to_string(), "go run main.go".to_string()),
        ]
    );
    assert!(parse_impls("Rust (New)\n").is_none());
    match select_reference(impls) {
        ImplSelection::Found(artifact, rest) => {
            assert_eq!(artifact, "../artifacts/rust_new/ipcheck_new");
            assert_eq!(rest.len(), 1);
        }
        _ => panic!("expected a reference"),
    }
    assert!(matches!(select_reference(vec![]), ImplSelection::NoReference));
    assert!(matches!(select_reference(vec![("Go".to_string(), "x".to_string())]), ImplSelection::NoReference));
    assert!(matches!(select_reference(vec![("Rust (New)".to_string(), "x".to_string())]), ImplSelection::NoComparison));
}

#[test]
fn addresses_skip_comments_and_blank_lines() {
    assert_eq!(parse_addrs("# header\n1.1.1.1\n\n::1\r\n#x\n"), vec!["1.1.1.1", "::1"]);
}

#[test]
fn rust_builds() {
    let n = build_new();
    assert_eq!(n.artifact(), "../artifacts/rust_new/ipcheck_new");
    let c = build_current();
    assert_eq!(c.src_path, "../impls/rust_current");
    assert_eq!(c.artifact(), "../artifacts/rust_current/ipcheck_current");
}

#[test]
fn the_reference_agrees_with_itself() {
    let reference = out(vec![("is_global", b(true)), ("to_ipv4", s("1.2.3.4")), ("x", s("<unsupported>"))]);
    let same = out(vec![("is_global", b(true)), ("to_ipv4", s("1.2.3.4")), ("x", s("<unsupported>"))]);
    let mut left = StrMap::new();
    assert_eq!(compare_outputs("Rust (Current)", &reference, &same, &mut left), " ✔️ |");
}

#[test]
fn answers_read_as_a_json_object() {
    let m = parse_answer(r#"{"to_ipv4": "1.2.3.4", "is_global": true, "scope": "<unsupported>", "n": null}"#)
        .expect("an object");
    assert_eq!(m.len(), 4);
    let (k, v) = m.entry_at(0);
    assert_eq!(k, "is_global");
    assert_eq!(v.rendered, "true");
    assert_eq!(v.text, None);
    let to_ipv4 = m.get("to_ipv4").unwrap();
    assert_eq!(to_ipv4.rendered, "\"1.2.3.4\"");
    assert_eq!(to_ipv4.text.as_deref(), Some("1.2.3.4"));
    assert_eq!(m.get("n").unwrap().rendered, "null");
    assert_eq!(m.get("scope").unwrap().text.as_deref(), Some("<unsupported>"));
}

#[test]
fn output_that_is_no_json_object_is_refused() {
    assert!(parse_answer("").is_none());
    assert!(parse_answer("[1, 2]").is_none());
    assert!(parse_answer("{\"a\": ").is_none());
}
