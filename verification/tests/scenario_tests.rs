use wiki_parser::parse;
use wiki_parser::Diagnostic;
use wiki_parser::Wiki;
use wiki_parser::WikiField;

fn scalar(k: &str, v: &str) -> WikiField {
    WikiField::Single((k.to_string(), v.to_string()))
}

fn list(k: &str, items: &[(&str, &str)]) -> WikiField {
    WikiField::Multiple((
        k.to_string(),
        items.iter().map(|(a, b)| (a.to_string(), b.to_string())).collect(),
    ))
}

#[test]
fn scenario_single_scalar() {
    let w = parse("{{Infobox Crt\n|A=B\n}}".to_string()).unwrap();
    let expected = Wiki { wiki_type: "Crt".to_string(), wiki_fields: vec![scalar("A", "B")] };
    assert_eq!(w, expected);
}

#[test]
fn scenario_single_line_block() {
    let w = parse("{{Infobox Crt}}".to_string()).unwrap();
    let expected = Wiki { wiki_type: "Crt".to_string(), wiki_fields: vec![] };
    assert_eq!(w, expected);
}

#[test]
fn scenario_array_with_anonymous_item() {
    let w = parse("{{Infobox Crt\n|L={\n[x|y]\n[z]\n}\n}}".to_string()).unwrap();
    let expected = Wiki {
        wiki_type: "Crt".to_string(),
        wiki_fields: vec![list("L", &[("x", "y"), ("", "z")])],
    };
    assert_eq!(w, expected);
}

#[test]
fn scenario_missing_assignment_line() {
    let err = parse("{{Infobox Crt\n|K\n}}".to_string()).unwrap_err();
    assert!(matches!(err, Diagnostic::MissingAssignment { line: 2, .. }));
}

#[test]
fn scenario_field_start_inside_array() {
    let err = parse("{{Infobox Crt\n|L={\n[a|b]\n|K=V\n}}".to_string()).unwrap_err();
    match err {
        Diagnostic::UnclosedArray { line, text } => {
            assert_eq!(line, 4);
            assert_eq!(text, "|K=V");
        }
        other => panic!("unexpected diagnostic {:?}", other),
    }
}

#[test]
fn scenario_invalid_prefix() {
    let err = parse("NotPrefix\n}}".to_string()).unwrap_err();
    assert!(matches!(err, Diagnostic::InvalidPrefix));
}

#[test]
fn scenario_invalid_suffix() {
    let err = parse("{{Infobox Crt\n\n".to_string()).unwrap_err();
    assert!(matches!(err, Diagnostic::InvalidSuffix));
}

#[test]
fn empty_input_is_an_empty_record() {
    let w = parse(String::new()).unwrap();
    assert_eq!(w, Wiki { wiki_type: String::new(), wiki_fields: vec![] });
    let w2 = parse("  \n\t\n  ".to_string()).unwrap();
    assert_eq!(w2, Wiki { wiki_type: String::new(), wiki_fields: vec![] });
}

#[test]
fn crlf_input_parses_like_lf_input() {
    let a = parse("{{Infobox Crt\r\n|A=B\r\n}}".to_string()).unwrap();
    let b = parse("{{Infobox Crt\n|A=B\n}}".to_string()).unwrap();
    assert_eq!(a, b);
}

#[test]
fn leading_newlines_shift_line_numbers() {
    let err = parse("\n\n{{Infobox Crt\n|K\n}}".to_string()).unwrap_err();
    assert!(matches!(err, Diagnostic::MissingAssignment { line: 4, .. }));
}

#[test]
fn empty_value_is_a_scalar() {
    let w = parse("{{Infobox Crt\n|K=\n}}".to_string()).unwrap();
    let expected = Wiki { wiki_type: "Crt".to_string(), wiki_fields: vec![scalar("K", "")] };
    assert_eq!(w, expected);
}

#[test]
fn empty_array_keeps_no_items() {
    let w = parse("{{Infobox Crt\n|K={\n}\n}}".to_string()).unwrap();
    let expected = Wiki { wiki_type: "Crt".to_string(), wiki_fields: vec![list("K", &[])] };
    assert_eq!(w, expected);
}

#[test]
fn stray_line_expects_a_field() {
    let err = parse("{{Infobox Crt\njunk\n}}".to_string()).unwrap_err();
    match err {
        Diagnostic::ExpectingField { line, text } => {
            assert_eq!(line, 2);
            assert_eq!(text, "junk");
        }
        other => panic!("unexpected diagnostic {:?}", other),
    }
}

#[test]
fn unbracketed_array_item_is_malformed() {
    let err = parse("{{Infobox Crt\n|K={\nbad\n}\n}}".to_string()).unwrap_err();
    match err {
        Diagnostic::MalformedArrayItem { line, text } => {
            assert_eq!(line, 3);
            assert_eq!(text, "bad");
        }
        other => panic!("unexpected diagnostic {:?}", other),
    }
}

#[test]
fn duplicate_keys_stay_in_order() {
    let w = parse("{{Infobox Crt\n|A=1\n|A=2\n}}".to_string()).unwrap();
    let expected = Wiki {
        wiki_type: "Crt".to_string(),
        wiki_fields: vec![scalar("A", "1"), scalar("A", "2")],
    };
    assert_eq!(w, expected);
}

#[test]
fn extra_spaces_around_markers_change_nothing() {
    let plain = parse("{{Infobox Crt\n|A=B\n|L={\n[x|y]\n}\n}}".to_string()).unwrap();
    let padded =
        parse("{{Infobox Crt\n\t| A = B \n  |L = { \n [ x | y ] \n } \n}}".to_string()).unwrap();
    assert_eq!(plain, padded);
}

#[test]
fn type_token_is_trimmed() {
    let w = parse("{{Infobox \t Spaced Name \t\n|A=B\n}}".to_string()).unwrap();
    assert_eq!(w.wiki_type, "Spaced Name");
}

#[test]
fn missing_assignment_message_is_exact() {
    let err = parse("{{Infobox Crt\n|K\n}}".to_string()).unwrap_err();
    assert_eq!(
        err.message(),
        "Failed to read start line, expected sign equal on line: 2, for string |K"
    );
}

#[test]
fn unclosed_array_message_is_exact() {
    let err = parse("{{Infobox Crt\n|L={\n[a|b]\n|K=V\n}}".to_string()).unwrap_err();
    assert_eq!(err.message(), "Wiki array not closed on line: 4, for string |K=V");
}

#[test]
fn interior_whitespace_of_values_is_kept() {
    let w = parse("{{Infobox Crt\n|K= a  b \t c\n}}".to_string()).unwrap();
    let expected =
        Wiki { wiki_type: "Crt".to_string(), wiki_fields: vec![scalar("K", "a  b \t c")] };
    assert_eq!(w, expected);
}
