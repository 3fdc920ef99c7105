use rocket_csrf::injector::{hidden_field_bytes, inject_all, FormInjector};

const FIELD: &[u8] = b"csrf-token";

#[test]
fn inserts_field_after_form_tag() {
    let out = inject_all(FIELD, b"T", br#"<div><form method="post"></form></div>"#);
    assert_eq!(
        String::from_utf8(out).unwrap(),
        r#"<div><form method="post"><input type="hidden" name="csrf-token" value="T"></form></div>"#
    );
}

#[test]
fn split_read_gives_same_output() {
    let input: &[u8] = br#"<div><form method="post"></form></div>"#;
    let whole = inject_all(FIELD, b"T", input);
    for cut in 0..=input.len() {
        let mut inj = FormInjector::new(FIELD, b"T");
        let mut out = inj.feed(&input[..cut]);
        out.extend(inj.feed(&input[cut..]));
        assert_eq!(out, whole, "cut at {}", cut);
    }
    let mut inj = FormInjector::new(FIELD, b"T");
    let mut out = inj.feed(b"<div><fo");
    out.extend(inj.feed(br#"rm method="post"></form></div>"#));
    assert_eq!(out, whole);
}

#[test]
fn tag_is_found_in_any_case() {
    let out = inject_all(FIELD, b"T", b"<FoRm><form>");
    let field = hidden_field_bytes(FIELD, b"T");
    let mut expected = b"<FoRm>".to_vec();
    expected.extend(&field);
    expected.extend(b"<form>");
    expected.extend(&field);
    assert_eq!(out, expected);
}

#[test]
fn text_without_form_is_unchanged() {
    let input = b"<p>no <for>m here</p> <<fo rm>";
    assert_eq!(inject_all(FIELD, b"T", input), input.to_vec());
    assert_eq!(inject_all(FIELD, b"T", b""), Vec::<u8>::new());
}

#[test]
fn materialized_length_is_input_plus_markup() {
    let input = br#"<form a="1"></form><FORM></FORM>"#;
    let out = inject_all(FIELD, b"tok", input);
    let field = hidden_field_bytes(FIELD, b"tok");
    assert_eq!(out.len(), input.len() + 2 * field.len());
}
