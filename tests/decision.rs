use csrf::{AesGcmCsrfProtection, CsrfProtection};
use rocket_csrf::decision::{check_request, csrf_form_field, decide, form_values_of, Verdict};
use rocket_csrf::method::Method;

fn engine() -> AesGcmCsrfProtection {
    AesGcmCsrfProtection::from_key([7u8; 32])
}

fn pair(e: &AesGcmCsrfProtection) -> (String, String) {
    let (token, cookie) = e.generate_token_pair(None, 3600).unwrap();
    (data_encoding::BASE64URL_NOPAD.encode(token.value()), cookie.b64_string())
}

#[test]
fn get_is_always_safe() {
    let e = engine();
    let (token, cookie) = pair(&e);
    let body = format!("csrf-token={}", token);
    for m in [Method::Get, Method::Head, Method::Options, Method::Connect] {
        assert_eq!(check_request(&e, m, None, b""), Verdict::Safe);
        assert_eq!(check_request(&e, m, Some(&cookie), body.as_bytes()), Verdict::Safe);
    }
}

#[test]
fn post_with_matching_pair_is_verified() {
    let e = engine();
    let (token, cookie) = pair(&e);
    let body = format!("name=x&csrf-token={}&other=1", token);
    assert_eq!(check_request(&e, Method::Post, Some(&cookie), body.as_bytes()), Verdict::Verified);
}

#[test]
fn post_with_flipped_token_is_rejected() {
    let e = engine();
    let (token, cookie) = pair(&e);
    let mut raw = data_encoding::BASE64URL_NOPAD.decode(token.as_bytes()).unwrap();
    raw[40] ^= 1;
    let flipped = data_encoding::BASE64URL_NOPAD.encode(&raw);
    let body = format!("csrf-token={}", flipped);
    assert_eq!(check_request(&e, Method::Post, Some(&cookie), body.as_bytes()), Verdict::Rejected);
}

#[test]
fn post_without_cookie_or_token_is_rejected() {
    let e = engine();
    let (token, cookie) = pair(&e);
    let body = format!("csrf-token={}", token);
    assert_eq!(check_request(&e, Method::Post, None, body.as_bytes()), Verdict::Rejected);
    assert_eq!(check_request(&e, Method::Post, Some(&cookie), b"a=b"), Verdict::Rejected);
    assert_eq!(check_request(&e, Method::Delete, Some("!!"), body.as_bytes()), Verdict::Rejected);
}

#[test]
fn pair_from_other_engine_is_rejected() {
    let other = AesGcmCsrfProtection::from_key([9u8; 32]);
    let (token, cookie) = pair(&other);
    let body = format!("csrf-token={}", token);
    assert_eq!(check_request(&engine(), Method::Put, Some(&cookie), body.as_bytes()), Verdict::Rejected);
}

#[test]
fn decide_table() {
    assert_eq!(decide(Method::Get, false, false, false), Verdict::Safe);
    assert_eq!(decide(Method::Post, true, true, true), Verdict::Verified);
    assert_eq!(decide(Method::Post, true, true, false), Verdict::Rejected);
    assert_eq!(decide(Method::Patch, false, true, true), Verdict::Rejected);
    assert_eq!(decide(Method::Patch, true, false, true), Verdict::Rejected);
}

#[test]
fn form_values_in_order() {
    let v = form_values_of(b"a=1&csrf-token=x&b&csrf-token=y=z&csrf-token", b"csrf-token");
    assert_eq!(v, vec![b"x".to_vec(), b"y=z".to_vec(), b"".to_vec()]);
    assert_eq!(csrf_form_field(), b"csrf-token".to_vec());
}
