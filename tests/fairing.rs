use csrf::CsrfProtection;
use rocket_csrf::decision::Verdict;
use rocket_csrf::fairing::{secret_from_base64, size_plan, CsrfFairingBuilder, FairingInfo, ResponsePlan};
use rocket_csrf::method::Method;

#[test]
fn defaults_finalize() {
    let f = CsrfFairingBuilder::new().finalize(None).unwrap();
    assert_eq!(f.duration(), 3600);
    assert_eq!(
        f.info(),
        FairingInfo { on_attach: true, on_request: true, on_response: true }
    );
    assert_eq!(f.reroute("/x"), (b"/".to_vec(), Method::Get));
}

#[test]
fn default_target_with_other_capture_fails() {
    let b = CsrfFairingBuilder::new().set_default_target("/err/<other>".to_owned(), Method::Get);
    assert!(b.finalize(None).is_err());
}

#[test]
fn default_target_gets_encoded_uri() {
    let f = CsrfFairingBuilder::new()
        .set_default_target("/csrf-violation?from=<uri>".to_owned(), Method::Post)
        .finalize(None)
        .unwrap();
    assert_eq!(
        f.reroute("/x y?z"),
        (b"/csrf-violation?from=%2Fx%20y%3Fz".to_vec(), Method::Post)
    );
}

#[test]
fn duplicate_capture_in_exception_fails() {
    let b = CsrfFairingBuilder::new()
        .set_exceptions(vec![("/<a>/<a>".to_owned(), "/x".to_owned(), Method::Get)]);
    assert!(b.finalize(None).is_err());
}

#[test]
fn rejected_request_follows_exceptions_in_order() {
    let f = CsrfFairingBuilder::new()
        .set_exceptions(vec![("/a/<x>".to_owned(), "/safe?x=<x>".to_owned(), Method::Get)])
        .add_exceptions(vec![("/b/<x>".to_owned(), "/b2/<x>".to_owned(), Method::Post)])
        .set_secret([3u8; 32])
        .finalize(None)
        .unwrap();
    let e = f.engine();
    assert_eq!(
        f.on_request(&e, Method::Post, "/a/42", None, b""),
        Some((b"/safe?x=42".to_vec(), Method::Get))
    );
    assert_eq!(
        f.on_request(&e, Method::Post, "/b/7", None, b""),
        Some((b"/b2/7".to_vec(), Method::Post))
    );
    assert_eq!(
        f.on_request(&e, Method::Post, "/c", None, b""),
        Some((b"/".to_vec(), Method::Get))
    );
    assert_eq!(f.on_request(&e, Method::Get, "/a/42", None, b""), None);
}

#[test]
fn verified_request_is_left_alone() {
    let f = CsrfFairingBuilder::new().set_secret([5u8; 32]).finalize(None).unwrap();
    let e = f.engine();
    let (token, cookie) = e.generate_token_pair(None, 3600).unwrap();
    let body = format!("csrf-token={}", data_encoding::BASE64URL_NOPAD.encode(token.value()));
    assert_eq!(
        f.on_request(&e, Method::Post, "/a", Some(&cookie.b64_string()), body.as_bytes()),
        None
    );
}

#[test]
fn secret_comes_from_base64_of_32_bytes() {
    let key = [4u8; 32];
    let text = data_encoding::BASE64.encode(&key);
    assert_eq!(secret_from_base64(&text), Some(key));
    assert_eq!(secret_from_base64(&data_encoding::BASE64.encode(&[1u8; 16])), None);
    assert_eq!(secret_from_base64("not base64!"), None);
    let f = CsrfFairingBuilder::new().finalize(Some(&text)).unwrap();
    let (token, cookie) = csrf::AesGcmCsrfProtection::from_key(key)
        .generate_token_pair(None, 3600)
        .unwrap();
    let body = format!("csrf-token={}", data_encoding::BASE64URL_NOPAD.encode(token.value()));
    assert_eq!(
        f.on_request(&f.engine(), Method::Post, "/", Some(&cookie.b64_string()), body.as_bytes()),
        None
    );
}

#[test]
fn size_threshold_policy() {
    assert_eq!(size_plan(Some(100), 16384), ResponsePlan::Materialize);
    assert_eq!(size_plan(Some(16384), 16384), ResponsePlan::Materialize);
    assert_eq!(size_plan(Some(16385), 16384), ResponsePlan::Stream);
    assert_eq!(size_plan(None, 16384), ResponsePlan::Stream);
    assert_eq!(size_plan(None, u64::MAX), ResponsePlan::Stream);
}

#[test]
fn response_gate() {
    let f = CsrfFairingBuilder::new()
        .set_auto_insert_disable_prefix(vec!["/static".to_owned()])
        .set_auto_insert_max_chunk_size(10)
        .finalize(None)
        .unwrap();
    assert_eq!(f.on_response(Some(false), "/page", true, Some(5)), ResponsePlan::Leave);
    assert_eq!(f.on_response(Some(true), "/static/x", true, Some(5)), ResponsePlan::Leave);
    assert_eq!(f.on_response(Some(true), "/page", false, Some(5)), ResponsePlan::Leave);
    assert_eq!(f.on_response(None, "/page", true, Some(5)), ResponsePlan::Materialize);
    assert_eq!(f.on_response(Some(true), "/page", true, Some(11)), ResponsePlan::Stream);
    assert_eq!(f.on_response(Some(true), "/page", true, None), ResponsePlan::Stream);
    let off = CsrfFairingBuilder::default().set_auto_insert(false).set_timeout(5).finalize(None).unwrap();
    assert_eq!(off.on_response(Some(true), "/page", true, Some(5)), ResponsePlan::Leave);
    assert_eq!(off.duration(), 5);
    assert!(!off.info().on_response);
}

#[test]
fn destination_with_unknown_name_fails() {
    let b = CsrfFairingBuilder::new()
        .set_exceptions(vec![("/a/<x>".to_owned(), "/b/<y>".to_owned(), Method::Get)]);
    assert!(b.finalize(None).is_err());
    let b = CsrfFairingBuilder::new()
        .set_exceptions(vec![("/a/<x>".to_owned(), "/b?q=<x>".to_owned(), Method::Get)]);
    assert!(b.finalize(None).is_ok());
}

#[test]
fn rewrite_only_for_rejected() {
    let f = CsrfFairingBuilder::new()
        .set_default_target("/bad/<uri>".to_owned(), Method::Get)
        .finalize(None)
        .unwrap();
    assert_eq!(f.rewrite_for(Verdict::Safe, "/a"), None);
    assert_eq!(f.rewrite_for(Verdict::Verified, "/a"), None);
    assert_eq!(f.rewrite_for(Verdict::Rejected, "/a"), Some((b"/bad/%2Fa".to_vec(), Method::Get)));
}

#[test]
fn tampered_token_is_rerouted() {
    let f = CsrfFairingBuilder::new()
        .set_exceptions(vec![("/a/<x>".to_owned(), "/safe?x=<x>".to_owned(), Method::Get)])
        .set_secret([6u8; 32])
        .finalize(None)
        .unwrap();
    let e = f.engine();
    let (token, cookie) = e.generate_token_pair(None, 3600).unwrap();
    let mut raw = token.value().to_vec();
    raw[50] ^= 0x80;
    let body = format!("csrf-token={}", data_encoding::BASE64URL_NOPAD.encode(&raw));
    assert_eq!(
        f.on_request(&e, Method::Post, "/a/42", Some(&cookie.b64_string()), body.as_bytes()),
        Some((b"/safe?x=42".to_vec(), Method::Get))
    );
    assert_eq!(
        f.on_request(&e, Method::Post, "/zzz", Some(&cookie.b64_string()), body.as_bytes()),
        Some((b"/".to_vec(), Method::Get))
    );
}
