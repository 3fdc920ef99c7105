//! The per-request token decision: safe methods pass; any other request
//! passes only with a cookie and a form token that the crypto engine parses
//! and pairs.
use vstd::prelude::*;
use vstd::string::StringSliceAdditionalSpecFns;
use csrf::CsrfProtection;
use crate::method::{is_safe_method, Method};
use crate::template::{copy_range, split_bytes_on, split_on, bytes_eq};

verus! {

#[verifier::external_type_specification]
#[verifier::external_body]
pub struct ExAesGcmCsrfProtection(csrf::AesGcmCsrfProtection);

#[verifier::external_type_specification]
#[verifier::external_body]
pub struct ExUnencryptedCsrfCookie(csrf::UnencryptedCsrfCookie);

#[verifier::external_type_specification]
#[verifier::external_body]
pub struct ExUnencryptedCsrfToken(csrf::UnencryptedCsrfToken);

/// Standard base64 (padded) decoding of the input.
pub uninterp spec fn base64_decoded(s: Seq<u8>) -> Option<Seq<u8>>;

/// URL-safe base64 (unpadded) decoding of the input.
pub uninterp spec fn base64url_decoded(s: Seq<u8>) -> Option<Seq<u8>>;

/// Relies on data_encoding::BASE64::decode: the standard padded alphabet, an
/// outcome that depends on the input alone.
#[verifier::external_body]
pub(crate) fn decode_base64(s: &[u8]) -> (r: Option<Vec<u8>>)
    ensures
        r is Some == base64_decoded(s@) is Some,
        r is Some ==> r->Some_0@ == base64_decoded(s@)->Some_0,
{
    data_encoding::BASE64.decode(s).ok()
}

/// Relies on data_encoding::BASE64URL_NOPAD::decode: the URL-safe alphabet
/// without padding, an outcome that depends on the input alone.
#[verifier::external_body]
fn decode_base64url(s: &[u8]) -> (r: Option<Vec<u8>>)
    ensures
        r is Some == base64url_decoded(s@) is Some,
        r is Some ==> r->Some_0@ == base64url_decoded(s@)->Some_0,
{
    data_encoding::BASE64URL_NOPAD.decode(s).ok()
}

/// The name of the form field that carries the token: `csrf-token`.
pub open spec fn token_field() -> Seq<u8> {
    seq![99u8, 115u8, 114u8, 102u8, 45u8, 116u8, 111u8, 107u8, 101u8, 110u8]
}

/// Relies on csrf::CSRF_FORM_FIELD, the constant `"csrf-token"`.
#[verifier::external_body]
pub fn csrf_form_field() -> (r: Vec<u8>)
    ensures
        r@ == token_field(),
{
    csrf::CSRF_FORM_FIELD.as_bytes().to_vec()
}

/// Relies on csrf::AesGcmCsrfProtection::from_key: an engine keyed by `key`.
#[verifier::external_body]
pub fn engine_from_key(key: [u8; 32]) -> (r: csrf::AesGcmCsrfProtection) {
    csrf::AesGcmCsrfProtection::from_key(key)
}

/// Relies on csrf's AesGcmCsrfProtection::parse_cookie, which refuses any
/// input that is not 132 bytes long before decrypting it.
#[verifier::external_body]
fn parse_cookie(
    engine: &csrf::AesGcmCsrfProtection,
    raw: &[u8],
) -> (r: Option<csrf::UnencryptedCsrfCookie>)
    ensures
        raw@.len() != 132 ==> r is None,
{
    engine.parse_cookie(raw).ok()
}

/// Relies on csrf's AesGcmCsrfProtection::parse_token, which refuses any
/// input that is not 124 bytes long before decrypting it.
#[verifier::external_body]
fn parse_token(
    engine: &csrf::AesGcmCsrfProtection,
    raw: &[u8],
) -> (r: Option<csrf::UnencryptedCsrfToken>)
    ensures
        raw@.len() != 124 ==> r is None,
{
    engine.parse_token(raw).ok()
}

/// Relies on csrf's CsrfProtection::verify_token_pair: whether token and
/// cookie carry the same value and the cookie has not expired (it reads the
/// clock, so nothing is stated of the outcome).
#[verifier::external_body]
fn verify_pair(
    engine: &csrf::AesGcmCsrfProtection,
    token: &csrf::UnencryptedCsrfToken,
    cookie: &csrf::UnencryptedCsrfCookie,
) -> (r: bool) {
    engine.verify_token_pair(token, cookie)
}

// ---------------------------------------------------------------- form bodies

/// `&`
pub const AMP: u8 = 38;

/// `=`
pub const EQ: u8 = 61;

/// First position of `b` in `p` from `k` on.
pub open spec fn find_byte(p: Seq<u8>, k: int, b: u8) -> Option<int>
    decreases p.len() - k,
{
    if k < 0 || k >= p.len() {
        None
    } else if p[k] == b {
        Some(k)
    } else {
        find_byte(p, k + 1, b)
    }
}

/// The name of a `name=value` pair: all of it when there is no `=`.
pub open spec fn field_key(p: Seq<u8>) -> Seq<u8> {
    match find_byte(p, 0, EQ) {
        Some(j) => p.subrange(0, j),
        None => p,
    }
}

/// The value of a `name=value` pair: empty when there is no `=`.
pub open spec fn field_value(p: Seq<u8>) -> Seq<u8> {
    match find_byte(p, 0, EQ) {
        Some(j) => p.subrange(j + 1, p.len() as int),
        None => Seq::empty(),
    }
}

/// The values of the first `n` pairs whose name is `field`, in order.
pub open spec fn values_upto(pairs: Seq<Seq<u8>>, field: Seq<u8>, n: int) -> Seq<Seq<u8>>
    decreases n,
{
    if n <= 0 {
        Seq::empty()
    } else {
        let r = values_upto(pairs, field, n - 1);
        if field_key(pairs[n - 1]) == field {
            r.push(field_value(pairs[n - 1]))
        } else {
            r
        }
    }
}

/// The values given to `field` in a form-encoded body, in order.
pub open spec fn form_values(body: Seq<u8>, field: Seq<u8>) -> Seq<Seq<u8>> {
    values_upto(split_on(body, AMP), field, split_on(body, AMP).len() as int)
}

fn find_eq(p: &[u8]) -> (r: Option<usize>)
    ensures
        r is Some ==> find_byte(p@, 0, EQ) == Some(r->Some_0 as int) && r->Some_0 < p@.len(),
        r is None ==> find_byte(p@, 0, EQ) is None,
{
    let mut k: usize = 0;
    while k < p.len()
        invariant
            k <= p@.len(),
            find_byte(p@, 0, EQ) == find_byte(p@, k as int, EQ),
        decreases p@.len() - k,
    {
        if p[k] == EQ {
            return Some(k);
        }
        k = k + 1;
    }
    None
}

/// The values given to `field` in a form-encoded body.
pub fn form_values_of(body: &[u8], field: &[u8]) -> (r: Vec<Vec<u8>>)
    ensures
        r@.len() == form_values(body@, field@).len(),
        forall|k: int| 0 <= k < r@.len() ==> (#[trigger] r@[k])@ == form_values(body@, field@)[k],
{
    let pairs = split_bytes_on(body, AMP);
    let ghost pv = split_on(body@, AMP);
    let mut out: Vec<Vec<u8>> = Vec::new();
    let mut i: usize = 0;
    while i < pairs.len()
        invariant
            i <= pairs@.len(),
            pv == split_on(body@, AMP),
            pairs@.len() == pv.len(),
            forall|k: int| 0 <= k < pairs@.len() ==> (#[trigger] pairs@[k])@ == pv[k],
            out@.len() == values_upto(pv, field@, i as int).len(),
            forall|k: int| 0 <= k < out@.len() ==> (#[trigger] out@[k])@ == values_upto(pv, field@, i as int)[k],
        decreases pairs@.len() - i,
    {
        let p = pairs[i].as_slice();
        assert(p@ == pv[i as int]);
        let eq = find_eq(p);
        let (key, value) = match eq {
            Some(j) => {
                let n = p.len();
                assert(j < n);
                (copy_range(p, 0, j), copy_range(p, j + 1, n))
            },
            None => (copy_range(p, 0, p.len()), Vec::new()),
        };
        assert(p@.subrange(0, p@.len() as int) =~= p@);
        assert(key@ == field_key(pv[i as int]));
        assert(value@ =~= field_value(pv[i as int]));
        if bytes_eq(key.as_slice(), field) {
            out.push(value);
        }
        i = i + 1;
    }
    out
}

// ---------------------------------------------------------------- decision

#[derive(Debug, Clone, Copy, PartialEq, Eq, Structural)]
pub enum Verdict {
    /// A method that changes nothing: no check was made.
    Safe,
    /// Cookie and token parsed and pair with each other.
    Verified,
    /// Anything else: missing, unreadable or unpaired cookie or token.
    Rejected,
}

pub open spec fn decide_spec(method: Method, cookie_ok: bool, token_ok: bool, paired: bool) -> Verdict {
    if is_safe_method(method) {
        Verdict::Safe
    } else if cookie_ok && token_ok && paired {
        Verdict::Verified
    } else {
        Verdict::Rejected
    }
}

/// The verdict from what the engine made of cookie and token.
pub fn decide(method: Method, cookie_ok: bool, token_ok: bool, paired: bool) -> (r: Verdict)
    ensures
        r == decide_spec(method, cookie_ok, token_ok, paired),
{
    if method.is_safe() {
        Verdict::Safe
    } else if cookie_ok && token_ok && paired {
        Verdict::Verified
    } else {
        Verdict::Rejected
    }
}

/// A cookie that may parse: present, and standard base64 of 132 bytes.
pub open spec fn cookie_readable(cookie: Option<&str>) -> bool {
    cookie is Some && base64_decoded(cookie->Some_0.spec_bytes()) is Some
        && base64_decoded(cookie->Some_0.spec_bytes())->Some_0.len() == 132
}

/// A body with a token field that may parse: some `csrf-token` value is
/// URL-safe base64 of 124 bytes.
pub open spec fn token_readable(body: Seq<u8>) -> bool {
    exists|i: int|
        0 <= i < form_values(body, token_field()).len()
            && #[trigger] base64url_decoded(form_values(body, token_field())[i]) is Some
            && base64url_decoded(form_values(body, token_field())[i])->Some_0.len() == 124
}

/// Checks a request: `cookie` is the value of the CSRF cookie, `body` the
/// part of the form body that can be read ahead.
pub fn check_request(
    engine: &csrf::AesGcmCsrfProtection,
    method: Method,
    cookie: Option<&str>,
    body: &[u8],
) -> (r: Verdict)
    ensures
        (r == Verdict::Safe) == is_safe_method(method),
        r == Verdict::Verified ==> cookie_readable(cookie),
        r == Verdict::Verified ==> token_readable(body@),
{
    if method.is_safe() {
        return Verdict::Safe;
    }
    let parsed_cookie = match cookie {
        Some(c) => match decode_base64(c.as_bytes()) {
            Some(raw) => parse_cookie(engine, raw.as_slice()),
            None => None,
        },
        None => None,
    };
    let field = csrf_form_field();
    let candidates = form_values_of(body, field.as_slice());
    let ghost fv = form_values(body@, token_field());
    let mut token: Option<csrf::UnencryptedCsrfToken> = None;
    let ghost mut witness: int = 0;
    let mut i: usize = 0;
    while i < candidates.len() && token.is_none()
        invariant
            i <= candidates@.len(),
            fv == form_values(body@, token_field()),
            candidates@.len() == fv.len(),
            forall|k: int| 0 <= k < candidates@.len() ==> (#[trigger] candidates@[k])@ == fv[k],
            token is Some ==> 0 <= witness < fv.len() && base64url_decoded(fv[witness]) is Some
                && base64url_decoded(fv[witness])->Some_0.len() == 124,
        decreases candidates@.len() - i,
    {
        match decode_base64url(candidates[i].as_slice()) {
            Some(raw) => {
                token = parse_token(engine, raw.as_slice());
                proof {
                    witness = i as int;
                }
            },
            None => {},
        }
        i = i + 1;
    }
    let paired = match (&token, &parsed_cookie) {
        (Some(t), Some(c)) => verify_pair(engine, t, c),
        _ => false,
    };
    let r = decide(method, parsed_cookie.is_some(), token.is_some(), paired);
    proof {
        if r == Verdict::Verified {
            assert(base64url_decoded(fv[witness]) is Some);
        }
    }
    r
}

} // verus!
