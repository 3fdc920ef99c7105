//! Configuration, and the decisions taken for each request and response.
use vstd::prelude::*;
use vstd::string::StringSliceAdditionalSpecFns;
use vstd::utf8::encode_utf8;
use rand::Rng;
use crate::decision::{base64_decoded, check_request, cookie_readable, token_readable, decode_base64, engine_from_key, Verdict};
use crate::method::is_safe_method;
use crate::method::Method;
use crate::router::{route, route_from, route_spec, rules_view, ExceptionRule, RuleView};
use crate::template::{
    compile_spec, extract_spec, generate_spec, names_covered, split, lookup, render, render_from, CaptureSet, PathTemplate, PieceView,
    SegmentView,
};

verus! {

/// The one capture name a default target may use: `uri`.
pub open spec fn uri_name() -> Seq<u8> {
    seq![117u8, 114u8, 105u8]
}

/// A default target is usable when it compiles and can be generated from the
/// request URI alone.
pub open spec fn default_target_ok(t: Seq<SegmentView>) -> bool {
    generate_spec(t, seq![(uri_name(), Seq::<u8>::empty())]) is Some
}

proof fn lemma_render_keys(
    ps: Seq<PieceView>,
    k: int,
    c1: Seq<(Seq<u8>, Seq<u8>)>,
    c2: Seq<(Seq<u8>, Seq<u8>)>,
)
    requires
        forall|n: Seq<u8>| (#[trigger] lookup(c1, n)) is Some == lookup(c2, n) is Some,
    ensures
        render_from(ps, k, c1) is Some == render_from(ps, k, c2) is Some,
    decreases ps.len() - k,
{
    if 0 <= k < ps.len() {
        lemma_render_keys(ps, k + 1, c1, c2);
    }
}

proof fn lemma_lookup_single(name: Seq<u8>, v: Seq<u8>, n: Seq<u8>)
    ensures
        lookup(seq![(name, v)], n) is Some == (n == name),
{
    let c = seq![(name, v)];
    assert(c[0] == (name, v));
    assert(c.drop_first() =~= Seq::<(Seq<u8>, Seq<u8>)>::empty());
    assert(lookup(c.drop_first(), n) is None);
}

/// Whether a template can be generated from a single `uri` capture does not
/// depend on the captured value.
pub proof fn lemma_uri_value_irrelevant(t: Seq<SegmentView>, v1: Seq<u8>, v2: Seq<u8>)
    ensures
        generate_spec(t, seq![(uri_name(), v1)]) is Some == generate_spec(t, seq![(uri_name(), v2)]) is Some,
{
    let c1 = seq![(uri_name(), v1)];
    let c2 = seq![(uri_name(), v2)];
    assert forall|n: Seq<u8>| (#[trigger] lookup(c1, n)) is Some == lookup(c2, n) is Some by {
        lemma_lookup_single(uri_name(), v1, n);
        lemma_lookup_single(uri_name(), v2, n);
    }
    assert forall|i: int| 0 <= i < t.len() implies (#[trigger] render(t[i], c1)) is Some == render(t[i], c2) is Some by {
        lemma_render_keys(t[i].pieces, 0, c1, c2);
    }
    assert forall|i: int| 0 <= i < t.len() implies (#[trigger] render(t[i], c2)) is Some == render(t[i], c1) is Some by {
        lemma_render_keys(t[i].pieces, 0, c1, c2);
    }
}

/// Relies on rand::thread_rng and Rng::gen: 32 random bytes.
#[verifier::external_body]
fn random_secret() -> (r: [u8; 32]) {
    rand::thread_rng().gen()
}

/// A secret given as standard base64: the decoded bytes, when there are 32.
pub fn secret_from_base64(value: &str) -> (r: Option<[u8; 32]>)
    ensures
        r is Some == (base64_decoded(value.spec_bytes()) is Some
            && base64_decoded(value.spec_bytes())->Some_0.len() == 32),
        r is Some ==> r->Some_0@ == base64_decoded(value.spec_bytes())->Some_0,
{
    match decode_base64(value.as_bytes()) {
        Some(raw) => {
            if raw.len() != 32 {
                return None;
            }
            let mut a: [u8; 32] = [0u8; 32];
            let mut i: usize = 0;
            while i < 32
                invariant
                    i <= 32,
                    raw@.len() == 32,
                    forall|k: int| 0 <= k < i ==> a@[k] == raw@[k],
                decreases 32 - i,
            {
                a[i] = raw[i];
                i = i + 1;
            }
            assert(a@ =~= raw@);
            Some(a)
        },
        None => None,
    }
}

// ---------------------------------------------------------------- builder

pub struct BuilderView {
    pub duration: i64,
    pub default_pattern: Seq<char>,
    pub default_method: Method,
    pub exceptions: Seq<(Seq<char>, Seq<char>, Method)>,
    pub secret: Option<[u8; 32]>,
    pub auto_insert: bool,
    pub prefixes: Seq<Seq<char>>,
    pub max_size: u64,
}

pub open spec fn patterns_view(v: Seq<(String, String, Method)>) -> Seq<(Seq<char>, Seq<char>, Method)> {
    v.map_values(|e: (String, String, Method)| (e.0@, e.1@, e.2))
}

pub open spec fn strings_view(v: Seq<String>) -> Seq<Seq<char>> {
    v.map_values(|s: String| s@)
}

/// Collects the settings of a [`CsrfFairing`].
pub struct CsrfFairingBuilder {
    duration: i64,
    default_target: (String, Method),
    exceptions: Vec<(String, String, Method)>,
    secret: Option<[u8; 32]>,
    auto_insert: bool,
    auto_insert_disable_prefix: Vec<String>,
    auto_insert_max_size: u64,
}

impl View for CsrfFairingBuilder {
    type V = BuilderView;

    closed spec fn view(&self) -> BuilderView {
        BuilderView {
            duration: self.duration,
            default_pattern: self.default_target.0@,
            default_method: self.default_target.1,
            exceptions: patterns_view(self.exceptions@),
            secret: self.secret,
            auto_insert: self.auto_insert,
            prefixes: strings_view(self.auto_insert_disable_prefix@),
            max_size: self.auto_insert_max_size,
        }
    }
}

/// Whether a pattern compiles.
pub open spec fn pattern_compiles(p: Seq<char>) -> bool {
    compile_spec(encode_utf8(p)) is Ok
}

pub open spec fn compiled(p: Seq<char>) -> Seq<SegmentView> {
    compile_spec(encode_utf8(p))->Ok_0
}

/// Settings that make a usable fairing: every pattern compiles and the
/// default target needs no capture but `uri`.
pub open spec fn builder_ok(b: BuilderView) -> bool {
    pattern_compiles(b.default_pattern) && default_target_ok(compiled(b.default_pattern))
        && forall|i: int| 0 <= i < b.exceptions.len()
            ==> pattern_compiles((#[trigger] b.exceptions[i]).0) && pattern_compiles(b.exceptions[i].1)
                && names_covered(compiled(b.exceptions[i].0), compiled(b.exceptions[i].1))
}

pub open spec fn rules_of(ex: Seq<(Seq<char>, Seq<char>, Method)>) -> Seq<RuleView> {
    ex.map_values(|e: (Seq<char>, Seq<char>, Method)| RuleView { source: compiled(e.0), destination: compiled(e.1), method: e.2 })
}

pub open spec fn default_builder() -> BuilderView {
    BuilderView {
        duration: 3600,
        default_pattern: seq!['/'],
        default_method: Method::Get,
        exceptions: Seq::empty(),
        secret: None,
        auto_insert: true,
        prefixes: Seq::empty(),
        max_size: 16384,
    }
}

impl Default for CsrfFairingBuilder {
    fn default() -> (r: Self)
        ensures
            r@ == default_builder(),
    {
        Self::new()
    }
}

impl CsrfFairingBuilder {
    /// Defaults: tokens valid one hour, rejected requests sent to `/` as GET,
    /// no exceptions, no secret, forms filled in, bodies up to 16 KiB materialized.
    pub fn new() -> (r: Self)
        ensures
            r@ == default_builder(),
    {
        let r = CsrfFairingBuilder {
            duration: 60 * 60,
            default_target: ("/".to_owned(), Method::Get),
            exceptions: Vec::new(),
            secret: None,
            auto_insert: true,
            auto_insert_disable_prefix: Vec::new(),
            auto_insert_max_size: 16 * 1024,
        };
        proof {
            reveal_strlit("/");
            assert(r@.exceptions =~= Seq::<(Seq<char>, Seq<char>, Method)>::empty());
            assert(r@.prefixes =~= Seq::<Seq<char>>::empty());
            assert(r@.default_pattern =~= seq!['/']);
        }
        r
    }

    /// How long issued tokens stay valid, in seconds.
    pub fn set_timeout(self, timeout: i64) -> (r: Self)
        ensures
            r@ == (BuilderView { duration: timeout, ..self@ }),
    {
        let mut b = self;
        b.duration = timeout;
        b
    }

    /// Where rejected requests go when no exception applies; the pattern may
    /// use `<uri>` for the percent-encoded request URI.
    pub fn set_default_target(self, default_target: String, method: Method) -> (r: Self)
        ensures
            r@ == (BuilderView { default_pattern: default_target@, default_method: method, ..self@ }),
    {
        let mut b = self;
        b.default_target = (default_target, method);
        b
    }

    /// Replaces the exception rules: (source pattern, destination pattern, method).
    pub fn set_exceptions(self, exceptions: Vec<(String, String, Method)>) -> (r: Self)
        ensures
            r@ == (BuilderView { exceptions: patterns_view(exceptions@), ..self@ }),
    {
        let mut b = self;
        b.exceptions = exceptions;
        b
    }

    /// Adds exception rules after the present ones.
    pub fn add_exceptions(self, exceptions: Vec<(String, String, Method)>) -> (r: Self)
        ensures
            r@ == (BuilderView { exceptions: self@.exceptions + patterns_view(exceptions@), ..self@ }),
    {
        let mut b = self;
        let mut more = exceptions;
        let ghost old_ex = b.exceptions@;
        let ghost added = more@;
        b.exceptions.append(&mut more);
        assert(patterns_view(b.exceptions@) =~= patterns_view(old_ex) + patterns_view(added));
        b
    }

    /// The key for tokens and cookies.
    pub fn set_secret(self, secret: [u8; 32]) -> (r: Self)
        ensures
            r@ == (BuilderView { secret: Some(secret), ..self@ }),
    {
        let mut b = self;
        b.secret = Some(secret);
        b
    }

    /// Whether responses get the token inserted into their forms.
    pub fn set_auto_insert(self, auto_insert: bool) -> (r: Self)
        ensures
            r@ == (BuilderView { auto_insert, ..self@ }),
    {
        let mut b = self;
        b.auto_insert = auto_insert;
        b
    }

    /// URI prefixes whose responses are left as they are.
    pub fn set_auto_insert_disable_prefix(self, auto_insert_prefix: Vec<String>) -> (r: Self)
        ensures
            r@ == (BuilderView { prefixes: strings_view(auto_insert_prefix@), ..self@ }),
    {
        let mut b = self;
        b.auto_insert_disable_prefix = auto_insert_prefix;
        b
    }

    /// Largest body length that is transformed at once rather than streamed.
    pub fn set_auto_insert_max_chunk_size(self, chunk_size: u64) -> (r: Self)
        ensures
            r@ == (BuilderView { max_size: chunk_size, ..self@ }),
    {
        let mut b = self;
        b.auto_insert_max_size = chunk_size;
        b
    }
}

// ---------------------------------------------------------------- fairing

pub struct FairingView {
    pub duration: i64,
    pub default_target: Seq<SegmentView>,
    pub default_method: Method,
    pub rules: Seq<RuleView>,
    pub secret: [u8; 32],
    pub auto_insert: bool,
    pub prefixes: Seq<Seq<char>>,
    pub max_size: u64,
}

/// The protection itself, built by [`CsrfFairingBuilder::finalize`].
pub struct CsrfFairing {
    duration: i64,
    default_target: (PathTemplate, Method),
    exceptions: Vec<ExceptionRule>,
    secret: [u8; 32],
    auto_insert: bool,
    auto_insert_disable_prefix: Vec<String>,
    auto_insert_max_size: u64,
}

impl View for CsrfFairing {
    type V = FairingView;

    closed spec fn view(&self) -> FairingView {
        FairingView {
            duration: self.duration,
            default_target: self.default_target.0@,
            default_method: self.default_target.1,
            rules: rules_view(self.exceptions@),
            secret: self.secret,
            auto_insert: self.auto_insert,
            prefixes: strings_view(self.auto_insert_disable_prefix@),
            max_size: self.auto_insert_max_size,
        }
    }
}

/// Which hooks the fairing needs.
#[derive(Debug, Clone, Copy, PartialEq, Eq, Structural)]
pub struct FairingInfo {
    pub on_attach: bool,
    pub on_request: bool,
    pub on_response: bool,
}

/// What to do with a response body.
#[derive(Debug, Clone, Copy, PartialEq, Eq, Structural)]
pub enum ResponsePlan {
    /// Hand it on unchanged.
    Leave,
    /// Transform it whole into one buffer.
    Materialize,
    /// Wrap it in a transforming stream.
    Stream,
}

/// A body of known length up to `max` is transformed at once; a longer one,
/// or one of unknown length, is streamed.
pub open spec fn size_plan_spec(len: Option<u64>, max: u64) -> ResponsePlan {
    match len {
        Some(n) => if n <= max { ResponsePlan::Materialize } else { ResponsePlan::Stream },
        None => ResponsePlan::Stream,
    }
}

pub fn size_plan(len: Option<u64>, max: u64) -> (r: ResponsePlan)
    ensures
        r == size_plan_spec(len, max),
{
    match len {
        Some(n) => if n <= max { ResponsePlan::Materialize } else { ResponsePlan::Stream },
        None => ResponsePlan::Stream,
    }
}

pub open spec fn starts_with_spec(s: Seq<u8>, p: Seq<u8>) -> bool {
    p.len() <= s.len() && s.subrange(0, p.len() as int) == p
}

/// The URI lies under one of the excluded prefixes.
pub open spec fn excluded(prefixes: Seq<Seq<char>>, uri: Seq<u8>) -> bool {
    exists|i: int| 0 <= i < prefixes.len() && starts_with_spec(uri, encode_utf8(#[trigger] prefixes[i]))
}

pub open spec fn response_plan_spec(
    f: FairingView,
    is_html: Option<bool>,
    uri: Seq<u8>,
    has_body: bool,
    len: Option<u64>,
) -> ResponsePlan {
    if !f.auto_insert || is_html == Some(false) || excluded(f.prefixes, uri) || !has_body {
        ResponsePlan::Leave
    } else {
        size_plan_spec(len, f.max_size)
    }
}

/// Where a rejected request goes: the first exception that applies, else the
/// default target filled with the request URI.
pub open spec fn reroute_spec(f: FairingView, uri: Seq<u8>) -> (Seq<u8>, Method) {
    match route_spec(f.rules, uri) {
        Some(x) => x,
        None => (generate_spec(f.default_target, seq![(uri_name(), uri)])->Some_0, f.default_method),
    }
}

pub fn starts_with(s: &[u8], p: &[u8]) -> (r: bool)
    ensures
        r == starts_with_spec(s@, p@),
{
    if p.len() > s.len() {
        return false;
    }
    let mut k: usize = 0;
    while k < p.len()
        invariant
            k <= p@.len(),
            p@.len() <= s@.len(),
            forall|m: int| 0 <= m < k ==> s@[m] == p@[m],
        decreases p@.len() - k,
    {
        if s[k] != p[k] {
            return false;
        }
        k = k + 1;
    }
    assert(s@.subrange(0, p@.len() as int) =~= p@);
    true
}

fn uri_key() -> (r: Vec<u8>)
    ensures
        r@ == uri_name(),
{
    let mut v: Vec<u8> = Vec::new();
    v.push(117u8);
    v.push(114u8);
    v.push(105u8);
    assert(v@ =~= uri_name());
    v
}

impl CsrfFairing {
    pub closed spec fn wf(&self) -> bool {
        default_target_ok(self.default_target.0@)
    }

    /// The hooks to register: responses only when forms are filled in.
    pub fn info(&self) -> (r: FairingInfo)
        ensures
            r == (FairingInfo { on_attach: true, on_request: true, on_response: self@.auto_insert }),
    {
        FairingInfo { on_attach: true, on_request: true, on_response: self.auto_insert }
    }

    /// The crypto engine, keyed by the fairing's secret.
    pub fn engine(&self) -> csrf::AesGcmCsrfProtection {
        engine_from_key(self.secret)
    }

    pub fn duration(&self) -> (r: i64)
        ensures
            r == self@.duration,
    {
        self.duration
    }

    /// The path and method a rejected request is rewritten to.
    pub fn reroute(&self, uri: &str) -> (r: (Vec<u8>, Method))
        requires
            self.wf(),
        ensures
            (r.0@, r.1) == reroute_spec(self@, uri.spec_bytes()),
    {
        match route(&self.exceptions, uri) {
            Some(x) => x,
            None => {
                let mut caps = CaptureSet::new();
                let key = uri_key();
                caps.insert(key.as_slice(), uri.as_bytes());
                assert(caps@ =~= seq![(uri_name(), uri.spec_bytes())]);
                proof {
                    lemma_uri_value_irrelevant(self.default_target.0@, Seq::empty(), uri.spec_bytes());
                }
                match self.default_target.0.generate(&caps) {
                    Some(p) => (p, self.default_target.1),
                    None => (Vec::new(), self.default_target.1),
                }
            },
        }
    }

    /// The rewrite a verdict calls for: only a rejected request is rerouted.
    pub fn rewrite_for(&self, verdict: Verdict, uri: &str) -> (r: Option<(Vec<u8>, Method)>)
        requires
            self.wf(),
        ensures
            r is Some == (verdict == Verdict::Rejected),
            r is Some ==> (r->Some_0.0@, r->Some_0.1) == reroute_spec(self@, uri.spec_bytes()),
    {
        match verdict {
            Verdict::Rejected => Some(self.reroute(uri)),
            _ => None,
        }
    }

    /// The request hook: `None` leaves the request as it is; `Some` gives the
    /// path and method to rewrite it to. Whether a readable cookie and token
    /// pair is up to the engine, which also reads the clock.
    pub fn on_request(
        &self,
        engine: &csrf::AesGcmCsrfProtection,
        method: Method,
        uri: &str,
        cookie: Option<&str>,
        body: &[u8],
    ) -> (r: Option<(Vec<u8>, Method)>)
        requires
            self.wf(),
        ensures
            is_safe_method(method) ==> r is None,
            r is Some ==> (r->Some_0.0@, r->Some_0.1) == reroute_spec(self@, uri.spec_bytes()),
            !is_safe_method(method) && !cookie_readable(cookie) ==> r is Some,
            !is_safe_method(method) && !token_readable(body@) ==> r is Some,
            r is None ==> is_safe_method(method) || (cookie_readable(cookie) && token_readable(body@)),
    {
        let verdict = check_request(engine, method, cookie, body);
        self.rewrite_for(verdict, uri)
    }

    /// The response hook's decision for a body: `is_html` is what the content
    /// type says, if there is one.
    pub fn on_response(&self, is_html: Option<bool>, uri: &str, has_body: bool, len: Option<u64>) -> (r: ResponsePlan)
        ensures
            r == response_plan_spec(self@, is_html, uri.spec_bytes(), has_body, len),
    {
        if !self.auto_insert {
            return ResponsePlan::Leave;
        }
        match is_html {
            Some(false) => {
                return ResponsePlan::Leave;
            },
            _ => {},
        }
        let ub = uri.as_bytes();
        let mut i: usize = 0;
        while i < self.auto_insert_disable_prefix.len()
            invariant
                i <= self.auto_insert_disable_prefix@.len(),
                ub@ == uri.spec_bytes(),
                forall|k: int| 0 <= k < i ==> !starts_with_spec(ub@, encode_utf8(#[trigger] strings_view(self.auto_insert_disable_prefix@)[k])),
            decreases self.auto_insert_disable_prefix@.len() - i,
        {
            let p = self.auto_insert_disable_prefix[i].as_str();
            assert(strings_view(self.auto_insert_disable_prefix@)[i as int] == p@);
            if starts_with(ub, p.as_bytes()) {
                assert(excluded(self@.prefixes, ub@));
                return ResponsePlan::Leave;
            }
            i = i + 1;
        }
        if !has_body {
            return ResponsePlan::Leave;
        }
        size_plan(len, self.auto_insert_max_size)
    }
}

/// The fairing that a builder's settings make, but for the secret.
pub open spec fn built_from(b: BuilderView, f: FairingView) -> bool {
    f.duration == b.duration && f.default_target == compiled(b.default_pattern)
        && f.default_method == b.default_method && f.rules == rules_of(b.exceptions)
        && f.auto_insert == b.auto_insert && f.prefixes == b.prefixes && f.max_size == b.max_size
}

impl CsrfFairingBuilder {
    /// Builds the fairing. The secret is the one set, else the one that
    /// `env_secret` gives as standard base64 of 32 bytes, else a random one.
    /// Fails when a pattern does not compile, when an exception's destination
    /// uses a name its source does not capture, or when the default target
    /// uses a capture other than `uri`.
    pub fn finalize(self, env_secret: Option<&str>) -> (r: Result<CsrfFairing, ()>)
        ensures
            r is Ok == builder_ok(self@),
            r is Ok ==> r->Ok_0.wf() && built_from(self@, r->Ok_0@),
            r is Ok && self@.secret is Some ==> r->Ok_0@.secret == self@.secret->Some_0,
            r is Ok && self@.secret is None && env_secret is Some
                && base64_decoded(env_secret->Some_0.spec_bytes()) is Some
                && base64_decoded(env_secret->Some_0.spec_bytes())->Some_0.len() == 32
                ==> r->Ok_0@.secret@ == base64_decoded(env_secret->Some_0.spec_bytes())->Some_0,
    {
        let ghost b = self@;
        let default_target = match PathTemplate::compile(self.default_target.0.as_str()) {
            Ok(t) => t,
            Err(_) => {
                return Err(());
            },
        };
        let mut probe = CaptureSet::new();
        let key = uri_key();
        let nothing: Vec<u8> = Vec::new();
        probe.insert(key.as_slice(), nothing.as_slice());
        assert(probe@ =~= seq![(uri_name(), Seq::<u8>::empty())]);
        if default_target.generate(&probe).is_none() {
            return Err(());
        }
        let mut exceptions: Vec<ExceptionRule> = Vec::new();
        let mut i: usize = 0;
        while i < self.exceptions.len()
            invariant
                i <= self.exceptions@.len(),
                b == self@,
                b.exceptions == patterns_view(self.exceptions@),
                exceptions@.len() == i,
                forall|k: int| 0 <= k < i ==> pattern_compiles((#[trigger] b.exceptions[k]).0) && pattern_compiles(b.exceptions[k].1)
                    && names_covered(compiled(b.exceptions[k].0), compiled(b.exceptions[k].1)),
                forall|k: int| 0 <= k < i ==> (#[trigger] exceptions@[k])@ == rules_of(b.exceptions)[k],
            decreases self.exceptions@.len() - i,
        {
            let e = &self.exceptions[i];
            assert(b.exceptions[i as int] == (e.0@, e.1@, e.2));
            let source = match PathTemplate::compile(e.0.as_str()) {
                Ok(t) => t,
                Err(_) => {
                    return Err(());
                },
            };
            let destination = match PathTemplate::compile(e.1.as_str()) {
                Ok(t) => t,
                Err(_) => {
                    return Err(());
                },
            };
            if !destination.uses_only_names_of(&source) {
                return Err(());
            }
            exceptions.push(ExceptionRule { source, destination, method: e.2 });
            i = i + 1;
        }
        let secret = match self.secret {
            Some(s) => s,
            None => {
                let from_env = match env_secret {
                    Some(v) => secret_from_base64(v),
                    None => None,
                };
                match from_env {
                    Some(s) => s,
                    None => random_secret(),
                }
            },
        };
        let f = CsrfFairing {
            duration: self.duration,
            default_target: (default_target, self.default_target.1),
            exceptions,
            secret,
            auto_insert: self.auto_insert,
            auto_insert_disable_prefix: self.auto_insert_disable_prefix,
            auto_insert_max_size: self.auto_insert_max_size,
        };
        assert(f@.rules =~= rules_of(b.exceptions));
        Ok(f)
    }
}

// ---------------------------------------------------------------- laws

proof fn lemma_no_rule_from(rules: Seq<RuleView>, uri: Seq<u8>, k: int)
    requires
        0 <= k,
        forall|i: int| 0 <= i < rules.len() ==> split(uri).len() != (#[trigger] rules[i]).source.len(),
    ensures
        route_from(rules, k, uri) is None,
    decreases rules.len() - k,
{
    if k < rules.len() {
        assert(extract_spec(rules[k].source, uri) is None);
        lemma_no_rule_from(rules, uri, k + 1);
    }
}

/// A rejected request whose path has a different number of segments than
/// every exception source goes to the default target.
pub proof fn lemma_segment_mismatch_goes_default(f: FairingView, uri: Seq<u8>)
    requires
        forall|i: int| 0 <= i < f.rules.len() ==> split(uri).len() != (#[trigger] f.rules[i]).source.len(),
    ensures
        reroute_spec(f, uri) == (generate_spec(f.default_target, seq![(uri_name(), uri)])->Some_0, f.default_method),
{
    lemma_no_rule_from(f.rules, uri, 0);
}

/// With forms filled in, an HTML response with a body outside the excluded
/// prefixes is materialized when its declared length is at most the
/// threshold, and streamed when its length is unknown.
pub proof fn lemma_size_policy(f: FairingView, uri: Seq<u8>, len: Option<u64>)
    requires
        f.auto_insert,
        !excluded(f.prefixes, uri),
    ensures
        len is Some && len->Some_0 <= f.max_size
            ==> response_plan_spec(f, Some(true), uri, true, len) == ResponsePlan::Materialize,
        len is None ==> response_plan_spec(f, Some(true), uri, true, len) == ResponsePlan::Stream,
{
}

} // verus!
