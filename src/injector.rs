//! Streaming form injector: copies an HTML byte stream unchanged, except that
//! right after the `>` that closes each `<form` tag (any letter case) it adds a
//! hidden input that carries the token.
use vstd::prelude::*;

verus! {

/// How far the scan has got: the number of bytes of `<form` just seen, or
/// whether it is inside a form tag, waiting for its `>`.
#[derive(Debug, Clone, Copy, PartialEq, Eq, Structural)]
pub struct ScanState {
    pub matched: u8,
    pub in_tag: bool,
}

pub open spec fn initial_state() -> ScanState {
    ScanState { matched: 0, in_tag: false }
}

pub open spec fn wf_state(st: ScanState) -> bool {
    st.matched < 5 && (st.in_tag ==> st.matched == 0)
}

/// Lower case of an ASCII letter; other bytes stay.
pub open spec fn ascii_lower(b: u8) -> u8 {
    if 65u8 <= b && b <= 90u8 {
        (b + 32) as u8
    } else {
        b
    }
}

/// The bytes of `<form`.
pub open spec fn form_open() -> Seq<u8> {
    seq![60u8, 102u8, 111u8, 114u8, 109u8]
}

/// State and output after one byte.
pub open spec fn step(st: ScanState, b: u8, markup: Seq<u8>) -> (ScanState, Seq<u8>) {
    if st.in_tag {
        if b == 62u8 {
            (initial_state(), seq![b] + markup)
        } else {
            (st, seq![b])
        }
    } else {
        let m: u8 = if st.matched < 5 && ascii_lower(b) == form_open()[st.matched as int] {
            (st.matched + 1) as u8
        } else if b == 60u8 {
            1u8
        } else {
            0u8
        };
        if m == 5 {
            (ScanState { matched: 0, in_tag: true }, seq![b])
        } else {
            (ScanState { matched: m, in_tag: false }, seq![b])
        }
    }
}

/// State and output after the bytes of `s`, from state `st`.
pub open spec fn run(st: ScanState, s: Seq<u8>, markup: Seq<u8>) -> (ScanState, Seq<u8>)
    decreases s.len(),
{
    if s.len() == 0 {
        (st, Seq::empty())
    } else {
        let (st1, o1) = run(st, s.drop_last(), markup);
        let (st2, o2) = step(st1, s.last(), markup);
        (st2, o1 + o2)
    }
}

/// The whole transformed document.
pub open spec fn inject_spec(markup: Seq<u8>, s: Seq<u8>) -> Seq<u8> {
    run(initial_state(), s, markup).1
}

/// The hidden input for a form field name and a token.
pub open spec fn hidden_field(field: Seq<u8>, token: Seq<u8>) -> Seq<u8> {
    seq![60u8, 105u8, 110u8, 112u8, 117u8, 116u8, 32u8, 116u8, 121u8, 112u8, 101u8, 61u8, 34u8, 104u8, 105u8, 100u8, 100u8, 101u8, 110u8, 34u8, 32u8, 110u8, 97u8, 109u8, 101u8, 61u8, 34u8] + field + seq![34u8, 32u8, 118u8, 97u8, 108u8, 117u8, 101u8, 61u8, 34u8] + token + seq![34u8, 62u8]
}

/// Running over `a` and then over `b` is running over `a + b`.
pub proof fn lemma_run_concat(st: ScanState, a: Seq<u8>, b: Seq<u8>, markup: Seq<u8>)
    ensures
        run(st, a + b, markup) == (
            run(run(st, a, markup).0, b, markup).0,
            run(st, a, markup).1 + run(run(st, a, markup).0, b, markup).1,
        ),
    decreases b.len(),
{
    if b.len() == 0 {
        assert(a + b =~= a);
        assert(run(st, a, markup).1 + Seq::<u8>::empty() =~= run(st, a, markup).1);
    } else {
        lemma_run_concat(st, a, b.drop_last(), markup);
        assert((a + b).drop_last() =~= a + b.drop_last());
        assert((a + b).last() == b.last());
        let s1 = run(st, a, markup);
        let s2 = run(s1.0, b.drop_last(), markup);
        let s3 = step(s2.0, b.last(), markup);
        assert(s1.1 + s2.1 + s3.1 =~= s1.1 + (s2.1 + s3.1));
    }
}

/// Where a read boundary falls does not change the output: reading `a` and
/// then `b` gives what reading `a + b` at once gives.
pub proof fn lemma_split_reads(markup: Seq<u8>, a: Seq<u8>, b: Seq<u8>)
    ensures
        run(initial_state(), a, markup).1 + run(run(initial_state(), a, markup).0, b, markup).1
            == inject_spec(markup, a + b),
{
    lemma_run_concat(initial_state(), a, b, markup);
}

/// How many times the markup is inserted over `s`, from state `st`.
pub open spec fn insertions(st: ScanState, s: Seq<u8>, markup: Seq<u8>) -> nat
    decreases s.len(),
{
    if s.len() == 0 {
        0
    } else {
        let prev = run(st, s.drop_last(), markup).0;
        insertions(st, s.drop_last(), markup) + if prev.in_tag && s.last() == 62u8 { 1nat } else { 0nat }
    }
}

/// The output holds every input byte and one markup per insertion, nothing else.
pub proof fn lemma_output_len(st: ScanState, s: Seq<u8>, markup: Seq<u8>)
    ensures
        run(st, s, markup).1.len() == s.len() + markup.len() * insertions(st, s, markup),
    decreases s.len(),
{
    if s.len() > 0 {
        lemma_output_len(st, s.drop_last(), markup);
        let k = insertions(st, s.drop_last(), markup);
        let prev = run(st, s.drop_last(), markup);
        let o = step(prev.0, s.last(), markup).1;
        assert(run(st, s, markup).1 == prev.1 + o);
        let total = run(st, s, markup).1.len();
        let n = s.len();
        let m = markup.len();
        let l = prev.1.len();
        let i = insertions(st, s, markup);
        assert(s.drop_last().len() == n - 1);
        assert(l == (n - 1) + m * k);
        assert(total == l + o.len());
        if prev.0.in_tag && s.last() == 62u8 {
            assert(o.len() == 1 + m);
            assert(i == k + 1);
            assert(total == n + m * i) by (nonlinear_arith)
                requires
                    l == (n - 1) + m * k,
                    i == k + 1,
                    total == l + 1 + m,
            ;
        } else {
            assert(o.len() == 1);
            assert(i == k);
            assert(total == n + m * k);
        }
    } else {
        assert(markup.len() * 0 == 0);
    }
}

/// The transform in progress: the scan state and the markup it inserts.
pub struct FormInjector {
    state: ScanState,
    markup: Vec<u8>,
}

impl FormInjector {
    pub closed spec fn state(&self) -> ScanState {
        self.state
    }

    pub closed spec fn markup(&self) -> Seq<u8> {
        self.markup@
    }

    pub closed spec fn wf(&self) -> bool {
        wf_state(self.state)
    }

    /// An injector that inserts `hidden_field(field, token)`.
    pub fn new(field: &[u8], token: &[u8]) -> (r: FormInjector)
        ensures
            r.wf(),
            r.state() == initial_state(),
            r.markup() == hidden_field(field@, token@),
    {
        let markup = hidden_field_bytes(field, token);
        FormInjector { state: ScanState { matched: 0, in_tag: false }, markup }
    }

    /// The bytes to hand on for the next upstream chunk.
    pub fn feed(&mut self, chunk: &[u8]) -> (r: Vec<u8>)
        requires
            old(self).wf(),
        ensures
            final(self).wf(),
            final(self).markup() == old(self).markup(),
            (final(self).state(), r@) == run(old(self).state(), chunk@, old(self).markup()),
    {
        let ghost st0 = self.state;
        let mut out: Vec<u8> = Vec::new();
        let mut i: usize = 0;
        while i < chunk.len()
            invariant
                i <= chunk@.len(),
                wf_state(self.state),
                self.markup@ == old(self).markup@,
                st0 == old(self).state,
                (self.state, out@) == run(st0, chunk@.subrange(0, i as int), self.markup@),
            decreases chunk@.len() - i,
        {
            let b = chunk[i];
            let ghost before = out@;
            let ghost stb = self.state;
            if self.state.in_tag {
                out.push(b);
                if b == 62u8 {
                    push_all(&mut out, &self.markup);
                    self.state = ScanState { matched: 0, in_tag: false };
                }
            } else {
                let m: u8 = if ascii_lower_byte(b) == form_byte(self.state.matched) {
                    self.state.matched + 1
                } else if b == 60u8 {
                    1
                } else {
                    0
                };
                out.push(b);
                if m == 5 {
                    self.state = ScanState { matched: 0, in_tag: true };
                } else {
                    self.state = ScanState { matched: m, in_tag: false };
                }
            }
            proof {
                let t = chunk@.subrange(0, i as int + 1);
                assert(t.drop_last() =~= chunk@.subrange(0, i as int));
                assert(t.last() == b);
                assert(out@ =~= before + step(stb, b, self.markup@).1);
            }
            i = i + 1;
        }
        assert(chunk@.subrange(0, chunk@.len() as int) =~= chunk@);
        out
    }
}

/// The transformed document, all at once.
pub fn inject_all(field: &[u8], token: &[u8], body: &[u8]) -> (r: Vec<u8>)
    ensures
        r@ == inject_spec(hidden_field(field@, token@), body@),
{
    let mut inj = FormInjector::new(field, token);
    inj.feed(body)
}

fn ascii_lower_byte(b: u8) -> (r: u8)
    ensures
        r == ascii_lower(b),
{
    if 65u8 <= b && b <= 90u8 {
        b + 32
    } else {
        b
    }
}

fn form_byte(k: u8) -> (r: u8)
    requires
        k < 5,
    ensures
        r == form_open()[k as int],
{
    let bytes: [u8; 5] = [60u8, 102u8, 111u8, 114u8, 109u8];
    assert(bytes@ =~= form_open());
    bytes[k as usize]
}

fn push_all(out: &mut Vec<u8>, s: &[u8])
    ensures
        final(out)@ == old(out)@ + s@,
{
    let mut i: usize = 0;
    while i < s.len()
        invariant
            i <= s@.len(),
            out@ == old(out)@ + s@.subrange(0, i as int),
        decreases s@.len() - i,
    {
        out.push(s[i]);
        assert(s@.subrange(0, i as int + 1) =~= s@.subrange(0, i as int).push(s@[i as int]));
        i = i + 1;
    }
    assert(s@.subrange(0, s@.len() as int) =~= s@);
}

/// The hidden input for a form field name and a token.
pub fn hidden_field_bytes(field: &[u8], token: &[u8]) -> (r: Vec<u8>)
    ensures
        r@ == hidden_field(field@, token@),
{
    let pre: [u8; 27] = [60u8, 105u8, 110u8, 112u8, 117u8, 116u8, 32u8, 116u8, 121u8, 112u8, 101u8, 61u8, 34u8, 104u8, 105u8, 100u8, 100u8, 101u8, 110u8, 34u8, 32u8, 110u8, 97u8, 109u8, 101u8, 61u8, 34u8];
    let mid: [u8; 9] = [34u8, 32u8, 118u8, 97u8, 108u8, 117u8, 101u8, 61u8, 34u8];
    let post: [u8; 2] = [34u8, 62u8];
    let mut out: Vec<u8> = Vec::new();
    push_all(&mut out, &pre);
    push_all(&mut out, field);
    push_all(&mut out, &mid);
    push_all(&mut out, token);
    push_all(&mut out, &post);
    assert(out@ =~= hidden_field(field@, token@));
    out
}

} // verus!
