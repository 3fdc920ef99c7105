//! Percent-encoding of a value that is substituted into a path.
use vstd::prelude::*;

verus! {

/// Bytes that stay as they are: letters, digits and `- . _ ~ ! $ ' ( ) * , ; : @`.
pub open spec fn is_path_safe(b: u8) -> bool {
    (97u8 <= b && b <= 122u8) || (65u8 <= b && b <= 90u8) || (48u8 <= b && b <= 57u8)
        || b == 45u8 || b == 46u8 || b == 95u8 || b == 126u8 || b == 33u8 || b == 36u8
        || b == 39u8 || b == 40u8 || b == 41u8 || b == 42u8 || b == 44u8 || b == 59u8
        || b == 58u8 || b == 64u8
}

/// Upper-case hexadecimal digit of a value below 16.
pub open spec fn hex_digit(d: u8) -> u8
    recommends
        d < 16,
{
    if d < 10 {
        (48u8 + d) as u8
    } else {
        (65u8 + (d - 10)) as u8
    }
}

/// A safe byte stands for itself; any other byte becomes `%XY`.
pub open spec fn encode_byte(b: u8) -> Seq<u8> {
    if is_path_safe(b) {
        seq![b]
    } else {
        seq![37u8, hex_digit(b / 16), hex_digit(b % 16)]
    }
}

pub open spec fn percent_encoded(s: Seq<u8>) -> Seq<u8>
    decreases s.len(),
{
    if s.len() == 0 {
        Seq::empty()
    } else {
        percent_encoded(s.drop_last()) + encode_byte(s.last())
    }
}

/// A value made of safe bytes alone is left unchanged.
pub proof fn lemma_safe_unchanged(s: Seq<u8>)
    requires
        forall|i: int| 0 <= i < s.len() ==> is_path_safe(#[trigger] s[i]),
    ensures
        percent_encoded(s) == s,
    decreases s.len(),
{
    if s.len() > 0 {
        lemma_safe_unchanged(s.drop_last());
        assert(s.drop_last().push(s.last()) =~= s);
    }
}

pub fn is_safe_byte(b: u8) -> (r: bool)
    ensures
        r == is_path_safe(b),
{
    (97u8 <= b && b <= 122u8) || (65u8 <= b && b <= 90u8) || (48u8 <= b && b <= 57u8)
        || b == 45u8 || b == 46u8 || b == 95u8 || b == 126u8 || b == 33u8 || b == 36u8
        || b == 39u8 || b == 40u8 || b == 41u8 || b == 42u8 || b == 44u8 || b == 59u8
        || b == 58u8 || b == 64u8
}

fn hex_of(d: u8) -> (r: u8)
    requires
        d < 16,
    ensures
        r == hex_digit(d),
{
    if d < 10 {
        48u8 + d
    } else {
        65u8 + (d - 10)
    }
}

/// Appends the encoding of `s` to `out`.
pub fn push_encoded(out: &mut Vec<u8>, s: &[u8])
    ensures
        final(out)@ == old(out)@ + percent_encoded(s@),
{
    let ghost start = out@;
    let mut i: usize = 0;
    while i < s.len()
        invariant
            i <= s@.len(),
            out@ == start + percent_encoded(s@.subrange(0, i as int)),
        decreases s@.len() - i,
    {
        let b = s[i];
        if is_safe_byte(b) {
            out.push(b);
        } else {
            out.push(37u8);
            out.push(hex_of(b / 16));
            out.push(hex_of(b % 16));
        }
        proof {
            let t = s@.subrange(0, i as int + 1);
            assert(t.drop_last() =~= s@.subrange(0, i as int));
            assert(t.last() == b);
        }
        i = i + 1;
    }
    assert(s@.subrange(0, s@.len() as int) =~= s@);
}

/// The percent-encoding of `s`.
pub fn percent_encode(s: &[u8]) -> (r: Vec<u8>)
    ensures
        r@ == percent_encoded(s@),
{
    let mut out: Vec<u8> = Vec::new();
    push_encoded(&mut out, s);
    assert(Seq::<u8>::empty() + percent_encoded(s@) =~= percent_encoded(s@));
    out
}

} // verus!
