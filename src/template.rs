//! Path templates: a pattern split on `/` into segments, each a literal or a
//! named capture `<name>`. A template both matches concrete paths (collecting
//! the captured values) and generates paths from a set of captured values.
use vstd::prelude::*;
use vstd::string::StringSliceAdditionalSpecFns;
use crate::percent::{percent_encoded, push_encoded};

verus! {

/// `/`
pub const SLASH: u8 = 47;

/// `<`
pub const LT: u8 = 60;

/// `>`
pub const GT: u8 = 62;

/// One piece of a segment: a plain byte, or a placeholder `<name>` that
/// generation replaces by the value captured under `name`.
pub enum Piece {
    Byte(u8),
    Hole(Vec<u8>),
}

pub enum PieceView {
    Byte(u8),
    Hole(Seq<u8>),
}

impl View for Piece {
    type V = PieceView;

    open spec fn view(&self) -> PieceView {
        match self {
            Piece::Byte(b) => PieceView::Byte(*b),
            Piece::Hole(n) => PieceView::Hole(n@),
        }
    }
}

/// One `/`-delimited segment of a pattern: its text, and that text read as pieces.
pub struct Segment {
    pub raw: Vec<u8>,
    pub pieces: Vec<Piece>,
}

pub struct SegmentView {
    pub raw: Seq<u8>,
    pub pieces: Seq<PieceView>,
}

impl View for Segment {
    type V = SegmentView;

    open spec fn view(&self) -> SegmentView {
        SegmentView { raw: self.raw@, pieces: self.pieces@.map_values(|p: Piece| p@) }
    }
}

/// A compiled path pattern.
pub struct PathTemplate {
    pub segments: Vec<Segment>,
}

impl View for PathTemplate {
    type V = Seq<SegmentView>;

    open spec fn view(&self) -> Seq<SegmentView> {
        self.segments@.map_values(|s: Segment| s@)
    }
}

/// The values captured by a successful match, in segment order.
pub struct CaptureSet {
    pub entries: Vec<(Vec<u8>, Vec<u8>)>,
}

impl View for CaptureSet {
    type V = Seq<(Seq<u8>, Seq<u8>)>;

    open spec fn view(&self) -> Seq<(Seq<u8>, Seq<u8>)> {
        self.entries@.map_values(|e: (Vec<u8>, Vec<u8>)| (e.0@, e.1@))
    }
}

/// A pattern uses one capture name twice.
#[derive(Debug, Clone, Copy, PartialEq, Eq)]
pub enum TemplateError {
    DuplicateCapture,
}

// ---------------------------------------------------------------- splitting

/// `s` split on every `sep`; there is always at least one (maybe empty) part.
pub open spec fn split_on(s: Seq<u8>, sep: u8) -> Seq<Seq<u8>>
    decreases s.len(),
{
    if s.len() == 0 {
        seq![Seq::empty()]
    } else {
        let r = split_on(s.drop_last(), sep);
        if s.last() == sep {
            r.push(Seq::empty())
        } else {
            r.update(r.len() - 1, r.last().push(s.last()))
        }
    }
}

/// `s` split on every `/`.
pub open spec fn split(s: Seq<u8>) -> Seq<Seq<u8>> {
    split_on(s, SLASH)
}

/// Segments put back together with `/` between them.
pub open spec fn join(ss: Seq<Seq<u8>>) -> Seq<u8>
    decreases ss.len(),
{
    if ss.len() == 0 {
        Seq::empty()
    } else if ss.len() == 1 {
        ss[0]
    } else {
        join(ss.drop_last()).push(SLASH) + ss.last()
    }
}

pub proof fn lemma_split_len(s: Seq<u8>, sep: u8)
    ensures
        split_on(s, sep).len() >= 1,
    decreases s.len(),
{
    if s.len() > 0 {
        lemma_split_len(s.drop_last(), sep);
    }
}

/// Joining the segments of a path gives the path back.
pub proof fn lemma_join_split(s: Seq<u8>)
    ensures
        join(split(s)) == s,
    decreases s.len(),
{
    if s.len() > 0 {
        let p = s.drop_last();
        lemma_join_split(p);
        lemma_split_len(p, SLASH);
        let r = split(p);
        if s.last() == SLASH {
            let q = r.push(Seq::empty());
            assert(q.drop_last() =~= r);
            assert(join(q) =~= join(r).push(SLASH) + Seq::<u8>::empty());
            assert(p.push(SLASH) =~= s);
        } else {
            let q = r.update(r.len() - 1, r.last().push(s.last()));
            if r.len() == 1 {
                assert(join(q) == q[0]);
            } else {
                assert(q.drop_last() =~= r.drop_last());
                assert(join(q) == join(r.drop_last()).push(SLASH) + q.last());
                assert(join(r.drop_last()).push(SLASH) + r.last().push(s.last())
                    =~= (join(r.drop_last()).push(SLASH) + r.last()).push(s.last()));
            }
            assert(p.push(s.last()) =~= s);
        }
    }
}

/// Splits `s` on every `sep`.
pub fn split_bytes_on(s: &[u8], sep: u8) -> (r: Vec<Vec<u8>>)
    ensures
        r@.len() == split_on(s@, sep).len(),
        forall|k: int| 0 <= k < r@.len() ==> (#[trigger] r@[k])@ == split_on(s@, sep)[k],
{
    let mut segs: Vec<Vec<u8>> = Vec::new();
    let mut cur: Vec<u8> = Vec::new();
    let mut i: usize = 0;
    while i < s.len()
        invariant
            i <= s@.len(),
            segs@.len() + 1 == split_on(s@.subrange(0, i as int), sep).len(),
            forall|k: int| 0 <= k < segs@.len() ==> (#[trigger] segs@[k])@ == split_on(s@.subrange(0, i as int), sep)[k],
            cur@ == split_on(s@.subrange(0, i as int), sep).last(),
        decreases s@.len() - i,
    {
        let ghost pre = s@.subrange(0, i as int);
        let ghost next = s@.subrange(0, i as int + 1);
        proof {
            assert(next.drop_last() =~= pre);
            lemma_split_len(pre, sep);
        }
        let b = s[i];
        if b == sep {
            segs.push(cur);
            cur = Vec::new();
            assert(cur@ =~= split_on(next, sep).last());
        } else {
            cur.push(b);
        }
        i = i + 1;
    }
    assert(s@.subrange(0, s@.len() as int) =~= s@);
    segs.push(cur);
    segs
}

/// Splits `s` on every `/`.
pub fn split_bytes(s: &[u8]) -> (r: Vec<Vec<u8>>)
    ensures
        r@.len() == split(s@).len(),
        forall|k: int| 0 <= k < r@.len() ==> (#[trigger] r@[k])@ == split(s@)[k],
{
    split_bytes_on(s, SLASH)
}

// ---------------------------------------------------------------- pieces

/// Position of the `>` that closes a placeholder, scanning from `k`; none if a
/// `<` or the end comes first.
pub open spec fn close_from(s: Seq<u8>, k: int) -> Option<int>
    decreases s.len() - k,
{
    if k < 0 || k >= s.len() {
        None
    } else if s[k] == GT {
        Some(k)
    } else if s[k] == LT {
        None
    } else {
        close_from(s, k + 1)
    }
}

/// End of a placeholder with a non-empty name opening at `i`, if there is one.
pub open spec fn hole_end(s: Seq<u8>, i: int) -> Option<int> {
    if 0 <= i < s.len() && s[i] == LT {
        match close_from(s, i + 1) {
            Some(j) => if i + 1 < j < s.len() { Some(j) } else { None },
            None => None,
        }
    } else {
        None
    }
}

/// `s` from position `i` on, read as pieces.
pub open spec fn pieces_from(s: Seq<u8>, i: int) -> Seq<PieceView>
    decreases s.len() - i,
{
    if i < 0 || i >= s.len() {
        Seq::empty()
    } else {
        match hole_end(s, i) {
            Some(j) => seq![PieceView::Hole(s.subrange(i + 1, j))] + pieces_from(s, j + 1),
            None => seq![PieceView::Byte(s[i])] + pieces_from(s, i + 1),
        }
    }
}

pub open spec fn segment_of(raw: Seq<u8>) -> SegmentView {
    SegmentView { raw, pieces: pieces_from(raw, 0) }
}

/// The bytes `s[a..b]`.
pub fn copy_range(s: &[u8], a: usize, b: usize) -> (r: Vec<u8>)
    requires
        a <= b <= s@.len(),
    ensures
        r@ == s@.subrange(a as int, b as int),
{
    let mut out: Vec<u8> = Vec::new();
    let mut k: usize = a;
    while k < b
        invariant
            a <= k <= b,
            b <= s@.len(),
            out@ == s@.subrange(a as int, k as int),
        decreases b - k,
    {
        out.push(s[k]);
        assert(s@.subrange(a as int, k as int + 1) =~= s@.subrange(a as int, k as int).push(s@[k as int]));
        k = k + 1;
    }
    out
}

fn find_close(s: &[u8], k: usize) -> (r: Option<usize>)
    requires
        k <= s@.len(),
    ensures
        r is Some ==> close_from(s@, k as int) == Some(r->Some_0 as int),
        r is None ==> close_from(s@, k as int) is None,
        r is Some ==> k <= r->Some_0 < s@.len(),
{
    let mut m: usize = k;
    while m < s.len()
        invariant
            k <= m <= s@.len(),
            close_from(s@, k as int) == close_from(s@, m as int),
        decreases s@.len() - m,
    {
        if s[m] == GT {
            return Some(m);
        } else if s[m] == LT {
            return None;
        }
        m = m + 1;
    }
    None
}

/// Reads a segment's text as pieces.
pub fn parse_segment(s: &[u8]) -> (r: Vec<Piece>)
    ensures
        r@.map_values(|p: Piece| p@) == pieces_from(s@, 0),
{
    let mut out: Vec<Piece> = Vec::new();
    let mut i: usize = 0;
    while i < s.len()
        invariant
            i <= s@.len(),
            out@.map_values(|p: Piece| p@) + pieces_from(s@, i as int) == pieces_from(s@, 0),
        decreases s@.len() - i,
    {
        let ghost before = out@.map_values(|p: Piece| p@);
        let mut hole: Option<usize> = None;
        if s[i] == LT {
            let c = find_close(s, i + 1);
            match c {
                Some(j) => {
                    if i + 1 < j {
                        hole = Some(j);
                    }
                },
                None => {},
            }
            proof {
                match c {
                    Some(j) => assert(close_from(s@, i as int + 1) == Some(j as int)),
                    None => assert(close_from(s@, i as int + 1) is None),
                }
            }
        }
        match hole {
            Some(j) => {
                assert(hole_end(s@, i as int) == Some(j as int));
                let name = copy_range(s, i + 1, j);
                assert(name@ =~= s@.subrange(i + 1, j as int));
                out.push(Piece::Hole(name));
                assert(out@.map_values(|p: Piece| p@) =~= before.push(PieceView::Hole(s@.subrange(i + 1, j as int))));
                assert(before + pieces_from(s@, i as int) =~= out@.map_values(|p: Piece| p@) + pieces_from(s@, j as int + 1));
                i = j + 1;
            },
            None => {
                assert(hole_end(s@, i as int) is None);
                out.push(Piece::Byte(s[i]));
                assert(out@.map_values(|p: Piece| p@) =~= before.push(PieceView::Byte(s@[i as int])));
                assert(before + pieces_from(s@, i as int) =~= out@.map_values(|p: Piece| p@) + pieces_from(s@, i as int + 1));
                i = i + 1;
            },
        }
    }
    assert(pieces_from(s@, i as int) =~= Seq::<PieceView>::empty());
    assert(out@.map_values(|p: Piece| p@) =~= out@.map_values(|p: Piece| p@) + Seq::<PieceView>::empty());
    out
}

/// Whether `a` and `b` hold the same bytes.
pub fn bytes_eq(a: &[u8], b: &[u8]) -> (r: bool)
    ensures
        r == (a@ == b@),
{
    if a.len() != b.len() {
        return false;
    }
    let mut k: usize = 0;
    while k < a.len()
        invariant
            k <= a@.len(),
            a@.len() == b@.len(),
            forall|m: int| 0 <= m < k ==> a@[m] == b@[m],
        decreases a@.len() - k,
    {
        if a[k] != b[k] {
            return false;
        }
        k = k + 1;
    }
    assert(a@ =~= b@);
    true
}

// ---------------------------------------------------------------- templates

/// A segment that is exactly one placeholder captures a whole path segment.
pub open spec fn is_capture(seg: SegmentView) -> bool {
    seg.pieces.len() == 1 && seg.pieces[0] is Hole
}

pub open spec fn capture_name(seg: SegmentView) -> Seq<u8> {
    seg.pieces[0]->Hole_0
}

/// The template that a pattern reads as.
pub open spec fn template_of(p: Seq<u8>) -> Seq<SegmentView> {
    split(p).map_values(|r: Seq<u8>| segment_of(r))
}

/// No capture name is used by two segments.
pub open spec fn names_distinct(t: Seq<SegmentView>) -> bool {
    forall|i: int, j: int|
        0 <= i < j < t.len() && is_capture(#[trigger] t[i]) && is_capture(#[trigger] t[j])
            ==> capture_name(t[i]) != capture_name(t[j])
}

/// What compiling a pattern gives.
pub open spec fn compile_spec(p: Seq<u8>) -> Result<Seq<SegmentView>, TemplateError> {
    if names_distinct(template_of(p)) {
        Ok(template_of(p))
    } else {
        Err(TemplateError::DuplicateCapture)
    }
}

impl Segment {
    /// The capture name, when the segment is a whole-segment capture.
    pub fn capture(&self) -> (r: Option<&Vec<u8>>)
        ensures
            r is Some == is_capture(self@),
            r is Some ==> r->Some_0@ == capture_name(self@),
    {
        if self.pieces.len() == 1 {
            match &self.pieces[0] {
                Piece::Hole(n) => Some(n),
                Piece::Byte(_) => None,
            }
        } else {
            None
        }
    }
}

impl PathTemplate {
    /// Compiles a pattern; fails when two capture segments share a name.
    pub fn compile(pattern: &str) -> (r: Result<PathTemplate, TemplateError>)
        ensures
            match r {
                Ok(t) => compile_spec(pattern.spec_bytes()) == Ok::<Seq<SegmentView>, TemplateError>(t@),
                Err(e) => compile_spec(pattern.spec_bytes()) == Err::<Seq<SegmentView>, TemplateError>(e),
            },
    {
        let bytes = pattern.as_bytes();
        let raws = split_bytes(bytes);
        let ghost t = template_of(bytes@);
        let mut segments: Vec<Segment> = Vec::new();
        let mut i: usize = 0;
        while i < raws.len()
            invariant
                i <= raws@.len(),
                t == template_of(bytes@),
                t.len() == split(bytes@).len(),
                raws@.len() == split(bytes@).len(),
                forall|k: int| 0 <= k < raws@.len() ==> (#[trigger] raws@[k])@ == split(bytes@)[k],
                segments@.len() == i,
                forall|k: int| 0 <= k < i ==> (#[trigger] segments@[k])@ == t[k],
            decreases raws@.len() - i,
        {
            let raw = &raws[i];
            let seg = Segment { raw: copy_range(raw.as_slice(), 0, raw.len()), pieces: parse_segment(raw.as_slice()) };
            assert(raw@.subrange(0, raw@.len() as int) =~= raw@);
            assert(seg@ == t[i as int]);
            segments.push(seg);
            i = i + 1;
        }
        let tmpl = PathTemplate { segments };
        assert(tmpl@ =~= t);
        let n = tmpl.segments.len();
        let mut b: usize = 0;
        while b < n
            invariant
                b <= n,
                n == tmpl@.len(),
                tmpl@ == t,
                t == template_of(bytes@),
                bytes@ == pattern.spec_bytes(),
                forall|x: int, y: int|
                    0 <= x < y < b && is_capture(#[trigger] t[x]) && is_capture(#[trigger] t[y])
                        ==> capture_name(t[x]) != capture_name(t[y]),
            decreases n - b,
        {
            assert(tmpl@[b as int] == tmpl.segments@[b as int]@);
            match tmpl.segments[b].capture() {
                Some(nb) => {
                    let mut a: usize = 0;
                    while a < b
                        invariant
                            a <= b < n,
                            n == tmpl@.len(),
                            tmpl@ == t,
                            t == template_of(bytes@),
                            bytes@ == pattern.spec_bytes(),
                            is_capture(t[b as int]),
                            nb@ == capture_name(t[b as int]),
                            forall|x: int, y: int|
                                0 <= x < y < b && is_capture(#[trigger] t[x]) && is_capture(#[trigger] t[y])
                                    ==> capture_name(t[x]) != capture_name(t[y]),
                            forall|x: int| 0 <= x < a && is_capture(#[trigger] t[x])
                                ==> capture_name(t[x]) != capture_name(t[b as int]),
                        decreases b - a,
                    {
                        assert(tmpl@[a as int] == tmpl.segments@[a as int]@);
                        match tmpl.segments[a].capture() {
                            Some(na) => {
                                if bytes_eq(na.as_slice(), nb.as_slice()) {
                                    assert(tmpl@[a as int] == tmpl.segments@[a as int]@);
                                    assert(tmpl@[b as int] == tmpl.segments@[b as int]@);
                                    assert(is_capture(t[a as int]) && is_capture(t[b as int]));
                                    assert(!names_distinct(t));
                                    return Err(TemplateError::DuplicateCapture);
                                }
                            },
                            None => {},
                        }
                        a = a + 1;
                    }
                },
                None => {},
            }
            b = b + 1;
        }
        Ok(tmpl)
    }
}

// ---------------------------------------------------------------- matching

/// A capture segment takes any non-empty text; a literal one only its own text.
pub open spec fn seg_matches(seg: SegmentView, c: Seq<u8>) -> bool {
    if is_capture(seg) {
        c.len() > 0
    } else {
        c == seg.raw
    }
}

/// The captures of the first `n` segments, in order.
pub open spec fn captures_upto(t: Seq<SegmentView>, ps: Seq<Seq<u8>>, n: int) -> Seq<(Seq<u8>, Seq<u8>)>
    decreases n,
{
    if n <= 0 {
        Seq::empty()
    } else {
        let r = captures_upto(t, ps, n - 1);
        if is_capture(t[n - 1]) {
            r.push((capture_name(t[n - 1]), ps[n - 1]))
        } else {
            r
        }
    }
}

/// What matching a template against a concrete path gives.
pub open spec fn extract_spec(t: Seq<SegmentView>, path: Seq<u8>) -> Option<Seq<(Seq<u8>, Seq<u8>)>> {
    let ps = split(path);
    if ps.len() == t.len() && forall|i: int| 0 <= i < t.len() ==> seg_matches(#[trigger] t[i], ps[i]) {
        Some(captures_upto(t, ps, t.len() as int))
    } else {
        None
    }
}

// ---------------------------------------------------------------- generation

/// The value of the first entry named `name`.
pub open spec fn lookup(caps: Seq<(Seq<u8>, Seq<u8>)>, name: Seq<u8>) -> Option<Seq<u8>>
    decreases caps.len(),
{
    if caps.len() == 0 {
        None
    } else if caps[0].0 == name {
        Some(caps[0].1)
    } else {
        lookup(caps.drop_first(), name)
    }
}

/// Pieces from `k` on, with every placeholder replaced by its encoded value;
/// none if a placeholder has no value.
pub open spec fn render_from(ps: Seq<PieceView>, k: int, caps: Seq<(Seq<u8>, Seq<u8>)>) -> Option<Seq<u8>>
    decreases ps.len() - k,
{
    if k < 0 || k >= ps.len() {
        Some(Seq::empty())
    } else {
        match render_from(ps, k + 1, caps) {
            None => None,
            Some(rest) => match ps[k] {
                PieceView::Byte(b) => Some(seq![b] + rest),
                PieceView::Hole(n) => match lookup(caps, n) {
                    None => None,
                    Some(v) => Some(percent_encoded(v) + rest),
                },
            },
        }
    }
}

pub open spec fn render(seg: SegmentView, caps: Seq<(Seq<u8>, Seq<u8>)>) -> Option<Seq<u8>> {
    render_from(seg.pieces, 0, caps)
}

/// The rendered segments, where every segment renders.
pub open spec fn rendered(t: Seq<SegmentView>, caps: Seq<(Seq<u8>, Seq<u8>)>) -> Seq<Seq<u8>> {
    t.map_values(|s: SegmentView| render(s, caps)->Some_0)
}

/// What generating a path from a template and captures gives.
pub open spec fn generate_spec(t: Seq<SegmentView>, caps: Seq<(Seq<u8>, Seq<u8>)>) -> Option<Seq<u8>> {
    if forall|i: int| 0 <= i < t.len() ==> (#[trigger] render(t[i], caps)) is Some {
        Some(join(rendered(t, caps)))
    } else {
        None
    }
}

pub open spec fn prepend(a: Seq<u8>, o: Option<Seq<u8>>) -> Option<Seq<u8>> {
    match o {
        Some(r) => Some(a + r),
        None => None,
    }
}

impl CaptureSet {
    pub fn new() -> (r: CaptureSet)
        ensures
            r@ == Seq::<(Seq<u8>, Seq<u8>)>::empty(),
    {
        let r = CaptureSet { entries: Vec::new() };
        assert(r@ =~= Seq::<(Seq<u8>, Seq<u8>)>::empty());
        r
    }

    /// Adds an entry at the end; an earlier entry of the same name still wins.
    pub fn insert(&mut self, name: &[u8], value: &[u8])
        ensures
            final(self)@ == old(self)@.push((name@, value@)),
    {
        let n = copy_range(name, 0, name.len());
        let v = copy_range(value, 0, value.len());
        assert(name@.subrange(0, name@.len() as int) =~= name@);
        assert(value@.subrange(0, value@.len() as int) =~= value@);
        self.entries.push((n, v));
        assert(self@ =~= old(self)@.push((name@, value@)));
    }

    /// The value recorded under `name`.
    pub fn get(&self, name: &[u8]) -> (r: Option<&Vec<u8>>)
        ensures
            r is Some == lookup(self@, name@) is Some,
            r is Some ==> r->Some_0@ == lookup(self@, name@)->Some_0,
    {
        let mut k: usize = 0;
        assert(self@.subrange(0, self@.len() as int) =~= self@);
        while k < self.entries.len()
            invariant
                k <= self@.len(),
                self@.len() == self.entries@.len(),
                lookup(self@, name@) == lookup(self@.subrange(k as int, self@.len() as int), name@),
            decreases self@.len() - k,
        {
            let ghost rest = self@.subrange(k as int, self@.len() as int);
            assert(rest.drop_first() =~= self@.subrange(k as int + 1, self@.len() as int));
            assert(rest[0] == self@[k as int]);
            if bytes_eq(self.entries[k].0.as_slice(), name) {
                return Some(&self.entries[k].1);
            }
            k = k + 1;
        }
        None
    }
}

/// Appends the rendering of `ps` to `out`; false when a placeholder has no value.
fn render_into(out: &mut Vec<u8>, ps: &Vec<Piece>, caps: &CaptureSet) -> (ok: bool)
    ensures
        ok == render_from(ps@.map_values(|p: Piece| p@), 0, caps@) is Some,
        ok ==> final(out)@ == old(out)@ + render_from(ps@.map_values(|p: Piece| p@), 0, caps@)->Some_0,
{
    let ghost pv = ps@.map_values(|p: Piece| p@);
    let ghost start = out@;
    let mut k: usize = 0;
    while k < ps.len()
        invariant
            k <= ps@.len(),
            pv == ps@.map_values(|p: Piece| p@),
            start == old(out)@,
            start.len() <= out@.len(),
            render_from(pv, 0, caps@) == prepend(out@.subrange(start.len() as int, out@.len() as int), render_from(pv, k as int, caps@)),
            out@.subrange(0, start.len() as int) == start,
        decreases ps@.len() - k,
    {
        let ghost acc = out@.subrange(start.len() as int, out@.len() as int);
        match &ps[k] {
            Piece::Byte(b) => {
                out.push(*b);
                proof {
                    let acc2 = out@.subrange(start.len() as int, out@.len() as int);
                    assert(acc2 =~= acc.push(*b));
                    assert(out@.subrange(0, start.len() as int) =~= start);
                    match render_from(pv, k as int + 1, caps@) {
                        Some(rest) => assert(acc + (seq![*b] + rest) =~= acc2 + rest),
                        None => {},
                    }
                }
            },
            Piece::Hole(n) => {
                match caps.get(n.as_slice()) {
                    Some(v) => {
                        push_encoded(out, v.as_slice());
                        proof {
                            let acc2 = out@.subrange(start.len() as int, out@.len() as int);
                            assert(acc2 =~= acc + percent_encoded(v@));
                            assert(out@.subrange(0, start.len() as int) =~= start);
                            match render_from(pv, k as int + 1, caps@) {
                                Some(rest) => assert(acc + (percent_encoded(v@) + rest) =~= acc2 + rest),
                                None => {},
                            }
                        }
                    },
                    None => {
                        return false;
                    },
                }
            },
        }
        k = k + 1;
    }
    assert(out@ =~= start + out@.subrange(start.len() as int, out@.len() as int));
    true
}

impl PathTemplate {
    /// Matches a concrete path, collecting the captured values.
    pub fn extract(&self, path: &str) -> (r: Option<CaptureSet>)
        ensures
            r is Some == extract_spec(self@, path.spec_bytes()) is Some,
            r is Some ==> r->Some_0@ == extract_spec(self@, path.spec_bytes())->Some_0,
    {
        let bytes = path.as_bytes();
        let ps = split_bytes(bytes);
        let ghost psv = split(bytes@);
        let ghost t = self@;
        if ps.len() != self.segments.len() {
            return None;
        }
        let mut caps = CaptureSet::new();
        let mut i: usize = 0;
        while i < ps.len()
            invariant
                i <= ps@.len(),
                t == self@,
                bytes@ == path.spec_bytes(),
                psv == split(bytes@),
                ps@.len() == psv.len(),
                ps@.len() == t.len(),
                forall|k: int| 0 <= k < ps@.len() ==> (#[trigger] ps@[k])@ == psv[k],
                forall|k: int| 0 <= k < i ==> seg_matches(#[trigger] t[k], psv[k]),
                caps@ == captures_upto(t, psv, i as int),
            decreases ps@.len() - i,
        {
            let seg = &self.segments[i];
            assert(t[i as int] == seg@);
            let c = &ps[i];
            match seg.capture() {
                Some(name) => {
                    if c.len() == 0 {
                        assert(!seg_matches(t[i as int], psv[i as int]));
                        return None;
                    }
                    caps.insert(name.as_slice(), c.as_slice());
                },
                None => {
                    if !bytes_eq(c.as_slice(), seg.raw.as_slice()) {
                        assert(!seg_matches(t[i as int], psv[i as int]));
                        return None;
                    }
                },
            }
            i = i + 1;
        }
        Some(caps)
    }

    /// Builds a path, replacing each placeholder by its percent-encoded value;
    /// none when a placeholder has no value.
    pub fn generate(&self, caps: &CaptureSet) -> (r: Option<Vec<u8>>)
        ensures
            r is Some == generate_spec(self@, caps@) is Some,
            r is Some ==> r->Some_0@ == generate_spec(self@, caps@)->Some_0,
    {
        let ghost t = self@;
        let mut out: Vec<u8> = Vec::new();
        let mut i: usize = 0;
        while i < self.segments.len()
            invariant
                i <= t.len(),
                t == self@,
                t.len() == self.segments@.len(),
                forall|k: int| 0 <= k < i ==> (#[trigger] render(t[k], caps@)) is Some,
                out@ == join(rendered(t, caps@).subrange(0, i as int)),
            decreases t.len() - i,
        {
            let ghost before = out@;
            let seg = &self.segments[i];
            assert(t[i as int] == seg@);
            if i > 0 {
                out.push(SLASH);
            }
            let ghost mid = out@;
            if !render_into(&mut out, &seg.pieces, caps) {
                assert(render(t[i as int], caps@) is None);
                return None;
            }
            proof {
                let rs = rendered(t, caps@);
                let sub = rs.subrange(0, i as int + 1);
                assert(sub.drop_last() =~= rs.subrange(0, i as int));
                assert(rs[i as int] == render(t[i as int], caps@)->Some_0);
                if i == 0 {
                    assert(out@ =~= sub[0]);
                } else {
                    assert(out@ =~= join(sub.drop_last()).push(SLASH) + sub.last());
                }
            }
            i = i + 1;
        }
        assert(rendered(t, caps@).subrange(0, i as int) =~= rendered(t, caps@));
        Some(out)
    }
}

// ---------------------------------------------------------------- rule checks

/// Some segment of `t` captures under `name`.
pub open spec fn produces(t: Seq<SegmentView>, name: Seq<u8>) -> bool {
    exists|j: int| 0 <= j < t.len() && is_capture(#[trigger] t[j]) && capture_name(t[j]) == name
}

/// Every placeholder of `dst` names a capture of `src`.
pub open spec fn names_covered(src: Seq<SegmentView>, dst: Seq<SegmentView>) -> bool {
    forall|i: int, k: int|
        0 <= i < dst.len() && 0 <= k < dst[i].pieces.len() && (#[trigger] dst[i].pieces[k]) is Hole
            ==> produces(src, dst[i].pieces[k]->Hole_0)
}

impl PathTemplate {
    /// Whether some segment captures under `name`.
    pub fn has_capture(&self, name: &[u8]) -> (r: bool)
        ensures
            r == produces(self@, name@),
    {
        let mut j: usize = 0;
        while j < self.segments.len()
            invariant
                j <= self@.len(),
                self@.len() == self.segments@.len(),
                forall|x: int| 0 <= x < j && is_capture(#[trigger] self@[x]) ==> capture_name(self@[x]) != name@,
            decreases self@.len() - j,
        {
            assert(self@[j as int] == self.segments@[j as int]@);
            match self.segments[j].capture() {
                Some(c) => {
                    if bytes_eq(c.as_slice(), name) {
                        return true;
                    }
                },
                None => {},
            }
            j = j + 1;
        }
        false
    }

    /// Whether every placeholder of this template names a capture of `src`.
    pub fn uses_only_names_of(&self, src: &PathTemplate) -> (r: bool)
        ensures
            r == names_covered(src@, self@),
    {
        let ghost d = self@;
        let mut i: usize = 0;
        while i < self.segments.len()
            invariant
                i <= d.len(),
                d == self@,
                d.len() == self.segments@.len(),
                forall|a: int, k: int|
                    0 <= a < i && 0 <= k < d[a].pieces.len() && (#[trigger] d[a].pieces[k]) is Hole
                        ==> produces(src@, d[a].pieces[k]->Hole_0),
            decreases d.len() - i,
        {
            let seg = &self.segments[i];
            assert(d[i as int] == seg@);
            let mut k: usize = 0;
            while k < seg.pieces.len()
                invariant
                    i < d.len(),
                    d == self@,
                    d[i as int] == seg@,
                    k <= seg.pieces@.len(),
                    forall|a: int, m: int|
                        0 <= a < i && 0 <= m < d[a].pieces.len() && (#[trigger] d[a].pieces[m]) is Hole
                            ==> produces(src@, d[a].pieces[m]->Hole_0),
                    forall|m: int|
                        0 <= m < k && (#[trigger] d[i as int].pieces[m]) is Hole
                            ==> produces(src@, d[i as int].pieces[m]->Hole_0),
                decreases seg.pieces@.len() - k,
            {
                assert(d[i as int].pieces[k as int] == seg.pieces@[k as int]@);
                match &seg.pieces[k] {
                    Piece::Hole(n) => {
                        if !src.has_capture(n.as_slice()) {
                            assert(d[i as int].pieces[k as int] is Hole);
                            return false;
                        }
                    },
                    Piece::Byte(_) => {},
                }
                k = k + 1;
            }
            i = i + 1;
        }
        true
    }
}

// ---------------------------------------------------------------- laws

/// A path with a different number of segments than the template never matches.
pub proof fn lemma_segment_count_mismatch(t: Seq<SegmentView>, path: Seq<u8>)
    requires
        split(path).len() != t.len(),
    ensures
        extract_spec(t, path) is None,
{
}

/// Compiling one pattern twice gives templates that match and generate alike.
pub proof fn lemma_compile_deterministic(
    p: Seq<u8>,
    t1: Seq<SegmentView>,
    t2: Seq<SegmentView>,
    path: Seq<u8>,
    caps: Seq<(Seq<u8>, Seq<u8>)>,
)
    requires
        compile_spec(p) == Ok::<Seq<SegmentView>, TemplateError>(t1),
        compile_spec(p) == Ok::<Seq<SegmentView>, TemplateError>(t2),
    ensures
        extract_spec(t1, path) == extract_spec(t2, path),
        generate_spec(t1, caps) == generate_spec(t2, caps),
{
}

pub open spec fn no_holes(ps: Seq<PieceView>) -> bool {
    forall|k: int| 0 <= k < ps.len() ==> (#[trigger] ps[k]) is Byte
}

proof fn lemma_render_shift(x: PieceView, rest: Seq<PieceView>, k: int, caps: Seq<(Seq<u8>, Seq<u8>)>)
    requires
        0 <= k,
    ensures
        render_from(seq![x] + rest, k + 1, caps) == render_from(rest, k, caps),
    decreases rest.len() - k,
{
    if k < rest.len() {
        lemma_render_shift(x, rest, k + 1, caps);
        assert((seq![x] + rest)[k + 1] == rest[k]);
    }
}

proof fn lemma_render_plain(s: Seq<u8>, i: int, caps: Seq<(Seq<u8>, Seq<u8>)>)
    requires
        0 <= i <= s.len(),
        no_holes(pieces_from(s, i)),
    ensures
        render_from(pieces_from(s, i), 0, caps) == Some(s.subrange(i, s.len() as int)),
    decreases s.len() - i,
{
    if i < s.len() {
        let q = pieces_from(s, i);
        assert(q[0] is Byte);
        assert(hole_end(s, i) is None);
        let rest = pieces_from(s, i + 1);
        assert(q == seq![PieceView::Byte(s[i])] + rest);
        assert forall|k: int| 0 <= k < rest.len() implies (#[trigger] rest[k]) is Byte by {
            assert(q[k + 1] == rest[k]);
        }
        lemma_render_plain(s, i + 1, caps);
        lemma_render_shift(PieceView::Byte(s[i]), rest, 0, caps);
        assert(seq![s[i]] + s.subrange(i + 1, s.len() as int) =~= s.subrange(i, s.len() as int));
    } else {
        assert(s.subrange(i, s.len() as int) =~= Seq::<u8>::empty());
    }
}

proof fn lemma_lookup_push(a: Seq<(Seq<u8>, Seq<u8>)>, e: (Seq<u8>, Seq<u8>), n: Seq<u8>)
    ensures
        lookup(a.push(e), n) == (if lookup(a, n) is Some {
            lookup(a, n)
        } else if e.0 == n {
            Some(e.1)
        } else {
            None
        }),
    decreases a.len(),
{
    if a.len() > 0 {
        assert(a.push(e)[0] == a[0]);
        assert(a.push(e).drop_first() =~= a.drop_first().push(e));
        lemma_lookup_push(a.drop_first(), e, n);
    } else {
        assert(a.push(e)[0] == e);
        assert(a.push(e).drop_first() =~= a);
    }
}

proof fn lemma_lookup_absent(t: Seq<SegmentView>, ps: Seq<Seq<u8>>, m: int, n: Seq<u8>)
    requires
        0 <= m <= t.len(),
        forall|j: int| 0 <= j < m && is_capture(#[trigger] t[j]) ==> capture_name(t[j]) != n,
    ensures
        lookup(captures_upto(t, ps, m), n) is None,
    decreases m,
{
    if m > 0 {
        lemma_lookup_absent(t, ps, m - 1, n);
        if is_capture(t[m - 1]) {
            lemma_lookup_push(captures_upto(t, ps, m - 1), (capture_name(t[m - 1]), ps[m - 1]), n);
        }
    }
}

proof fn lemma_lookup_captured(t: Seq<SegmentView>, ps: Seq<Seq<u8>>, m: int, i: int)
    requires
        0 <= i < m <= t.len(),
        names_distinct(t),
        is_capture(t[i]),
    ensures
        lookup(captures_upto(t, ps, m), capture_name(t[i])) == Some(ps[i]),
    decreases m,
{
    let prev = captures_upto(t, ps, m - 1);
    if i == m - 1 {
        lemma_lookup_absent(t, ps, m - 1, capture_name(t[i]));
    } else {
        lemma_lookup_captured(t, ps, m - 1, i);
    }
    if is_capture(t[m - 1]) {
        lemma_lookup_push(prev, (capture_name(t[m - 1]), ps[m - 1]), capture_name(t[i]));
    }
}

/// Generating from the captures of a match rebuilds the matched path, for
/// templates whose literal segments hold no placeholder and paths whose
/// captured values encoding leaves unchanged.
pub proof fn lemma_round_trip(p: Seq<u8>, t: Seq<SegmentView>, path: Seq<u8>)
    requires
        compile_spec(p) == Ok::<Seq<SegmentView>, TemplateError>(t),
        extract_spec(t, path) is Some,
        forall|i: int| 0 <= i < t.len() && !is_capture(#[trigger] t[i]) ==> no_holes(t[i].pieces),
        forall|i: int| 0 <= i < t.len() && is_capture(#[trigger] t[i])
            ==> percent_encoded(split(path)[i]) == split(path)[i],
    ensures
        generate_spec(t, extract_spec(t, path)->Some_0) == Some(path),
{
    let ps = split(path);
    let caps = extract_spec(t, path)->Some_0;
    assert(caps == captures_upto(t, ps, t.len() as int));
    assert forall|i: int| 0 <= i < t.len() implies #[trigger] render(t[i], caps) == Some(ps[i]) by {
        assert(seg_matches(t[i], ps[i]));
        assert(t[i] == segment_of(split(p)[i]));
        if is_capture(t[i]) {
            lemma_lookup_captured(t, ps, t.len() as int, i);
            assert(render_from(t[i].pieces, 1, caps) == Some(Seq::<u8>::empty()));
            assert(percent_encoded(ps[i]) + Seq::<u8>::empty() =~= ps[i]);
        } else {
            let raw = split(p)[i];
            lemma_render_plain(raw, 0, caps);
            assert(raw.subrange(0, raw.len() as int) =~= raw);
        }
    }
    assert(rendered(t, caps) =~= ps);
    lemma_join_split(path);
}

} // verus!
