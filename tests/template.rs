use rocket_csrf::percent::percent_encode;
use rocket_csrf::template::{CaptureSet, PathTemplate, TemplateError};

fn entries(c: &CaptureSet) -> Vec<(Vec<u8>, Vec<u8>)> {
    c.entries.clone()
}

#[test]
fn extract_collects_captures() {
    let t = PathTemplate::compile("/a/<x>/b/<y>").unwrap();
    let c = t.extract("/a/42/b/zz").unwrap();
    assert_eq!(
        entries(&c),
        vec![(b"x".to_vec(), b"42".to_vec()), (b"y".to_vec(), b"zz".to_vec())]
    );
}

#[test]
fn extract_rejects_other_segment_counts() {
    let t = PathTemplate::compile("/a/<x>").unwrap();
    assert!(t.extract("/a/42/b").is_none());
    assert!(t.extract("/a").is_none());
    assert!(t.extract("/a/42").is_some());
}

#[test]
fn capture_needs_non_empty_segment() {
    let t = PathTemplate::compile("/a/<x>").unwrap();
    assert!(t.extract("/a/").is_none());
}

#[test]
fn literal_segments_match_exactly() {
    let t = PathTemplate::compile("/a//b").unwrap();
    assert!(t.extract("/a//b").is_some());
    assert!(t.extract("/a/x/b").is_none());
    assert!(t.extract("/A//b").is_none());
}

#[test]
fn duplicate_capture_is_refused() {
    assert_eq!(
        PathTemplate::compile("/<x>/<x>").err(),
        Some(TemplateError::DuplicateCapture)
    );
}

#[test]
fn generate_percent_encodes_values() {
    let t = PathTemplate::compile("/v/<u>").unwrap();
    let mut c = CaptureSet::new();
    c.insert(b"u", b"/a b");
    assert_eq!(t.generate(&c), Some(b"/v/%2Fa%20b".to_vec()));
}

#[test]
fn generate_fills_placeholders_inside_segments() {
    let t = PathTemplate::compile("/err?where=<w>").unwrap();
    let mut c = CaptureSet::new();
    c.insert(b"w", b"here");
    assert_eq!(t.generate(&c), Some(b"/err?where=here".to_vec()));
}

#[test]
fn generate_without_value_fails() {
    let t = PathTemplate::compile("/v/<u>").unwrap();
    let mut c = CaptureSet::new();
    c.insert(b"other", b"1");
    assert_eq!(t.generate(&c), None);
}

#[test]
fn generate_after_extract_round_trips() {
    let t = PathTemplate::compile("/users/<id>/posts/<post>").unwrap();
    let c = t.extract("/users/7/posts/abc").unwrap();
    assert_eq!(t.generate(&c), Some(b"/users/7/posts/abc".to_vec()));
}

#[test]
fn compiling_twice_behaves_alike() {
    let t1 = PathTemplate::compile("/a/<x>").unwrap();
    let t2 = PathTemplate::compile("/a/<x>").unwrap();
    for p in ["/a/1", "/a/", "/b/1", "/a/1/2"] {
        let e1 = t1.extract(p).map(|c| entries(&c));
        let e2 = t2.extract(p).map(|c| entries(&c));
        assert_eq!(e1, e2);
    }
    let mut c = CaptureSet::new();
    c.insert(b"x", b"q");
    assert_eq!(t1.generate(&c), t2.generate(&c));
}

#[test]
fn percent_encode_matches_known_output() {
    assert_eq!(
        percent_encode(b"hello?a=<b>hi</b>"),
        b"hello%3Fa%3D%3Cb%3Ehi%3C%2Fb%3E".to_vec()
    );
    assert_eq!(percent_encode(b"a-Z_9~"), b"a-Z_9~".to_vec());
    assert_eq!(percent_encode("é".as_bytes()), b"%C3%A9".to_vec());
}
