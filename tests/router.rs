use rocket_csrf::method::Method;
use rocket_csrf::router::{route, ExceptionRule};
use rocket_csrf::template::PathTemplate;

fn rule(src: &str, dst: &str, method: Method) -> ExceptionRule {
    ExceptionRule {
        source: PathTemplate::compile(src).unwrap(),
        destination: PathTemplate::compile(dst).unwrap(),
        method,
    }
}

#[test]
fn first_matching_rule_wins() {
    let rules = vec![
        rule("/a/<x>", "/safe?x=<x>", Method::Get),
        rule("/a/<x>", "/other", Method::Get),
    ];
    assert_eq!(route(&rules, "/a/42"), Some((b"/safe?x=42".to_vec(), Method::Get)));
}

#[test]
fn rule_that_cannot_generate_is_skipped() {
    let rules = vec![
        rule("/a/<x>", "/needs/<y>", Method::Get),
        rule("/a/<x>", "/other", Method::Post),
    ];
    assert_eq!(route(&rules, "/a/42"), Some((b"/other".to_vec(), Method::Post)));
}

#[test]
fn no_rule_applies() {
    let rules = vec![rule("/a/<x>", "/safe", Method::Get)];
    assert_eq!(route(&rules, "/b/42"), None);
    assert_eq!(route(&Vec::new(), "/a/42"), None);
}
