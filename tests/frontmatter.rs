use spacenotes::frontmatter::{extract_spacetime_id, inject_spacetime_id, parse_frontmatter};

const U1: &str = "123e4567-e89b-42d3-a456-426614174000";
const U2: &str = "9f8e7d6c-5b4a-4321-8fed-cba987654321";

#[test]
fn inject_into_plain_body() {
    let out = inject_spacetime_id("hello\n", U1);
    assert_eq!(out, format!("---\nspacetime_id: {}\n---\n\nhello\n", U1));
}

#[test]
fn extract_after_inject_round_trips() {
    let bodies = ["", "hello\n", "# Title\n\nText", "---\ntitle: T\n---\nbody", "---\nnot closed"];
    for b in bodies {
        let out = inject_spacetime_id(b, U1);
        assert_eq!(extract_spacetime_id(&out), Some(U1.to_string()), "content {:?}", b);
    }
}

#[test]
fn inject_twice_keeps_one_id() {
    let bodies = ["hello", "---\ntitle: T\ntags: [a, b]\n---\nbody"];
    for b in bodies {
        let once = inject_spacetime_id(b, U1);
        let twice = inject_spacetime_id(&once, U2);
        assert_eq!(twice.matches("spacetime_id").count(), 1, "content {:?}", twice);
        assert_eq!(extract_spacetime_id(&twice), Some(U2.to_string()));
    }
}

#[test]
fn inject_keeps_other_keys_and_body() {
    let out = inject_spacetime_id("---\ntitle: T\n---\nbody", U1);
    assert_eq!(out, format!("---\ntitle: T\nspacetime_id: {}\n\n---\nbody", U1));
}

#[test]
fn parse_without_front_matter() {
    assert_eq!(parse_frontmatter("just text"), ("just text".to_string(), "{}".to_string()));
    assert_eq!(parse_frontmatter("---no close"), ("---no close".to_string(), "{}".to_string()));
}

#[test]
fn parse_with_front_matter() {
    let (body, fm) = parse_frontmatter("---\ntitle: T\n---\n\n  body text");
    assert_eq!(body, "body text");
    assert_eq!(fm, "{\"title\":\"T\"}");
}

#[test]
fn parse_malformed_yaml_gives_empty_object() {
    let c = "---\ntitle: [unclosed\n---\nbody";
    let (body, fm) = parse_frontmatter(c);
    assert_eq!(body, c);
    assert_eq!(fm, "{}");
}

#[test]
fn extract_from_yaml() {
    let c = format!("---\ntitle: T\nspacetime_id: {}\n---\nbody", U1);
    assert_eq!(extract_spacetime_id(&c), Some(U1.to_string()));
}

#[test]
fn extract_falls_back_to_pattern() {
    let c = "---\nspacetime_id: abc-123\nbad: [\n---\nbody";
    assert_eq!(extract_spacetime_id(c), Some("abc-123".to_string()));
}

#[test]
fn extract_none_without_id() {
    assert_eq!(extract_spacetime_id("---\ntitle: T\n---\nbody"), None);
    assert_eq!(extract_spacetime_id("plain"), None);
}

#[test]
fn extract_pattern_only_in_head() {
    let mut c = "x".repeat(2000);
    c.push_str("\nspacetime_id: abc\n");
    assert_eq!(extract_spacetime_id(&c), None);
}

#[test]
fn inject_into_malformed_header_prepends_fresh_one() {
    let c = "---\ntitle: [unclosed\n---\nbody";
    let out = inject_spacetime_id(c, U1);
    assert_eq!(out, format!("---\nspacetime_id: {}\n---\n\n{}", U1, c));
}

#[test]
fn inject_into_header_that_is_not_a_mapping() {
    let out = inject_spacetime_id("---\njust a scalar\n---\nbody", U1);
    assert_eq!(out, format!("---\nspacetime_id: {}\n\n---\nbody", U1));
    assert_eq!(extract_spacetime_id(&out), Some(U1.to_string()));
}
