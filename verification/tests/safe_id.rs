use tams::is_safe_id;

#[test]
fn safe_id_accepts_uuids() {
    assert!(is_safe_id("550e8400-e29b-41d4-a716-446655440000"));
}

#[test]
fn safe_id_rejects_forward_slash() {
    assert!(!is_safe_id("../etc/passwd"));
    assert!(!is_safe_id("foo/bar"));
}

#[test]
fn safe_id_rejects_backslash() {
    assert!(!is_safe_id("foo\\bar"));
}

#[test]
fn safe_id_rejects_exact_dot_dot() {
    assert!(!is_safe_id(".."));
}

#[test]
fn safe_id_accepts_dots_and_hyphens() {
    assert!(is_safe_id("my-flow.v2"));
    assert!(is_safe_id("flow_123"));
    assert!(is_safe_id(".hidden"));
    assert!(is_safe_id("foo..bar"));
}

#[test]
fn safe_id_rejects_empty_and_single_dot() {
    assert!(!is_safe_id(""));
    assert!(!is_safe_id("."));
}
