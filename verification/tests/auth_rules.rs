use amgix_now::auth::{required_role, role_phrase, KeyRole};

#[test]
fn required_role_matches_python_matrix() {
    let cases = [
        ("GET", "/v1/version", None),
        ("GET", "/v1/health/check", None),
        ("GET", "/v1/health/ready", None),
        ("GET", "/v1/collections", Some(KeyRole::Read)),
        ("POST", "/v1/collections/foo/search", Some(KeyRole::Search)),
        ("POST", "/v1/collections/foo", Some(KeyRole::Admin)),
        ("POST", "/v1/collections/foo/empty", Some(KeyRole::Admin)),
        ("POST", "/v1/collections/foo/documents", Some(KeyRole::Admin)),
        ("POST", "/v1/collections/foo/documents/sync", Some(KeyRole::Admin)),
        ("POST", "/v1/collections/foo/documents/bulk", Some(KeyRole::Admin)),
        ("POST", "/v1/collections/foo/documents/fetch", Some(KeyRole::Read)),
        ("DELETE", "/v1/collections/foo", Some(KeyRole::Admin)),
        ("DELETE", "/v1/collections/foo/documents/id", Some(KeyRole::Admin)),
        ("DELETE", "/v1/collections/foo/queue", Some(KeyRole::Admin)),
    ];
    for (method, path, expected) in cases {
        assert_eq!(required_role(method, path), expected, "{method} {path}");
    }
}

#[test]
fn role_phrase_uses_an_for_admin() {
    assert_eq!(role_phrase(KeyRole::Admin), "an admin");
    assert_eq!(role_phrase(KeyRole::Read), "a read");
}
