use codex_termux::headers::build_default_headers;
use std::collections::HashMap;

const UA: &str = "codex-mcp-client/0.0.0";

fn to_map(headers: codex_termux::byte_map::ByteMap) -> HashMap<Vec<u8>, Vec<u8>> {
    headers.into_entries().into_iter().collect()
}

#[test]
fn user_agent_is_always_set() {
    let map = to_map(build_default_headers(UA, None, None));
    assert_eq!(map, HashMap::from([(b"user-agent".to_vec(), UA.as_bytes().to_vec())]));
}

#[test]
fn invalid_headers_are_skipped_and_names_normalized() {
    let statics = vec![
        ("X-Custom".to_string(), "one".to_string()),
        ("bad name".to_string(), "x".to_string()),
        ("X-Bad-Value".to_string(), "a\nb".to_string()),
        ("".to_string(), "x".to_string()),
    ];
    let map = to_map(build_default_headers(UA, Some(statics), None));
    assert_eq!(map.get(&b"x-custom".to_vec()), Some(&b"one".to_vec()));
    assert_eq!(map.len(), 2);
}

#[test]
fn environment_headers_need_a_value() {
    let from_env = vec![
        ("X-Token".to_string(), Some("secret".to_string())),
        ("X-Blank".to_string(), Some(" \t ".to_string())),
        ("X-Unset".to_string(), None),
    ];
    let map = to_map(build_default_headers(UA, None, Some(from_env)));
    assert_eq!(map.get(&b"x-token".to_vec()), Some(&b"secret".to_vec()));
    assert!(map.get(&b"x-blank".to_vec()).is_none());
    assert!(map.get(&b"x-unset".to_vec()).is_none());
}

#[test]
fn later_headers_replace_earlier_ones() {
    let statics = vec![("User-Agent".to_string(), "custom".to_string())];
    let from_env = vec![("USER-AGENT".to_string(), Some("from-env".to_string()))];
    let map = to_map(build_default_headers(UA, Some(statics.clone()), None));
    assert_eq!(map.get(&b"user-agent".to_vec()), Some(&b"custom".to_vec()));
    let map = to_map(build_default_headers(UA, Some(statics), Some(from_env)));
    assert_eq!(map.get(&b"user-agent".to_vec()), Some(&b"from-env".to_vec()));
}

#[test]
fn stored_headers_are_accepted_by_http() {
    let statics = vec![("X-ÄBC".to_string(), "v".to_string()), ("Accept".to_string(), "caf\u{e9}".to_string())];
    for (k, v) in to_map(build_default_headers(UA, Some(statics), None)) {
        assert!(http::HeaderName::from_bytes(&k).is_ok());
        assert!(http::HeaderValue::from_bytes(&v).is_ok());
    }
}
