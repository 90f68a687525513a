use clawgate::middleware::request_id::{request_id_of, request_id_to_insert};
use clawgate::router::{HeaderEntry, Headers};

fn headers(pairs: &[(&str, &str)]) -> Headers {
    Headers {
        entries: pairs
            .iter()
            .map(|(n, v)| HeaderEntry { name: n.to_string(), value: Some(v.to_string()) })
            .collect(),
    }
}

#[test]
fn existing_request_id_is_kept() {
    let h = headers(&[("x-request-id", "abc-123")]);
    assert!(request_id_to_insert(&h).is_none());
    assert_eq!(request_id_of(&h), "abc-123");
}

#[test]
fn missing_request_id_gets_a_fresh_uuid_v4() {
    let h = headers(&[("host", "example.com")]);
    let id = request_id_to_insert(&h).expect("an id is generated");
    let cs: Vec<char> = id.chars().collect();
    assert_eq!(cs.len(), 36);
    assert_eq!(cs[8], '-');
    assert_eq!(cs[13], '-');
    assert_eq!(cs[14], '4');
    assert_eq!(cs[18], '-');
    assert_eq!(cs[23], '-');
    let other = request_id_to_insert(&h).unwrap();
    assert_ne!(id, other);
}

#[test]
fn request_id_of_defaults_to_unknown() {
    assert_eq!(request_id_of(&headers(&[])), "unknown");
}
