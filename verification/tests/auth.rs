use clawgate::config::AuthConfig;
use clawgate::middleware::auth::{check_claims, require_auth, AuthOutcome};
use clawgate::router::{HeaderEntry, Headers};
use std::collections::HashMap;

const SECRET: &str = "test-secret";

fn headers(pairs: &[(&str, Option<&str>)]) -> Headers {
    Headers {
        entries: pairs
            .iter()
            .map(|(n, v)| HeaderEntry { name: n.to_string(), value: v.map(|s| s.to_string()) })
            .collect(),
    }
}

fn token(claims: &[(&str, serde_json::Value)], secret: &str) -> String {
    let mut map: HashMap<String, serde_json::Value> = HashMap::new();
    for (k, v) in claims {
        map.insert(k.to_string(), v.clone());
    }
    jsonwebtoken::encode(
        &jsonwebtoken::Header::default(),
        &map,
        &jsonwebtoken::EncodingKey::from_secret(secret.as_bytes()),
    )
    .unwrap()
}

fn far_future() -> serde_json::Value {
    serde_json::Value::from(4_102_444_800u64)
}

fn cfg(required: Option<Vec<&str>>, issuer: Option<&str>) -> Option<AuthConfig> {
    Some(AuthConfig {
        secret: SECRET.to_string(),
        required_claims: required.map(|v| v.into_iter().map(|s| s.to_string()).collect()),
        issuer: issuer.map(|s| s.to_string()),
    })
}

fn rejection(o: AuthOutcome) -> Option<(u16, String)> {
    match o {
        AuthOutcome::Pass => None,
        AuthOutcome::Reject { status, message } => Some((status, message)),
    }
}

#[test]
fn no_auth_config_lets_everything_through() {
    assert_eq!(rejection(require_auth(&None, &headers(&[]))), None);
}

#[test]
fn missing_authorization_header_is_401() {
    let r = rejection(require_auth(&cfg(None, None), &headers(&[("x-other", Some("1"))])));
    assert_eq!(r, Some((401, "Missing Authorization header".to_string())));
}

#[test]
fn non_text_authorization_header_is_400() {
    let r = rejection(require_auth(&cfg(None, None), &headers(&[("authorization", None)])));
    assert_eq!(r, Some((400, "Malformed Authorization header".to_string())));
}

#[test]
fn non_bearer_authorization_is_401() {
    let r = rejection(require_auth(&cfg(None, None), &headers(&[("authorization", Some("Basic abc"))])));
    assert_eq!(r, Some((401, "Authorization must be 'Bearer <token>'".to_string())));
}

#[test]
fn valid_token_with_required_claims_passes() {
    let t = token(&[("sub", "alice".into()), ("role", "admin".into()), ("exp", far_future())], SECRET);
    let bearer = format!("Bearer {}", t);
    let r = rejection(require_auth(&cfg(Some(vec!["sub", "role"]), None), &headers(&[("authorization", Some(&bearer))])));
    assert_eq!(r, None);
}

#[test]
fn token_missing_a_required_claim_is_401() {
    let t = token(&[("sub", "alice".into()), ("exp", far_future())], SECRET);
    let bearer = format!("Bearer {}", t);
    let r = rejection(require_auth(&cfg(Some(vec!["sub", "role"]), None), &headers(&[("authorization", Some(&bearer))])));
    assert_eq!(r, Some((401, "Missing required claim: role".to_string())));
}

#[test]
fn token_signed_with_another_secret_is_401() {
    let t = token(&[("sub", "alice".into()), ("exp", far_future())], "other-secret");
    let bearer = format!("Bearer {}", t);
    let (status, message) = rejection(require_auth(&cfg(None, None), &headers(&[("authorization", Some(&bearer))]))).unwrap();
    assert_eq!(status, 401);
    assert!(message.starts_with("Invalid token: "));
}

#[test]
fn expired_token_is_401() {
    let t = token(&[("sub", "alice".into()), ("exp", serde_json::Value::from(1_000u64))], SECRET);
    let bearer = format!("Bearer {}", t);
    let (status, message) = rejection(require_auth(&cfg(None, None), &headers(&[("authorization", Some(&bearer))]))).unwrap();
    assert_eq!(status, 401);
    assert!(message.starts_with("Invalid token: "));
}

#[test]
fn issuer_is_checked_when_configured() {
    let good = token(&[("iss", "gate".into()), ("exp", far_future())], SECRET);
    let bad = token(&[("iss", "elsewhere".into()), ("exp", far_future())], SECRET);
    let good_h = format!("Bearer {}", good);
    let bad_h = format!("Bearer {}", bad);
    let c = cfg(None, Some("gate"));
    assert_eq!(rejection(require_auth(&c, &headers(&[("authorization", Some(&good_h))]))), None);
    let (status, message) = rejection(require_auth(&c, &headers(&[("authorization", Some(&bad_h))]))).unwrap();
    assert_eq!(status, 401);
    assert!(message.starts_with("Invalid token: "));
}

#[test]
fn check_claims_names_the_decoding_error() {
    let r = rejection(check_claims(&None, &Err("InvalidSignature".to_string())));
    assert_eq!(r, Some((401, "Invalid token: InvalidSignature".to_string())));
}

#[test]
fn check_claims_reports_first_missing_claim_in_order() {
    let required = Some(vec!["a".to_string(), "b".to_string(), "c".to_string()]);
    let present = Ok(vec!["c".to_string(), "a".to_string()]);
    assert_eq!(rejection(check_claims(&required, &present)), Some((401, "Missing required claim: b".to_string())));
    let all = Ok(vec!["b".to_string(), "c".to_string(), "a".to_string()]);
    assert_eq!(rejection(check_claims(&required, &all)), None);
    assert_eq!(rejection(check_claims(&None, &Ok(vec![]))), None);
}
