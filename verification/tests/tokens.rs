use store_auth::authentication::{create_jwt, create_jwt_at, decode_token, decode_token_at};
use store_auth::authentication::{AuthClaims, AuthenticationError};
use store_auth::{JWTSecret, Secret};

fn secret(s: &str) -> JWTSecret {
    JWTSecret(Secret::new(s.to_string()))
}

#[test]
fn should_encode_and_decode_jwt_in_correct_format() {
    let store_hash = "test_store";
    let secret = JWTSecret(Secret::new("abcdefg".to_string()));
    let token = create_jwt(store_hash, &secret).unwrap();

    let parts: Vec<&str> = token.splitn(3, ".").collect();

    assert!(parts[0].len() > 0);
    assert!(parts[1].len() > 0);
    assert!(parts[2].len() > 0);

    let secret = JWTSecret(Secret::new("abcdefg".to_string()));
    let claims = decode_token(token.as_str(), &secret).unwrap();

    assert_eq!("test_store", claims.sub);
    assert!(
        claims.exp > (time::OffsetDateTime::now_utc() + time::Duration::minutes(30)).unix_timestamp(),
        "Expiration should be more than 30 mins"
    );
}

#[test]
fn round_trip_returns_subject_and_hour_expiry() {
    let k = secret("round-trip-key");
    let now: i64 = 1_700_000_000;
    let token = create_jwt_at("abc123", &k, now).unwrap();
    let claims = decode_token_at(token.as_str(), &k, now).unwrap();
    assert_eq!(claims.sub, "abc123");
    assert_eq!(claims.role, "user");
    assert_eq!(claims.exp, now + 3600);
}

#[test]
fn tampered_signature_is_rejected() {
    let k = secret("tamper-key");
    let now: i64 = 1_700_000_000;
    let token = create_jwt_at("abc123", &k, now).unwrap();
    let dot = token.rfind('.').unwrap();
    let (msg, sig) = token.split_at(dot + 1);
    // flip one bit of the first signature character within the alphabet
    let mut chars: Vec<char> = sig.chars().collect();
    chars[0] = if chars[0] == 'A' { 'B' } else { 'A' };
    let tampered: String = format!("{}{}", msg, chars.into_iter().collect::<String>());
    if tampered != token {
        assert!(matches!(
            decode_token_at(tampered.as_str(), &k, now),
            Err(AuthenticationError::InvalidTokenError)
        ));
    }
    // flipping a bit of every signature character in turn
    for i in 0..token.len() - dot - 1 {
        let mut bytes = token.clone().into_bytes();
        bytes[dot + 1 + i] ^= 1;
        if let Ok(t) = String::from_utf8(bytes) {
            if t != token {
                assert!(matches!(
                    decode_token_at(t.as_str(), &k, now),
                    Err(AuthenticationError::InvalidTokenError)
                ));
            }
        }
    }
}

#[test]
fn expired_token_is_rejected_despite_valid_signature() {
    let k = secret("expiry-key");
    let issued: i64 = 1_700_000_000;
    let token = create_jwt_at("abc123", &k, issued).unwrap();
    // two hours later the one-hour token is past its expiry
    assert!(matches!(
        decode_token_at(token.as_str(), &k, issued + 7200),
        Err(AuthenticationError::InvalidTokenError)
    ));
    // just before expiry it still validates
    assert!(decode_token_at(token.as_str(), &k, issued + 3599).is_ok());
}

#[test]
fn wrong_secret_is_rejected() {
    let k1 = secret("first-key");
    let k2 = secret("second-key");
    let now: i64 = 1_700_000_000;
    let token = create_jwt_at("abc123", &k1, now).unwrap();
    assert!(matches!(
        decode_token_at(token.as_str(), &k2, now),
        Err(AuthenticationError::InvalidTokenError)
    ));
}

#[test]
fn malformed_tokens_are_rejected() {
    let k = secret("shape-key");
    let now: i64 = 1_700_000_000;
    for bad in ["", "abc", "a.b", "a.b.c", "!!.!!.!!", "a.b.c.d"] {
        assert!(matches!(
            decode_token_at(bad, &k, now),
            Err(AuthenticationError::InvalidTokenError)
        ));
    }
}

#[test]
fn missing_credential_is_rejected_before_any_crypto() {
    let k = secret("bearer-key");
    let now: i64 = 1_700_000_000;
    assert!(matches!(
        AuthClaims::from_request(None, Some(&k), now),
        Err(AuthenticationError::InvalidTokenError)
    ));
    assert!(matches!(
        AuthClaims::from_request(Some("Basic dXNlcg=="), Some(&k), now),
        Err(AuthenticationError::InvalidTokenError)
    ));
}

#[test]
fn bearer_credential_yields_principal() {
    let k = secret("bearer-key");
    let now: i64 = 1_700_000_000;
    let token = create_jwt_at("abc123", &k, now).unwrap();
    let header = format!("Bearer {}", token);
    let claims = AuthClaims::from_request(Some(header.as_str()), Some(&k), now).unwrap();
    assert_eq!(claims.sub, "abc123");
}

#[test]
fn missing_secret_is_a_deployment_defect() {
    let now: i64 = 1_700_000_000;
    let r = AuthClaims::from_request(Some("Bearer x.y.z"), None, now);
    assert!(matches!(r, Err(AuthenticationError::UnexpectedError)));
    assert_eq!(r.unwrap_err().status_code(), 500);
    assert_eq!(AuthenticationError::InvalidTokenError.status_code(), 401);
}

#[test]
fn gate_only_check_allows_and_rejects() {
    let k = secret("gate-key");
    let now: i64 = 1_700_000_000;
    let token = create_jwt_at("abc123", &k, now).unwrap();
    assert!(store_auth::authentication::validate_jwt_bearer_token(
        token.as_str(),
        Some(&k),
        now
    )
    .is_ok());
    assert!(store_auth::authentication::validate_jwt_bearer_token("nope", Some(&k), now).is_err());
    assert!(matches!(
        store_auth::authentication::validate_jwt_bearer_token(token.as_str(), None, now),
        Err(AuthenticationError::UnexpectedError)
    ));
}

#[test]
fn session_claims_render_exact_bytes() {
    let body = store_auth::claims::render_session_claims("abc123", "user", 5);
    assert_eq!(
        String::from_utf8(body).unwrap(),
        "{\"sub\":\"abc123\",\"role\":\"user\",\"exp\":5}"
    );
    let body = store_auth::claims::render_session_claims("s", "r", -42);
    assert_eq!(String::from_utf8(body).unwrap(), "{\"sub\":\"s\",\"role\":\"r\",\"exp\":-42}");
}

#[test]
fn session_claims_parse_round_trip_and_rejection() {
    let doc = "{\"sub\":\"abc123\",\"role\":\"user\",\"exp\":1700000000}".as_bytes().to_vec();
    let (sub, role, exp) = store_auth::claims::parse_session_claims(&doc).unwrap();
    assert_eq!(sub, "abc123");
    assert_eq!(role, "user");
    assert_eq!(exp, 1_700_000_000);
    for bad in [
        "",
        "{}",
        "{\"sub\":\"a\",\"role\":\"user\",\"exp\":01}",
        "{\"sub\":\"a\",\"role\":\"user\",\"exp\":-0}",
        "{\"sub\":\"a\",\"role\":\"user\",\"exp\":1} ",
        "{\"sub\":\"a\",\"role\":\"user\",\"exp\":99999999999999999999}",
        "{\"role\":\"user\",\"sub\":\"a\",\"exp\":1}",
    ] {
        assert!(store_auth::claims::parse_session_claims(&bad.as_bytes().to_vec()).is_none());
    }
}

#[test]
fn base64url_round_trip_and_canonicity() {
    let data: Vec<u8> = vec![0, 1, 2, 250, 251, 252, 253, 254, 255];
    let enc = store_auth::base64url::b64url_encode(&data);
    let dec = store_auth::base64url::b64url_decode(enc.as_str()).unwrap();
    assert_eq!(dec, data);
    assert_eq!(store_auth::base64url::b64url_encode(&vec![77u8, 97, 110]), "TWFu");
    assert_eq!(store_auth::base64url::b64url_encode(&vec![77u8, 97]), "TWE");
    assert_eq!(store_auth::base64url::b64url_encode(&vec![77u8]), "TQ");
    assert!(store_auth::base64url::b64url_decode("TQ==").is_none());
    assert!(store_auth::base64url::b64url_decode("TR").is_none());
    assert!(store_auth::base64url::b64url_decode("T").is_none());
    assert!(store_auth::base64url::b64url_decode("T Q").is_none());
}
