use jsonwebtoken::{crypto, Algorithm, EncodingKey};
use store_auth::authentication::AuthenticationError;
use store_auth::base64url::b64url_encode;
use store_auth::bigcommerce::{decode_jwt, find_script_with_name, parse_oauth_response, BCClaims, BCListScriptsResponse, BCScript, BCUser};
use store_auth::token::hs256_header_b64;
use store_auth::Secret;

fn platform_token(claims_json: &str, key: &str) -> String {
    let header = hs256_header_b64();
    let payload = b64url_encode(&claims_json.as_bytes().to_vec());
    let msg = format!("{}.{}", header, payload);
    let sig = crypto::sign(
        msg.as_bytes(),
        &EncodingKey::from_secret(key.as_bytes()),
        Algorithm::HS256,
    )
    .unwrap();
    format!("{}.{}", msg, sig)
}

#[test]
fn platform_token_decodes_under_client_secret() {
    let doc = "{\"user\":{\"id\":1,\"email\":\"user@example.com\"},\"owner\":{\"id\":2,\"email\":\"owner@example.com\"},\"sub\":\"stores/abc123\",\"exp\":99999999999}";
    let token = platform_token(doc, "client-secret");
    let key = Secret::new("client-secret".to_string());
    let claims = decode_jwt(token.as_str(), &key, 1_700_000_000).unwrap();
    assert_eq!(claims.user.id, 1);
    assert_eq!(claims.user.email, "user@example.com");
    assert_eq!(claims.owner.id, 2);
    assert_eq!(claims.owner.email, "owner@example.com");
    assert_eq!(claims.sub, "stores/abc123");
    assert_eq!(claims.get_store_hash().unwrap(), "abc123");
}

#[test]
fn platform_token_rejected_under_wrong_secret_or_expired() {
    let doc = "{\"user\":{\"id\":1,\"email\":\"u@e.c\"},\"owner\":{\"id\":2,\"email\":\"o@e.c\"},\"sub\":\"stores/abc123\",\"exp\":1700000000}";
    let token = platform_token(doc, "client-secret");
    let wrong = Secret::new("other-secret".to_string());
    assert!(matches!(
        decode_jwt(token.as_str(), &wrong, 1_600_000_000),
        Err(AuthenticationError::InvalidTokenError)
    ));
    let key = Secret::new("client-secret".to_string());
    assert!(matches!(
        decode_jwt(token.as_str(), &key, 1_700_000_000),
        Err(AuthenticationError::InvalidTokenError)
    ));
    assert!(decode_jwt(token.as_str(), &key, 1_600_000_000).is_ok());
}

#[test]
fn context_parsing_splits_at_first_separator() {
    let claims = BCClaims {
        user: BCUser { id: 1, email: "u@e.c".to_string() },
        owner: BCUser { id: 2, email: "o@e.c".to_string() },
        sub: "stores/abc123".to_string(),
    };
    assert_eq!(claims.get_store_hash().unwrap(), "abc123");
    let no_sep = BCClaims {
        user: BCUser { id: 1, email: "u@e.c".to_string() },
        owner: BCUser { id: 2, email: "o@e.c".to_string() },
        sub: "storesabc123".to_string(),
    };
    assert!(no_sep.get_store_hash().is_err());
}

#[test]
fn oauth_exchange_response_yields_store_identity() {
    let body = "{\"access_token\":\"platform-access-token-1\",\"scope\":\"store_v2_content\",\"user\":{\"id\":7,\"email\":\"owner@example.com\"},\"context\":\"stores/abc123\"}";
    let resp = parse_oauth_response(&body.as_bytes().to_vec()).unwrap();
    assert_eq!(resp.scope, "store_v2_content");
    assert_eq!(resp.user.id, 7);
    assert_eq!(resp.context, "stores/abc123");
    let store = resp.get_bigcommerce_store().unwrap();
    assert_eq!(store.store_hash, "abc123");
    assert_eq!(store.access_token, "platform-access-token-1");
    // the token is reachable only through the explicit accessor; the
    // masked form never contains it
    assert_eq!(resp.access_token.expose_secret().as_str(), "platform-access-token-1");
    assert!(!resp.access_token.masked().contains("platform-access-token-1"));
    let malformed = "{\"scope\":\"store_v2\"}";
    assert!(parse_oauth_response(&malformed.as_bytes().to_vec()).is_err());
}

#[test]
fn oauth_exchange_context_without_separator_is_a_format_error() {
    let body = "{\"access_token\":\"tok\",\"scope\":\"s\",\"user\":{\"id\":7,\"email\":\"o@e.c\"},\"context\":\"nostoreshash\"}";
    let resp = parse_oauth_response(&body.as_bytes().to_vec()).unwrap();
    assert!(resp.get_bigcommerce_store().is_err());
}

#[test]
fn oauth_request_body_has_expected_shape() {
    let body = store_auth::bigcommerce::oauth_request_body(
        "client-id",
        &Secret::new("client-secret".to_string()),
        "https://app.example.com",
        "code123",
        "store_v2",
        "stores/abc123",
    );
    assert_eq!(
        String::from_utf8(body).unwrap(),
        "{\"client_id\":\"client-id\",\"client_secret\":\"client-secret\",\"redirect_uri\":\"https://app.example.com/bigcommerce/install\",\"grant_type\":\"authorization_code\",\"code\":\"code123\",\"scope\":\"store_v2\",\"context\":\"stores/abc123\"}"
    );
}

#[test]
fn routes_are_built_from_base_urls() {
    assert_eq!(
        store_auth::bigcommerce::get_oauth2_url("https://login.bigcommerce.com"),
        "https://login.bigcommerce.com/oauth2/token"
    );
    assert_eq!(
        store_auth::bigcommerce::get_scripts_route("https://api.bigcommerce.com", "abc123"),
        "https://api.bigcommerce.com/stores/abc123/v3/content/scripts"
    );
    assert_eq!(
        store_auth::bigcommerce::get_store_information_route("https://api.bigcommerce.com", "abc123"),
        "https://api.bigcommerce.com/stores/abc123/v2/store"
    );
    assert_eq!(
        store_auth::bigcommerce::get_scripts_route_with_id("https://api.bigcommerce.com", "abc123", "u-1"),
        "https://api.bigcommerce.com/stores/abc123/v3/content/scripts/u-1"
    );
}

#[test]
fn first_script_with_name_is_found() {
    let mk = |name: &str, uuid: &str| BCScript {
        uuid: uuid.to_string(),
        api_client_id: "cid".to_string(),
        enabled: true,
        channel_id: 1,
        name: name.to_string(),
    };
    let scripts = BCListScriptsResponse { data: vec![mk("a", "u1"), mk("b", "u2"), mk("b", "u3")] };
    assert_eq!(find_script_with_name(&scripts, "b"), Some(1));
    assert_eq!(find_script_with_name(&scripts, "c"), None);
}
