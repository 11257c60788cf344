use base64::engine::general_purpose;
use base64::Engine;
use spire::headers::HeaderList;
use spire::middleware::authentication::{ApiKeyAuth, Authentication, BasicAuth, JwtAlgorithm, JwtAuth};
use spire::middleware::check::CheckResult;

#[test]
fn test_basic_auth_success() {
    let mut auth = BasicAuth {
        credentials: "user:pass".to_string(),
    };
    let encoded = general_purpose::STANDARD_NO_PAD.encode("user:pass");
    let mut headers = HeaderList::new();
    headers.insert("Authorization", format!("Basic {encoded}").as_bytes());

    assert!(auth.check_authentication(&headers).unwrap());
}

#[test]
fn test_basic_auth_missing_header() {
    let mut auth = BasicAuth {
        credentials: "user:pass".to_string(),
    };
    let headers = HeaderList::new();

    assert!(!auth.check_authentication(&headers).unwrap());
}

#[test]
fn test_basic_auth_invalid_format() {
    let mut auth = BasicAuth {
        credentials: "user:pass".to_string(),
    };
    let mut headers = HeaderList::new();
    headers.insert("Authorization", b"Bearer token");

    assert!(!auth.check_authentication(&headers).unwrap());
}

#[test]
fn test_basic_auth_wrong_credentials() {
    let mut auth = BasicAuth {
        credentials: "user:wrong".to_string(),
    };
    let encoded = general_purpose::STANDARD_NO_PAD.encode("user:pass");
    let mut headers = HeaderList::new();
    headers.insert("Authorization", format!("Basic {encoded}").as_bytes());

    assert!(!auth.check_authentication(&headers).unwrap());
}

#[test]
fn test_api_key_auth_success() {
    let mut auth = ApiKeyAuth {
        key: "X-API-KEY".to_string(),
        value: "secret".to_string(),
    };
    let mut headers = HeaderList::new();
    headers.insert("X-API-KEY", b"secret");

    assert!(auth.check_authentication(&headers).unwrap());
}

#[test]
fn test_api_key_auth_missing_header() {
    let mut auth = ApiKeyAuth {
        key: "X-API-KEY".to_string(),
        value: "secret".to_string(),
    };
    let headers = HeaderList::new();

    assert!(!auth.check_authentication(&headers).unwrap());
}

#[test]
fn test_api_key_auth_wrong_value() {
    let mut auth = ApiKeyAuth {
        key: "X-API-KEY".to_string(),
        value: "secret".to_string(),
    };
    let mut headers = HeaderList::new();
    headers.insert("X-API-KEY", b"wrong");

    assert!(!auth.check_authentication(&headers).unwrap());
}

#[test]
fn test_api_key_auth_case_sensitive() {
    let mut auth = ApiKeyAuth {
        key: "X-API-KEY".to_string(),
        value: "Secret".to_string(),
    };
    let mut headers = HeaderList::new();
    headers.insert("X-API-KEY", b"secret");

    assert!(!auth.check_authentication(&headers).unwrap());
}

#[test]
fn test_authentication_enum_basic() {
    let mut auth = Authentication::Basic(BasicAuth {
        credentials: "admin:admin".to_string(),
    });
    let encoded = general_purpose::STANDARD_NO_PAD.encode("admin:admin");
    let mut headers = HeaderList::new();
    headers.insert("Authorization", format!("Basic {encoded}").as_bytes());

    assert!(auth.check_authentication(&headers).unwrap());
}

#[test]
fn test_authentication_enum_api_key() {
    let mut auth = Authentication::ApiKey(ApiKeyAuth {
        key: "Authorization".to_string(),
        value: "Bearer token".to_string(),
    });
    let mut headers = HeaderList::new();
    headers.insert("Authorization", b"Bearer token");

    assert!(auth.check_authentication(&headers).unwrap());
}

#[test]
fn test_invalid_header_value() {
    let mut auth = BasicAuth {
        credentials: "user:pass".to_string(),
    };
    let mut headers = HeaderList::new();
    let invalid_value = vec![0xff, 0xff, 0xff];
    headers.insert("Authorization", &invalid_value);

    let result = auth.check_authentication(&headers);
    assert!(result.is_err());
}

#[test]
fn unreadable_header_error_message() {
    let mut auth = ApiKeyAuth { key: "k".to_string(), value: "v".to_string() };
    let mut headers = HeaderList::new();
    headers.insert("k", &[0x80]);
    assert_eq!(auth.check_authentication(&headers).unwrap_err().0, "failed to convert header to a str");
}

#[test]
fn basic_auth_uses_unpadded_base64() {
    let mut auth = BasicAuth { credentials: "a".to_string() };
    let mut headers = HeaderList::new();
    headers.insert("Authorization", b"Basic YQ");
    assert!(auth.check_authentication(&headers).unwrap());
    headers.insert("Authorization", b"Basic YQ==");
    assert!(!auth.check_authentication(&headers).unwrap());
    headers.insert("Authorization", b"Basic a");
    assert!(!auth.check_authentication(&headers).unwrap());
}

#[test]
fn basic_auth_rejects_extra_spaces() {
    let mut auth = BasicAuth { credentials: "user:pass".to_string() };
    let encoded = general_purpose::STANDARD_NO_PAD.encode("user:pass");
    let mut headers = HeaderList::new();
    headers.insert("Authorization", format!("Basic  {encoded}").as_bytes());
    assert!(!auth.check_authentication(&headers).unwrap());
    headers.insert("Authorization", format!("Basic {encoded} x").as_bytes());
    assert!(!auth.check_authentication(&headers).unwrap());
}

#[test]
fn bearer_token_extraction() {
    let mut headers = HeaderList::new();
    assert_eq!(JwtAuth::bearer_token(&headers), None);
    headers.insert("authorization", b"Bearer abc.def");
    assert_eq!(JwtAuth::bearer_token(&headers), Some("abc.def".to_string()));
    headers.insert("authorization", b"Basic abc");
    assert_eq!(JwtAuth::bearer_token(&headers), None);
}

#[test]
fn jwt_without_bearer_is_not_authenticated() {
    let mut auth = JwtAuth { secret: "s".to_string(), ..Default::default() };
    assert_eq!(auth.algorithm, JwtAlgorithm::HS256);
    let headers = HeaderList::new();
    assert_eq!(auth.check_authentication(&headers), Ok(false));
}

#[test]
fn jwt_with_garbage_token_is_refused() {
    let mut auth = JwtAuth { secret: "s".to_string(), ..Default::default() };
    let mut headers = HeaderList::new();
    headers.insert("Authorization", b"Bearer not-a-token");
    assert_eq!(auth.check_authentication(&headers), Ok(false));
}

#[test]
fn jwt_with_valid_token_is_accepted() {
    let mut claims = serde_json::Map::new();
    claims.insert("sub".to_string(), serde_json::Value::String("x".to_string()));
    claims.insert("iss".to_string(), serde_json::Value::String("me".to_string()));
    claims.insert("exp".to_string(), serde_json::Value::from(4102444800u64));
    let key = jsonwebtoken::EncodingKey::from_secret(b"secret");
    let token = jsonwebtoken::encode(
        &jsonwebtoken::Header::new(jsonwebtoken::Algorithm::HS256),
        &serde_json::Value::Object(claims),
        &key,
    )
    .unwrap();
    let mut auth = JwtAuth { secret: "secret".to_string(), ..Default::default() };
    let mut headers = HeaderList::new();
    headers.insert("Authorization", format!("Bearer {token}").as_bytes());
    assert_eq!(auth.check_authentication(&headers), Ok(true));

    let mut wrong_secret = JwtAuth { secret: "other".to_string(), ..Default::default() };
    assert_eq!(wrong_secret.check_authentication(&headers), Ok(false));

    let mut wrong_issuer = JwtAuth {
        secret: "secret".to_string(),
        issuer: Some("someone".to_string()),
        ..Default::default()
    };
    assert_eq!(wrong_issuer.check_authentication(&headers), Ok(false));

    let mut right_issuer = JwtAuth {
        secret: "secret".to_string(),
        issuer: Some("me".to_string()),
        ..Default::default()
    };
    assert_eq!(right_issuer.check_authentication(&headers), Ok(true));
}

#[test]
fn check_request_verdicts() {
    let mut auth = Authentication::ApiKey(ApiKeyAuth { key: "k".to_string(), value: "v".to_string() });
    assert!(matches!(auth.check_request(None), Ok(CheckResult::Allowed)));
    let mut ok = HeaderList::new();
    ok.insert("k", b"v");
    assert!(matches!(auth.check_request(Some(&ok)), Ok(CheckResult::Allowed)));
    let bad = HeaderList::new();
    match auth.check_request(Some(&bad)) {
        Ok(CheckResult::Denied(d)) => {
            assert_eq!(d.status, 401);
            assert_eq!(d.body, "Authentication failed");
            assert!(d.headers.is_empty());
        }
        other => panic!("expected a denial, got {other:?}"),
    }
}

fn signed_token(aud: &str) -> String {
    let mut claims = serde_json::Map::new();
    claims.insert("aud".to_string(), serde_json::Value::String(aud.to_string()));
    claims.insert("exp".to_string(), serde_json::Value::from(4102444800u64));
    jsonwebtoken::encode(
        &jsonwebtoken::Header::new(jsonwebtoken::Algorithm::HS256),
        &serde_json::Value::Object(claims),
        &jsonwebtoken::EncodingKey::from_secret(b"secret"),
    )
    .unwrap()
}

#[test]
fn jwt_audience_and_algorithm_are_checked() {
    let token = signed_token("svc");
    let mut headers = HeaderList::new();
    headers.insert("Authorization", format!("Bearer {token}").as_bytes());
    let mut right = JwtAuth { secret: "secret".to_string(), audience: Some("svc".to_string()), ..Default::default() };
    assert_eq!(right.check_authentication(&headers), Ok(true));
    let mut wrong = JwtAuth { secret: "secret".to_string(), audience: Some("other".to_string()), ..Default::default() };
    assert_eq!(wrong.check_authentication(&headers), Ok(false));
    let mut other_alg = JwtAuth {
        secret: "secret".to_string(),
        algorithm: JwtAlgorithm::HS384,
        audience: Some("svc".to_string()),
        ..Default::default()
    };
    assert_eq!(other_alg.check_authentication(&headers), Ok(false));
}

#[test]
fn jwt_request_carries_the_configuration() {
    let auth = JwtAuth {
        secret: "s3".to_string(),
        algorithm: JwtAlgorithm::HS512,
        issuer: Some("iss".to_string()),
        audience: None,
    };
    let mut headers = HeaderList::new();
    assert!(auth.jwt_request(&headers).is_none());
    headers.insert("Authorization", b"Bearer a.b.c");
    let req = auth.jwt_request(&headers).unwrap();
    assert_eq!(req.token, "a.b.c");
    assert_eq!(req.secret, "s3");
    assert_eq!(req.algorithm, JwtAlgorithm::HS512);
    assert_eq!(req.issuer, Some("iss".to_string()));
    assert_eq!(req.audience, None);
}
