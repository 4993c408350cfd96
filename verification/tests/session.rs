use mci_client::{
    clear_auth_values, expiry_from_seconds, required_env, reset_saved_auth, safe_i64,
    string_field, token_is_valid, CredentialType, DotEnvStore, FetchStep, HttpFailure, JsonNumber,
    JsonValue, MciError, MciInternetClient, PackagesFetch, TokenStep,
};

const NOW: i64 = 1_700_000_000;

fn store(body: &str) -> DotEnvStore {
    DotEnvStore::new(".env", Some(body))
}

fn client(body: &str) -> MciInternetClient {
    MciInternetClient::new(store(body)).unwrap()
}

fn s(v: &str) -> JsonValue {
    JsonValue::Str { text: v.to_string(), float_reading: None }
}

fn n(v: u64) -> JsonValue {
    JsonValue::Number(JsonNumber::PosInt(v))
}

fn auth_payload() -> JsonValue {
    JsonValue::Object(vec![
        ("access_token".to_string(), s("eyJhbG.access")),
        ("expires_in".to_string(), n(1800)),
        ("refresh_token".to_string(), s("eyJhbG.refresh")),
        ("refresh_expires_in".to_string(), n(2522000)),
        ("session_state".to_string(), s("111_222_333")),
    ])
}

#[test]
fn new_requires_username_then_password() {
    match MciInternetClient::new(store("MCI_PASSWORD=p\n")) {
        Err(MciError::MissingEnv(k)) => assert_eq!(k, "MCI_USERNAME"),
        other => panic!("unexpected {other:?}"),
    }
    match MciInternetClient::new(store("MCI_USERNAME=u\nMCI_PASSWORD=\"\"\n")) {
        Err(MciError::MissingEnv(k)) => assert_eq!(k, "MCI_PASSWORD"),
        other => panic!("unexpected {other:?}"),
    }
    let err = MciInternetClient::new(store("")).unwrap_err();
    assert_eq!(err.message(), "Missing required environment variable: MCI_USERNAME");
}

#[test]
fn new_reads_saved_tokens() {
    let c = client(
        "MCI_USERNAME=\"9123456789\"\nMCI_PASSWORD=pw\nMCI_ACCESS_TOKEN=\"a\"\nMCI_REFRESH_TOKEN=\"\"\n",
    );
    assert_eq!(c.access_token(), Some("a"));
    assert_eq!(c.refresh_token(), None);
}

#[test]
fn required_env_and_safe_i64() {
    let env = store("A=x\nB=\n");
    assert_eq!(required_env(&env, "A").unwrap(), "x");
    assert!(matches!(required_env(&env, "B"), Err(MciError::MissingEnv(k)) if k == "B"));
    assert_eq!(safe_i64(Some("1700000000")), Some(1_700_000_000));
    assert_eq!(safe_i64(Some("")), None);
    assert_eq!(safe_i64(Some(" 5")), None);
    assert_eq!(safe_i64(Some("-5")), Some(-5));
    assert_eq!(safe_i64(None), None);
}

#[test]
fn token_validity_and_expiry_margin() {
    assert!(token_is_valid(Some(NOW + 1), NOW));
    assert!(!token_is_valid(Some(NOW), NOW));
    assert!(!token_is_valid(None, NOW));
    assert_eq!(expiry_from_seconds(Some(&n(1800)), NOW), Some(NOW + 1770));
    assert_eq!(expiry_from_seconds(Some(&s("60")), NOW), Some(NOW + 30));
    assert_eq!(expiry_from_seconds(Some(&JsonValue::Null), NOW), None);
    assert_eq!(expiry_from_seconds(None, NOW), None);
    assert_eq!(
        expiry_from_seconds(Some(&n(i64::MAX as u64)), NOW),
        Some(NOW.wrapping_add(i64::MAX).wrapping_sub(30))
    );
}

#[test]
fn valid_saved_token_is_reused() {
    let body = format!(
        "MCI_USERNAME=u\nMCI_PASSWORD=p\nMCI_ACCESS_TOKEN=a\nMCI_ACCESS_TOKEN_EXPIRES_AT={}\n",
        NOW + 100
    );
    let c = client(&body);
    assert!(matches!(c.ensure_token_start(false, NOW), TokenStep::Ready(t) if t == "a"));
    // Forcing a refresh without a refresh token falls back to a login.
    match c.ensure_token_start(true, NOW) {
        TokenStep::Login(r) => {
            assert_eq!(r.username, "u");
            assert_eq!(r.credential, "p");
            assert_eq!(r.credential_type, CredentialType::Password);
            assert_eq!(r.bearer, None);
        }
        other => panic!("unexpected {other:?}"),
    }
}

#[test]
fn expired_token_is_refreshed_then_replaced() {
    let body = format!(
        "MCI_USERNAME=u\nMCI_PASSWORD=p\nMCI_ACCESS_TOKEN=a\nMCI_REFRESH_TOKEN=r\nMCI_ACCESS_TOKEN_EXPIRES_AT={}\n",
        NOW - 1
    );
    let c = client(&body);
    match c.ensure_token_start(false, NOW) {
        TokenStep::Refresh(r) => {
            assert_eq!(r.credential_type, CredentialType::RefreshToken);
            assert_eq!(r.credential, "r");
            assert_eq!(r.bearer.as_deref(), Some("a"));
        }
        other => panic!("unexpected {other:?}"),
    }
    assert!(matches!(c.ensure_token_after_refresh(Ok(())), TokenStep::Ready(t) if t == "a"));
    let rejected = MciError::Http(HttpFailure { status: Some(401), message: "401".to_string() });
    assert!(matches!(c.ensure_token_after_refresh(Err(rejected)), TokenStep::Login(_)));
    let offline = MciError::Http(HttpFailure { status: None, message: "offline".to_string() });
    assert!(matches!(
        c.ensure_token_after_refresh(Err(offline)),
        TokenStep::Failed(MciError::Http(h)) if h.status.is_none()
    ));
    assert!(matches!(
        c.ensure_token_after_refresh(Err(MciError::Io("disk".to_string()))),
        TokenStep::Failed(MciError::Io(_))
    ));
}

#[test]
fn no_tokens_means_login() {
    let c = client("MCI_USERNAME=u\nMCI_PASSWORD=p\n");
    assert!(matches!(c.ensure_token_start(false, NOW), TokenStep::Login(_)));
    assert!(matches!(c.ensure_token_start(true, NOW), TokenStep::Login(_)));
    assert!(matches!(
        c.ensure_token_after_login(Ok(())),
        Err(MciError::Auth("Authentication failed: access token not available."))
    ));
    assert!(matches!(
        c.ensure_token_after_login(Err(MciError::Json("bad".to_string()))),
        Err(MciError::Json(_))
    ));
}

#[test]
fn auth_response_updates_session_and_env() {
    let mut c = client("# keep\nMCI_USERNAME=u\nMCI_PASSWORD=p\n");
    c.accept_auth_response(&auth_payload(), NOW).unwrap();
    assert_eq!(c.access_token(), Some("eyJhbG.access"));
    assert_eq!(c.refresh_token(), Some("eyJhbG.refresh"));
    let env = c.env_store();
    assert_eq!(env.get("MCI_ACCESS_TOKEN"), Some("eyJhbG.access"));
    assert_eq!(env.get("MCI_SESSION_STATE"), Some("111_222_333"));
    assert_eq!(env.get("MCI_ACCESS_TOKEN_EXPIRES_AT"), Some("1700001770"));
    assert_eq!(env.get("MCI_REFRESH_TOKEN_EXPIRES_AT"), Some("1702521970"));
    assert!(env.render().starts_with("# keep\n"));

    // What was written is what a new session reads back.
    let again = MciInternetClient::new(DotEnvStore::new(".env", Some(&env.render()))).unwrap();
    assert!(matches!(again.ensure_token_start(false, NOW), TokenStep::Ready(t) if t == "eyJhbG.access"));
    assert!(matches!(again.ensure_token_start(false, NOW + 1770), TokenStep::Refresh(_)));
}

#[test]
fn partial_auth_response_keeps_the_rest() {
    let mut c = client("MCI_USERNAME=u\nMCI_PASSWORD=p\nMCI_REFRESH_TOKEN=r\n");
    let payload = JsonValue::Object(vec![
        ("access_token".to_string(), s("new")),
        ("refresh_token".to_string(), s("")),
    ]);
    c.accept_auth_response(&payload, NOW).unwrap();
    assert_eq!(c.refresh_token(), Some("r"));
    assert_eq!(c.env_store().get("MCI_ACCESS_TOKEN_EXPIRES_AT"), Some(""));
}

#[test]
fn non_object_auth_response_is_refused() {
    let mut c = client("MCI_USERNAME=u\nMCI_PASSWORD=p\n");
    let r = c.accept_auth_response(&JsonValue::Array(vec![]), NOW);
    assert!(matches!(r, Err(MciError::UnexpectedResponse("Unexpected auth response format."))));
    assert_eq!(c.access_token(), None);
}

#[test]
fn reset_forgets_tokens() {
    let mut c = client("MCI_USERNAME=u\nMCI_PASSWORD=p\nMCI_ACCESS_TOKEN=a\nMCI_REFRESH_TOKEN=r\n");
    c.reset_auth();
    assert_eq!(c.access_token(), None);
    assert_eq!(c.refresh_token(), None);
    assert_eq!(c.env_store().get("MCI_ACCESS_TOKEN"), Some(""));
    assert_eq!(c.env_store().get("MCI_USERNAME"), Some("u"));

    let mut env = store("MCI_SESSION_STATE=s\n");
    clear_auth_values(&mut env);
    assert_eq!(env.get("MCI_SESSION_STATE"), Some(""));
    assert_eq!(env.get("MCI_REFRESH_TOKEN_EXPIRES_AT"), Some(""));

    let saved = reset_saved_auth("x.env", Some("MCI_USERNAME=u\nMCI_ACCESS_TOKEN=\"t\"\n"));
    assert_eq!(
        saved.render(),
        "MCI_USERNAME=\"u\"\nMCI_ACCESS_TOKEN=\"\"\nMCI_ACCESS_TOKEN_EXPIRES_AT=\"\"\nMCI_REFRESH_TOKEN=\"\"\nMCI_REFRESH_TOKEN_EXPIRES_AT=\"\"\nMCI_SESSION_STATE=\"\"\n"
    );
}

#[test]
fn string_fields_of_payloads() {
    let p = auth_payload();
    assert_eq!(string_field(&p, "session_state").as_deref(), Some("111_222_333"));
    assert_eq!(string_field(&p, "expires_in"), None);
    assert_eq!(string_field(&p, "missing"), None);
    assert_eq!(string_field(&s("x"), "x"), None);
}

#[test]
fn packages_fetch_retries_once_after_unauthorized() {
    let (mut fetch, first) = PackagesFetch::start();
    assert!(matches!(first, FetchStep::NeedToken { force_refresh: false }));
    assert!(matches!(fetch.on_token(Ok("t".to_string())), FetchStep::Get { token } if token == "t"));
    assert!(matches!(fetch.on_status(401), FetchStep::NeedToken { force_refresh: true }));
    assert!(matches!(fetch.on_status(401), FetchStep::ReadBody));
    assert!(matches!(fetch.on_token(Err(MciError::Auth("x"))), FetchStep::Failed(MciError::Auth("x"))));
    let (mut other, _) = PackagesFetch::start();
    assert!(matches!(other.on_status(200), FetchStep::ReadBody));
    assert!(matches!(other.on_status(401), FetchStep::NeedToken { force_refresh: true }));
}

#[test]
fn packages_body_must_be_an_object() {
    let (fetch, _) = PackagesFetch::start();
    assert!(matches!(fetch.on_body(Ok(JsonValue::Object(vec![]))), Ok(JsonValue::Object(_))));
    assert!(matches!(
        fetch.on_body(Ok(JsonValue::Null)),
        Err(MciError::UnexpectedResponse("Unexpected packages response format."))
    ));
    assert!(matches!(fetch.on_body(Err(MciError::Json("x".to_string()))), Err(MciError::Json(_))));
}

#[test]
fn error_messages() {
    assert_eq!(MciError::Io("disk full".to_string()).message(), "disk full");
    assert_eq!(
        MciError::Http(HttpFailure { status: Some(500), message: "boom".to_string() }).message(),
        "boom"
    );
    assert_eq!(MciError::Gui("g".to_string()).message(), "g");
    assert_eq!(MciError::UnexpectedResponse("u").message(), "u");
}
