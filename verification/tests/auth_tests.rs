use pengagent::auth::{bearer_auth, bearer_credential, token_matches, AuthFailure};
use pengagent::config::Config;
use pengagent::endpoints::health::health;
use pengagent::error::{codes, error_response};

fn cfg() -> Config {
    Config {
        bind: "127.0.0.1:0".into(),
        token: "secret-test-token".into(),
        ops_repo_path: None,
        compose_file: "docker-compose.yml".into(),
        restart_whitelist: vec![],
        metrics_url: "".into(),
        docker_proxy_url: "".into(),
        audit_db: ":memory:".into(),
    }
}

fn refusal_status(res: Result<(), AuthFailure>) -> u16 {
    let failure = res.expect_err("the request should be refused");
    let (status, body) = failure.response();
    assert!(body.is_empty());
    status
}

#[test]
fn no_header_returns_401() {
    let res = bearer_auth(&cfg(), None);
    assert_eq!(res, Err(AuthFailure::NoBearer));
    assert_eq!(refusal_status(res), 401);
}

#[test]
fn wrong_token_returns_401() {
    let res = bearer_auth(&cfg(), Some("Bearer wrong-token"));
    assert_eq!(res, Err(AuthFailure::InvalidToken));
    assert_eq!(refusal_status(res), 401);
}

#[test]
fn correct_token_passes() {
    let res = bearer_auth(&cfg(), Some("Bearer secret-test-token"));
    assert_eq!(res, Ok(()));
}

#[test]
fn missing_bearer_prefix_returns_401() {
    let res = bearer_auth(&cfg(), Some("secret-test-token"));
    assert_eq!(res, Err(AuthFailure::NoBearer));
    assert_eq!(refusal_status(res), 401);
}

#[test]
fn scheme_is_case_sensitive_and_needs_the_space() {
    assert_eq!(bearer_auth(&cfg(), Some("bearer secret-test-token")), Err(AuthFailure::NoBearer));
    assert_eq!(bearer_auth(&cfg(), Some("Bearersecret-test-token")), Err(AuthFailure::NoBearer));
    assert_eq!(bearer_auth(&cfg(), Some("Bearer  secret-test-token")), Err(AuthFailure::InvalidToken));
    assert_eq!(bearer_auth(&cfg(), Some("Bearer secret-test-token ")), Err(AuthFailure::InvalidToken));
    assert_eq!(bearer_auth(&cfg(), Some("Bearer ")), Err(AuthFailure::InvalidToken));
}

#[test]
fn bearer_credential_strips_the_prefix() {
    assert_eq!(bearer_credential("Bearer abc"), Some("abc"));
    assert_eq!(bearer_credential("Bearer "), Some(""));
    assert_eq!(bearer_credential("Basic abc"), None);
    assert_eq!(bearer_credential(""), None);
}

#[test]
fn token_comparison() {
    assert!(token_matches("secret-test-token", "secret-test-token"));
    assert!(!token_matches("secret-test-token", "secret-test-toke"));
    assert!(!token_matches("secret-test-token", "secret-test-tokeN"));
    assert!(token_matches("", ""));
    assert!(token_matches("토큰", "토큰"));
    assert!(!token_matches("토큰", "토근"));
}

#[test]
fn refusals_answer_alike() {
    for f in [AuthFailure::NoBearer, AuthFailure::InvalidToken] {
        let (status, body) = f.response();
        assert_eq!(status, 401);
        assert_eq!(body, "");
    }
}

#[test]
fn error_response_builds_the_body() {
    let (status, body) = error_response(404, codes::NOT_FOUND, "Container 'x' not found");
    assert_eq!(status, 404);
    assert_eq!(body.schema_version, 1);
    assert_eq!(body.error.code, "not_found");
    assert_eq!(body.error.message, "Container 'x' not found");
    assert!(body.error.details.is_none());
}

#[test]
fn error_codes() {
    assert_eq!(codes::UNAUTHORIZED, "unauthorized");
    assert_eq!(codes::FORBIDDEN, "forbidden");
    assert_eq!(codes::NOT_FOUND, "not_found");
    assert_eq!(codes::VALIDATION_FAILED, "validation_failed");
    assert_eq!(codes::RESTART_NOT_WHITELISTED, "restart_not_whitelisted");
    assert_eq!(codes::AGENT_INTERNAL_ERROR, "agent_internal_error");
    assert_eq!(codes::AGENT_BUSY, "agent_busy");
}

#[test]
fn health_returns_ok_text() {
    assert_eq!(health(), "ok");
}
