use rust_expense_tracker::error::AppError;
use jsonwebtoken::{decode, encode, DecodingKey, EncodingKey, Header, Validation};
use rust_expense_tracker::auth::{
    access_decision, authorize, bearer_token, issue_token, token_at, TOKEN_LIFETIME_SECS,
};
use rust_expense_tracker::handlers::{authenticate, login, login_at, register};
use rust_expense_tracker::model::Credentials;
use rust_expense_tracker::store::AppState;

fn test_state() -> AppState {
    AppState::new("test-secret".to_string())
}

fn credentials(username: &str, password: &str) -> Credentials {
    Credentials { username: username.to_string(), password: password.to_string() }
}

#[test]
fn register_creates_user() {
    let mut state = test_state();
    let user = register(&mut state, credentials("alice", "hunter2")).ok().unwrap();
    assert_eq!(user.username, "alice");
}

#[test]
fn register_duplicate_username_returns_409() {
    let mut state = test_state();
    assert!(register(&mut state, credentials("alice", "hunter2")).is_ok());
    let err = register(&mut state, credentials("alice", "different")).err().unwrap();
    assert_eq!(err.status(), 409);
    assert_eq!(err.body(), "username already taken");
}

#[test]
fn login_with_valid_credentials_returns_token() {
    let mut state = test_state();
    let user = register(&mut state, credentials("alice", "hunter2")).ok().unwrap();
    let answer = login(&state, credentials("alice", "hunter2")).ok().unwrap();
    assert!(!answer.token.is_empty());
    let claims = decode::<serde_json::Value>(
        &answer.token,
        &DecodingKey::from_secret("test-secret".as_bytes()),
        &Validation::default(),
    )
    .unwrap()
    .claims;
    assert_eq!(claims["sub"].as_str().unwrap(), uuid::Uuid::from_u128(user.id).to_string());
    let now = std::time::SystemTime::now()
        .duration_since(std::time::UNIX_EPOCH)
        .unwrap()
        .as_secs();
    let exp = claims["exp"].as_u64().unwrap();
    assert!(exp >= now + TOKEN_LIFETIME_SECS - 60 && exp <= now + TOKEN_LIFETIME_SECS);
    assert_eq!(authenticate(&state, credentials("alice", "hunter2")).ok().unwrap(), user.id);
}

#[test]
fn login_with_wrong_password_returns_401() {
    let mut state = test_state();
    assert!(register(&mut state, credentials("alice", "hunter2")).is_ok());
    let err = login(&state, credentials("alice", "wrong")).err().unwrap();
    assert_eq!(err.status(), 401);
}

#[test]
fn login_with_unknown_username_returns_same_401_as_wrong_password() {
    let mut state = test_state();
    assert!(register(&mut state, credentials("alice", "hunter2")).is_ok());
    let wrong_password = login(&state, credentials("alice", "wrong")).err().unwrap();
    let unknown_username = login(&state, credentials("unknown", "whatever")).err().unwrap();
    assert_eq!(wrong_password.status(), 401);
    assert_eq!(unknown_username.status(), 401);
    assert_eq!(wrong_password.body(), unknown_username.body());
    assert!(matches!(unknown_username, AppError::Unauthorized("invalid username or password")));
}

#[test]
fn each_user_logs_in_with_their_own_password() {
    let mut state = test_state();
    let alice = register(&mut state, credentials("alice", "hunter2")).ok().unwrap();
    let bob = register(&mut state, credentials("bob", "correct horse")).ok().unwrap();
    assert_ne!(alice.id, bob.id);
    assert_eq!(authenticate(&state, credentials("bob", "correct horse")).ok().unwrap(), bob.id);
    assert!(authenticate(&state, credentials("bob", "hunter2")).is_err());
    assert!(login(&state, credentials("bob", "hunter2")).is_err());
    assert_eq!(authenticate(&state, credentials("alice", "hunter2")).ok().unwrap(), alice.id);
}

fn bearer(token: &str) -> Option<String> {
    Some(format!("Bearer {token}"))
}

fn token_with_expiry(exp: u64) -> String {
    let mut claims = serde_json::Map::new();
    claims.insert("sub".to_string(), serde_json::Value::from(uuid::Uuid::new_v4().to_string()));
    claims.insert("exp".to_string(), serde_json::Value::from(exp));
    encode(&Header::default(), &claims, &EncodingKey::from_secret("test-secret".as_bytes())).unwrap()
}

#[test]
fn protected_route_without_token_returns_401() {
    let state = test_state();
    let err = authorize(&None, state.jwt_secret()).err().unwrap();
    assert_eq!(err.status(), 401);
    assert!(matches!(err, AppError::Unauthorized("missing or invalid token")));
}

#[test]
fn protected_route_with_invalid_token_returns_401() {
    let state = test_state();
    let err = authorize(&bearer("not-a-real-token"), state.jwt_secret()).err().unwrap();
    assert_eq!(err.status(), 401);
}

#[test]
fn protected_route_with_expired_token_returns_401() {
    let state = test_state();
    let expired = token_with_expiry(0);
    let err = authorize(&bearer(&expired), state.jwt_secret()).err().unwrap();
    assert_eq!(err.status(), 401);
}

#[test]
fn protected_route_with_valid_token_succeeds() {
    let mut state = test_state();
    assert!(register(&mut state, credentials("alice", "hunter2")).is_ok());
    let token = login(&state, credentials("alice", "hunter2")).ok().unwrap().token;
    assert!(authorize(&bearer(&token), state.jwt_secret()).is_ok());
}

#[test]
fn token_signed_with_another_secret_is_refused() {
    let mut state = test_state();
    assert!(register(&mut state, credentials("alice", "hunter2")).is_ok());
    let token = login(&state, credentials("alice", "hunter2")).ok().unwrap().token;
    assert!(authorize(&bearer(&token), &"another-secret".to_string()).is_err());
}

#[test]
fn token_without_the_bearer_scheme_is_refused() {
    let mut state = test_state();
    assert!(register(&mut state, credentials("alice", "hunter2")).is_ok());
    let token = login(&state, credentials("alice", "hunter2")).ok().unwrap().token;
    assert!(authorize(&Some(token.clone()), state.jwt_secret()).is_err());
    assert!(authorize(&Some(format!("bearer {token}")), state.jwt_secret()).is_err());
}

#[test]
fn bearer_token_takes_what_follows_the_scheme() {
    assert_eq!(bearer_token(&"Bearer abc.def".to_string()), Some("abc.def".to_string()));
    assert_eq!(bearer_token(&"Bearer ".to_string()), Some(String::new()));
    assert_eq!(bearer_token(&"Bearer".to_string()), None);
    assert_eq!(bearer_token(&"Basic abc".to_string()), None);
    assert_eq!(bearer_token(&"Bearér abc".to_string()), None);
}

#[test]
fn access_is_given_only_for_an_accepted_bearer_token() {
    assert!(access_decision(&bearer("t"), true).is_ok());
    assert!(access_decision(&bearer("t"), false).is_err());
    assert!(access_decision(&None, true).is_err());
    assert!(access_decision(&Some("Token t".to_string()), true).is_err());
    let err = access_decision(&None, false).err().unwrap();
    assert_eq!(err.body(), "missing or invalid token");
}

#[test]
fn unknown_user_gets_no_token() {
    let state = test_state();
    let err = login(&state, credentials("nobody", "pw")).err().unwrap();
    assert!(matches!(err, AppError::Unauthorized("invalid username or password")));
}

fn claims_of(token: &str, secret: &str) -> serde_json::Value {
    let mut validation = Validation::default();
    validation.validate_exp = false;
    decode::<serde_json::Value>(token, &DecodingKey::from_secret(secret.as_bytes()), &validation)
        .unwrap()
        .claims
}

#[test]
fn token_at_expires_a_day_after_the_given_moment() {
    let secret = "test-secret".to_string();
    let token = token_at(7, 1_000, &secret);
    assert_eq!(token.matches('.').count(), 2);
    let claims = claims_of(&token, "test-secret");
    assert_eq!(claims["exp"].as_u64().unwrap(), 1_000 + 86_400);
    assert_eq!(claims["sub"].as_str().unwrap(), "00000000-0000-0000-0000-000000000007");
    assert_eq!(token_at(7, 1_000, &secret), token);
    assert_ne!(token_at(7, 1_001, &secret), token);
}

#[test]
fn token_at_saturates_at_the_end_of_time() {
    let secret = "test-secret".to_string();
    let claims = claims_of(&token_at(1, u64::MAX - 5, &secret), "test-secret");
    assert_eq!(claims["exp"].as_u64().unwrap(), u64::MAX);
}

#[test]
fn issued_token_is_let_through() {
    let secret = "test-secret".to_string();
    let token = issue_token(3, &secret);
    assert!(authorize(&bearer(&token), &secret).is_ok());
}

#[test]
fn token_issued_a_day_and_more_ago_is_refused() {
    let secret = "test-secret".to_string();
    let now = std::time::SystemTime::now()
        .duration_since(std::time::UNIX_EPOCH)
        .unwrap()
        .as_secs();
    let old = token_at(3, now - TOKEN_LIFETIME_SECS - 3_600, &secret);
    assert!(authorize(&bearer(&old), &secret).is_err());
}

#[test]
fn login_at_gives_the_token_of_that_moment() {
    let mut state = test_state();
    let user = register(&mut state, credentials("alice", "hunter2")).ok().unwrap();
    let answer = login_at(&state, credentials("alice", "hunter2"), 5_000).ok().unwrap();
    assert_eq!(answer.token, token_at(user.id, 5_000, state.jwt_secret()));
    let err = login_at(&state, credentials("alice", "nope"), 5_000).err().unwrap();
    assert!(matches!(err, AppError::Unauthorized("invalid username or password")));
}

#[test]
fn token_with_extra_dots_is_refused() {
    let mut state = test_state();
    assert!(register(&mut state, credentials("alice", "hunter2")).is_ok());
    let token = login(&state, credentials("alice", "hunter2")).ok().unwrap().token;
    assert!(authorize(&bearer(&format!("x.{token}")), state.jwt_secret()).is_err());
}
