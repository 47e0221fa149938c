use rust_expense_tracker::cli::{
    build_query, format_category, request_token, response_outcome, CliError,
};
use rust_expense_tracker::date::Date;
use rust_expense_tracker::model::Category;

#[test]
fn format_category_includes_id_and_name() {
    let category = Category { id: 0, name: "Groceries".to_string() };
    assert_eq!(
        format_category(&category),
        "00000000-0000-0000-0000-000000000000 Groceries"
    );
}

#[test]
fn format_category_writes_the_hyphenated_id() {
    let category = Category { id: 0x0123456789abcdef0011223344556677, name: "Rent".to_string() };
    assert_eq!(format_category(&category), "01234567-89ab-cdef-0011-223344556677 Rent");
}

#[test]
fn build_query_with_no_dates_is_empty() {
    assert_eq!(build_query(None, None), "");
}

#[test]
fn build_query_with_from_only() {
    let from = Date::from_ymd(2026, 7, 1).unwrap();
    assert_eq!(build_query(Some(from), None), "?from=2026-07-01");
}

#[test]
fn build_query_with_to_only() {
    let to = Date::from_ymd(2026, 7, 31).unwrap();
    assert_eq!(build_query(None, Some(to)), "?to=2026-07-31");
}

#[test]
fn build_query_with_both_dates() {
    let from = Date::from_ymd(2026, 7, 1).unwrap();
    let to = Date::from_ymd(2026, 7, 31).unwrap();
    assert_eq!(build_query(Some(from), Some(to)), "?from=2026-07-01&to=2026-07-31");
}

#[test]
fn not_logged_in_message() {
    assert_eq!(CliError::NotLoggedIn.to_string(), "not logged in - run 'cli login' first");
}

#[test]
fn api_error_includes_status_and_body() {
    let err = CliError::Api { status: 409, body: "username already taken".to_string() };
    assert_eq!(err.to_string(), "409 Conflict: username already taken");
}

#[test]
fn io_error_includes_underlying_message() {
    let io = std::io::Error::new(std::io::ErrorKind::NotFound, "no such file");
    let err = CliError::Io(io.to_string());
    assert_eq!(err.to_string(), "io error: no such file");
}

#[test]
fn request_error_includes_underlying_message() {
    let err = CliError::Request("connection refused".to_string());
    assert_eq!(err.to_string(), "request failed connection refused");
}

#[test]
fn api_error_with_unregistered_status() {
    let err = CliError::Api { status: 599, body: "odd".to_string() };
    assert_eq!(err.to_string(), "599 <unknown status code>: odd");
}

#[test]
fn success_status_hands_the_body_on() {
    assert_eq!(response_outcome(200, "{}".to_string()).ok().unwrap(), "{}");
    assert_eq!(response_outcome(299, "x".to_string()).ok().unwrap(), "x");
}

#[test]
fn error_status_becomes_an_api_error() {
    let err = response_outcome(404, "expense not found".to_string()).err().unwrap();
    assert!(matches!(err, CliError::Api { status: 404, ref body } if body == "expense not found"));
    assert_eq!(err.to_string(), "404 Not Found: expense not found");
    let err = response_outcome(300, String::new()).err().unwrap();
    assert!(matches!(err, CliError::Api { status: 300, .. }));
    let err = response_outcome(199, String::new()).err().unwrap();
    assert!(matches!(err, CliError::Api { status: 199, .. }));
}

#[test]
fn request_token_needs_a_saved_token_only_where_login_is_needed() {
    assert!(matches!(request_token(false, None), Ok(None)));
    assert!(matches!(request_token(false, Some("t".to_string())), Ok(None)));
    assert!(matches!(request_token(true, None), Err(CliError::NotLoggedIn)));
    assert_eq!(request_token(true, Some("abc".to_string())).ok().unwrap(), Some("abc".to_string()));
}
