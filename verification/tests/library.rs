use rust_expense_tracker::date::Date;
use rust_expense_tracker::error::{AppError, DbFailure};
use rust_expense_tracker::order::string_lt;
use rust_expense_tracker::store::AppState;
use rust_expense_tracker::model::{Category, Credentials, Expense};

#[test]
fn dates_exist_only_on_real_calendar_days() {
    assert!(Date::from_ymd(2024, 2, 29).is_some());
    assert!(Date::from_ymd(2023, 2, 29).is_none());
    assert!(Date::from_ymd(2000, 2, 29).is_some());
    assert!(Date::from_ymd(1900, 2, 29).is_none());
    assert!(Date::from_ymd(2026, 4, 31).is_none());
    assert!(Date::from_ymd(2026, 13, 1).is_none());
    assert!(Date::from_ymd(2026, 0, 1).is_none());
    assert!(Date::from_ymd(2026, 1, 0).is_none());
    assert!(Date::from_ymd(262142, 12, 31).is_some());
    assert!(Date::from_ymd(262143, 1, 1).is_none());
    assert!(Date::from_ymd(-262143, 1, 1).is_some());
    assert!(Date::from_ymd(-262144, 12, 31).is_none());
}

#[test]
fn date_fields_come_back() {
    let d = Date::from_ymd(2026, 7, 9).unwrap();
    assert_eq!((d.year(), d.month(), d.day()), (2026, 7, 9));
}

#[test]
fn date_order_and_range() {
    let a = Date::from_ymd(2026, 6, 30).unwrap();
    let b = Date::from_ymd(2026, 7, 1).unwrap();
    assert!(a.le(&b));
    assert!(!b.le(&a));
    assert!(a.le(&a));
    assert!(b.in_range(&Some(a), &Some(b)));
    assert!(!a.in_range(&Some(b), &None));
    assert!(a.in_range(&None, &None));
}

#[test]
fn month_labels_and_iso_text() {
    let d = Date::from_ymd(2026, 7, 9).unwrap();
    assert_eq!(d.month_label(), "2026-07");
    assert_eq!(d.iso_text(), "2026-07-09");
    let early = Date::from_ymd(33, 1, 2).unwrap();
    assert_eq!(early.month_label(), "0033-01");
    let late = Date::from_ymd(12345, 6, 7).unwrap();
    assert_eq!(late.iso_text(), "+12345-06-07");
    let bce = Date::from_ymd(-5, 3, 4).unwrap();
    assert_eq!(bce.month_label(), "-0005-03");
}

#[test]
fn storage_failures_become_conflicts_or_internal_errors() {
    let fk = AppError::from(DbFailure::ForeignKeyViolation);
    assert_eq!(fk.status(), 409);
    assert_eq!(fk.body(), "category is referenced by an expense, or does not exist");
    let unique = AppError::from(DbFailure::UniqueViolation);
    assert_eq!(unique.status(), 409);
    assert_eq!(unique.body(), "username already taken");
    let other = AppError::from(DbFailure::Other("disk full".to_string()));
    assert_eq!(other.status(), 500);
    assert_eq!(other.body(), "disk full");
    assert_eq!(AppError::Unauthorized("no").status(), 401);
    assert_eq!(AppError::NotFound("thing").body(), "thing not found");
}

#[test]
fn text_order_is_lexicographic() {
    let s = |x: &str| x.to_string();
    assert!(string_lt(&s("2026-06"), &s("2026-07")));
    assert!(!string_lt(&s("2026-07"), &s("2026-06")));
    assert!(string_lt(&s("abc"), &s("abcd")));
    assert!(!string_lt(&s("abc"), &s("abc")));
    assert!(string_lt(&s("Rent"), &s("a")));
    assert!(string_lt(&s("é"), &s("ë")));
}

#[test]
fn store_refuses_duplicate_ids() {
    let mut state = AppState::new("secret".to_string());
    assert!(state.insert_category(Category { id: 1, name: "A".to_string() }).is_ok());
    assert!(matches!(
        state.insert_category(Category { id: 1, name: "B".to_string() }),
        Err(DbFailure::UniqueViolation)
    ));
    let day = Date::from_ymd(2026, 1, 1).unwrap();
    let e = Expense { id: 5, amount_bits: 1.0f64.to_bits(), category_id: 1, description: "x".to_string(), date: day };
    assert!(state.insert_expense(e.clone()).is_ok());
    assert!(matches!(state.insert_expense(e.clone()), Err(DbFailure::UniqueViolation)));
    let orphan = Expense { id: 6, category_id: 2, ..e.clone() };
    assert!(matches!(state.insert_expense(orphan), Err(DbFailure::ForeignKeyViolation)));
    assert!(matches!(state.remove_category(1), Err(DbFailure::ForeignKeyViolation)));
    assert!(matches!(state.remove_category(2), Ok(None)));
    assert_eq!(state.jwt_secret(), "secret");
}

#[test]
fn update_of_missing_expense_changes_nothing_in_the_store() {
    let mut state = AppState::new("secret".to_string());
    let day = Date::from_ymd(2026, 1, 1).unwrap();
    let e = Expense { id: 5, amount_bits: 0, category_id: 1, description: "x".to_string(), date: day };
    assert!(state.update_expense(e).is_ok());
    assert!(state.list_expenses().is_empty());
}

#[test]
fn user_records_refuse_taken_names_and_ids() {
    let mut state = AppState::new("secret".to_string());
    let first = state.insert_user(Credentials { username: "ann".to_string(), password: "pw".to_string() });
    let first = first.ok().unwrap();
    assert_eq!(first.username, "ann");
    assert!(matches!(
        state.insert_user(Credentials { username: "ann".to_string(), password: "other".to_string() }),
        Err(DbFailure::UniqueViolation)
    ));
    assert_eq!(
        state.verify_credentials(Credentials { username: "ann".to_string(), password: "pw".to_string() }),
        Some(first.id)
    );
    assert_eq!(
        state.verify_credentials(Credentials { username: "ann".to_string(), password: "PW".to_string() }),
        None
    );
}
