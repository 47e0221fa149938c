use rust_expense_tracker::date::Date;
use rust_expense_tracker::error::AppError;
use rust_expense_tracker::handlers::{
    create_category, create_expense, delete_category, delete_expense, get_expense,
    list_categories, list_expenses, update_expense,
};
use rust_expense_tracker::model::{NewCategory, NewExpense};
use rust_expense_tracker::store::AppState;

fn test_state() -> AppState {
    AppState::new("test-secret".to_string())
}

fn date(y: i32, m: u32, d: u32) -> Date {
    Date::from_ymd(y, m, d).unwrap()
}

fn new_expense(amount: f64, category_id: u128, description: &str, day: Date) -> NewExpense {
    NewExpense {
        amount_bits: amount.to_bits(),
        category_id,
        description: description.to_string(),
        date: day,
    }
}

fn new_category(state: &mut AppState, name: &str) -> u128 {
    create_category(state, NewCategory { name: name.to_string() }).ok().unwrap().id
}

#[test]
fn create_expense_with_valid_category() {
    let mut state = test_state();
    let category = create_category(&mut state, NewCategory { name: "Groceries".to_string() });
    assert!(category.is_ok());
    let category_id = category.ok().unwrap().id;

    let created = create_expense(
        &mut state,
        new_expense(12.5, category_id, "milk", date(2026, 7, 9)),
    );
    assert!(created.is_ok());
}

#[test]
fn list_expenses_returns_created_expenses() {
    let mut state = test_state();
    let category_id = new_category(&mut state, "Groceries");

    assert!(create_expense(&mut state, new_expense(12.5, category_id, "milk", date(2026, 7, 9))).is_ok());
    assert!(create_expense(&mut state, new_expense(40.0, category_id, "rice", date(2026, 7, 10))).is_ok());

    let expenses = list_expenses(&state);
    let descriptions: Vec<&str> = expenses.iter().map(|e| e.description.as_str()).collect();
    assert!(descriptions.contains(&"milk"));
    assert!(descriptions.contains(&"rice"));
}

#[test]
fn list_categories_returns_created_categories() {
    let mut state = test_state();
    new_category(&mut state, "Groceries");
    new_category(&mut state, "Rent");

    let categories = list_categories(&state);
    let names: Vec<&str> = categories.iter().map(|c| c.name.as_str()).collect();
    assert!(names.contains(&"Groceries"));
    assert!(names.contains(&"Rent"));
}

#[test]
fn get_expense_returns_404_for_unknown_id() {
    let state = test_state();
    let err = get_expense(&state, 0).err().unwrap();
    assert_eq!(err.status(), 404);
    assert_eq!(err.body(), "expense not found");
}

#[test]
fn delete_category_returns_404_for_unknown_id() {
    let mut state = test_state();
    let err = delete_category(&mut state, 0).err().unwrap();
    assert_eq!(err.status(), 404);
    assert_eq!(err.body(), "category not found");
}

#[test]
fn create_expense_with_unknown_category_returns_409() {
    let mut state = test_state();
    let err = create_expense(&mut state, new_expense(5.0, 0, "bogus", date(2026, 7, 9)))
        .err()
        .unwrap();
    assert_eq!(err.status(), 409);
    assert!(matches!(
        err,
        AppError::Conflict("category is referenced by an expense, or does not exist")
    ));
    assert!(list_expenses(&state).is_empty());
}

#[test]
fn delete_category_still_referenced_returns_409() {
    let mut state = test_state();
    let category_id = new_category(&mut state, "Rent");
    let expense = create_expense(&mut state, new_expense(1000.0, category_id, "rent", date(2026, 7, 9)))
        .ok()
        .unwrap();

    let err = delete_category(&mut state, category_id).err().unwrap();
    assert_eq!(err.status(), 409);

    // the expense should be untouched by the failed delete
    let found = get_expense(&state, expense.id).ok().unwrap();
    assert_eq!(found.description, "rent");
    assert_eq!(list_categories(&state).len(), 1);
}

#[test]
fn update_expense_replaces_fields() {
    let mut state = test_state();
    let category_id = new_category(&mut state, "Groceries");
    let expense = create_expense(&mut state, new_expense(10.0, category_id, "milk", date(2026, 7, 9)))
        .ok()
        .unwrap();

    let updated = update_expense(
        &mut state,
        expense.id,
        new_expense(25.0, category_id, "milk and eggs", date(2026, 7, 10)),
    )
    .ok()
    .unwrap();

    assert_eq!(f64::from_bits(updated.amount_bits), 25.0);
    assert_eq!(updated.description, "milk and eggs");
    assert_eq!(updated.date.iso_text(), "2026-07-10");
    let stored = get_expense(&state, expense.id).ok().unwrap();
    assert_eq!(stored.description, "milk and eggs");
}

#[test]
fn delete_expense_removes_it() {
    let mut state = test_state();
    let category_id = new_category(&mut state, "Groceries");
    let expense = create_expense(&mut state, new_expense(10.0, category_id, "milk", date(2026, 7, 9)))
        .ok()
        .unwrap();

    let deleted = delete_expense(&mut state, expense.id).ok().unwrap();
    assert_eq!(deleted.id, expense.id);

    let err = get_expense(&state, expense.id).err().unwrap();
    assert_eq!(err.status(), 404);
}

#[test]
fn update_of_unknown_expense_is_not_found() {
    let mut state = test_state();
    let category_id = new_category(&mut state, "Groceries");
    let err = update_expense(&mut state, 7, new_expense(1.0, category_id, "x", date(2026, 1, 1)))
        .err()
        .unwrap();
    assert_eq!(err.status(), 404);
    assert_eq!(err.body(), "expense not found");
}

#[test]
fn update_to_unknown_category_is_a_conflict_and_keeps_the_expense() {
    let mut state = test_state();
    let category_id = new_category(&mut state, "Groceries");
    let expense = create_expense(&mut state, new_expense(10.0, category_id, "milk", date(2026, 7, 9)))
        .ok()
        .unwrap();
    let err = update_expense(&mut state, expense.id, new_expense(3.0, 0, "eggs", date(2026, 7, 9)))
        .err()
        .unwrap();
    assert_eq!(err.status(), 409);
    assert_eq!(get_expense(&state, expense.id).ok().unwrap().description, "milk");
}

#[test]
fn delete_of_unknown_expense_is_not_found() {
    let mut state = test_state();
    let err = delete_expense(&mut state, 99).err().unwrap();
    assert_eq!(err.status(), 404);
}

#[test]
fn category_without_expenses_can_be_deleted() {
    let mut state = test_state();
    let category_id = new_category(&mut state, "Unused");
    let deleted = delete_category(&mut state, category_id).ok().unwrap();
    assert_eq!(deleted.name, "Unused");
    assert!(list_categories(&state).is_empty());
}

#[test]
fn deleting_the_last_expense_frees_its_category() {
    let mut state = test_state();
    let category_id = new_category(&mut state, "Rent");
    let expense = create_expense(&mut state, new_expense(1.0, category_id, "rent", date(2026, 7, 9)))
        .ok()
        .unwrap();
    assert!(delete_category(&mut state, category_id).is_err());
    assert!(delete_expense(&mut state, expense.id).is_ok());
    assert!(delete_category(&mut state, category_id).is_ok());
}
