use rust_expense_tracker::date::Date;
use rust_expense_tracker::handlers::{
    create_category, create_expense, total_report, totals_by_category, totals_by_category_month,
    totals_by_month,
};
use rust_expense_tracker::model::{NewCategory, NewExpense, ReportFilter};
use rust_expense_tracker::store::AppState;

fn date(y: i32, m: u32, d: u32) -> Date {
    Date::from_ymd(y, m, d).unwrap()
}

fn category(state: &mut AppState, name: &str) -> u128 {
    create_category(state, NewCategory { name: name.to_string() }).ok().unwrap().id
}

fn expense(state: &mut AppState, amount: f64, category_id: u128, description: &str, day: Date) {
    let n = NewExpense {
        amount_bits: amount.to_bits(),
        category_id,
        description: description.to_string(),
        date: day,
    };
    assert!(create_expense(state, n).is_ok());
}

fn sum(amounts: &[u64]) -> f64 {
    amounts.iter().fold(0.0, |acc, bits| acc + f64::from_bits(*bits))
}

fn all() -> ReportFilter {
    ReportFilter { from: None, to: None }
}

#[test]
fn total_report_on_empty_db_returns_zero() {
    let state = AppState::new("test-secret".to_string());
    assert_eq!(sum(&total_report(&state, all())), 0.0);
}

#[test]
fn total_report_sums_all_expenses() {
    let mut state = AppState::new("test-secret".to_string());
    let c = category(&mut state, "Groceries");
    expense(&mut state, 12.5, c, "milk", date(2026, 7, 9));
    expense(&mut state, 40.0, c, "rice", date(2026, 7, 10));
    assert_eq!(sum(&total_report(&state, all())), 52.5);
}

#[test]
fn total_report_respects_date_range() {
    let mut state = AppState::new("test-secret".to_string());
    let c = category(&mut state, "Groceries");
    expense(&mut state, 12.5, c, "milk", date(2026, 6, 15));
    expense(&mut state, 40.0, c, "rice", date(2026, 7, 10));
    let filter = ReportFilter { from: Some(date(2026, 7, 1)), to: Some(date(2026, 7, 31)) };
    assert_eq!(sum(&total_report(&state, filter)), 40.0);
}

#[test]
fn totals_by_category_groups_and_omits_empty_categories() {
    let mut state = AppState::new("test-secret".to_string());
    let groceries = category(&mut state, "Groceries");
    let rent = category(&mut state, "Rent");
    category(&mut state, "Unused");
    expense(&mut state, 12.5, groceries, "milk", date(2026, 7, 9));
    expense(&mut state, 7.5, groceries, "eggs", date(2026, 7, 10));
    expense(&mut state, 1000.0, rent, "rent", date(2026, 7, 1));

    let totals = totals_by_category(&state, all());
    assert_eq!(totals.len(), 2);
    let g = totals.iter().find(|t| t.category_id == groceries).unwrap();
    assert_eq!(sum(&g.amounts), 20.0);
    assert_eq!(g.category_name, "Groceries");
    let r = totals.iter().find(|t| t.category_id == rent).unwrap();
    assert_eq!(sum(&r.amounts), 1000.0);
}

#[test]
fn totals_by_month_groups_by_year_month_and_sorts() {
    let mut state = AppState::new("test-secret".to_string());
    let c = category(&mut state, "Groceries");
    expense(&mut state, 10.0, c, "june", date(2026, 6, 15));
    expense(&mut state, 5.0, c, "june again", date(2026, 6, 20));
    expense(&mut state, 40.0, c, "july", date(2026, 7, 10));

    let totals = totals_by_month(&state, all());
    assert_eq!(totals.len(), 2);
    assert_eq!(totals[0].month, "2026-06");
    assert_eq!(sum(&totals[0].amounts), 15.0);
    assert_eq!(totals[1].month, "2026-07");
    assert_eq!(sum(&totals[1].amounts), 40.0);
}

#[test]
fn totals_by_category_month_groups_by_category_and_month() {
    let mut state = AppState::new("test-secret".to_string());
    let groceries = category(&mut state, "Groceries");
    let rent = category(&mut state, "Rent");
    expense(&mut state, 10.0, groceries, "milk", date(2026, 6, 5));
    expense(&mut state, 5.0, groceries, "eggs", date(2026, 6, 20));
    expense(&mut state, 8.0, groceries, "bread", date(2026, 7, 2));
    expense(&mut state, 1000.0, rent, "rent", date(2026, 6, 1));

    let totals = totals_by_category_month(&state, all());
    assert_eq!(totals.len(), 3);
    let find = |id: u128, month: &str| {
        totals.iter().find(|t| t.category_id == id && t.month == month).unwrap()
    };
    assert_eq!(sum(&find(groceries, "2026-06").amounts), 15.0);
    assert_eq!(sum(&find(groceries, "2026-07").amounts), 8.0);
    assert_eq!(sum(&find(rent, "2026-06").amounts), 1000.0);
    // ordered by category name, then month
    assert_eq!(totals[0].category_name, "Groceries");
    assert_eq!(totals[0].month, "2026-06");
    assert_eq!(totals[1].month, "2026-07");
    assert_eq!(totals[2].category_name, "Rent");
}

#[test]
fn reports_with_inverted_date_range_return_empty() {
    let mut state = AppState::new("test-secret".to_string());
    let c = category(&mut state, "Groceries");
    expense(&mut state, 10.0, c, "milk", date(2026, 7, 9));
    let inverted = || ReportFilter { from: Some(date(2026, 8, 1)), to: Some(date(2026, 7, 1)) };
    assert_eq!(sum(&total_report(&state, inverted())), 0.0);
    assert_eq!(totals_by_category(&state, inverted()).len(), 0);
    assert_eq!(totals_by_month(&state, inverted()).len(), 0);
    assert_eq!(totals_by_category_month(&state, inverted()).len(), 0);
}

#[test]
fn range_bounds_are_inclusive() {
    let mut state = AppState::new("test-secret".to_string());
    let c = category(&mut state, "Groceries");
    expense(&mut state, 1.0, c, "first", date(2026, 7, 1));
    expense(&mut state, 2.0, c, "last", date(2026, 7, 31));
    expense(&mut state, 4.0, c, "after", date(2026, 8, 1));
    let filter = ReportFilter { from: Some(date(2026, 7, 1)), to: Some(date(2026, 7, 31)) };
    assert_eq!(sum(&total_report(&state, filter)), 3.0);
    let only_from = ReportFilter { from: Some(date(2026, 7, 31)), to: None };
    assert_eq!(sum(&total_report(&state, only_from)), 6.0);
    let only_to = ReportFilter { from: None, to: Some(date(2026, 7, 1)) };
    assert_eq!(sum(&total_report(&state, only_to)), 1.0);
}

#[test]
fn months_sort_across_years_and_keep_record_order_within_a_group() {
    let mut state = AppState::new("test-secret".to_string());
    let c = category(&mut state, "Misc");
    expense(&mut state, 3.0, c, "a", date(2027, 1, 3));
    expense(&mut state, 1.0, c, "b", date(2025, 12, 31));
    expense(&mut state, 2.0, c, "c", date(2027, 1, 1));
    let totals = totals_by_month(&state, all());
    let months: Vec<&str> = totals.iter().map(|t| t.month.as_str()).collect();
    assert_eq!(months, vec!["2025-12", "2027-01"]);
    assert_eq!(totals[1].amounts, vec![3.0f64.to_bits(), 2.0f64.to_bits()]);
}

#[test]
fn category_totals_follow_category_order_and_add_up_to_the_total() {
    let mut state = AppState::new("test-secret".to_string());
    let b = category(&mut state, "B");
    let a = category(&mut state, "A");
    expense(&mut state, 1.5, a, "x", date(2026, 1, 1));
    expense(&mut state, 2.5, b, "y", date(2026, 2, 1));
    expense(&mut state, 3.0, a, "z", date(2026, 3, 1));
    let totals = totals_by_category(&state, all());
    assert_eq!(totals[0].category_id, b);
    assert_eq!(totals[1].category_id, a);
    let by_groups: f64 = totals.iter().map(|g| sum(&g.amounts)).sum();
    assert_eq!(by_groups, sum(&total_report(&state, all())));
}

#[test]
fn categories_of_one_name_stay_apart_in_month_groups() {
    let mut state = AppState::new("test-secret".to_string());
    let first = category(&mut state, "Food");
    let second = category(&mut state, "Food");
    expense(&mut state, 1.0, first, "x", date(2026, 5, 1));
    expense(&mut state, 2.0, second, "y", date(2026, 5, 2));
    let totals = totals_by_category_month(&state, all());
    assert_eq!(totals.len(), 2);
    assert!(totals.iter().all(|t| t.category_name == "Food" && t.month == "2026-05"));
    assert_ne!(totals[0].category_id, totals[1].category_id);
}

#[test]
fn category_month_totals_refine_category_totals() {
    let mut state = AppState::new("test-secret".to_string());
    let food = category(&mut state, "Food");
    let rent = category(&mut state, "Rent");
    let idle = category(&mut state, "Idle");
    expense(&mut state, 3.0, food, "bread", date(2026, 1, 5));
    expense(&mut state, 900.0, rent, "january", date(2026, 1, 1));
    expense(&mut state, 4.5, food, "eggs", date(2026, 2, 7));
    expense(&mut state, 2.0, food, "tea", date(2026, 1, 20));
    expense(&mut state, 7.0, idle, "out of range", date(2025, 12, 31));
    let filter = || ReportFilter { from: Some(date(2026, 1, 1)), to: None };
    let by_category = totals_by_category(&state, filter());
    let by_category_month = totals_by_category_month(&state, filter());

    let ids: Vec<u128> = by_category.iter().map(|g| g.category_id).collect();
    assert_eq!(ids, vec![food, rent]);
    for g in &by_category {
        let mut from_months: Vec<u64> = by_category_month
            .iter()
            .filter(|x| x.category_id == g.category_id)
            .flat_map(|x| {
                assert_eq!(x.category_name, g.category_name);
                x.amounts.clone()
            })
            .collect();
        let mut own = g.amounts.clone();
        from_months.sort();
        own.sort();
        assert_eq!(from_months, own);
    }
    assert!(by_category_month.iter().all(|x| ids.contains(&x.category_id)));
}
