//! The records the tracker keeps and the requests that create them.
use vstd::prelude::*;
use crate::date::{Date, DateView};

verus! {

/// A spending category.
pub struct Category {
    pub id: u128,
    pub name: String,
}

pub struct CategoryView {
    pub id: u128,
    pub name: Seq<char>,
}

impl View for Category {
    type V = CategoryView;

    open spec fn view(&self) -> CategoryView {
        CategoryView { id: self.id, name: self.name@ }
    }
}

impl Clone for Category {
    fn clone(&self) -> (r: Self)
        ensures
            r@ == self@,
    {
        Category { id: self.id, name: self.name.clone() }
    }
}

pub open spec fn category_views(cats: Seq<Category>) -> Seq<CategoryView> {
    cats.map_values(|c: Category| c@)
}

pub open spec fn category_ids(cats: Seq<CategoryView>) -> Seq<u128> {
    cats.map_values(|c: CategoryView| c.id)
}

/// The position of the category with this id (meaningful where there is one).
pub open spec fn category_index(cats: Seq<CategoryView>, id: u128) -> int {
    choose|k: int| 0 <= k < cats.len() && cats[k].id == id
}

/// The body of a request that creates a category.
pub struct NewCategory {
    pub name: String,
}

/// One expense. The amount is a floating-point number of the caller's currency,
/// held here by its IEEE 754 bit pattern: the library stores it, returns it and
/// groups it, and never computes with it.
pub struct Expense {
    pub id: u128,
    pub amount_bits: u64,
    pub category_id: u128,
    pub description: String,
    pub date: Date,
}

pub struct ExpenseView {
    pub id: u128,
    pub amount_bits: u64,
    pub category_id: u128,
    pub description: Seq<char>,
    pub date: DateView,
}

impl View for Expense {
    type V = ExpenseView;

    open spec fn view(&self) -> ExpenseView {
        ExpenseView {
            id: self.id,
            amount_bits: self.amount_bits,
            category_id: self.category_id,
            description: self.description@,
            date: self.date@,
        }
    }
}

impl Clone for Expense {
    fn clone(&self) -> (r: Self)
        ensures
            r@ == self@,
    {
        Expense {
            id: self.id,
            amount_bits: self.amount_bits,
            category_id: self.category_id,
            description: self.description.clone(),
            date: self.date,
        }
    }
}

pub open spec fn expense_views(exps: Seq<Expense>) -> Seq<ExpenseView> {
    exps.map_values(|e: Expense| e@)
}

/// The body of a request that creates or replaces an expense.
pub struct NewExpense {
    pub amount_bits: u64,
    pub category_id: u128,
    pub description: String,
    pub date: Date,
}

/// A registered user as the API shows it: never with the password hash.
pub struct User {
    pub id: u128,
    pub username: String,
}

pub struct UserView {
    pub id: u128,
    pub username: Seq<char>,
}

impl View for User {
    type V = UserView;

    open spec fn view(&self) -> UserView {
        UserView { id: self.id, username: self.username@ }
    }
}

/// A username and password, as sent to register or to log in.
pub struct Credentials {
    pub username: String,
    pub password: String,
}

/// The answer to a successful login: a bearer token for later requests.
pub struct TokenResponse {
    pub token: String,
}

/// The optional inclusive date range of a report.
pub struct ReportFilter {
    pub from: Option<Date>,
    pub to: Option<Date>,
}

} // verus!
