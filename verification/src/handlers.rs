//! What each request does to the store and what it answers, apart from the HTTP
//! transport: the request bodies come in as library values and the answers go out
//! as records or as an `AppError`.
use vstd::prelude::*;
use crate::auth::{expiry_after, jwt_signature_valid, jwt_text, token_at, unix_now};
use crate::date::opt_date_view;
use crate::error::{fk_conflict_text, unique_conflict_text, AppError};
use crate::model::{
    category_ids, category_index, Category, Credentials, Expense, ExpenseView,
    NewCategory, NewExpense, ReportFilter, TokenResponse, User,
};
use crate::password::password_fits;
use crate::report::{
    amounts_where, category_group_views, category_groups_spec, category_month_group_views,
    is_category_month_report, is_month_report, month_group_views, CategoryGroup,
    CategoryMonthGroup, MonthGroup, Selector,
};
use crate::store::{
    category_in_use, credential_check, expense_ids, expense_index, user_added, user_ids, usernames,
    AppState,
    StoreView,
};

verus! {

/// The expense that a request body describes, under the given id.
pub open spec fn expense_from(id: u128, n: NewExpense) -> ExpenseView {
    ExpenseView {
        id,
        amount_bits: n.amount_bits,
        category_id: n.category_id,
        description: n.description@,
        date: n.date@,
    }
}

/// The text of a not-found error about an expense.
pub open spec fn expense_resource() -> &'static str {
    "expense"
}

/// The text of a not-found error about a category.
pub open spec fn category_resource() -> &'static str {
    "category"
}

/// The text of a refused login, the same whether the name or the password was wrong.
pub open spec fn login_refused_text() -> &'static str {
    "invalid username or password"
}

/// All expenses, in the order they were added.
pub fn list_expenses(state: &AppState) -> (r: Vec<Expense>)
    ensures
        r@.map_values(|e: Expense| e@) == state@.expenses,
{
    state.list_expenses()
}

/// Records a new expense under a freshly drawn id and answers it. Refused with a
/// conflict where the category does not exist, or where the drawn id is taken.
pub fn create_expense(state: &mut AppState, new_expense: NewExpense) -> (r: Result<
    Expense,
    AppError,
>)
    requires
        old(state).wf(),
    ensures
        final(state).wf(),
        r matches Ok(e) ==> e@ == expense_from(e.id, new_expense) && !expense_ids(
            old(state)@.expenses,
        ).contains(e.id) && final(state)@ == (StoreView {
            expenses: old(state)@.expenses.push(e@),
            ..old(state)@
        }),
        r is Err ==> final(state)@ == old(state)@,
        !category_ids(old(state)@.categories).contains(new_expense.category_id) ==> r is Err,
        r is Err ==> (r == Err::<Expense, AppError>(AppError::Conflict(fk_conflict_text()))
            && !category_ids(old(state)@.categories).contains(new_expense.category_id)) || (r
            == Err::<Expense, AppError>(AppError::Conflict(unique_conflict_text())) && old(state)@.expenses.len() > 0),
        final(state).drawn_ids() == old(state).drawn_ids().push(final(state).drawn_ids().last()),
        r matches Ok(e) ==> e.id == final(state).drawn_ids().last(),
        category_ids(old(state)@.categories).contains(new_expense.category_id) && !expense_ids(
            old(state)@.expenses,
        ).contains(final(state).drawn_ids().last()) ==> r is Ok,
        r == Err::<Expense, AppError>(AppError::Conflict(unique_conflict_text())) ==> expense_ids(
            old(state)@.expenses,
        ).contains(final(state).drawn_ids().last()),
{
    let id = state.draw_id();
    let expense = Expense {
        id,
        amount_bits: new_expense.amount_bits,
        category_id: new_expense.category_id,
        description: new_expense.description,
        date: new_expense.date,
    };
    let ghost old_view = state@;
    match state.insert_expense(expense.clone()) {
        Ok(()) => Ok(expense),
        Err(e) => {
            proof {
                if e is UniqueViolation {
                    let j = choose|j: int|
                        0 <= j < expense_ids(old_view.expenses).len() && expense_ids(
                            old_view.expenses,
                        )[j] == id;
                    assert(old_view.expenses[j].id == id);
                }
            }
            Err(AppError::from(e))
        },
    }
}

/// The expense with this id; not found where there is none.
pub fn get_expense(state: &AppState, id: u128) -> (r: Result<Expense, AppError>)
    requires
        state.wf(),
    ensures
        r is Ok <==> expense_ids(state@.expenses).contains(id),
        r matches Ok(e) ==> e@ == state@.expenses[expense_index(state@.expenses, id)],
        r is Err ==> r == Err::<Expense, AppError>(AppError::NotFound(expense_resource())),
{
    match state.get_expense(id) {
        Some(e) => Ok(e),
        None => Err(AppError::NotFound("expense")),
    }
}

/// Replaces all fields of the expense with this id and answers the new expense.
/// Not found where there is no such expense; refused with a conflict where the new
/// category does not exist.
pub fn update_expense(state: &mut AppState, id: u128, new_expense: NewExpense) -> (r: Result<
    Expense,
    AppError,
>)
    requires
        old(state).wf(),
    ensures
        final(state).wf(),
        !expense_ids(old(state)@.expenses).contains(id) ==> r == Err::<Expense, AppError>(
            AppError::NotFound(expense_resource()),
        ) && final(state)@ == old(state)@,
        expense_ids(old(state)@.expenses).contains(id) && !category_ids(
            old(state)@.categories,
        ).contains(new_expense.category_id) ==> r == Err::<Expense, AppError>(
            AppError::Conflict(fk_conflict_text()),
        ) && final(state)@ == old(state)@,
        expense_ids(old(state)@.expenses).contains(id) && category_ids(
            old(state)@.categories,
        ).contains(new_expense.category_id) ==> (r matches Ok(e) && e@ == expense_from(
            id,
            new_expense,
        ) && final(state)@ == (StoreView {
            expenses: old(state)@.expenses.update(
                expense_index(old(state)@.expenses, id),
                expense_from(id, new_expense),
            ),
            ..old(state)@
        })),
{
    if state.get_expense(id).is_none() {
        return Err(AppError::NotFound("expense"));
    }
    let expense = Expense {
        id,
        amount_bits: new_expense.amount_bits,
        category_id: new_expense.category_id,
        description: new_expense.description,
        date: new_expense.date,
    };
    match state.update_expense(expense.clone()) {
        Ok(()) => Ok(expense),
        Err(e) => Err(AppError::from(e)),
    }
}

/// Removes the expense with this id and answers it; not found where there is none.
pub fn delete_expense(state: &mut AppState, id: u128) -> (r: Result<Expense, AppError>)
    requires
        old(state).wf(),
    ensures
        final(state).wf(),
        r is Ok <==> expense_ids(old(state)@.expenses).contains(id),
        r is Err ==> r == Err::<Expense, AppError>(AppError::NotFound(expense_resource()))
            && final(state)@ == old(state)@,
        r matches Ok(e) ==> e@ == old(state)@.expenses[expense_index(old(state)@.expenses, id)]
            && final(state)@ == (StoreView {
            expenses: old(state)@.expenses.remove(expense_index(old(state)@.expenses, id)),
            ..old(state)@
        }),
{
    match state.remove_expense(id) {
        Some(e) => Ok(e),
        None => Err(AppError::NotFound("expense")),
    }
}

/// All categories, in the order they were added.
pub fn list_categories(state: &AppState) -> (r: Vec<Category>)
    ensures
        r@.map_values(|c: Category| c@) == state@.categories,
{
    state.list_category()
}

/// Adds a category under a freshly drawn id and answers it. Refused with a conflict
/// only where the drawn id is taken.
pub fn create_category(state: &mut AppState, new_category: NewCategory) -> (r: Result<
    Category,
    AppError,
>)
    requires
        old(state).wf(),
    ensures
        final(state).wf(),
        r matches Ok(c) ==> c@.name == new_category.name@ && !category_ids(
            old(state)@.categories,
        ).contains(c.id) && final(state)@ == (StoreView {
            categories: old(state)@.categories.push(c@),
            ..old(state)@
        }),
        r is Err ==> r == Err::<Category, AppError>(AppError::Conflict(unique_conflict_text()))
            && final(state)@ == old(state)@ && old(state)@.categories.len() > 0,
        final(state).drawn_ids() == old(state).drawn_ids().push(final(state).drawn_ids().last()),
        r matches Ok(c) ==> c.id == final(state).drawn_ids().last(),
        r is Ok <==> !category_ids(old(state)@.categories).contains(final(state).drawn_ids().last()),
{
    let id = state.draw_id();
    let category = Category { id, name: new_category.name };
    let ghost old_view = state@;
    match state.insert_category(category.clone()) {
        Ok(()) => Ok(category),
        Err(e) => {
            proof {
                let j = choose|j: int|
                    0 <= j < category_ids(old_view.categories).len() && category_ids(
                        old_view.categories,
                    )[j] == id;
                assert(old_view.categories[j].id == id);
            }
            Err(AppError::from(e))
        },
    }
}

/// Removes the category with this id and answers it. Not found where there is none;
/// refused with a conflict while an expense refers to it.
pub fn delete_category(state: &mut AppState, id: u128) -> (r: Result<Category, AppError>)
    requires
        old(state).wf(),
    ensures
        final(state).wf(),
        !category_ids(old(state)@.categories).contains(id) ==> r == Err::<Category, AppError>(
            AppError::NotFound(category_resource()),
        ) && final(state)@ == old(state)@,
        category_ids(old(state)@.categories).contains(id) && category_in_use(
            old(state)@.expenses,
            id,
        ) ==> r == Err::<Category, AppError>(AppError::Conflict(fk_conflict_text())) && final(state)@ == old(state)@,
        category_ids(old(state)@.categories).contains(id) && !category_in_use(
            old(state)@.expenses,
            id,
        ) ==> (r matches Ok(c) && c@ == old(state)@.categories[category_index(
            old(state)@.categories,
            id,
        )] && final(state)@ == (StoreView {
            categories: old(state)@.categories.remove(category_index(old(state)@.categories, id)),
            ..old(state)@
        })),
{
    match state.remove_category(id) {
        Ok(Some(c)) => Ok(c),
        Ok(None) => Err(AppError::NotFound("category")),
        Err(e) => Err(AppError::from(e)),
    }
}

/// The amounts that the total over the filter's range adds up.
pub fn total_report(state: &AppState, filter: ReportFilter) -> (r: Vec<u64>)
    ensures
        r@ == amounts_where(
            state@.expenses,
            opt_date_view(filter.from),
            opt_date_view(filter.to),
            Selector::All,
        ),
{
    state.total_report(filter.from, filter.to)
}

/// The groups that the totals by category over the filter's range add up.
pub fn totals_by_category(state: &AppState, filter: ReportFilter) -> (r: Vec<CategoryGroup>)
    ensures
        category_group_views(r@) == category_groups_spec(
            state@.categories,
            state@.expenses,
            opt_date_view(filter.from),
            opt_date_view(filter.to),
        ),
{
    state.totals_by_category(filter.from, filter.to)
}

/// The groups that the totals by month over the filter's range add up.
pub fn totals_by_month(state: &AppState, filter: ReportFilter) -> (r: Vec<MonthGroup>)
    ensures
        is_month_report(
            state@.expenses,
            opt_date_view(filter.from),
            opt_date_view(filter.to),
            month_group_views(r@),
        ),
{
    state.totals_by_month(filter.from, filter.to)
}

/// The groups that the totals by category and month over the filter's range add up.
pub fn totals_by_category_month(state: &AppState, filter: ReportFilter) -> (r: Vec<
    CategoryMonthGroup,
>)
    requires
        state.wf(),
    ensures
        is_category_month_report(
            state@.categories,
            state@.expenses,
            opt_date_view(filter.from),
            opt_date_view(filter.to),
            category_month_group_views(r@),
        ),
{
    state.totals_by_category_month(filter.from, filter.to)
}

/// Registers a user and answers the user without the password. Refused with a
/// conflict where the name is taken (or where the drawn id is).
pub fn register(state: &mut AppState, credentials: Credentials) -> (r: Result<User, AppError>)
    requires
        old(state).wf(),
        password_fits(credentials.password@),
    ensures
        final(state).wf(),
        usernames(old(state)@.users).contains(credentials.username@) ==> r == Err::<
            User,
            AppError,
        >(AppError::Conflict(unique_conflict_text())),
        r is Err ==> r == Err::<User, AppError>(AppError::Conflict(unique_conflict_text()))
            && final(state)@ == old(state)@,
        r is Err && !usernames(old(state)@.users).contains(credentials.username@)
            ==> old(state)@.users.len() > 0,
        final(state).drawn_ids() == old(state).drawn_ids().push(final(state).drawn_ids().last()),
        r matches Ok(u) ==> u.id == final(state).drawn_ids().last(),
        !usernames(old(state)@.users).contains(credentials.username@) && !user_ids(
            old(state)@.users,
        ).contains(final(state).drawn_ids().last()) ==> r is Ok,
        r is Err && !usernames(old(state)@.users).contains(credentials.username@) ==> user_ids(
            old(state)@.users,
        ).contains(final(state).drawn_ids().last()),
        r matches Ok(u) ==> u@.username == credentials.username@ && user_added(
            old(state)@,
            final(state)@,
            u.id,
            credentials.username@,
            credentials.password@,
        ),
{
    match state.insert_user(credentials) {
        Ok(u) => Ok(u),
        Err(e) => Err(AppError::from(e)),
    }
}

/// Checks the credentials and answers the id of the user they identify. Refused
/// as unauthorized, with one and the same answer, where the name is unknown or the
/// password is wrong.
pub fn authenticate(state: &AppState, credentials: Credentials) -> (r: Result<u128, AppError>)
    requires
        state.wf(),
    ensures
        match credential_check(state@, credentials.username@, credentials.password@) {
            Some(id) => r == Ok::<u128, AppError>(id),
            None => r == Err::<u128, AppError>(AppError::Unauthorized(login_refused_text())),
        },
{
    match state.verify_credentials(credentials) {
        Some(id) => Ok(id),
        None => Err(AppError::Unauthorized("invalid username or password")),
    }
}

/// Logs a user in at `now` (seconds since 1970): answers the bearer token that
/// `token_at` issues at that moment for the user the credentials identify, signed
/// with the store's secret and valid for 24 hours. Refused as unauthorized, with
/// one and the same answer, where the name is unknown or the password is wrong.
pub fn login_at(state: &AppState, credentials: Credentials, now: u64) -> (r: Result<
    TokenResponse,
    AppError,
>)
    requires
        state.wf(),
    ensures
        match credential_check(state@, credentials.username@, credentials.password@) {
            Some(id) => r matches Ok(t) && t.token@ == jwt_text(
                id,
                expiry_after(now),
                state@.jwt_secret,
            ) && t.token@.len() > 0 && jwt_signature_valid(t.token@, state@.jwt_secret),
            None => r == Err::<TokenResponse, AppError>(
                AppError::Unauthorized(login_refused_text()),
            ),
        },
{
    match authenticate(state, credentials) {
        Ok(id) => {
            let token = token_at(id, now, state.jwt_secret());
            Ok(TokenResponse { token })
        },
        Err(e) => Err(e),
    }
}

/// Logs a user in: `login_at` at the system clock's reading, which is not stated.
/// The token is non-empty, signed with the store's secret, and valid for 24 hours
/// from the moment of the call.
pub fn login(state: &AppState, credentials: Credentials) -> (r: Result<TokenResponse, AppError>)
    requires
        state.wf(),
    ensures
        match credential_check(state@, credentials.username@, credentials.password@) {
            Some(id) => r matches Ok(t) && (exists|now: u64|
                t.token@ == jwt_text(id, #[trigger] expiry_after(now), state@.jwt_secret))
                && t.token@.len() > 0 && jwt_signature_valid(t.token@, state@.jwt_secret),
            None => r == Err::<TokenResponse, AppError>(
                AppError::Unauthorized(login_refused_text()),
            ),
        },
{
    let now = unix_now();
    let r = login_at(state, credentials, now);
    proof {
        if r is Ok {
            assert(r->Ok_0.token@ == jwt_text(
                credential_check(state@, credentials.username@, credentials.password@)->Some_0,
                expiry_after(now),
                state@.jwt_secret,
            ));
        }
    }
    r
}

} // verus!
