//! The tracker's store: categories, expenses and users, with the integrity rules
//! that every state keeps.
use vstd::prelude::*;
use crate::date::{opt_date_view, Date};
use crate::error::DbFailure;
use crate::ids::IdLog;
use crate::model::{
    category_ids, category_index, category_views, expense_views, Category, CategoryView, Credentials, Expense, ExpenseView, User,
    UserView,
};
use crate::report::{
    amounts_where, category_group_views, category_groups, category_groups_spec,
    category_month_group_views, category_month_groups, is_category_month_report, is_month_report,
    month_group_views, month_groups, total_amounts, CategoryGroup, CategoryMonthGroup, MonthGroup,
    Selector,
};
use crate::password::{
    argon2_accepts, hash_password, password_fits, phc_string, verify_password,
};

verus! {

/// A stored user: the public part and the Argon2 hash of the password.
pub struct UserRecord {
    pub id: u128,
    pub username: String,
    pub password_hash: String,
}

pub struct UserRecordView {
    pub id: u128,
    pub username: Seq<char>,
    pub password_hash: Seq<char>,
}

impl View for UserRecord {
    type V = UserRecordView;

    open spec fn view(&self) -> UserRecordView {
        UserRecordView {
            id: self.id,
            username: self.username@,
            password_hash: self.password_hash@,
        }
    }
}

/// The content of the store: each table in the order its rows were added.
pub struct StoreView {
    pub categories: Seq<CategoryView>,
    pub expenses: Seq<ExpenseView>,
    pub users: Seq<UserRecordView>,
    /// The secret that signs the bearer tokens issued at login.
    pub jwt_secret: Seq<char>,
}

pub open spec fn expense_ids(exps: Seq<ExpenseView>) -> Seq<u128> {
    exps.map_values(|e: ExpenseView| e.id)
}

pub open spec fn user_ids(users: Seq<UserRecordView>) -> Seq<u128> {
    users.map_values(|u: UserRecordView| u.id)
}

pub open spec fn usernames(users: Seq<UserRecordView>) -> Seq<Seq<char>> {
    users.map_values(|u: UserRecordView| u.username)
}

/// Whether some expense refers to the category.
pub open spec fn category_in_use(exps: Seq<ExpenseView>, id: u128) -> bool {
    exists|k: int| 0 <= k < exps.len() && (#[trigger] exps[k]).category_id == id
}

/// The integrity rules of the store: keys are unique, every expense refers to an
/// existing category, usernames are unique, and every stored hash is a PHC string.
pub open spec fn store_wf(s: StoreView) -> bool {
    &&& category_ids(s.categories).no_duplicates()
    &&& expense_ids(s.expenses).no_duplicates()
    &&& user_ids(s.users).no_duplicates()
    &&& usernames(s.users).no_duplicates()
    &&& forall|k: int|
        0 <= k < s.expenses.len() ==> category_ids(s.categories).contains(
            (#[trigger] s.expenses[k]).category_id,
        )
    &&& forall|k: int| 0 <= k < s.users.len() ==> phc_string((#[trigger] s.users[k]).password_hash)
}

/// The position of the expense with this id (meaningful where there is one).
pub open spec fn expense_index(exps: Seq<ExpenseView>, id: u128) -> int {
    choose|k: int| 0 <= k < exps.len() && exps[k].id == id
}

/// The position of the user with this name (meaningful where there is one).
pub open spec fn user_index(users: Seq<UserRecordView>, name: Seq<char>) -> int {
    choose|k: int| 0 <= k < users.len() && users[k].username == name
}

/// The id of the user whom the credentials identify: the user with that name,
/// where Argon2 accepts the password against the stored hash.
pub open spec fn credential_check(s: StoreView, username: Seq<char>, password: Seq<char>) -> Option<
    u128,
> {
    if usernames(s.users).contains(username) {
        let u = s.users[user_index(s.users, username)];
        if argon2_accepts(password, u.password_hash) {
            Some(u.id)
        } else {
            None
        }
    } else {
        None
    }
}

/// `new` is `old` with one more user, whose id and name were free in `old`, whose
/// name is `username`, and whose stored hash accepts `password`.
pub open spec fn user_added(
    old: StoreView,
    new: StoreView,
    id: u128,
    username: Seq<char>,
    password: Seq<char>,
) -> bool {
    &&& !user_ids(old.users).contains(id)
    &&& !usernames(old.users).contains(username)
    &&& new.categories == old.categories
    &&& new.expenses == old.expenses
    &&& new.jwt_secret == old.jwt_secret
    &&& new.users.len() == old.users.len() + 1
    &&& new.users.drop_last() == old.users
    &&& new.users.last().id == id
    &&& new.users.last().username == username
    &&& argon2_accepts(password, new.users.last().password_hash)
}

/// The store. Tables keep the order in which rows were added.
pub struct AppState {
    categories: Vec<Category>,
    expenses: Vec<Expense>,
    users: Vec<UserRecord>,
    jwt_secret: String,
    ids: IdLog,
}

impl View for AppState {
    type V = StoreView;

    closed spec fn view(&self) -> StoreView {
        StoreView {
            categories: category_views(self.categories@),
            expenses: expense_views(self.expenses@),
            users: self.users@.map_values(|u: UserRecord| u@),
            jwt_secret: self.jwt_secret@,
        }
    }
}

impl AppState {
    /// The store keeps its integrity rules.
    pub open spec fn wf(&self) -> bool {
        store_wf(self@)
    }

    /// An empty store whose tokens are signed with `jwt_secret`.
    pub fn new(jwt_secret: String) -> (r: AppState)
        ensures
            r.wf(),
            r@.categories == Seq::<CategoryView>::empty(),
            r@.expenses == Seq::<ExpenseView>::empty(),
            r@.users == Seq::<UserRecordView>::empty(),
            r@.jwt_secret == jwt_secret@,
            r.drawn_ids() == Seq::<u128>::empty(),
    {
        let r = AppState {
            categories: Vec::new(),
            expenses: Vec::new(),
            users: Vec::new(),
            jwt_secret,
            ids: IdLog::new(),
        };
        assert(r@.categories =~= Seq::<CategoryView>::empty());
        assert(r@.expenses =~= Seq::<ExpenseView>::empty());
        assert(r@.users =~= Seq::<UserRecordView>::empty());
        r
    }

    fn find_category(&self, id: u128) -> (r: Option<usize>)
        ensures
            r matches Some(k) ==> k < self@.categories.len() && self@.categories[k as int].id == id,
            r is None <==> !category_ids(self@.categories).contains(id),
    {
        let mut k: usize = 0;
        while k < self.categories.len()
            invariant
                k <= self.categories.len(),
                self@.categories == category_views(self.categories@),
                forall|j: int| 0 <= j < k ==> self@.categories[j].id != id,
            decreases self.categories.len() - k,
        {
            if self.categories[k].id == id {
                proof {
                    assert(category_ids(self@.categories)[k as int] == id);
                }
                return Some(k);
            }
            k = k + 1;
        }
        proof {
            if category_ids(self@.categories).contains(id) {
                let j = choose|j: int|
                    0 <= j < category_ids(self@.categories).len() && category_ids(
                        self@.categories,
                    )[j] == id;
                assert(self@.categories[j].id == id);
            }
        }
        None
    }

    fn find_expense(&self, id: u128) -> (r: Option<usize>)
        ensures
            r matches Some(k) ==> k < self@.expenses.len() && self@.expenses[k as int].id == id,
            r is None <==> !expense_ids(self@.expenses).contains(id),
    {
        let mut k: usize = 0;
        while k < self.expenses.len()
            invariant
                k <= self.expenses.len(),
                self@.expenses == expense_views(self.expenses@),
                forall|j: int| 0 <= j < k ==> self@.expenses[j].id != id,
            decreases self.expenses.len() - k,
        {
            if self.expenses[k].id == id {
                proof {
                    assert(expense_ids(self@.expenses)[k as int] == id);
                }
                return Some(k);
            }
            k = k + 1;
        }
        proof {
            if expense_ids(self@.expenses).contains(id) {
                let j = choose|j: int|
                    0 <= j < expense_ids(self@.expenses).len() && expense_ids(self@.expenses)[j]
                        == id;
                assert(self@.expenses[j].id == id);
            }
        }
        None
    }

    /// The ids drawn so far for new rows, oldest first.
    pub closed spec fn drawn_ids(&self) -> Seq<u128> {
        self.ids.drawn()
    }

    /// Draws a fresh id for a new row; the rows themselves are left as they are.
    pub fn draw_id(&mut self) -> (id: u128)
        ensures
            final(self)@ == old(self)@,
            final(self).drawn_ids() == old(self).drawn_ids().push(id),
    {
        self.ids.draw()
    }

    /// The secret that signs the bearer tokens issued at login.
    pub fn jwt_secret(&self) -> (r: &String)
        ensures
            r@ == self@.jwt_secret,
    {
        &self.jwt_secret
    }

    /// All categories, in the order they were added.
    pub fn list_category(&self) -> (r: Vec<Category>)
        ensures
            category_views(r@) == self@.categories,
    {
        let mut r: Vec<Category> = Vec::new();
        let mut k: usize = 0;
        while k < self.categories.len()
            invariant
                k <= self.categories.len(),
                self@.categories == category_views(self.categories@),
                category_views(r@) == self@.categories.take(k as int),
            decreases self.categories.len() - k,
        {
            let c = self.categories[k].clone();
            let ghost before = r@;
            r.push(c);
            assert(r@ =~= before.push(c));
            assert(category_views(r@) =~= category_views(before).push(
                c@,
            ));
            assert(self@.categories.take(k + 1) =~= self@.categories.take(k as int).push(
                self@.categories[k as int],
            ));
            k = k + 1;
        }
        assert(self@.categories.take(k as int) =~= self@.categories);
        r
    }

    /// Adds a category. Refused with a unique-key violation where its id is taken.
    pub fn insert_category(&mut self, category: Category) -> (r: Result<(), DbFailure>)
        requires
            old(self).wf(),
        ensures
            final(self).wf(),
            r is Ok <==> !category_ids(old(self)@.categories).contains(category.id),
            r is Ok ==> final(self)@ == (StoreView {
                categories: old(self)@.categories.push(category@),
                ..old(self)@
            }),
            r is Err ==> (r matches Err(DbFailure::UniqueViolation) && final(self)@ == old(self)@),
            final(self).drawn_ids() == old(self).drawn_ids(),
    {
        if self.find_category(category.id).is_some() {
            return Err(DbFailure::UniqueViolation);
        }
        let ghost old_view = self@;
        self.categories.push(category);
        proof {
            assert(self@.categories =~= old_view.categories.push(category@));
            assert(category_ids(self@.categories) =~= category_ids(old_view.categories).push(
                category.id,
            ));
            assert forall|k: int| 0 <= k < self@.expenses.len() implies category_ids(
                self@.categories,
            ).contains((#[trigger] self@.expenses[k]).category_id) by {
                let c = self@.expenses[k].category_id;
                let j = choose|j: int|
                    0 <= j < category_ids(old_view.categories).len() && category_ids(
                        old_view.categories,
                    )[j] == c;
                assert(category_ids(self@.categories)[j] == c);
            }
        }
        Ok(())
    }

    /// Removes the category with this id and returns it; `None` where there is none.
    /// Refused with a foreign-key violation while an expense refers to it.
    pub fn remove_category(&mut self, id: u128) -> (r: Result<Option<Category>, DbFailure>)
        requires
            old(self).wf(),
        ensures
            final(self).wf(),
            !category_ids(old(self)@.categories).contains(id) ==> (r matches Ok(None)
                && final(self)@ == old(self)@),
            category_ids(old(self)@.categories).contains(id) && category_in_use(
                old(self)@.expenses,
                id,
            ) ==> (r matches Err(DbFailure::ForeignKeyViolation) && final(self)@ == old(self)@),
            category_ids(old(self)@.categories).contains(id) && !category_in_use(
                old(self)@.expenses,
                id,
            ) ==> (r matches Ok(Some(c)) && c@ == old(self)@.categories[category_index(
                old(self)@.categories,
                id,
            )] && final(self)@ == (StoreView {
                categories: old(self)@.categories.remove(
                    category_index(old(self)@.categories, id),
                ),
                ..old(self)@
            })),
    {
        let found = self.find_category(id);
        match found {
            None => Ok(None),
            Some(k) => {
                let mut j: usize = 0;
                while j < self.expenses.len()
                    invariant
                        j <= self.expenses.len(),
                        self@ == old(self)@,
                        self.wf(),
                        k < self@.categories.len(),
                        self@.categories[k as int].id == id,
                        self@.expenses == expense_views(self.expenses@),
                        forall|i: int| 0 <= i < j ==> self@.expenses[i].category_id != id,
                    decreases self.expenses.len() - j,
                {
                    if self.expenses[j].category_id == id {
                        proof {
                            assert(self@.expenses[j as int].category_id == id);
                            assert(category_ids(self@.categories)[k as int] == id);
                        }
                        return Err(DbFailure::ForeignKeyViolation);
                    }
                    j = j + 1;
                }
                let ghost old_view = self@;
                proof {
                    assert(category_ids(old_view.categories)[k as int] == id);
                    assert(category_index(old_view.categories, id) == k) by {
                        let c = category_index(old_view.categories, id);
                        assert(category_ids(old_view.categories)[c] == id);
                    }
                }
                let c = self.categories.remove(k);
                proof {
                    assert(self@.categories =~= old_view.categories.remove(k as int));
                    assert(category_ids(self@.categories) =~= category_ids(
                        old_view.categories,
                    ).remove(k as int));
                    assert forall|i: int| 0 <= i < self@.expenses.len() implies category_ids(
                        self@.categories,
                    ).contains((#[trigger] self@.expenses[i]).category_id) by {
                        let cid = self@.expenses[i].category_id;
                        let w = choose|w: int|
                            0 <= w < category_ids(old_view.categories).len() && category_ids(
                                old_view.categories,
                            )[w] == cid;
                        assert(w != k);
                        if w < k {
                            assert(category_ids(self@.categories)[w] == cid);
                        } else {
                            assert(category_ids(self@.categories)[w - 1] == cid);
                        }
                    }
                }
                Ok(Some(c))
            },
        }
    }

    /// All expenses, in the order they were added.
    pub fn list_expenses(&self) -> (r: Vec<Expense>)
        ensures
            expense_views(r@) == self@.expenses,
    {
        let mut r: Vec<Expense> = Vec::new();
        let mut k: usize = 0;
        while k < self.expenses.len()
            invariant
                k <= self.expenses.len(),
                self@.expenses == expense_views(self.expenses@),
                expense_views(r@) == self@.expenses.take(k as int),
            decreases self.expenses.len() - k,
        {
            let e = self.expenses[k].clone();
            let ghost before = r@;
            r.push(e);
            assert(r@ =~= before.push(e));
            assert(expense_views(r@) =~= expense_views(before).push(
                e@,
            ));
            assert(self@.expenses.take(k + 1) =~= self@.expenses.take(k as int).push(
                self@.expenses[k as int],
            ));
            k = k + 1;
        }
        assert(self@.expenses.take(k as int) =~= self@.expenses);
        r
    }

    /// Adds an expense. Refused with a unique-key violation where its id is taken,
    /// and otherwise with a foreign-key violation where its category does not exist.
    pub fn insert_expense(&mut self, expense: Expense) -> (r: Result<(), DbFailure>)
        requires
            old(self).wf(),
        ensures
            final(self).wf(),
            expense_ids(old(self)@.expenses).contains(expense.id) ==> (r matches Err(
                DbFailure::UniqueViolation,
            ) && final(self)@ == old(self)@),
            !expense_ids(old(self)@.expenses).contains(expense.id) && !category_ids(
                old(self)@.categories,
            ).contains(expense.category_id) ==> (r matches Err(DbFailure::ForeignKeyViolation)
                && final(self)@ == old(self)@),
            !expense_ids(old(self)@.expenses).contains(expense.id) && category_ids(
                old(self)@.categories,
            ).contains(expense.category_id) ==> (r is Ok && final(self)@ == (StoreView {
                expenses: old(self)@.expenses.push(expense@),
                ..old(self)@
            })),
            final(self).drawn_ids() == old(self).drawn_ids(),
    {
        if self.find_expense(expense.id).is_some() {
            return Err(DbFailure::UniqueViolation);
        }
        if self.find_category(expense.category_id).is_none() {
            return Err(DbFailure::ForeignKeyViolation);
        }
        let ghost old_view = self@;
        self.expenses.push(expense);
        proof {
            assert(self@.expenses =~= old_view.expenses.push(expense@));
            assert(expense_ids(self@.expenses) =~= expense_ids(old_view.expenses).push(
                expense.id,
            ));
            assert forall|k: int| 0 <= k < self@.expenses.len() implies category_ids(
                self@.categories,
            ).contains((#[trigger] self@.expenses[k]).category_id) by {
                if k < old_view.expenses.len() {
                    assert(self@.expenses[k] == old_view.expenses[k]);
                }
            }
        }
        Ok(())
    }

    /// Replaces the fields of the expense with the same id. Where no expense has that
    /// id nothing changes and nothing is refused; otherwise the change is refused
    /// with a foreign-key violation where the new category does not exist.
    pub fn update_expense(&mut self, expense: Expense) -> (r: Result<(), DbFailure>)
        requires
            old(self).wf(),
        ensures
            final(self).wf(),
            !expense_ids(old(self)@.expenses).contains(expense.id) ==> (r is Ok && final(self)@
                == old(self)@),
            expense_ids(old(self)@.expenses).contains(expense.id) && !category_ids(
                old(self)@.categories,
            ).contains(expense.category_id) ==> (r matches Err(DbFailure::ForeignKeyViolation)
                && final(self)@ == old(self)@),
            expense_ids(old(self)@.expenses).contains(expense.id) && category_ids(
                old(self)@.categories,
            ).contains(expense.category_id) ==> (r is Ok && final(self)@ == (StoreView {
                expenses: old(self)@.expenses.update(
                    expense_index(old(self)@.expenses, expense.id),
                    expense@,
                ),
                ..old(self)@
            })),
    {
        let found = self.find_expense(expense.id);
        match found {
            None => Ok(()),
            Some(k) => {
                if self.find_category(expense.category_id).is_none() {
                    return Err(DbFailure::ForeignKeyViolation);
                }
                let ghost old_view = self@;
                proof {
                    assert(expense_ids(old_view.expenses)[k as int] == expense.id);
                    let c = expense_index(old_view.expenses, expense.id);
                    assert(expense_ids(old_view.expenses)[c] == expense.id);
                    assert(c == k);
                }
                self.expenses.set(k, expense);
                proof {
                    assert(self@.expenses =~= old_view.expenses.update(k as int, expense@));
                    assert(expense_ids(self@.expenses) =~= expense_ids(old_view.expenses).update(
                        k as int,
                        expense.id,
                    ));
                    assert forall|i: int| 0 <= i < self@.expenses.len() implies category_ids(
                        self@.categories,
                    ).contains((#[trigger] self@.expenses[i]).category_id) by {
                        if i != k {
                            assert(self@.expenses[i] == old_view.expenses[i]);
                        }
                    }
                    assert(expense_ids(self@.expenses).no_duplicates());
                }
                Ok(())
            },
        }
    }

    /// The expense with this id, if there is one.
    pub fn get_expense(&self, id: u128) -> (r: Option<Expense>)
        requires
            self.wf(),
        ensures
            r is Some <==> expense_ids(self@.expenses).contains(id),
            r matches Some(e) ==> e@ == self@.expenses[expense_index(self@.expenses, id)],
    {
        match self.find_expense(id) {
            None => None,
            Some(k) => {
                proof {
                    let c = expense_index(self@.expenses, id);
                    assert(expense_ids(self@.expenses)[k as int] == id);
                    assert(expense_ids(self@.expenses)[c] == id);
                }
                Some(self.expenses[k].clone())
            },
        }
    }

    /// Removes the expense with this id and returns it; `None` where there is none.
    pub fn remove_expense(&mut self, id: u128) -> (r: Option<Expense>)
        requires
            old(self).wf(),
        ensures
            final(self).wf(),
            r is None <==> !expense_ids(old(self)@.expenses).contains(id),
            r is None ==> final(self)@ == old(self)@,
            r matches Some(e) ==> e@ == old(self)@.expenses[expense_index(old(self)@.expenses, id)]
                && final(self)@ == (StoreView {
                expenses: old(self)@.expenses.remove(expense_index(old(self)@.expenses, id)),
                ..old(self)@
            }),
    {
        match self.find_expense(id) {
            None => None,
            Some(k) => {
                let ghost old_view = self@;
                proof {
                    let c = expense_index(old_view.expenses, id);
                    assert(expense_ids(old_view.expenses)[k as int] == id);
                    assert(expense_ids(old_view.expenses)[c] == id);
                }
                let e = self.expenses.remove(k);
                proof {
                    assert(self@.expenses =~= old_view.expenses.remove(k as int));
                    assert(expense_ids(self@.expenses) =~= expense_ids(old_view.expenses).remove(
                        k as int,
                    ));
                    assert forall|i: int| 0 <= i < self@.expenses.len() implies category_ids(
                        self@.categories,
                    ).contains((#[trigger] self@.expenses[i]).category_id) by {
                        if i < k {
                            assert(self@.expenses[i] == old_view.expenses[i]);
                        } else {
                            assert(self@.expenses[i] == old_view.expenses[i + 1]);
                        }
                    }
                }
                Some(e)
            },
        }
    }

    fn find_user_id(&self, id: u128) -> (r: bool)
        ensures
            r == user_ids(self@.users).contains(id),
    {
        let mut k: usize = 0;
        while k < self.users.len()
            invariant
                k <= self.users.len(),
                self@.users == self.users@.map_values(|u: UserRecord| u@),
                forall|j: int| 0 <= j < k ==> self@.users[j].id != id,
            decreases self.users.len() - k,
        {
            if self.users[k].id == id {
                proof {
                    assert(user_ids(self@.users)[k as int] == id);
                }
                return true;
            }
            k = k + 1;
        }
        proof {
            if user_ids(self@.users).contains(id) {
                let j = choose|j: int|
                    0 <= j < user_ids(self@.users).len() && user_ids(self@.users)[j] == id;
                assert(self@.users[j].id == id);
            }
        }
        false
    }

    fn find_username(&self, name: &String) -> (r: Option<usize>)
        ensures
            r matches Some(k) ==> k < self@.users.len() && self@.users[k as int].username
                == name@,
            r is None <==> !usernames(self@.users).contains(name@),
    {
        let mut k: usize = 0;
        while k < self.users.len()
            invariant
                k <= self.users.len(),
                self@.users == self.users@.map_values(|u: UserRecord| u@),
                forall|j: int| 0 <= j < k ==> self@.users[j].username != name@,
            decreases self.users.len() - k,
        {
            if self.users[k].username == *name {
                proof {
                    assert(usernames(self@.users)[k as int] == name@);
                }
                return Some(k);
            }
            k = k + 1;
        }
        proof {
            if usernames(self@.users).contains(name@) {
                let j = choose|j: int|
                    0 <= j < usernames(self@.users).len() && usernames(self@.users)[j] == name@;
                assert(self@.users[j].username == name@);
            }
        }
        None
    }

    /// Adds a user with the given id, name and password hash. Refused with a
    /// unique-key violation where the id or the name is taken.
    pub fn insert_user_record(&mut self, id: u128, username: String, password_hash: String) -> (r:
        Result<User, DbFailure>)
        requires
            old(self).wf(),
            phc_string(password_hash@),
        ensures
            final(self).wf(),
            user_ids(old(self)@.users).contains(id) || usernames(old(self)@.users).contains(
                username@,
            ) ==> (r matches Err(DbFailure::UniqueViolation) && final(self)@ == old(self)@),
            !user_ids(old(self)@.users).contains(id) && !usernames(old(self)@.users).contains(
                username@,
            ) ==> (r matches Ok(u) && u@ == (UserView { id, username: username@ })
                && final(self)@ == (StoreView {
                users: old(self)@.users.push(
                    UserRecordView { id, username: username@, password_hash: password_hash@ },
                ),
                ..old(self)@
            })),
            final(self).drawn_ids() == old(self).drawn_ids(),
    {
        if self.find_user_id(id) || self.find_username(&username).is_some() {
            return Err(DbFailure::UniqueViolation);
        }
        let ghost old_view = self@;
        let user = User { id, username: username.clone() };
        let record = UserRecord { id, username, password_hash };
        self.users.push(record);
        proof {
            assert(self@.users =~= old_view.users.push(record@));
            assert(user_ids(self@.users) =~= user_ids(old_view.users).push(id));
            assert(usernames(self@.users) =~= usernames(old_view.users).push(record@.username));
            assert forall|k: int| 0 <= k < self@.users.len() implies phc_string(
                (#[trigger] self@.users[k]).password_hash,
            ) by {
                if k < old_view.users.len() {
                    assert(self@.users[k] == old_view.users[k]);
                }
            }
        }
        Ok(user)
    }

    /// Registers a user: draws a fresh id, hashes the password with a fresh salt, and
    /// adds the user. Refused with a unique-key violation where the name is taken,
    /// or where the drawn id is already in use.
    pub fn insert_user(&mut self, credentials: Credentials) -> (r: Result<User, DbFailure>)
        requires
            old(self).wf(),
            password_fits(credentials.password@),
        ensures
            final(self).wf(),
            usernames(old(self)@.users).contains(credentials.username@) ==> (r matches Err(
                DbFailure::UniqueViolation,
            ) && final(self)@ == old(self)@),
            r is Err ==> (r matches Err(DbFailure::UniqueViolation) && final(self)@ == old(self)@),
            r is Err && !usernames(old(self)@.users).contains(credentials.username@)
                ==> old(self)@.users.len() > 0,
            r matches Ok(u) ==> u@.username == credentials.username@ && user_added(
                old(self)@,
                final(self)@,
                u.id,
                credentials.username@,
                credentials.password@,
            ),
            final(self).drawn_ids() == old(self).drawn_ids().push(final(self).drawn_ids().last()),
            r matches Ok(u) ==> u.id == final(self).drawn_ids().last(),
            !usernames(old(self)@.users).contains(credentials.username@) && !user_ids(
                old(self)@.users,
            ).contains(final(self).drawn_ids().last()) ==> r is Ok,
            r is Err && !usernames(old(self)@.users).contains(credentials.username@)
                ==> user_ids(old(self)@.users).contains(final(self).drawn_ids().last()),
    {
        let password_hash = hash_password(&credentials.password);
        let id = self.draw_id();
        let ghost old_view = self@;
        let r = self.insert_user_record(id, credentials.username, password_hash);
        proof {
            if r is Err && !usernames(old_view.users).contains(credentials.username@) {
                let j = choose|j: int|
                    0 <= j < user_ids(old_view.users).len() && user_ids(old_view.users)[j] == id;
                assert(old_view.users[j].id == id);
            }
            if r is Ok {
                assert(self@.users.drop_last() =~= old_view.users);
            }
        }
        r
    }

    /// The id of the user whom the credentials identify, or `None` where there is no
    /// user with that name or the password is wrong. The two refusals give the same
    /// answer.
    pub fn verify_credentials(&self, credentials: Credentials) -> (r: Option<u128>)
        requires
            self.wf(),
        ensures
            r == credential_check(self@, credentials.username@, credentials.password@),
    {
        match self.find_username(&credentials.username) {
            None => None,
            Some(k) => {
                proof {
                    let c = user_index(self@.users, credentials.username@);
                    assert(usernames(self@.users)[k as int] == credentials.username@);
                    assert(usernames(self@.users)[c] == credentials.username@);
                    assert(self@.users[k as int] == self.users@[k as int]@);
                }
                if verify_password(&credentials.password, &self.users[k].password_hash) {
                    Some(self.users[k].id)
                } else {
                    None
                }
            },
        }
    }

    /// The amounts of all expenses in the inclusive range `from..=to` (a missing
    /// bound leaves that side open), in the order they were added; their sum is the
    /// total, and an empty list totals zero.
    pub fn total_report(&self, from: Option<Date>, to: Option<Date>) -> (r: Vec<u64>)
        ensures
            r@ == amounts_where(
                self@.expenses,
                opt_date_view(from),
                opt_date_view(to),
                Selector::All,
            ),
    {
        total_amounts(&self.expenses, &from, &to)
    }

    /// The expenses in the range grouped by category: one group for each category
    /// with an expense in the range, in the order the categories were added.
    pub fn totals_by_category(&self, from: Option<Date>, to: Option<Date>) -> (r: Vec<
        CategoryGroup,
    >)
        ensures
            category_group_views(r@) == category_groups_spec(
                self@.categories,
                self@.expenses,
                opt_date_view(from),
                opt_date_view(to),
            ),
    {
        category_groups(&self.categories, &self.expenses, &from, &to)
    }

    /// The expenses in the range grouped by month, in increasing order of month.
    pub fn totals_by_month(&self, from: Option<Date>, to: Option<Date>) -> (r: Vec<MonthGroup>)
        ensures
            is_month_report(
                self@.expenses,
                opt_date_view(from),
                opt_date_view(to),
                month_group_views(r@),
            ),
    {
        month_groups(&self.expenses, &from, &to)
    }

    /// The expenses in the range grouped by category and month, ordered by category
    /// name and then by month.
    pub fn totals_by_category_month(&self, from: Option<Date>, to: Option<Date>) -> (r: Vec<
        CategoryMonthGroup,
    >)
        requires
            self.wf(),
        ensures
            is_category_month_report(
                self@.categories,
                self@.expenses,
                opt_date_view(from),
                opt_date_view(to),
                category_month_group_views(r@),
            ),
    {
        proof {
            assert forall|k: int| 0 <= k < self.expenses@.len() implies category_ids(
                category_views(self.categories@),
            ).contains((#[trigger] self.expenses@[k]).category_id) by {
                assert(self@.expenses[k] == self.expenses@[k]@);
            }
        }
        category_month_groups(&self.categories, &self.expenses, &from, &to)
    }

    /// The stored password hash of the user with this name, if there is one; for
    /// writing the user to durable storage.
    pub fn stored_hash(&self, username: &String) -> (r: Option<String>)
        requires
            self.wf(),
        ensures
            r is Some <==> usernames(self@.users).contains(username@),
            r matches Some(h) ==> h@ == self@.users[user_index(self@.users, username@)].password_hash,
    {
        match self.find_username(username) {
            None => None,
            Some(k) => {
                proof {
                    let c = user_index(self@.users, username@);
                    assert(usernames(self@.users)[k as int] == username@);
                    assert(usernames(self@.users)[c] == username@);
                    assert(self@.users[k as int] == self.users@[k as int]@);
                }
                Some(self.users[k].password_hash.clone())
            },
        }
    }
}

} // verus!
