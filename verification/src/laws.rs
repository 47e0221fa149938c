//! Properties that span several operations of the store and the reports.
use vstd::prelude::*;
use vstd::multiset::Multiset;
use crate::date::{date_le, in_range, DateView};
use crate::error::AppError;
use crate::model::{category_ids, category_index, CategoryView, ExpenseView};
use crate::date::month_text;
use crate::order::{lemma_lex_irreflexive, lex_lt};
use crate::report::{
    amounts_where, category_groups_spec, is_category_month_report, is_month_report, selects,
    CategoryGroupView, CategoryMonthGroupView, MonthGroupView, Selector,
};
use crate::password::argon2_accepts;
use crate::store::{
    credential_check, expense_ids, expense_index, user_added, user_index, usernames, StoreView,
};

verus! {

/// An expense added under a free id is found again under that id, as added.
pub proof fn law_added_expense_is_found(s: Seq<ExpenseView>, e: ExpenseView)
    requires
        expense_ids(s).no_duplicates(),
        !expense_ids(s).contains(e.id),
    ensures
        expense_ids(s.push(e)).contains(e.id),
        s.push(e)[expense_index(s.push(e), e.id)] == e,
{
    let t = s.push(e);
    assert(expense_ids(t)[s.len() as int] == e.id);
    let k = expense_index(t, e.id);
    if k < s.len() {
        assert(expense_ids(s)[k] == e.id);
    }
}

/// After the expense with an id is replaced, that id finds the replacement.
pub proof fn law_replaced_expense_is_found(s: Seq<ExpenseView>, e: ExpenseView)
    requires
        expense_ids(s).no_duplicates(),
        expense_ids(s).contains(e.id),
    ensures
        expense_ids(s.update(expense_index(s, e.id), e)).contains(e.id),
        s.update(expense_index(s, e.id), e)[expense_index(s.update(expense_index(s, e.id), e), e.id)]
            == e,
{
    let k = expense_index(s, e.id);
    let w = choose|w: int| 0 <= w < expense_ids(s).len() && expense_ids(s)[w] == e.id;
    assert(s[w].id == e.id);
    let t = s.update(k, e);
    assert(expense_ids(t)[k] == e.id);
    let j = expense_index(t, e.id);
    if j != k {
        assert(expense_ids(s)[j] == e.id);
        assert(expense_ids(s)[k] == e.id);
    }
}

/// After the expense with an id is removed, no expense has that id.
pub proof fn law_removed_expense_is_gone(s: Seq<ExpenseView>, id: u128)
    requires
        expense_ids(s).no_duplicates(),
        expense_ids(s).contains(id),
    ensures
        !expense_ids(s.remove(expense_index(s, id))).contains(id),
{
    let w = choose|w: int| 0 <= w < expense_ids(s).len() && expense_ids(s)[w] == id;
    assert(s[w].id == id);
    let k = expense_index(s, id);
    let t = s.remove(k);
    if expense_ids(t).contains(id) {
        let j = choose|j: int| 0 <= j < expense_ids(t).len() && expense_ids(t)[j] == id;
        if j < k {
            assert(expense_ids(s)[j] == id);
        } else {
            assert(expense_ids(s)[j + 1] == id);
        }
        assert(expense_ids(s)[k] == id);
    }
}

/// After the category with an id is removed, no category has that id.
pub proof fn law_removed_category_is_gone(s: Seq<CategoryView>, id: u128)
    requires
        category_ids(s).no_duplicates(),
        category_ids(s).contains(id),
    ensures
        !category_ids(s.remove(category_index(s, id))).contains(id),
{
    let w = choose|w: int| 0 <= w < category_ids(s).len() && category_ids(s)[w] == id;
    assert(s[w].id == id);
    let k = category_index(s, id);
    let t = s.remove(k);
    if category_ids(t).contains(id) {
        let j = choose|j: int| 0 <= j < category_ids(t).len() && category_ids(t)[j] == id;
        if j < k {
            assert(category_ids(s)[j] == id);
        } else {
            assert(category_ids(s)[j + 1] == id);
        }
        assert(category_ids(s)[k] == id);
    }
}

/// A user who registered with a name and password logs in with them, as that user.
pub proof fn law_registered_user_logs_in(
    before: StoreView,
    after: StoreView,
    id: u128,
    username: Seq<char>,
    password: Seq<char>,
)
    requires
        user_added(before, after, id, username, password),
    ensures
        credential_check(after, username, password) == Some(id),
{
    let n = before.users.len() as int;
    assert(after.users[n] == after.users.last());
    assert(crate::store::usernames(after.users)[n] == username);
    let k = crate::store::user_index(after.users, username);
    if k < n {
        assert(after.users.drop_last()[k] == after.users[k]);
        assert(crate::store::usernames(before.users)[k] == username);
    }
}

/// The answer to a refused login: the same whether the name was unknown or the
/// password wrong.
pub open spec fn login_answer(s: StoreView, username: Seq<char>, password: Seq<char>) -> Result<
    u128,
    AppError,
> {
    match credential_check(s, username, password) {
        Some(id) => Ok(id),
        None => Err(AppError::Unauthorized(crate::handlers::login_refused_text())),
    }
}

/// Two refused logins, whatever made them fail, get the same answer.
pub proof fn law_refused_logins_look_alike(
    s1: StoreView,
    u1: Seq<char>,
    p1: Seq<char>,
    s2: StoreView,
    u2: Seq<char>,
    p2: Seq<char>,
)
    requires
        credential_check(s1, u1, p1) is None,
        credential_check(s2, u2, p2) is None,
    ensures
        login_answer(s1, u1, p1) == login_answer(s2, u2, p2),
{
}

/// A range whose start lies after its end selects no expense: every report over it
/// is empty and its total is zero.
pub proof fn law_inverted_range_selects_nothing(
    es: Seq<ExpenseView>,
    from: DateView,
    to: DateView,
    sel: Selector,
)
    requires
        !date_le(from, to),
    ensures
        amounts_where(es, Some(from), Some(to), sel) == Seq::<u64>::empty(),
    decreases es.len(),
{
    if es.len() > 0 {
        law_inverted_range_selects_nothing(es.drop_last(), from, to, sel);
        let d = es.last().date;
        assert(!in_range(d, Some(from), Some(to)));
        assert(!selects(sel, Some(from), Some(to), es.last()));
    }
}

/// With no bounds every expense is in the range: the total takes in all of them.
pub proof fn law_unbounded_total_takes_all(es: Seq<ExpenseView>)
    ensures
        amounts_where(es, None, None, Selector::All) == es.map_values(|e: ExpenseView| e.amount_bits),
    decreases es.len(),
{
    if es.len() > 0 {
        law_unbounded_total_takes_all(es.drop_last());
        assert(es.map_values(|e: ExpenseView| e.amount_bits) =~= es.drop_last().map_values(
            |e: ExpenseView| e.amount_bits,
        ).push(es.last().amount_bits));
    } else {
        assert(es.map_values(|e: ExpenseView| e.amount_bits) =~= Seq::<u64>::empty());
    }
}

/// The amounts that the selectors take in, one selector after the other.
pub open spec fn concat_amounts(
    es: Seq<ExpenseView>,
    from: Option<DateView>,
    to: Option<DateView>,
    sels: Seq<Selector>,
) -> Seq<u64>
    decreases sels.len(),
{
    if sels.len() == 0 {
        seq![]
    } else {
        concat_amounts(es, from, to, sels.drop_last()) + amounts_where(es, from, to, sels.last())
    }
}

/// How many of the selectors take in the expense.
pub open spec fn select_count(
    sels: Seq<Selector>,
    from: Option<DateView>,
    to: Option<DateView>,
    e: ExpenseView,
) -> nat
    decreases sels.len(),
{
    if sels.len() == 0 {
        0
    } else {
        select_count(sels.drop_last(), from, to, e) + if selects(sels.last(), from, to, e) {
            1nat
        } else {
            0nat
        }
    }
}

/// `n` copies of `a`.
pub open spec fn copies(a: u64, n: nat) -> Multiset<u64>
    decreases n,
{
    if n == 0 {
        Multiset::empty()
    } else {
        copies(a, (n - 1) as nat).insert(a)
    }
}

proof fn lemma_concat_step(
    es: Seq<ExpenseView>,
    from: Option<DateView>,
    to: Option<DateView>,
    sels: Seq<Selector>,
)
    requires
        es.len() > 0,
    ensures
        concat_amounts(es, from, to, sels).to_multiset() =~= concat_amounts(
            es.drop_last(),
            from,
            to,
            sels,
        ).to_multiset().add(copies(es.last().amount_bits, select_count(sels, from, to, es.last()))),
    decreases sels.len(),
{
    broadcast use vstd::seq_lib::group_to_multiset_ensures;
    broadcast use vstd::multiset::group_multiset_axioms;

    if sels.len() > 0 {
        let s2 = sels.drop_last();
        let l = sels.last();
        let e = es.last();
        lemma_concat_step(es, from, to, s2);
        vstd::seq_lib::lemma_multiset_commutative(
            concat_amounts(es, from, to, s2),
            amounts_where(es, from, to, l),
        );
        vstd::seq_lib::lemma_multiset_commutative(
            concat_amounts(es.drop_last(), from, to, s2),
            amounts_where(es.drop_last(), from, to, l),
        );
        let n = select_count(s2, from, to, e);
        if selects(l, from, to, e) {
            assert(copies(e.amount_bits, n + 1) == copies(e.amount_bits, n).insert(e.amount_bits));
        }
    } else {
        assert(concat_amounts(es, from, to, sels).to_multiset() =~= Multiset::empty());
        assert(concat_amounts(es.drop_last(), from, to, sels).to_multiset() =~= Multiset::empty());
    }
}

/// Where every expense in the range is taken in by exactly one of the selectors,
/// the selectors together take in the same amounts as the total.
pub proof fn law_partition_covers_total(
    es: Seq<ExpenseView>,
    from: Option<DateView>,
    to: Option<DateView>,
    sels: Seq<Selector>,
)
    requires
        forall|k: int|
            0 <= k < es.len() ==> select_count(sels, from, to, #[trigger] es[k]) == if in_range(
                es[k].date,
                from,
                to,
            ) {
                1nat
            } else {
                0nat
            },
    ensures
        concat_amounts(es, from, to, sels).to_multiset() =~= amounts_where(
            es,
            from,
            to,
            Selector::All,
        ).to_multiset(),
    decreases es.len(),
{
    broadcast use vstd::seq_lib::group_to_multiset_ensures;
    broadcast use vstd::multiset::group_multiset_axioms;

    if es.len() == 0 {
        lemma_concat_empty(es, from, to, sels);
    } else {
        let e2 = es.drop_last();
        assert forall|k: int| 0 <= k < e2.len() implies select_count(
            sels,
            from,
            to,
            #[trigger] e2[k],
        ) == if in_range(e2[k].date, from, to) {
            1nat
        } else {
            0nat
        } by {
            assert(e2[k] == es[k]);
        }
        law_partition_covers_total(e2, from, to, sels);
        lemma_concat_step(es, from, to, sels);
        let e = es.last();
        assert(es[es.len() - 1] == e);
        if in_range(e.date, from, to) {
            assert(copies(e.amount_bits, 0) =~= Multiset::empty());
            assert(copies(e.amount_bits, 1) =~= Multiset::empty().insert(e.amount_bits));
        } else {
            assert(copies(e.amount_bits, 0) =~= Multiset::empty());
        }
    }
}

proof fn lemma_concat_empty(
    es: Seq<ExpenseView>,
    from: Option<DateView>,
    to: Option<DateView>,
    sels: Seq<Selector>,
)
    requires
        es.len() == 0,
    ensures
        concat_amounts(es, from, to, sels) == Seq::<u64>::empty(),
    decreases sels.len(),
{
    if sels.len() > 0 {
        lemma_concat_empty(es, from, to, sels.drop_last());
        assert(amounts_where(es, from, to, sels.last()) == Seq::<u64>::empty());
        assert(concat_amounts(es, from, to, sels) =~= Seq::<u64>::empty());
    }
}

/// Where no two selectors take in the expense, it is counted once if some
/// selector takes it in, and not at all otherwise.
proof fn lemma_count_disjoint(
    sels: Seq<Selector>,
    from: Option<DateView>,
    to: Option<DateView>,
    e: ExpenseView,
)
    requires
        forall|a: int, b: int|
            0 <= a < b < sels.len() ==> !(selects(#[trigger] sels[a], from, to, e) && selects(
                #[trigger] sels[b],
                from,
                to,
                e,
            )),
    ensures
        select_count(sels, from, to, e) == if exists|a: int|
            0 <= a < sels.len() && selects(#[trigger] sels[a], from, to, e) {
            1nat
        } else {
            0nat
        },
    decreases sels.len(),
{
    if sels.len() > 0 {
        let s2 = sels.drop_last();
        assert forall|a: int, b: int| 0 <= a < b < s2.len() implies !(selects(
            #[trigger] s2[a],
            from,
            to,
            e,
        ) && selects(#[trigger] s2[b], from, to, e)) by {
            assert(s2[a] == sels[a]);
            assert(s2[b] == sels[b]);
        }
        lemma_count_disjoint(s2, from, to, e);
        let n = sels.len() - 1;
        assert(sels[n] == sels.last());
        if exists|a: int| 0 <= a < s2.len() && selects(#[trigger] s2[a], from, to, e) {
            let a = choose|a: int| 0 <= a < s2.len() && selects(#[trigger] s2[a], from, to, e);
            assert(sels[a] == s2[a]);
        }
        if exists|a: int| 0 <= a < sels.len() && selects(#[trigger] sels[a], from, to, e) {
            let a = choose|a: int| 0 <= a < sels.len() && selects(#[trigger] sels[a], from, to, e);
            if a < n {
                assert(s2[a] == sels[a]);
            }
        }
    }
}

/// The selectors of the groups by category, one for each category.
pub open spec fn category_selectors(cats: Seq<CategoryView>) -> Seq<Selector> {
    cats.map_values(|c: CategoryView| Selector::Category(c.id))
}

/// The amounts of the groups, one group after the other.
pub open spec fn category_groups_concat(gs: Seq<CategoryGroupView>) -> Seq<u64>
    decreases gs.len(),
{
    if gs.len() == 0 {
        seq![]
    } else {
        category_groups_concat(gs.drop_last()) + gs.last().amounts
    }
}

proof fn lemma_category_groups_concat(
    cats: Seq<CategoryView>,
    es: Seq<ExpenseView>,
    from: Option<DateView>,
    to: Option<DateView>,
)
    ensures
        category_groups_concat(category_groups_spec(cats, es, from, to)) == concat_amounts(
            es,
            from,
            to,
            category_selectors(cats),
        ),
    decreases cats.len(),
{
    if cats.len() > 0 {
        lemma_category_groups_concat(cats.drop_last(), es, from, to);
        let sels = category_selectors(cats);
        assert(sels.drop_last() =~= category_selectors(cats.drop_last()));
        assert(sels[sels.len() - 1] == Selector::Category(cats.last().id));
        let a = amounts_where(es, from, to, Selector::Category(cats.last().id));
        let gs = category_groups_spec(cats, es, from, to);
        let rest = category_groups_spec(cats.drop_last(), es, from, to);
        assert(concat_amounts(es, from, to, sels) == concat_amounts(es, from, to, sels.drop_last())
            + a);
        if a.len() == 0 {
            assert(gs == rest);
            assert(concat_amounts(es, from, to, sels) =~= concat_amounts(
                es,
                from,
                to,
                sels.drop_last(),
            ));
        } else {
            assert(gs.drop_last() =~= rest);
            assert(gs.last().amounts == a);
        }
    } else {
        assert(category_selectors(cats) =~= Seq::<Selector>::empty());
    }
}

/// The totals by category add up to the total: over a store whose expenses all
/// refer to one of its categories, the groups by category hold, all together,
/// exactly the amounts of the total.
pub proof fn law_category_totals_cover_total(
    cats: Seq<CategoryView>,
    es: Seq<ExpenseView>,
    from: Option<DateView>,
    to: Option<DateView>,
)
    requires
        category_ids(cats).no_duplicates(),
        forall|k: int| 0 <= k < es.len() ==> category_ids(cats).contains((#[trigger] es[k]).category_id),
    ensures
        category_groups_concat(category_groups_spec(cats, es, from, to)).to_multiset()
            =~= amounts_where(es, from, to, Selector::All).to_multiset(),
{
    let sels = category_selectors(cats);
    assert forall|k: int| 0 <= k < es.len() implies select_count(sels, from, to, #[trigger] es[k])
        == if in_range(es[k].date, from, to) {
        1nat
    } else {
        0nat
    } by {
        let e = es[k];
        assert forall|a: int, b: int| 0 <= a < b < sels.len() implies !(selects(
            #[trigger] sels[a],
            from,
            to,
            e,
        ) && selects(#[trigger] sels[b], from, to, e)) by {
            assert(category_ids(cats)[a] == cats[a].id);
            assert(category_ids(cats)[b] == cats[b].id);
        }
        lemma_count_disjoint(sels, from, to, e);
        if in_range(e.date, from, to) {
            let w = choose|w: int| 0 <= w < category_ids(cats).len() && category_ids(cats)[w] == e.category_id;
            assert(selects(sels[w], from, to, e));
        }
    }
    law_partition_covers_total(es, from, to, sels);
    lemma_category_groups_concat(cats, es, from, to);
}

/// The amounts of the month groups, one group after the other.
pub open spec fn month_groups_concat(gs: Seq<MonthGroupView>) -> Seq<u64>
    decreases gs.len(),
{
    if gs.len() == 0 {
        seq![]
    } else {
        month_groups_concat(gs.drop_last()) + gs.last().amounts
    }
}

/// The selectors of the month groups.
pub open spec fn month_selectors(gs: Seq<MonthGroupView>) -> Seq<Selector> {
    gs.map_values(|g: MonthGroupView| Selector::Month(g.month))
}

proof fn lemma_month_groups_concat(
    gs: Seq<MonthGroupView>,
    es: Seq<ExpenseView>,
    from: Option<DateView>,
    to: Option<DateView>,
)
    requires
        forall|g: int|
            0 <= g < gs.len() ==> (#[trigger] gs[g]).amounts == amounts_where(
                es,
                from,
                to,
                Selector::Month(gs[g].month),
            ),
    ensures
        month_groups_concat(gs) == concat_amounts(es, from, to, month_selectors(gs)),
    decreases gs.len(),
{
    if gs.len() > 0 {
        let g2 = gs.drop_last();
        assert forall|g: int| 0 <= g < g2.len() implies (#[trigger] g2[g]).amounts == amounts_where(
            es,
            from,
            to,
            Selector::Month(g2[g].month),
        ) by {
            assert(g2[g] == gs[g]);
        }
        lemma_month_groups_concat(g2, es, from, to);
        assert(month_selectors(gs).drop_last() =~= month_selectors(g2));
        assert(gs[gs.len() - 1] == gs.last());
    } else {
        assert(month_selectors(gs) =~= Seq::<Selector>::empty());
    }
}

/// The totals by month add up to the total: the month groups hold, all together,
/// exactly the amounts of the total.
pub proof fn law_month_totals_cover_total(
    es: Seq<ExpenseView>,
    from: Option<DateView>,
    to: Option<DateView>,
    gs: Seq<MonthGroupView>,
)
    requires
        is_month_report(es, from, to, gs),
    ensures
        month_groups_concat(gs).to_multiset() =~= amounts_where(es, from, to, Selector::All).to_multiset(),
{
    let sels = month_selectors(gs);
    assert forall|k: int| 0 <= k < es.len() implies select_count(sels, from, to, #[trigger] es[k])
        == if in_range(es[k].date, from, to) {
        1nat
    } else {
        0nat
    } by {
        let e = es[k];
        assert forall|a: int, b: int| 0 <= a < b < sels.len() implies !(selects(
            #[trigger] sels[a],
            from,
            to,
            e,
        ) && selects(#[trigger] sels[b], from, to, e)) by {
            assert(lex_lt(gs[a].month, gs[b].month));
            lemma_lex_irreflexive(gs[a].month);
        }
        lemma_count_disjoint(sels, from, to, e);
        if in_range(e.date, from, to) {
            let g = choose|g: int| 0 <= g < gs.len() && gs[g].month == month_text(e.date);
            assert(selects(sels[g], from, to, e));
        }
    }
    law_partition_covers_total(es, from, to, sels);
    lemma_month_groups_concat(gs, es, from, to);
}

/// The amounts of the groups by category and month, one group after the other.
pub open spec fn category_month_groups_concat(gs: Seq<CategoryMonthGroupView>) -> Seq<u64>
    decreases gs.len(),
{
    if gs.len() == 0 {
        seq![]
    } else {
        category_month_groups_concat(gs.drop_last()) + gs.last().amounts
    }
}

/// The selectors of the groups by category and month.
pub open spec fn category_month_selectors(gs: Seq<CategoryMonthGroupView>) -> Seq<Selector> {
    gs.map_values(|g: CategoryMonthGroupView| Selector::CategoryMonth(g.category_id, g.month))
}

proof fn lemma_category_month_groups_concat(
    gs: Seq<CategoryMonthGroupView>,
    es: Seq<ExpenseView>,
    from: Option<DateView>,
    to: Option<DateView>,
)
    requires
        forall|g: int|
            0 <= g < gs.len() ==> (#[trigger] gs[g]).amounts == amounts_where(
                es,
                from,
                to,
                Selector::CategoryMonth(gs[g].category_id, gs[g].month),
            ),
    ensures
        category_month_groups_concat(gs) == concat_amounts(
            es,
            from,
            to,
            category_month_selectors(gs),
        ),
    decreases gs.len(),
{
    if gs.len() > 0 {
        let g2 = gs.drop_last();
        assert forall|g: int| 0 <= g < g2.len() implies (#[trigger] g2[g]).amounts == amounts_where(
            es,
            from,
            to,
            Selector::CategoryMonth(g2[g].category_id, g2[g].month),
        ) by {
            assert(g2[g] == gs[g]);
        }
        lemma_category_month_groups_concat(g2, es, from, to);
        assert(category_month_selectors(gs).drop_last() =~= category_month_selectors(g2));
        assert(gs[gs.len() - 1] == gs.last());
    } else {
        assert(category_month_selectors(gs) =~= Seq::<Selector>::empty());
    }
}

/// The totals by category and month add up to the total: the groups hold, all
/// together, exactly the amounts of the total.
pub proof fn law_category_month_totals_cover_total(
    cats: Seq<CategoryView>,
    es: Seq<ExpenseView>,
    from: Option<DateView>,
    to: Option<DateView>,
    gs: Seq<CategoryMonthGroupView>,
)
    requires
        is_category_month_report(cats, es, from, to, gs),
    ensures
        category_month_groups_concat(gs).to_multiset() =~= amounts_where(
            es,
            from,
            to,
            Selector::All,
        ).to_multiset(),
{
    let sels = category_month_selectors(gs);
    assert forall|k: int| 0 <= k < es.len() implies select_count(sels, from, to, #[trigger] es[k])
        == if in_range(es[k].date, from, to) {
        1nat
    } else {
        0nat
    } by {
        let e = es[k];
        assert forall|a: int, b: int| 0 <= a < b < sels.len() implies !(selects(
            #[trigger] sels[a],
            from,
            to,
            e,
        ) && selects(#[trigger] sels[b], from, to, e)) by {
            assert(gs[a] != gs[b] || a == b);
        }
        lemma_count_disjoint(sels, from, to, e);
        if in_range(e.date, from, to) {
            let g = choose|g: int|
                0 <= g < gs.len() && gs[g].category_id == e.category_id && gs[g].month == month_text(
                    e.date,
                );
            assert(selects(sels[g], from, to, e));
        }
    }
    law_partition_covers_total(es, from, to, sels);
    lemma_category_month_groups_concat(gs, es, from, to);
}

/// Whether some group of the report by category is that of the category.
pub open spec fn category_reported(gs: Seq<CategoryGroupView>, id: u128) -> bool {
    exists|j: int| 0 <= j < gs.len() && (#[trigger] gs[j]).category_id == id
}

/// Whether some expense of the category lies in the range.
pub open spec fn category_spent(
    es: Seq<ExpenseView>,
    from: Option<DateView>,
    to: Option<DateView>,
    id: u128,
) -> bool {
    exists|k: int| 0 <= k < es.len() && in_range((#[trigger] es[k]).date, from, to) && es[k].category_id == id
}

/// Some amount is selected exactly where some expense is.
proof fn lemma_amounts_nonempty_iff(
    es: Seq<ExpenseView>,
    from: Option<DateView>,
    to: Option<DateView>,
    sel: Selector,
)
    ensures
        amounts_where(es, from, to, sel).len() > 0 <==> exists|k: int|
            0 <= k < es.len() && selects(sel, from, to, #[trigger] es[k]),
    decreases es.len(),
{
    if es.len() > 0 {
        let e2 = es.drop_last();
        lemma_amounts_nonempty_iff(e2, from, to, sel);
        if exists|k: int| 0 <= k < e2.len() && selects(sel, from, to, #[trigger] e2[k]) {
            let k = choose|k: int| 0 <= k < e2.len() && selects(sel, from, to, #[trigger] e2[k]);
            assert(es[k] == e2[k]);
        }
        if exists|k: int| 0 <= k < es.len() && selects(sel, from, to, #[trigger] es[k]) {
            let k = choose|k: int| 0 <= k < es.len() && selects(sel, from, to, #[trigger] es[k]);
            if k < e2.len() {
                assert(es[k] == e2[k]);
            }
        }
    }
}

proof fn lemma_category_groups_shape(
    cats: Seq<CategoryView>,
    es: Seq<ExpenseView>,
    from: Option<DateView>,
    to: Option<DateView>,
)
    requires
        category_ids(cats).no_duplicates(),
    ensures
        forall|j: int|
            0 <= j < category_groups_spec(cats, es, from, to).len() ==> exists|i: int|
                0 <= i < cats.len() && (#[trigger] cats[i]).id == (#[trigger] category_groups_spec(
                    cats,
                    es,
                    from,
                    to,
                )[j]).category_id && cats[i].name == category_groups_spec(cats, es, from, to)[j].category_name,
        forall|j: int|
            0 <= j < category_groups_spec(cats, es, from, to).len() ==> (#[trigger] category_groups_spec(
                cats,
                es,
                from,
                to,
            )[j]).amounts == amounts_where(
                es,
                from,
                to,
                Selector::Category(category_groups_spec(cats, es, from, to)[j].category_id),
            ) && category_groups_spec(cats, es, from, to)[j].amounts.len() > 0,
        forall|a: int, b: int|
            0 <= a < b < category_groups_spec(cats, es, from, to).len() ==> (#[trigger] category_groups_spec(
                cats,
                es,
                from,
                to,
            )[a]).category_id != (#[trigger] category_groups_spec(cats, es, from, to)[b]).category_id,
        forall|i: int|
            0 <= i < cats.len() && amounts_where(es, from, to, Selector::Category((#[trigger] cats[i]).id)).len()
                > 0 ==> exists|j: int|
                0 <= j < category_groups_spec(cats, es, from, to).len() && (#[trigger] category_groups_spec(
                    cats,
                    es,
                    from,
                    to,
                )[j]).category_id == cats[i].id,
    decreases cats.len(),
{
    if cats.len() > 0 {
        let c2 = cats.drop_last();
        assert forall|a: int, b: int| 0 <= a < b < c2.len() implies category_ids(c2)[a] != category_ids(c2)[b] by {
            assert(category_ids(c2)[a] == category_ids(cats)[a]);
            assert(category_ids(c2)[b] == category_ids(cats)[b]);
        }
        lemma_category_groups_shape(c2, es, from, to);
        let w = category_groups_spec(cats, es, from, to);
        let rest = category_groups_spec(c2, es, from, to);
        let n = cats.len() - 1;
        let c = cats.last();
        assert(cats[n] == c);
        let a = amounts_where(es, from, to, Selector::Category(c.id));
        assert forall|j: int| 0 <= j < rest.len() implies (#[trigger] rest[j]).category_id != c.id by {
            let i = choose|i: int| 0 <= i < c2.len() && (#[trigger] c2[i]).id == rest[j].category_id
                && c2[i].name == rest[j].category_name;
            assert(category_ids(cats)[i] == c2[i].id);
            assert(category_ids(cats)[n] == c.id);
        }
        if a.len() > 0 {
            assert(w.drop_last() =~= rest);
            assert forall|j: int| 0 <= j < w.len() implies exists|i: int|
                0 <= i < cats.len() && (#[trigger] cats[i]).id == (#[trigger] w[j]).category_id
                    && cats[i].name == w[j].category_name by {
                if j < rest.len() {
                    assert(w[j] == rest[j]);
                    let i = choose|i: int| 0 <= i < c2.len() && (#[trigger] c2[i]).id == rest[j].category_id
                        && c2[i].name == rest[j].category_name;
                    assert(cats[i] == c2[i]);
                } else {
                    assert(cats[n].id == w[j].category_id);
                }
            }
            assert forall|j: int| 0 <= j < w.len() implies (#[trigger] w[j]).amounts == amounts_where(
                es,
                from,
                to,
                Selector::Category(w[j].category_id),
            ) && w[j].amounts.len() > 0 by {
                if j < rest.len() {
                    assert(w[j] == rest[j]);
                }
            }
            assert forall|x: int, y: int| 0 <= x < y < w.len() implies (#[trigger] w[x]).category_id
                != (#[trigger] w[y]).category_id by {
                assert(w[x] == rest[x]);
                if y < rest.len() {
                    assert(w[y] == rest[y]);
                }
            }
            assert forall|i: int|
                0 <= i < cats.len() && amounts_where(es, from, to, Selector::Category((#[trigger] cats[i]).id)).len()
                    > 0 implies exists|j: int| 0 <= j < w.len() && (#[trigger] w[j]).category_id == cats[i].id by {
                if i < n {
                    assert(c2[i] == cats[i]);
                    let j = choose|j: int| 0 <= j < rest.len() && (#[trigger] rest[j]).category_id == c2[i].id;
                    assert(w[j] == rest[j]);
                } else {
                    assert(w[rest.len() as int].category_id == c.id);
                }
            }
        } else {
            assert(w == rest);
            assert forall|j: int| 0 <= j < w.len() implies exists|i: int|
                0 <= i < cats.len() && (#[trigger] cats[i]).id == (#[trigger] w[j]).category_id
                    && cats[i].name == w[j].category_name by {
                let i = choose|i: int| 0 <= i < c2.len() && (#[trigger] c2[i]).id == rest[j].category_id
                    && c2[i].name == rest[j].category_name;
                assert(cats[i] == c2[i]);
            }
            assert forall|i: int|
                0 <= i < cats.len() && amounts_where(es, from, to, Selector::Category((#[trigger] cats[i]).id)).len()
                    > 0 implies exists|j: int| 0 <= j < w.len() && (#[trigger] w[j]).category_id == cats[i].id by {
                assert(i < n);
                assert(c2[i] == cats[i]);
            }
        }
    }
}

/// The report by category names each category at most once, and names exactly the
/// categories that have an expense in the range; each group carries its category's
/// name and the amounts of that category's expenses in the range, in order.
pub proof fn law_category_report_shape(
    cats: Seq<CategoryView>,
    es: Seq<ExpenseView>,
    from: Option<DateView>,
    to: Option<DateView>,
)
    requires
        category_ids(cats).no_duplicates(),
        forall|k: int| 0 <= k < es.len() ==> category_ids(cats).contains((#[trigger] es[k]).category_id),
    ensures
        forall|a: int, b: int|
            0 <= a < b < category_groups_spec(cats, es, from, to).len() ==> (#[trigger] category_groups_spec(
                cats,
                es,
                from,
                to,
            )[a]).category_id != (#[trigger] category_groups_spec(cats, es, from, to)[b]).category_id,
        forall|id: u128|
            #![trigger category_reported(category_groups_spec(cats, es, from, to), id)]
            #![trigger category_spent(es, from, to, id)]
            category_reported(category_groups_spec(cats, es, from, to), id) <==> category_spent(
                es,
                from,
                to,
                id,
            ),
        forall|j: int|
            0 <= j < category_groups_spec(cats, es, from, to).len() ==> (#[trigger] category_groups_spec(
                cats,
                es,
                from,
                to,
            )[j]).category_name == cats[category_index(cats, category_groups_spec(cats, es, from, to)[j].category_id)].name
                && category_groups_spec(cats, es, from, to)[j].amounts == amounts_where(
                es,
                from,
                to,
                Selector::Category(category_groups_spec(cats, es, from, to)[j].category_id),
            ),
{
    lemma_category_groups_shape(cats, es, from, to);
    let w = category_groups_spec(cats, es, from, to);
    assert forall|id: u128|
        #![trigger category_reported(w, id)]
        #![trigger category_spent(es, from, to, id)]
        category_reported(w, id) <==> category_spent(es, from, to, id) by {
        lemma_amounts_nonempty_iff(es, from, to, Selector::Category(id));
        if exists|j: int| 0 <= j < w.len() && (#[trigger] w[j]).category_id == id {
            let j = choose|j: int| 0 <= j < w.len() && (#[trigger] w[j]).category_id == id;
            assert(w[j].amounts.len() > 0);
            let k = choose|k: int| 0 <= k < es.len() && selects(Selector::Category(id), from, to, #[trigger] es[k]);
            assert(in_range(es[k].date, from, to) && es[k].category_id == id);
        }
        if exists|k: int| 0 <= k < es.len() && in_range((#[trigger] es[k]).date, from, to) && es[k].category_id == id {
            let k = choose|k: int| 0 <= k < es.len() && in_range((#[trigger] es[k]).date, from, to) && es[k].category_id == id;
            assert(selects(Selector::Category(id), from, to, es[k]));
            let i = choose|i: int| 0 <= i < category_ids(cats).len() && category_ids(cats)[i] == id;
            assert(cats[i].id == id);
        }
    }
    assert forall|j: int| 0 <= j < w.len() implies (#[trigger] w[j]).category_name == cats[category_index(
        cats,
        w[j].category_id,
    )].name by {
        let i = choose|i: int| 0 <= i < cats.len() && (#[trigger] cats[i]).id == w[j].category_id
            && cats[i].name == w[j].category_name;
        let x = category_index(cats, w[j].category_id);
        assert(category_ids(cats)[i] == cats[i].id);
        assert(category_ids(cats)[x] == cats[x].id);
    }
}

/// The expenses of one category, in order.
pub open spec fn of_category(es: Seq<ExpenseView>, c: u128) -> Seq<ExpenseView>
    decreases es.len(),
{
    if es.len() == 0 {
        seq![]
    } else if es.last().category_id == c {
        of_category(es.drop_last(), c).push(es.last())
    } else {
        of_category(es.drop_last(), c)
    }
}

/// The groups by category and month that belong to one category, in order.
pub open spec fn category_month_groups_of(gs: Seq<CategoryMonthGroupView>, c: u128) -> Seq<
    CategoryMonthGroupView,
>
    decreases gs.len(),
{
    if gs.len() == 0 {
        seq![]
    } else if gs.last().category_id == c {
        category_month_groups_of(gs.drop_last(), c).push(gs.last())
    } else {
        category_month_groups_of(gs.drop_last(), c)
    }
}

/// Whether some group by category and month belongs to the category.
pub open spec fn category_month_reported(gs: Seq<CategoryMonthGroupView>, id: u128) -> bool {
    exists|j: int| 0 <= j < gs.len() && (#[trigger] gs[j]).category_id == id
}

proof fn lemma_of_category_members(es: Seq<ExpenseView>, c: u128)
    ensures
        forall|i: int|
            0 <= i < of_category(es, c).len() ==> (#[trigger] of_category(es, c)[i]).category_id == c
                && es.contains(of_category(es, c)[i]),
    decreases es.len(),
{
    if es.len() > 0 {
        let e2 = es.drop_last();
        lemma_of_category_members(e2, c);
        let f = of_category(es, c);
        let f2 = of_category(e2, c);
        assert forall|i: int| 0 <= i < f.len() implies (#[trigger] f[i]).category_id == c && es.contains(
            f[i],
        ) by {
            if i < f2.len() {
                assert(f[i] == f2[i]);
                let k = choose|k: int| 0 <= k < e2.len() && e2[k] == f2[i];
                assert(es[k] == e2[k]);
            } else {
                assert(f[i] == es[es.len() - 1]);
            }
        }
    }
}

proof fn lemma_of_category_amounts(
    es: Seq<ExpenseView>,
    c: u128,
    from: Option<DateView>,
    to: Option<DateView>,
    s1: Selector,
    s2: Selector,
)
    requires
        forall|e: ExpenseView|
            #[trigger] selects(s1, from, to, e) == (e.category_id == c && selects(s2, from, to, e)),
    ensures
        amounts_where(es, from, to, s1) == amounts_where(of_category(es, c), from, to, s2),
    decreases es.len(),
{
    if es.len() > 0 {
        lemma_of_category_amounts(es.drop_last(), c, from, to, s1, s2);
        let e = es.last();
        assert(selects(s1, from, to, e) == (e.category_id == c && selects(s2, from, to, e)));
        if e.category_id == c {
            let f = of_category(es, c);
            assert(f.drop_last() == of_category(es.drop_last(), c));
            assert(f.last() == e);
        }
    }
}

proof fn lemma_groups_of_members(gs: Seq<CategoryMonthGroupView>, c: u128)
    ensures
        forall|i: int|
            0 <= i < category_month_groups_of(gs, c).len() ==> (#[trigger] category_month_groups_of(
                gs,
                c,
            )[i]).category_id == c && gs.contains(category_month_groups_of(gs, c)[i]),
        forall|g: int|
            0 <= g < gs.len() && (#[trigger] gs[g]).category_id == c ==> category_month_groups_of(
                gs,
                c,
            ).contains(gs[g]),
    decreases gs.len(),
{
    if gs.len() > 0 {
        let g2 = gs.drop_last();
        lemma_groups_of_members(g2, c);
        let f = category_month_groups_of(gs, c);
        let f2 = category_month_groups_of(g2, c);
        let n = gs.len() - 1;
        assert forall|i: int| 0 <= i < f.len() implies (#[trigger] f[i]).category_id == c && gs.contains(
            f[i],
        ) by {
            if i < f2.len() {
                assert(f[i] == f2[i]);
                let k = choose|k: int| 0 <= k < g2.len() && g2[k] == f2[i];
                assert(gs[k] == g2[k]);
            } else {
                assert(f[i] == gs[n]);
            }
        }
        assert forall|g: int| 0 <= g < gs.len() && (#[trigger] gs[g]).category_id == c implies f.contains(
            gs[g],
        ) by {
            if g < n {
                assert(gs[g] == g2[g]);
                let k = choose|k: int| 0 <= k < f2.len() && f2[k] == g2[g];
                if gs.last().category_id == c {
                    assert(f[k] == f2[k]);
                }
            } else {
                assert(f[f.len() - 1] == gs[n]);
            }
        }
    }
}

proof fn lemma_groups_of_distinct(gs: Seq<CategoryMonthGroupView>, c: u128)
    requires
        forall|a: int, b: int|
            0 <= a < gs.len() && 0 <= b < gs.len() && a != b ==> !((#[trigger] gs[a]).category_id
                == (#[trigger] gs[b]).category_id && gs[a].month == gs[b].month),
    ensures
        forall|a: int, b: int|
            0 <= a < b < category_month_groups_of(gs, c).len() ==> (#[trigger] category_month_groups_of(
                gs,
                c,
            )[a]).month != (#[trigger] category_month_groups_of(gs, c)[b]).month,
    decreases gs.len(),
{
    if gs.len() > 0 {
        let g2 = gs.drop_last();
        let n = gs.len() - 1;
        assert forall|a: int, b: int|
            0 <= a < g2.len() && 0 <= b < g2.len() && a != b implies !((#[trigger] g2[a]).category_id
                == (#[trigger] g2[b]).category_id && g2[a].month == g2[b].month) by {
            assert(g2[a] == gs[a]);
            assert(g2[b] == gs[b]);
        }
        lemma_groups_of_distinct(g2, c);
        lemma_groups_of_members(g2, c);
        let f = category_month_groups_of(gs, c);
        let f2 = category_month_groups_of(g2, c);
        if gs.last().category_id == c {
            assert forall|a: int, b: int| 0 <= a < b < f.len() implies (#[trigger] f[a]).month
                != (#[trigger] f[b]).month by {
                assert(f[a] == f2[a]);
                if b < f2.len() {
                    assert(f[b] == f2[b]);
                } else {
                    assert(f[b] == gs[n]);
                    let k = choose|k: int| 0 <= k < g2.len() && g2[k] == f2[a];
                    assert(gs[k] == g2[k]);
                    assert(f2[a].category_id == c);
                }
            }
        }
    }
}

/// The groups by category and month of one category hold, all together, exactly
/// the amounts of that category's expenses in the range.
proof fn lemma_category_month_cover(
    cats: Seq<CategoryView>,
    es: Seq<ExpenseView>,
    from: Option<DateView>,
    to: Option<DateView>,
    v: Seq<CategoryMonthGroupView>,
    c: u128,
)
    requires
        is_category_month_report(cats, es, from, to, v),
    ensures
        category_month_groups_concat(category_month_groups_of(v, c)).to_multiset() =~= amounts_where(
            es,
            from,
            to,
            Selector::Category(c),
        ).to_multiset(),
{
    let es_c = of_category(es, c);
    let vc = category_month_groups_of(v, c);
    let sels = category_month_selectors(vc);
    lemma_of_category_members(es, c);
    lemma_groups_of_members(v, c);
    lemma_groups_of_distinct(v, c);
    assert forall|k: int| 0 <= k < es_c.len() implies select_count(sels, from, to, #[trigger] es_c[k])
        == if in_range(es_c[k].date, from, to) {
        1nat
    } else {
        0nat
    } by {
        let e = es_c[k];
        assert forall|a: int, b: int| 0 <= a < b < sels.len() implies !(selects(
            #[trigger] sels[a],
            from,
            to,
            e,
        ) && selects(#[trigger] sels[b], from, to, e)) by {
            assert(vc[a].month != vc[b].month);
        }
        lemma_count_disjoint(sels, from, to, e);
        if in_range(e.date, from, to) {
            let k2 = choose|k2: int| 0 <= k2 < es.len() && es[k2] == e;
            assert(in_range(es[k2].date, from, to));
            let g = choose|g: int|
                0 <= g < v.len() && v[g].category_id == es[k2].category_id && v[g].month == month_text(
                    es[k2].date,
                );
            assert(vc.contains(v[g]));
            let a = choose|a: int| 0 <= a < vc.len() && vc[a] == v[g];
            assert(selects(sels[a], from, to, e));
        }
    }
    law_partition_covers_total(es_c, from, to, sels);
    assert forall|g: int| 0 <= g < vc.len() implies (#[trigger] vc[g]).amounts == amounts_where(
        es_c,
        from,
        to,
        Selector::CategoryMonth(vc[g].category_id, vc[g].month),
    ) by {
        let x = choose|x: int| 0 <= x < v.len() && v[x] == vc[g];
        let sel = Selector::CategoryMonth(c, vc[g].month);
        assert(v[x].amounts == amounts_where(es, from, to, sel));
        lemma_of_category_amounts(es, c, from, to, sel, sel);
    }
    lemma_category_month_groups_concat(vc, es_c, from, to);
    lemma_of_category_amounts(es, c, from, to, Selector::Category(c), Selector::All);
}

/// The report by category and month refines the report by category: both name the
/// same categories; for each category, its groups by month hold, all together,
/// exactly the amounts of its group by category; and both carry the same name for
/// it.
pub proof fn law_category_month_totals_refine_category_totals(
    cats: Seq<CategoryView>,
    es: Seq<ExpenseView>,
    from: Option<DateView>,
    to: Option<DateView>,
    v: Seq<CategoryMonthGroupView>,
)
    requires
        category_ids(cats).no_duplicates(),
        forall|k: int| 0 <= k < es.len() ==> category_ids(cats).contains((#[trigger] es[k]).category_id),
        is_category_month_report(cats, es, from, to, v),
    ensures
        forall|id: u128|
            #![trigger category_month_reported(v, id)]
            #![trigger category_reported(category_groups_spec(cats, es, from, to), id)]
            category_month_reported(v, id) <==> category_reported(
                category_groups_spec(cats, es, from, to),
                id,
            ),
        forall|j: int|
            0 <= j < category_groups_spec(cats, es, from, to).len() ==> category_month_groups_concat(
                category_month_groups_of(
                    v,
                    (#[trigger] category_groups_spec(cats, es, from, to)[j]).category_id,
                ),
            ).to_multiset() =~= category_groups_spec(cats, es, from, to)[j].amounts.to_multiset(),
        forall|i: int, j: int|
            0 <= i < v.len() && 0 <= j < category_groups_spec(cats, es, from, to).len() && (#[trigger] v[i]).category_id
                == (#[trigger] category_groups_spec(cats, es, from, to)[j]).category_id ==> v[i].category_name
                == category_groups_spec(cats, es, from, to)[j].category_name,
{
    let w = category_groups_spec(cats, es, from, to);
    law_category_report_shape(cats, es, from, to);
    assert forall|id: u128|
        #![trigger category_month_reported(v, id)]
        #![trigger category_reported(w, id)]
        category_month_reported(v, id) <==> category_reported(w, id) by {
        if category_month_reported(v, id) {
            let i = choose|i: int| 0 <= i < v.len() && (#[trigger] v[i]).category_id == id;
            let sel = Selector::CategoryMonth(id, v[i].month);
            lemma_amounts_nonempty_iff(es, from, to, sel);
            let k = choose|k: int| 0 <= k < es.len() && selects(sel, from, to, #[trigger] es[k]);
            assert(in_range(es[k].date, from, to) && es[k].category_id == id);
            assert(category_spent(es, from, to, id));
        }
        if category_reported(w, id) {
            assert(category_spent(es, from, to, id));
            let k = choose|k: int| 0 <= k < es.len() && in_range((#[trigger] es[k]).date, from, to)
                && es[k].category_id == id;
            let g = choose|g: int|
                0 <= g < v.len() && v[g].category_id == es[k].category_id && v[g].month == month_text(
                    es[k].date,
                );
            assert(v[g].category_id == id);
        }
    }
    assert forall|j: int| 0 <= j < w.len() implies category_month_groups_concat(
        category_month_groups_of(v, (#[trigger] w[j]).category_id),
    ).to_multiset() =~= w[j].amounts.to_multiset() by {
        lemma_category_month_cover(cats, es, from, to, v, w[j].category_id);
    }
}

/// The credential check answers the id of the user who has the name and whose
/// stored hash Argon2 accepts the password against, and nothing where there is no
/// such user: an unknown name and a wrong password are answered alike.
pub proof fn law_credential_check_finds_the_user(
    s: StoreView,
    username: Seq<char>,
    password: Seq<char>,
    id: u128,
)
    requires
        usernames(s.users).no_duplicates(),
    ensures
        credential_check(s, username, password) == Some(id) <==> exists|k: int|
            0 <= k < s.users.len() && (#[trigger] s.users[k]).username == username && s.users[k].id
                == id && argon2_accepts(password, s.users[k].password_hash),
        credential_check(s, username, password) is None <==> !exists|k: int|
            0 <= k < s.users.len() && (#[trigger] s.users[k]).username == username && argon2_accepts(
                password,
                s.users[k].password_hash,
            ),
{
    if exists|k: int| 0 <= k < s.users.len() && (#[trigger] s.users[k]).username == username {
        let k = choose|k: int| 0 <= k < s.users.len() && (#[trigger] s.users[k]).username == username;
        assert(usernames(s.users)[k] == username);
        let c = user_index(s.users, username);
        assert(usernames(s.users)[c] == username);
        assert forall|j: int| 0 <= j < s.users.len() && (#[trigger] s.users[j]).username == username
            implies j == c by {
            assert(usernames(s.users)[j] == username);
        }
    } else {
        if usernames(s.users).contains(username) {
            let j = choose|j: int| 0 <= j < usernames(s.users).len() && usernames(s.users)[j] == username;
            assert(s.users[j].username == username);
        }
    }
}

/// Whether some group of the report by month is that of the month.
pub open spec fn month_reported(gs: Seq<MonthGroupView>, m: Seq<char>) -> bool {
    exists|g: int| 0 <= g < gs.len() && (#[trigger] gs[g]).month == m
}

/// Whether some expense in the range falls in the month.
pub open spec fn month_spent(
    es: Seq<ExpenseView>,
    from: Option<DateView>,
    to: Option<DateView>,
    m: Seq<char>,
) -> bool {
    exists|k: int| 0 <= k < es.len() && in_range((#[trigger] es[k]).date, from, to) && month_text(es[k].date) == m
}

/// The report by month lists each month once, and lists exactly the months in
/// which some expense of the range falls; without such an expense it is empty.
pub proof fn law_month_report_shape(
    es: Seq<ExpenseView>,
    from: Option<DateView>,
    to: Option<DateView>,
    gs: Seq<MonthGroupView>,
)
    requires
        is_month_report(es, from, to, gs),
    ensures
        forall|a: int, b: int|
            0 <= a < gs.len() && 0 <= b < gs.len() && a != b ==> (#[trigger] gs[a]).month
                != (#[trigger] gs[b]).month,
        forall|m: Seq<char>|
            #![trigger month_reported(gs, m)]
            #![trigger month_spent(es, from, to, m)]
            month_reported(gs, m) <==> month_spent(es, from, to, m),
        (forall|k: int| 0 <= k < es.len() ==> !in_range((#[trigger] es[k]).date, from, to)) ==> gs.len()
            == 0,
{
    assert forall|a: int, b: int|
        0 <= a < gs.len() && 0 <= b < gs.len() && a != b implies (#[trigger] gs[a]).month
            != (#[trigger] gs[b]).month by {
        if a < b {
            assert(lex_lt(gs[a].month, gs[b].month));
        } else {
            assert(lex_lt(gs[b].month, gs[a].month));
        }
        lemma_lex_irreflexive(gs[a].month);
    }
    assert forall|m: Seq<char>|
        #![trigger month_reported(gs, m)]
        #![trigger month_spent(es, from, to, m)]
        month_reported(gs, m) <==> month_spent(es, from, to, m) by {
        lemma_amounts_nonempty_iff(es, from, to, Selector::Month(m));
        if month_reported(gs, m) {
            let g = choose|g: int| 0 <= g < gs.len() && (#[trigger] gs[g]).month == m;
            assert(gs[g].amounts.len() > 0);
            let k = choose|k: int| 0 <= k < es.len() && selects(Selector::Month(m), from, to, #[trigger] es[k]);
            assert(in_range(es[k].date, from, to));
        }
        if month_spent(es, from, to, m) {
            let k = choose|k: int| 0 <= k < es.len() && in_range((#[trigger] es[k]).date, from, to)
                && month_text(es[k].date) == m;
            let g = choose|g: int| 0 <= g < gs.len() && gs[g].month == month_text(es[k].date);
            assert(gs[g].month == m);
        }
    }
    if gs.len() > 0 {
        lemma_amounts_nonempty_iff(es, from, to, Selector::Month(gs[0].month));
        assert(gs[0].amounts.len() > 0);
        let k = choose|k: int| 0 <= k < es.len() && selects(Selector::Month(gs[0].month), from, to, #[trigger] es[k]);
        assert(in_range(es[k].date, from, to));
    }
}

/// Whether some group of the report by category and month is that of the category
/// and month.
pub open spec fn category_month_listed(gs: Seq<CategoryMonthGroupView>, c: u128, m: Seq<char>) -> bool {
    exists|g: int| 0 <= g < gs.len() && (#[trigger] gs[g]).category_id == c && gs[g].month == m
}

/// Whether some expense of the category in the range falls in the month.
pub open spec fn category_month_spent(
    es: Seq<ExpenseView>,
    from: Option<DateView>,
    to: Option<DateView>,
    c: u128,
    m: Seq<char>,
) -> bool {
    exists|k: int|
        0 <= k < es.len() && in_range((#[trigger] es[k]).date, from, to) && es[k].category_id == c
            && month_text(es[k].date) == m
}

/// The report by category and month lists exactly the pairs of category and month
/// in which some expense of the range falls, each once; without such an expense it
/// is empty.
pub proof fn law_category_month_report_shape(
    cats: Seq<CategoryView>,
    es: Seq<ExpenseView>,
    from: Option<DateView>,
    to: Option<DateView>,
    gs: Seq<CategoryMonthGroupView>,
)
    requires
        is_category_month_report(cats, es, from, to, gs),
    ensures
        forall|c: u128, m: Seq<char>|
            #![trigger category_month_listed(gs, c, m)]
            #![trigger category_month_spent(es, from, to, c, m)]
            category_month_listed(gs, c, m) <==> category_month_spent(es, from, to, c, m),
        forall|a: int, b: int|
            0 <= a < gs.len() && 0 <= b < gs.len() && a != b ==> !((#[trigger] gs[a]).category_id
                == (#[trigger] gs[b]).category_id && gs[a].month == gs[b].month),
        (forall|k: int| 0 <= k < es.len() ==> !in_range((#[trigger] es[k]).date, from, to)) ==> gs.len()
            == 0,
{
    assert forall|c: u128, m: Seq<char>|
        #![trigger category_month_listed(gs, c, m)]
        #![trigger category_month_spent(es, from, to, c, m)]
        category_month_listed(gs, c, m) <==> category_month_spent(es, from, to, c, m) by {
        let sel = Selector::CategoryMonth(c, m);
        lemma_amounts_nonempty_iff(es, from, to, sel);
        if category_month_listed(gs, c, m) {
            let g = choose|g: int| 0 <= g < gs.len() && (#[trigger] gs[g]).category_id == c && gs[g].month == m;
            assert(gs[g].amounts.len() > 0);
            let k = choose|k: int| 0 <= k < es.len() && selects(sel, from, to, #[trigger] es[k]);
            assert(in_range(es[k].date, from, to));
        }
        if category_month_spent(es, from, to, c, m) {
            let k = choose|k: int|
                0 <= k < es.len() && in_range((#[trigger] es[k]).date, from, to) && es[k].category_id == c
                    && month_text(es[k].date) == m;
            let g = choose|g: int|
                0 <= g < gs.len() && gs[g].category_id == es[k].category_id && gs[g].month == month_text(
                    es[k].date,
                );
            assert(gs[g].category_id == c && gs[g].month == m);
        }
    }
    if gs.len() > 0 {
        let sel = Selector::CategoryMonth(gs[0].category_id, gs[0].month);
        lemma_amounts_nonempty_iff(es, from, to, sel);
        assert(gs[0].amounts.len() > 0);
        let k = choose|k: int| 0 <= k < es.len() && selects(sel, from, to, #[trigger] es[k]);
        assert(in_range(es[k].date, from, to));
    }
}

} // verus!
