//! Spending reports: which expenses each total adds up, grouped by category, by
//! month, or by both, over an optional inclusive date range.
//!
//! Amounts are floating-point numbers held by their bit patterns (see `Expense`),
//! so a report hands out, for each group, the amounts to add, in the order the
//! expenses were recorded; the caller adds them.
use vstd::prelude::*;
use crate::date::{in_range, month_text, opt_date_view, Date, DateView};
use crate::model::{
    category_ids, category_index, category_views, expense_views, Category, CategoryView, Expense,
    ExpenseView,
};
use crate::order::{
    lemma_lex_irreflexive, lemma_lex_total, lemma_lex_transitive, lex_lt, string_lt,
};

verus! {

/// Which in-range expenses a total takes in.
pub enum Selector {
    All,
    Category(u128),
    Month(Seq<char>),
    CategoryMonth(u128, Seq<char>),
}

/// Whether the expense is in the date range and matches the selector.
pub open spec fn selects(
    sel: Selector,
    from: Option<DateView>,
    to: Option<DateView>,
    e: ExpenseView,
) -> bool {
    &&& in_range(e.date, from, to)
    &&& match sel {
        Selector::All => true,
        Selector::Category(c) => e.category_id == c,
        Selector::Month(m) => month_text(e.date) == m,
        Selector::CategoryMonth(c, m) => e.category_id == c && month_text(e.date) == m,
    }
}

/// The amounts of the selected expenses, in the order of `es`.
pub open spec fn amounts_where(
    es: Seq<ExpenseView>,
    from: Option<DateView>,
    to: Option<DateView>,
    sel: Selector,
) -> Seq<u64>
    decreases es.len(),
{
    if es.len() == 0 {
        seq![]
    } else {
        let rest = amounts_where(es.drop_last(), from, to, sel);
        if selects(sel, from, to, es.last()) {
            rest.push(es.last().amount_bits)
        } else {
            rest
        }
    }
}

/// The amounts of the expenses whose flag is set, in order.
pub open spec fn masked(es: Seq<ExpenseView>, mask: Seq<bool>) -> Seq<u64>
    decreases es.len(),
{
    if es.len() == 0 || mask.len() == 0 {
        seq![]
    } else {
        let rest = masked(es.drop_last(), mask.drop_last());
        if mask.last() {
            rest.push(es.last().amount_bits)
        } else {
            rest
        }
    }
}

proof fn lemma_masked_selects(
    es: Seq<ExpenseView>,
    mask: Seq<bool>,
    from: Option<DateView>,
    to: Option<DateView>,
    sel: Selector,
)
    requires
        es.len() == mask.len(),
        forall|i: int| 0 <= i < es.len() ==> mask[i] == selects(sel, from, to, #[trigger] es[i]),
    ensures
        masked(es, mask) == amounts_where(es, from, to, sel),
    decreases es.len(),
{
    if es.len() > 0 {
        let (e2, m2) = (es.drop_last(), mask.drop_last());
        assert forall|i: int| 0 <= i < e2.len() implies m2[i] == selects(
            sel,
            from,
            to,
            #[trigger] e2[i],
        ) by {
            assert(e2[i] == es[i]);
        }
        lemma_masked_selects(e2, m2, from, to, sel);
        assert(mask.last() == selects(sel, from, to, es.last()));
    }
}

/// Where some expense is selected, some amount is.
proof fn lemma_amounts_nonempty(
    es: Seq<ExpenseView>,
    from: Option<DateView>,
    to: Option<DateView>,
    sel: Selector,
    k: int,
)
    requires
        0 <= k < es.len(),
        selects(sel, from, to, es[k]),
    ensures
        amounts_where(es, from, to, sel).len() > 0,
    decreases es.len(),
{
    if k < es.len() - 1 {
        assert(es.drop_last()[k] == es[k]);
        lemma_amounts_nonempty(es.drop_last(), from, to, sel, k);
    }
}

/// The amounts of the expenses whose flag is set, in order.
fn masked_amounts(es: &Vec<Expense>, mask: &Vec<bool>) -> (r: Vec<u64>)
    requires
        mask@.len() == es@.len(),
    ensures
        r@ == masked(expense_views(es@), mask@),
{
    let mut r: Vec<u64> = Vec::new();
    let mut i: usize = 0;
    while i < es.len()
        invariant
            i <= es.len(),
            mask@.len() == es@.len(),
            r@ == masked(expense_views(es@).take(i as int), mask@.take(i as int)),
        decreases es.len() - i,
    {
        let ghost ev = expense_views(es@);
        assert(ev.take(i + 1).drop_last() =~= ev.take(i as int));
        assert(mask@.take(i + 1).drop_last() =~= mask@.take(i as int));
        if mask[i] {
            r.push(es[i].amount_bits);
        }
        i = i + 1;
    }
    assert(expense_views(es@).take(i as int) =~= expense_views(es@));
    assert(mask@.take(i as int) =~= mask@);
    r
}

/// For each expense, whether it lies in the range.
fn range_flags(es: &Vec<Expense>, from: &Option<Date>, to: &Option<Date>) -> (r: Vec<bool>)
    ensures
        r@.len() == es@.len(),
        forall|i: int|
            0 <= i < es@.len() ==> r@[i] == in_range(
                (#[trigger] expense_views(es@)[i]).date,
                opt_date_view(*from),
                opt_date_view(*to),
            ),
{
    let mut r: Vec<bool> = Vec::new();
    let mut i: usize = 0;
    while i < es.len()
        invariant
            i <= es.len(),
            r@.len() == i,
            forall|j: int|
                0 <= j < i ==> r@[j] == in_range(
                    (#[trigger] expense_views(es@)[j]).date,
                    opt_date_view(*from),
                    opt_date_view(*to),
                ),
        decreases es.len() - i,
    {
        let b = es[i].date.in_range(from, to);
        r.push(b);
        i = i + 1;
    }
    r
}

/// The amounts of all expenses in the range, in the order they were recorded;
/// their sum is the range's total.
pub fn total_amounts(es: &Vec<Expense>, from: &Option<Date>, to: &Option<Date>) -> (r: Vec<u64>)
    ensures
        r@ == amounts_where(
            expense_views(es@),
            opt_date_view(*from),
            opt_date_view(*to),
            Selector::All,
        ),
{
    let mask = range_flags(es, from, to);
    let r = masked_amounts(es, &mask);
    proof {
        lemma_masked_selects(
            expense_views(es@),
            mask@,
            opt_date_view(*from),
            opt_date_view(*to),
            Selector::All,
        );
    }
    r
}

/// The expenses of one category that a total by category adds up.
pub struct CategoryGroup {
    pub category_id: u128,
    pub category_name: String,
    pub amounts: Vec<u64>,
}

pub struct CategoryGroupView {
    pub category_id: u128,
    pub category_name: Seq<char>,
    pub amounts: Seq<u64>,
}

impl View for CategoryGroup {
    type V = CategoryGroupView;

    open spec fn view(&self) -> CategoryGroupView {
        CategoryGroupView {
            category_id: self.category_id,
            category_name: self.category_name@,
            amounts: self.amounts@,
        }
    }
}

pub open spec fn category_group_views(gs: Seq<CategoryGroup>) -> Seq<CategoryGroupView> {
    gs.map_values(|g: CategoryGroup| g@)
}

/// One group for each category, in the order of `cats`, that has an expense in the
/// range; categories without one are left out.
pub open spec fn category_groups_spec(
    cats: Seq<CategoryView>,
    es: Seq<ExpenseView>,
    from: Option<DateView>,
    to: Option<DateView>,
) -> Seq<CategoryGroupView>
    decreases cats.len(),
{
    if cats.len() == 0 {
        seq![]
    } else {
        let rest = category_groups_spec(cats.drop_last(), es, from, to);
        let c = cats.last();
        let a = amounts_where(es, from, to, Selector::Category(c.id));
        if a.len() > 0 {
            rest.push(CategoryGroupView { category_id: c.id, category_name: c.name, amounts: a })
        } else {
            rest
        }
    }
}

/// The expenses in the range grouped by category.
pub fn category_groups(
    cats: &Vec<Category>,
    es: &Vec<Expense>,
    from: &Option<Date>,
    to: &Option<Date>,
) -> (r: Vec<CategoryGroup>)
    ensures
        category_group_views(r@) == category_groups_spec(
            category_views(cats@),
            expense_views(es@),
            opt_date_view(*from),
            opt_date_view(*to),
        ),
{
    let ghost (fv, tv) = (opt_date_view(*from), opt_date_view(*to));
    let ghost ev = expense_views(es@);
    let ghost cv = category_views(cats@);
    let flags = range_flags(es, from, to);
    let mut r: Vec<CategoryGroup> = Vec::new();
    let mut c: usize = 0;
    while c < cats.len()
        invariant
            c <= cats.len(),
            fv == opt_date_view(*from),
            tv == opt_date_view(*to),
            ev == expense_views(es@),
            cv == category_views(cats@),
            flags@.len() == es@.len(),
            forall|i: int| 0 <= i < es@.len() ==> flags@[i] == in_range((#[trigger] ev[i]).date, fv, tv),
            category_group_views(r@) == category_groups_spec(cv.take(c as int), ev, fv, tv),
        decreases cats.len() - c,
    {
        let id = cats[c].id;
        let mut mask: Vec<bool> = Vec::new();
        let mut i: usize = 0;
        while i < es.len()
            invariant
                i <= es.len(),
                flags@.len() == es@.len(),
                mask@.len() == i,
                forall|j: int| 0 <= j < i ==> #[trigger] mask@[j] == (flags@[j] && es@[j].category_id == id),
            decreases es.len() - i,
        {
            mask.push(flags[i] && es[i].category_id == id);
            i = i + 1;
        }
        proof {
            assert forall|j: int| 0 <= j < es@.len() implies mask@[j] == (flags@[j] && (
            #[trigger] ev[j]).category_id == id) by {
                assert(ev[j] == es@[j]@);
            }
        }
        let amounts = masked_amounts(es, &mask);
        proof {
            lemma_masked_selects(ev, mask@, fv, tv, Selector::Category(id));
            assert(cv.take(c + 1).drop_last() =~= cv.take(c as int));
            assert(cv.take(c + 1).last() == cv[c as int]);
        }
        if amounts.len() > 0 {
            let g = CategoryGroup { category_id: id, category_name: cats[c].name.clone(), amounts };
            let ghost before = r@;
            r.push(g);
            proof {
                assert(r@ =~= before.push(g));
                assert(category_group_views(r@) =~= category_group_views(before).push(g@));
            }
        }
        c = c + 1;
    }
    assert(cv.take(c as int) =~= cv);
    r
}

/// The texts of a sequence of strings.
pub open spec fn texts(v: Seq<String>) -> Seq<Seq<char>> {
    v.map_values(|s: String| s@)
}

/// Each text sorts strictly before every later one.
pub open spec fn strictly_sorted(s: Seq<Seq<char>>) -> bool {
    forall|a: int, b: int| 0 <= a < b < s.len() ==> lex_lt(#[trigger] s[a], #[trigger] s[b])
}

/// Inserts `x` into the strictly sorted `keys`, unless it is there already.
fn insert_sorted_unique(keys: &mut Vec<String>, x: &String)
    requires
        strictly_sorted(texts(old(keys)@)),
    ensures
        strictly_sorted(texts(final(keys)@)),
        forall|y: Seq<char>|
            #[trigger] texts(final(keys)@).contains(y) <==> (texts(old(keys)@).contains(y) || y
                == x@),
{
    let ghost old_t = texts(keys@);
    let mut pos: usize = 0;
    while pos < keys.len()
        invariant
            pos <= keys.len(),
            keys@ == old(keys)@,
            old_t == texts(keys@),
            forall|a: int| 0 <= a < pos ==> lex_lt(#[trigger] old_t[a], x@),
        ensures
            pos <= keys.len(),
            keys@ == old(keys)@,
            old_t == texts(keys@),
            forall|a: int| 0 <= a < pos ==> lex_lt(#[trigger] old_t[a], x@),
            pos < keys.len() ==> !lex_lt(old_t[pos as int], x@),
        decreases keys.len() - pos,
    {
        proof {
            assert(old_t[pos as int] == keys@[pos as int]@);
        }
        if !string_lt(&keys[pos], x) {
            break;
        }
        pos = pos + 1;
    }
    if pos < keys.len() && keys[pos] == *x {
        proof {
            assert(old_t[pos as int] == x@);
        }
        return;
    }
    proof {
        if pos < keys.len() {
            assert(old_t[pos as int] == keys@[pos as int]@);
            assert(!lex_lt(old_t[pos as int], x@));
            lemma_lex_total(old_t[pos as int], x@);
        }
    }
    let ghost xv = x@;
    keys.insert(pos, x.clone());
    proof {
        let nt = texts(keys@);
        assert(nt =~= old_t.insert(pos as int, xv));
        assert forall|a: int, b: int| 0 <= a < b < nt.len() implies lex_lt(
            #[trigger] nt[a],
            #[trigger] nt[b],
        ) by {
            if b < pos {
            } else if b == pos {
            } else if a < pos {
                assert(nt[b] == old_t[b - 1]);
                assert(lex_lt(old_t[a], old_t[b - 1]));
            } else if a == pos {
                assert(nt[b] == old_t[b - 1]);
                if b - 1 > pos {
                    assert(lex_lt(old_t[pos as int], old_t[b - 1]));
                    lemma_lex_transitive(xv, old_t[pos as int], old_t[b - 1]);
                }
            } else {
                assert(nt[a] == old_t[a - 1]);
                assert(nt[b] == old_t[b - 1]);
                assert(lex_lt(old_t[a - 1], old_t[b - 1]));
            }
        }
        assert forall|y: Seq<char>| #[trigger] nt.contains(y) <==> (old_t.contains(y) || y == xv) by {
            if nt.contains(y) {
                let j = choose|j: int| 0 <= j < nt.len() && nt[j] == y;
                if j < pos {
                    assert(old_t[j] == y);
                } else if j > pos {
                    assert(old_t[j - 1] == y);
                }
            }
            if old_t.contains(y) {
                let j = choose|j: int| 0 <= j < old_t.len() && old_t[j] == y;
                if j < pos {
                    assert(nt[j] == y);
                } else {
                    assert(nt[j + 1] == y);
                }
            }
            if y == xv {
                assert(nt[pos as int] == y);
            }
        }
    }
}

/// For each expense, the label of the month it falls in.
fn month_labels(es: &Vec<Expense>) -> (r: Vec<String>)
    ensures
        r@.len() == es@.len(),
        forall|i: int| 0 <= i < es@.len() ==> (#[trigger] r@[i])@ == month_text(es@[i].date@),
{
    let mut r: Vec<String> = Vec::new();
    let mut i: usize = 0;
    while i < es.len()
        invariant
            i <= es.len(),
            r@.len() == i,
            forall|j: int| 0 <= j < i ==> (#[trigger] r@[j])@ == month_text(es@[j].date@),
        decreases es.len() - i,
    {
        let l = es[i].date.month_label();
        r.push(l);
        i = i + 1;
    }
    r
}

/// The expenses of one month that a total by month adds up.
pub struct MonthGroup {
    pub month: String,
    pub amounts: Vec<u64>,
}

pub struct MonthGroupView {
    pub month: Seq<char>,
    pub amounts: Seq<u64>,
}

impl View for MonthGroup {
    type V = MonthGroupView;

    open spec fn view(&self) -> MonthGroupView {
        MonthGroupView { month: self.month@, amounts: self.amounts@ }
    }
}

pub open spec fn month_group_views(gs: Seq<MonthGroup>) -> Seq<MonthGroupView> {
    gs.map_values(|g: MonthGroup| g@)
}

/// `r` groups the expenses in the range by month: the months strictly increase by
/// label, each group holds the amounts of the month's expenses in the range, in
/// order, none is empty, and every expense in the range falls in a listed month.
pub open spec fn is_month_report(
    es: Seq<ExpenseView>,
    from: Option<DateView>,
    to: Option<DateView>,
    r: Seq<MonthGroupView>,
) -> bool {
    &&& forall|a: int, b: int|
        0 <= a < b < r.len() ==> lex_lt((#[trigger] r[a]).month, (#[trigger] r[b]).month)
    &&& forall|g: int|
        0 <= g < r.len() ==> (#[trigger] r[g]).amounts == amounts_where(
            es,
            from,
            to,
            Selector::Month(r[g].month),
        ) && r[g].amounts.len() > 0
    &&& forall|k: int|
        0 <= k < es.len() && in_range((#[trigger] es[k]).date, from, to) ==> exists|g: int|
            0 <= g < r.len() && r[g].month == month_text(es[k].date)
}

/// The expenses in the range grouped by the month they fall in, the months in
/// increasing order of their `YYYY-MM` labels.
pub fn month_groups(es: &Vec<Expense>, from: &Option<Date>, to: &Option<Date>) -> (r: Vec<
    MonthGroup,
>)
    ensures
        is_month_report(
            expense_views(es@),
            opt_date_view(*from),
            opt_date_view(*to),
            month_group_views(r@),
        ),
{
    let ghost (fv, tv) = (opt_date_view(*from), opt_date_view(*to));
    let ghost ev = expense_views(es@);
    let flags = range_flags(es, from, to);
    let labels = month_labels(es);
    let mut keys: Vec<String> = Vec::new();
    let mut i: usize = 0;
    proof {
        assert(texts(keys@) =~= Seq::<Seq<char>>::empty());
    }
    while i < es.len()
        invariant
            i <= es.len(),
            flags@.len() == es@.len(),
            labels@.len() == es@.len(),
            strictly_sorted(texts(keys@)),
            forall|y: Seq<char>|
                #[trigger] texts(keys@).contains(y) <==> exists|k: int|
                    0 <= k < i && flags@[k] && labels@[k]@ == y,
        decreases es.len() - i,
    {
        let ghost before = texts(keys@);
        if flags[i] {
            insert_sorted_unique(&mut keys, &labels[i]);
        }
        proof {
            assert forall|y: Seq<char>| #[trigger] texts(keys@).contains(y) <==> exists|k: int|
                0 <= k < i + 1 && flags@[k] && labels@[k]@ == y by {
                if texts(keys@).contains(y) {
                    if before.contains(y) {
                        let k = choose|k: int| 0 <= k < i && flags@[k] && labels@[k]@ == y;
                        assert(0 <= k < i + 1 && flags@[k] && labels@[k]@ == y);
                    } else {
                        assert(flags@[i as int] && labels@[i as int]@ == y);
                    }
                }
                if exists|k: int| 0 <= k < i + 1 && flags@[k] && labels@[k]@ == y {
                    let k = choose|k: int| 0 <= k < i + 1 && flags@[k] && labels@[k]@ == y;
                    if k < i {
                        assert(before.contains(y));
                    }
                }
            }
        }
        i = i + 1;
    }
    let mut r: Vec<MonthGroup> = Vec::new();
    let mut g: usize = 0;
    while g < keys.len()
        invariant
            g <= keys.len(),
            fv == opt_date_view(*from),
            tv == opt_date_view(*to),
            ev == expense_views(es@),
            flags@.len() == es@.len(),
            labels@.len() == es@.len(),
            forall|j: int| 0 <= j < es@.len() ==> flags@[j] == in_range(#[trigger] ev[j].date, fv, tv),
            forall|j: int| 0 <= j < es@.len() ==> (#[trigger] labels@[j])@ == month_text(es@[j].date@),
            forall|y: Seq<char>|
                #[trigger] texts(keys@).contains(y) <==> exists|k: int|
                    0 <= k < es@.len() && flags@[k] && labels@[k]@ == y,
            r@.len() == g,
            forall|h: int| 0 <= h < g ==> (#[trigger] r@[h]).month@ == keys@[h]@,
            forall|h: int|
                0 <= h < g ==> (#[trigger] r@[h]).amounts@ == amounts_where(
                    ev,
                    fv,
                    tv,
                    Selector::Month(r@[h].month@),
                ) && r@[h].amounts@.len() > 0,
        decreases keys.len() - g,
    {
        let key = &keys[g];
        let mut mask: Vec<bool> = Vec::new();
        let mut i: usize = 0;
        while i < es.len()
            invariant
                i <= es.len(),
                flags@.len() == es@.len(),
                labels@.len() == es@.len(),
                mask@.len() == i,
                forall|j: int|
                    0 <= j < i ==> #[trigger] mask@[j] == (flags@[j] && labels@[j]@ == key@),
            decreases es.len() - i,
        {
            mask.push(flags[i] && labels[i] == *key);
            i = i + 1;
        }
        proof {
            assert forall|j: int| 0 <= j < ev.len() implies mask@[j] == selects(
                Selector::Month(key@),
                fv,
                tv,
                #[trigger] ev[j],
            ) by {
                assert(ev[j] == es@[j]@);
                assert(labels@[j]@ == month_text(es@[j].date@));
            }
        }
        let amounts = masked_amounts(es, &mask);
        proof {
            lemma_masked_selects(ev, mask@, fv, tv, Selector::Month(key@));
            assert(texts(keys@)[g as int] == key@);
            assert(texts(keys@).contains(key@));
            let k = choose|k: int| 0 <= k < es@.len() && flags@[k] && labels@[k]@ == key@;
            assert(ev[k] == es@[k]@);
            assert(selects(Selector::Month(key@), fv, tv, ev[k]));
            lemma_amounts_nonempty(ev, fv, tv, Selector::Month(key@), k);
        }
        r.push(MonthGroup { month: key.clone(), amounts });
        g = g + 1;
    }
    proof {
        assert forall|a: int, b: int| 0 <= a < b < r@.len() implies lex_lt(
            (#[trigger] r@[a]).month@,
            (#[trigger] r@[b]).month@,
        ) by {
            assert(texts(keys@)[a] == keys@[a]@);
            assert(texts(keys@)[b] == keys@[b]@);
        }
        assert forall|k: int|
            0 <= k < es@.len() && in_range(
                (#[trigger] es@[k]).date@,
                fv,
                tv,
            ) implies exists|g: int| 0 <= g < r@.len() && r@[g].month@ == month_text(es@[k].date@) by {
            assert(ev[k] == es@[k]@);
            assert(flags@[k]);
            assert(texts(keys@).contains(labels@[k]@));
            let h = choose|h: int| 0 <= h < texts(keys@).len() && texts(keys@)[h] == labels@[k]@;
            assert(r@[h].month@ == month_text(es@[k].date@));
        }
        let rv = month_group_views(r@);
        assert forall|k: int| 0 <= k < ev.len() && in_range((#[trigger] ev[k]).date, fv, tv) implies exists|
            g: int,
        | 0 <= g < rv.len() && rv[g].month == month_text(ev[k].date) by {
            assert(ev[k] == es@[k]@);
            let h = choose|h: int| 0 <= h < r@.len() && r@[h].month@ == month_text(es@[k].date@);
            assert(rv[h] == r@[h]@);
        }
    }
    r
}

/// `(n1, m1)` sorts strictly before `(n2, m2)`: by name, then by month.
pub open spec fn name_month_lt(n1: Seq<char>, m1: Seq<char>, n2: Seq<char>, m2: Seq<char>) -> bool {
    lex_lt(n1, n2) || (n1 == n2 && lex_lt(m1, m2))
}

proof fn lemma_name_month_irreflexive(n: Seq<char>, m: Seq<char>)
    ensures
        !name_month_lt(n, m, n, m),
{
    lemma_lex_irreflexive(n);
    lemma_lex_irreflexive(m);
}

proof fn lemma_name_month_transitive(
    n1: Seq<char>,
    m1: Seq<char>,
    n2: Seq<char>,
    m2: Seq<char>,
    n3: Seq<char>,
    m3: Seq<char>,
)
    requires
        name_month_lt(n1, m1, n2, m2),
        name_month_lt(n2, m2, n3, m3),
    ensures
        name_month_lt(n1, m1, n3, m3),
{
    if lex_lt(n1, n2) && lex_lt(n2, n3) {
        lemma_lex_transitive(n1, n2, n3);
    } else if n1 == n2 && n2 == n3 {
        lemma_lex_transitive(m1, m2, m3);
    }
}

/// Whether `a` sorts strictly before `b`, by name and then by month.
fn name_month_less(n1: &String, m1: &String, n2: &String, m2: &String) -> (r: bool)
    ensures
        r == name_month_lt(n1@, m1@, n2@, m2@),
{
    string_lt(n1, n2) || (*n1 == *n2 && string_lt(m1, m2))
}

/// The key of a group by category and month.
struct GroupKey {
    category_id: u128,
    category_name: String,
    month: String,
}

pub struct GroupKeyView {
    pub category_id: u128,
    pub category_name: Seq<char>,
    pub month: Seq<char>,
}

impl View for GroupKey {
    type V = GroupKeyView;

    closed spec fn view(&self) -> GroupKeyView {
        GroupKeyView {
            category_id: self.category_id,
            category_name: self.category_name@,
            month: self.month@,
        }
    }
}

spec fn key_views(ks: Seq<GroupKey>) -> Seq<GroupKeyView> {
    ks.map_values(|k: GroupKey| k@)
}

/// No key sorts strictly before an earlier one.
spec fn keys_sorted(ks: Seq<GroupKeyView>) -> bool {
    forall|a: int, b: int|
        0 <= a < b < ks.len() ==> !name_month_lt(
            (#[trigger] ks[b]).category_name,
            ks[b].month,
            (#[trigger] ks[a]).category_name,
            ks[a].month,
        )
}

/// No two keys share their category and month.
spec fn keys_distinct(ks: Seq<GroupKeyView>) -> bool {
    forall|a: int, b: int|
        0 <= a < ks.len() && 0 <= b < ks.len() && a != b ==> !((#[trigger] ks[a]).category_id
            == (#[trigger] ks[b]).category_id && ks[a].month == ks[b].month)
}

spec fn has_key(ks: Seq<GroupKeyView>, id: u128, m: Seq<char>) -> bool {
    exists|j: int| 0 <= j < ks.len() && (#[trigger] ks[j]).category_id == id && ks[j].month == m
}

/// Adds the key `(id, name, month)` to the sorted keys, after every key that does
/// not sort after it, unless a key with that category and month is there already.
fn insert_key(keys: &mut Vec<GroupKey>, id: u128, name: &String, month: &String)
    requires
        keys_sorted(key_views(old(keys)@)),
        keys_distinct(key_views(old(keys)@)),
    ensures
        keys_sorted(key_views(final(keys)@)),
        keys_distinct(key_views(final(keys)@)),
        forall|c: u128, m: Seq<char>|
            #[trigger] has_key(key_views(final(keys)@), c, m) <==> (has_key(
                key_views(old(keys)@),
                c,
                m,
            ) || (c == id && m == month@)),
        forall|j: int|
            0 <= j < key_views(final(keys)@).len() ==> (key_views(old(keys)@).contains(
                #[trigger] key_views(final(keys)@)[j],
            ) || key_views(final(keys)@)[j] == (GroupKeyView {
                category_id: id,
                category_name: name@,
                month: month@,
            })),
{
    let ghost ov = key_views(keys@);
    let mut j: usize = 0;
    while j < keys.len()
        invariant
            j <= keys.len(),
            keys@ == old(keys)@,
            ov == key_views(keys@),
            keys_sorted(ov),
            keys_distinct(ov),
            forall|a: int| 0 <= a < j ==> !((#[trigger] ov[a]).category_id == id && ov[a].month == month@),
        decreases keys.len() - j,
    {
        proof {
            assert(ov[j as int] == keys@[j as int]@);
        }
        if keys[j].category_id == id && keys[j].month == *month {
            proof {
                assert(ov[j as int].category_id == id && ov[j as int].month == month@);
            }
            return;
        }
        j = j + 1;
    }
    let mut pos: usize = 0;
    while pos < keys.len()
        invariant
            pos <= keys.len(),
            keys@ == old(keys)@,
            ov == key_views(keys@),
            keys_sorted(ov),
            keys_distinct(ov),
            forall|a: int| 0 <= a < keys.len() ==> !((#[trigger] ov[a]).category_id == id && ov[a].month == month@),
            forall|a: int|
                0 <= a < pos ==> !name_month_lt(name@, month@, (#[trigger] ov[a]).category_name, ov[a].month),
        ensures
            pos <= keys.len(),
            keys@ == old(keys)@,
            ov == key_views(keys@),
            keys_sorted(ov),
            keys_distinct(ov),
            forall|a: int|
                0 <= a < pos ==> !name_month_lt(name@, month@, (#[trigger] ov[a]).category_name, ov[a].month),
            forall|a: int| 0 <= a < keys.len() ==> !((#[trigger] ov[a]).category_id == id && ov[a].month == month@),
            pos < keys.len() ==> name_month_lt(
                name@,
                month@,
                ov[pos as int].category_name,
                ov[pos as int].month,
            ),
        decreases keys.len() - pos,
    {
        proof {
            assert(ov[pos as int] == keys@[pos as int]@);
        }
        if name_month_less(name, month, &keys[pos].category_name, &keys[pos].month) {
            break;
        }
        pos = pos + 1;
    }
    let key = GroupKey { category_id: id, category_name: name.clone(), month: month.clone() };
    let ghost kv = key@;
    keys.insert(pos, key);
    proof {
        let nv = key_views(keys@);
        assert(nv =~= ov.insert(pos as int, kv));
        assert forall|a: int, b: int| 0 <= a < b < nv.len() implies !name_month_lt(
            (#[trigger] nv[b]).category_name,
            nv[b].month,
            (#[trigger] nv[a]).category_name,
            nv[a].month,
        ) by {
            if b < pos {
            } else if b == pos {
            } else if a < pos {
                assert(nv[b] == ov[b - 1]);
            } else if a == pos {
                assert(nv[b] == ov[b - 1]);
                if name_month_lt(ov[b - 1].category_name, ov[b - 1].month, kv.category_name, kv.month) {
                    lemma_name_month_transitive(
                        ov[b - 1].category_name,
                        ov[b - 1].month,
                        kv.category_name,
                        kv.month,
                        ov[pos as int].category_name,
                        ov[pos as int].month,
                    );
                    if b - 1 == pos {
                        lemma_name_month_irreflexive(ov[pos as int].category_name, ov[pos as int].month);
                    }
                }
            } else {
                assert(nv[a] == ov[a - 1]);
                assert(nv[b] == ov[b - 1]);
            }
        }
        assert forall|a: int, b: int|
            0 <= a < nv.len() && 0 <= b < nv.len() && a != b implies !((#[trigger] nv[a]).category_id
            == (#[trigger] nv[b]).category_id && nv[a].month == nv[b].month) by {
            if a != pos && b != pos {
                let oa = if a < pos { a } else { a - 1 };
                let ob = if b < pos { b } else { b - 1 };
                assert(nv[a] == ov[oa]);
                assert(nv[b] == ov[ob]);
            } else if a == pos {
                let ob = if b < pos { b } else { b - 1 };
                assert(nv[b] == ov[ob]);
            } else {
                let oa = if a < pos { a } else { a - 1 };
                assert(nv[a] == ov[oa]);
            }
        }
        assert forall|c: u128, m: Seq<char>| #[trigger] has_key(nv, c, m) <==> (has_key(ov, c, m) || (
        c == id && m == month@)) by {
            if has_key(nv, c, m) {
                let w = choose|w: int| 0 <= w < nv.len() && (#[trigger] nv[w]).category_id == c && nv[w].month == m;
                if w < pos {
                    assert(ov[w] == nv[w]);
                } else if w > pos {
                    assert(ov[w - 1] == nv[w]);
                }
            }
            if has_key(ov, c, m) {
                let w = choose|w: int| 0 <= w < ov.len() && (#[trigger] ov[w]).category_id == c && ov[w].month == m;
                if w < pos {
                    assert(nv[w] == ov[w]);
                } else {
                    assert(nv[w + 1] == ov[w]);
                }
            }
            if c == id && m == month@ {
                assert(nv[pos as int] == kv);
            }
        }
        assert forall|j: int| 0 <= j < nv.len() implies (ov.contains(#[trigger] nv[j]) || nv[j] == kv) by {
            if j < pos {
                assert(ov[j] == nv[j]);
            } else if j > pos {
                assert(ov[j - 1] == nv[j]);
            }
        }
    }
}

/// For each expense, the name of its category.
fn category_names_of(cats: &Vec<Category>, es: &Vec<Expense>) -> (r: Vec<String>)
    requires
        category_ids(category_views(cats@)).no_duplicates(),
        forall|k: int|
            0 <= k < es@.len() ==> category_ids(category_views(cats@)).contains(
                (#[trigger] es@[k]).category_id,
            ),
    ensures
        r@.len() == es@.len(),
        forall|i: int|
            0 <= i < es@.len() ==> (#[trigger] r@[i])@ == category_views(cats@)[category_index(
                category_views(cats@),
                es@[i].category_id,
            )].name,
{
    let ghost cv = category_views(cats@);
    let mut r: Vec<String> = Vec::new();
    let mut i: usize = 0;
    while i < es.len()
        invariant
            i <= es.len(),
            cv == category_views(cats@),
            category_ids(cv).no_duplicates(),
            forall|k: int| 0 <= k < es@.len() ==> category_ids(cv).contains((#[trigger] es@[k]).category_id),
            r@.len() == i,
            forall|j: int|
                0 <= j < i ==> (#[trigger] r@[j])@ == cv[category_index(cv, es@[j].category_id)].name,
        decreases es.len() - i,
    {
        let id = es[i].category_id;
        let mut c: usize = 0;
        while c < cats.len()
            invariant
                c <= cats.len(),
                cv == category_views(cats@),
                forall|j: int| 0 <= j < c ==> (#[trigger] cv[j]).id != id,
            ensures
                c <= cats.len(),
                forall|j: int| 0 <= j < c ==> (#[trigger] cv[j]).id != id,
                c < cats.len() ==> cv[c as int].id == id,
            decreases cats.len() - c,
        {
            proof {
                assert(cv[c as int] == cats@[c as int]@);
            }
            if cats[c].id == id {
                break;
            }
            c = c + 1;
        }
        proof {
            assert(es@[i as int].category_id == id);
            assert(category_ids(cv).contains(id));
            let w = choose|w: int| 0 <= w < category_ids(cv).len() && category_ids(cv)[w] == id;
            assert(cv[w].id == id);
            assert(c < cats.len());
            let ci = category_index(cv, id);
            assert(category_ids(cv)[ci] == id);
            assert(category_ids(cv)[c as int] == id);
            assert(ci == c);
            assert(cv[c as int] == cats@[c as int]@);
        }
        let name = cats[c].name.clone();
        r.push(name);
        i = i + 1;
    }
    r
}

/// The expenses of one category in one month that a total by category and month
/// adds up.
pub struct CategoryMonthGroup {
    pub category_id: u128,
    pub category_name: String,
    pub month: String,
    pub amounts: Vec<u64>,
}

pub struct CategoryMonthGroupView {
    pub category_id: u128,
    pub category_name: Seq<char>,
    pub month: Seq<char>,
    pub amounts: Seq<u64>,
}

impl View for CategoryMonthGroup {
    type V = CategoryMonthGroupView;

    open spec fn view(&self) -> CategoryMonthGroupView {
        CategoryMonthGroupView {
            category_id: self.category_id,
            category_name: self.category_name@,
            month: self.month@,
            amounts: self.amounts@,
        }
    }
}

pub open spec fn category_month_group_views(gs: Seq<CategoryMonthGroup>) -> Seq<
    CategoryMonthGroupView,
> {
    gs.map_values(|g: CategoryMonthGroup| g@)
}

/// `r` groups the expenses in the range by category and month: no group sorts
/// before an earlier one by category name and then month label, no two groups share
/// category and month, each group carries its category's name and holds the amounts
/// of its expenses in the range, in order, none is empty, and every expense in the
/// range falls in a listed group.
pub open spec fn is_category_month_report(
    cats: Seq<CategoryView>,
    es: Seq<ExpenseView>,
    from: Option<DateView>,
    to: Option<DateView>,
    r: Seq<CategoryMonthGroupView>,
) -> bool {
    &&& forall|a: int, b: int|
        0 <= a < b < r.len() ==> !name_month_lt(
            (#[trigger] r[b]).category_name,
            r[b].month,
            (#[trigger] r[a]).category_name,
            r[a].month,
        )
    &&& forall|a: int, b: int|
        0 <= a < r.len() && 0 <= b < r.len() && a != b ==> !((#[trigger] r[a]).category_id
            == (#[trigger] r[b]).category_id && r[a].month == r[b].month)
    &&& forall|g: int|
        0 <= g < r.len() ==> (#[trigger] r[g]).category_name == cats[category_index(
            cats,
            r[g].category_id,
        )].name && r[g].amounts == amounts_where(
            es,
            from,
            to,
            Selector::CategoryMonth(r[g].category_id, r[g].month),
        ) && r[g].amounts.len() > 0
    &&& forall|k: int|
        0 <= k < es.len() && in_range((#[trigger] es[k]).date, from, to) ==> exists|g: int|
            0 <= g < r.len() && r[g].category_id == es[k].category_id && r[g].month == month_text(
                es[k].date,
            )
}

/// The expenses in the range grouped by category and month, ordered by category
/// name and then by month label; groups with the same name and month (two
/// categories of one name) come in either order.
pub fn category_month_groups(
    cats: &Vec<Category>,
    es: &Vec<Expense>,
    from: &Option<Date>,
    to: &Option<Date>,
) -> (r: Vec<CategoryMonthGroup>)
    requires
        category_ids(category_views(cats@)).no_duplicates(),
        forall|k: int|
            0 <= k < es@.len() ==> category_ids(category_views(cats@)).contains(
                (#[trigger] es@[k]).category_id,
            ),
    ensures
        is_category_month_report(
            category_views(cats@),
            expense_views(es@),
            opt_date_view(*from),
            opt_date_view(*to),
            category_month_group_views(r@),
        ),
{
    let ghost (fv, tv) = (opt_date_view(*from), opt_date_view(*to));
    let ghost ev = expense_views(es@);
    let ghost cv = category_views(cats@);
    let flags = range_flags(es, from, to);
    let labels = month_labels(es);
    let names = category_names_of(cats, es);
    let mut keys: Vec<GroupKey> = Vec::new();
    let mut i: usize = 0;
    proof {
        assert(key_views(keys@) =~= Seq::<GroupKeyView>::empty());
    }
    while i < es.len()
        invariant
            i <= es.len(),
            cv == category_views(cats@),
            flags@.len() == es@.len(),
            labels@.len() == es@.len(),
            names@.len() == es@.len(),
            forall|j: int|
                0 <= j < es@.len() ==> (#[trigger] names@[j])@ == cv[category_index(
                    cv,
                    es@[j].category_id,
                )].name,
            keys_sorted(key_views(keys@)),
            keys_distinct(key_views(keys@)),
            forall|c: u128, m: Seq<char>|
                #[trigger] has_key(key_views(keys@), c, m) <==> exists|k: int|
                    0 <= k < i && flags@[k] && es@[k].category_id == c && labels@[k]@ == m,
            forall|j: int|
                0 <= j < key_views(keys@).len() ==> (#[trigger] key_views(keys@)[j]).category_name
                    == cv[category_index(cv, key_views(keys@)[j].category_id)].name,
        decreases es.len() - i,
    {
        let ghost before = key_views(keys@);
        if flags[i] {
            insert_key(&mut keys, es[i].category_id, &names[i], &labels[i]);
        }
        proof {
            let nv = key_views(keys@);
            assert forall|c: u128, m: Seq<char>| #[trigger] has_key(nv, c, m) <==> exists|k: int|
                0 <= k < i + 1 && flags@[k] && es@[k].category_id == c && labels@[k]@ == m by {
                if has_key(nv, c, m) {
                    if has_key(before, c, m) {
                        let k = choose|k: int|
                            0 <= k < i && flags@[k] && es@[k].category_id == c && labels@[k]@ == m;
                        assert(0 <= k < i + 1 && flags@[k] && es@[k].category_id == c
                            && labels@[k]@ == m);
                    } else {
                        assert(flags@[i as int] && es@[i as int].category_id == c
                            && labels@[i as int]@ == m);
                    }
                }
                if exists|k: int|
                    0 <= k < i + 1 && flags@[k] && es@[k].category_id == c && labels@[k]@ == m {
                    let k = choose|k: int|
                        0 <= k < i + 1 && flags@[k] && es@[k].category_id == c && labels@[k]@ == m;
                    if k < i {
                        assert(has_key(before, c, m));
                    }
                }
            }
            assert forall|j: int| 0 <= j < nv.len() implies (#[trigger] nv[j]).category_name
                == cv[category_index(cv, nv[j].category_id)].name by {
                if flags@[i as int] {
                    if before.contains(nv[j]) {
                        let w = choose|w: int| 0 <= w < before.len() && before[w] == nv[j];
                        assert(before[w].category_name == cv[category_index(
                            cv,
                            before[w].category_id,
                        )].name);
                    }
                }
            }
        }
        i = i + 1;
    }
    let mut r: Vec<CategoryMonthGroup> = Vec::new();
    let mut g: usize = 0;
    while g < keys.len()
        invariant
            g <= keys.len(),
            fv == opt_date_view(*from),
            tv == opt_date_view(*to),
            ev == expense_views(es@),
            cv == category_views(cats@),
            flags@.len() == es@.len(),
            labels@.len() == es@.len(),
            forall|j: int| 0 <= j < es@.len() ==> flags@[j] == in_range(#[trigger] ev[j].date, fv, tv),
            forall|j: int| 0 <= j < es@.len() ==> (#[trigger] labels@[j])@ == month_text(es@[j].date@),
            forall|c: u128, m: Seq<char>|
                #[trigger] has_key(key_views(keys@), c, m) <==> exists|k: int|
                    0 <= k < es@.len() && flags@[k] && es@[k].category_id == c && labels@[k]@ == m,
            forall|j: int|
                0 <= j < key_views(keys@).len() ==> (#[trigger] key_views(keys@)[j]).category_name
                    == cv[category_index(cv, key_views(keys@)[j].category_id)].name,
            r@.len() == g,
            forall|h: int|
                0 <= h < g ==> (#[trigger] r@[h]).category_id == key_views(keys@)[h].category_id
                    && r@[h].category_name@ == key_views(keys@)[h].category_name && r@[h].month@
                    == key_views(keys@)[h].month,
            forall|h: int|
                0 <= h < g ==> (#[trigger] r@[h]).amounts@ == amounts_where(
                    ev,
                    fv,
                    tv,
                    Selector::CategoryMonth(r@[h].category_id, r@[h].month@),
                ) && r@[h].amounts@.len() > 0,
        decreases keys.len() - g,
    {
        let id = keys[g].category_id;
        let month = &keys[g].month;
        let mut mask: Vec<bool> = Vec::new();
        let mut i: usize = 0;
        while i < es.len()
            invariant
                i <= es.len(),
                flags@.len() == es@.len(),
                labels@.len() == es@.len(),
                mask@.len() == i,
                forall|j: int|
                    0 <= j < i ==> #[trigger] mask@[j] == (flags@[j] && es@[j].category_id == id
                        && labels@[j]@ == month@),
            decreases es.len() - i,
        {
            mask.push(flags[i] && es[i].category_id == id && labels[i] == *month);
            i = i + 1;
        }
        proof {
            assert forall|j: int| 0 <= j < ev.len() implies mask@[j] == selects(
                Selector::CategoryMonth(id, month@),
                fv,
                tv,
                #[trigger] ev[j],
            ) by {
                assert(ev[j] == es@[j]@);
                assert(labels@[j]@ == month_text(es@[j].date@));
            }
        }
        let amounts = masked_amounts(es, &mask);
        proof {
            let kv = key_views(keys@);
            lemma_masked_selects(ev, mask@, fv, tv, Selector::CategoryMonth(id, month@));
            assert(kv[g as int] == keys@[g as int]@);
            assert(has_key(kv, id, month@));
            let k = choose|k: int|
                0 <= k < es@.len() && flags@[k] && es@[k].category_id == id && labels@[k]@ == month@;
            assert(ev[k] == es@[k]@);
            assert(selects(Selector::CategoryMonth(id, month@), fv, tv, ev[k]));
            lemma_amounts_nonempty(ev, fv, tv, Selector::CategoryMonth(id, month@), k);
        }
        r.push(
            CategoryMonthGroup {
                category_id: id,
                category_name: keys[g].category_name.clone(),
                month: month.clone(),
                amounts,
            },
        );
        proof {
            assert(key_views(keys@)[g as int] == keys@[g as int]@);
        }
        g = g + 1;
    }
    proof {
        let kv = key_views(keys@);
        assert forall|a: int, b: int| 0 <= a < b < r@.len() implies !name_month_lt(
            (#[trigger] r@[b]).category_name@,
            r@[b].month@,
            (#[trigger] r@[a]).category_name@,
            r@[a].month@,
        ) by {
            assert(kv[a] == keys@[a]@);
            assert(kv[b] == keys@[b]@);
        }
        assert forall|a: int, b: int|
            0 <= a < r@.len() && 0 <= b < r@.len() && a != b implies !((#[trigger] r@[a]).category_id
            == (#[trigger] r@[b]).category_id && r@[a].month@ == r@[b].month@) by {
            assert(kv[a] == keys@[a]@);
            assert(kv[b] == keys@[b]@);
        }
        assert forall|h: int| 0 <= h < r@.len() implies (#[trigger] r@[h]).category_name@
            == cv[category_index(cv, r@[h].category_id)].name by {
            assert(kv[h] == keys@[h]@);
        }
        assert forall|k: int|
            0 <= k < es@.len() && in_range(
                (#[trigger] es@[k]).date@,
                fv,
                tv,
            ) implies exists|g: int|
            0 <= g < r@.len() && r@[g].category_id == es@[k].category_id && r@[g].month@
                == month_text(es@[k].date@) by {
            assert(ev[k] == es@[k]@);
            assert(flags@[k]);
            assert(has_key(kv, es@[k].category_id, labels@[k]@));
            let h = choose|h: int|
                0 <= h < kv.len() && (#[trigger] kv[h]).category_id == es@[k].category_id
                    && kv[h].month == labels@[k]@;
            assert(r@[h].category_id == es@[k].category_id);
        }
        let rv = category_month_group_views(r@);
        assert forall|a: int, b: int| 0 <= a < b < rv.len() implies !name_month_lt(
            (#[trigger] rv[b]).category_name,
            rv[b].month,
            (#[trigger] rv[a]).category_name,
            rv[a].month,
        ) by {
            assert(rv[a] == r@[a]@);
            assert(rv[b] == r@[b]@);
        }
        assert forall|a: int, b: int|
            0 <= a < rv.len() && 0 <= b < rv.len() && a != b implies !((#[trigger] rv[a]).category_id
            == (#[trigger] rv[b]).category_id && rv[a].month == rv[b].month) by {
            assert(rv[a] == r@[a]@);
            assert(rv[b] == r@[b]@);
        }
        assert forall|g: int| 0 <= g < rv.len() implies (#[trigger] rv[g]).category_name
            == cv[category_index(cv, rv[g].category_id)].name && rv[g].amounts == amounts_where(
            ev,
            fv,
            tv,
            Selector::CategoryMonth(rv[g].category_id, rv[g].month),
        ) && rv[g].amounts.len() > 0 by {
            assert(rv[g] == r@[g]@);
        }
        assert forall|k: int| 0 <= k < ev.len() && in_range((#[trigger] ev[k]).date, fv, tv) implies exists|
            g: int,
        | 0 <= g < rv.len() && rv[g].category_id == ev[k].category_id && rv[g].month == month_text(
            ev[k].date,
        ) by {
            assert(ev[k] == es@[k]@);
            let h = choose|h: int|
                0 <= h < r@.len() && r@[h].category_id == es@[k].category_id && r@[h].month@
                    == month_text(es@[k].date@);
            assert(rv[h] == r@[h]@);
        }
    }
    r
}

} // verus!
