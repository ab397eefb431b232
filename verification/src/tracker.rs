//! The list of expense records and the questions asked of it: adding,
//! deleting, listing by period and summing up a month by category.

use vstd::prelude::*;

use crate::expense::{
    record_of, CategoryGroup, CategorySum, Expense, ExpenseView, CAT_BUF_CAP, DESC_BUF_CAP,
    MAX_EXPENSES, MAX_UNIQUE_CATEGORIES_PER_MONTH,
};
use crate::fixed_str::FixedStr;
use crate::number::{push_int, push_nat};
use crate::store::{
    within_limits, data_file_outcome, data_file_text, lemma_data_file_round_trip, record_outcome, record_text,
    records_text, storable, storable_amount, RecordLine,
};
use crate::fixed_str::{cuts_cleanly, lemma_keep_bytes_fits};
use crate::text::{lemma_utf8_injective, utf8};

verus! {

/// A period to list records by. A record's date fields are narrower than
/// `i32`; the period's fields are narrowed the same way (wrapping) before
/// they are compared.
#[derive(PartialEq, Eq, Structural, Clone, Copy)]
pub enum Period {
    Year(i32),
    Month(i32, i32),
    Day(i32, i32, i32),
}

/// True when the record falls in the period.
pub open spec fn in_period(e: ExpenseView, p: Period) -> bool {
    match p {
        Period::Year(y) => e.year == y as i16,
        Period::Month(y, m) => e.year == y as i16 && e.month == m as i8,
        Period::Day(y, m, d) => e.year == y as i16 && e.month == m as i8 && e.day == d as i8,
    }
}

/// The indices of the records that fall in the period, in ascending order.
pub open spec fn period_indices(s: Seq<ExpenseView>, p: Period) -> Seq<usize>
    decreases s.len(),
{
    if s.len() == 0 {
        seq![]
    } else {
        let r = period_indices(s.drop_last(), p);
        if in_period(s.last(), p) {
            r.push((s.len() - 1) as usize)
        } else {
            r
        }
    }
}

/// The records listed for a period are exactly the records in it, each
/// once, in ascending order.
pub proof fn lemma_period_indices(s: Seq<ExpenseView>, p: Period)
    requires
        s.len() <= usize::MAX,
    ensures
        forall|i: int|
            0 <= i < period_indices(s, p).len() ==> #[trigger] period_indices(s, p)[i] < s.len()
                && in_period(s[period_indices(s, p)[i] as int], p),
        forall|i: int, k: int|
            0 <= i < k < period_indices(s, p).len() ==> #[trigger] period_indices(s, p)[i]
                < #[trigger] period_indices(s, p)[k],
        forall|j: int|
            0 <= j < s.len() && in_period(#[trigger] s[j], p) ==> period_indices(s, p).contains(
                j as usize,
            ),
    decreases s.len(),
{
    if s.len() > 0 {
        let q = s.drop_last();
        let r = period_indices(q, p);
        let n = s.len() - 1;
        lemma_period_indices(q, p);
        assert forall|j: int| 0 <= j < n implies s[j] == q[j] by {}
        let res = period_indices(s, p);
        assert forall|i: int| 0 <= i < res.len() implies #[trigger] res[i] < s.len() && in_period(
            s[res[i] as int],
            p,
        ) by {
            if i < r.len() {
                assert(res[i] == r[i]);
                assert(s[r[i] as int] == q[r[i] as int]);
            }
        }
        assert forall|i: int, k: int| 0 <= i < k < res.len() implies #[trigger] res[i]
            < #[trigger] res[k] by {
            assert(res[i] == r[i]);
            if k < r.len() {
                assert(res[k] == r[k]);
            }
        }
        assert forall|j: int| 0 <= j < s.len() && in_period(#[trigger] s[j], p) implies res.contains(
            j as usize,
        ) by {
            if j < n {
                assert(q[j] == s[j]);
                let t = choose|t: int| 0 <= t < r.len() && r[t] == j as usize;
                assert(res[t] == r[t]);
            } else {
                assert(res[r.len() as int] == j as usize);
            }
        }
    }
}

/// Listing by period compares every date field the period names: for a
/// year, the record's year; for a month, its year and month; for a day, its
/// year, month and day, each against the period's value narrowed to the
/// record's field width. A record is listed exactly when all of these agree,
/// and the listing holds valid indices in ascending order.
pub proof fn lemma_period_listing(s: Seq<ExpenseView>, p: Period)
    requires
        s.len() <= usize::MAX,
    ensures
        forall|j: int|
            0 <= j < s.len() ==> (period_indices(s, p).contains(j as usize) <==> match p {
                Period::Year(y) => (#[trigger] s[j]).year == y as i16,
                Period::Month(y, m) => s[j].year == y as i16 && s[j].month == m as i8,
                Period::Day(y, m, d) => s[j].year == y as i16 && s[j].month == m as i8 && s[j].day
                    == d as i8,
            }),
        forall|i: int|
            0 <= i < period_indices(s, p).len() ==> #[trigger] period_indices(s, p)[i] < s.len(),
        forall|i: int, k: int|
            0 <= i < k < period_indices(s, p).len() ==> #[trigger] period_indices(s, p)[i]
                < #[trigger] period_indices(s, p)[k],
{
    lemma_period_indices(s, p);
    let r = period_indices(s, p);
    assert forall|j: int| 0 <= j < s.len() implies (r.contains(j as usize) <==> in_period(
        #[trigger] s[j],
        p,
    )) by {
        if r.contains(j as usize) {
            let t = choose|t: int| 0 <= t < r.len() && r[t] == j as usize;
            assert(r[t] < s.len());
            assert(in_period(s[r[t] as int], p));
        }
    }
}

/// The position of the category named `name`, or -1.
pub open spec fn group_index(g: Seq<CategoryGroup>, name: Seq<char>) -> int
    decreases g.len(),
{
    if g.len() == 0 {
        -1
    } else if g[0].name == name {
        0
    } else {
        let r = group_index(g.drop_first(), name);
        if r < 0 {
            -1
        } else {
            r + 1
        }
    }
}

/// The categories after the record at index `j` with category `name` is
/// counted: it joins its category when there is one, opens a new category
/// while there are fewer than the most a summary lists, and otherwise joins
/// none.
pub open spec fn add_to_groups(g: Seq<CategoryGroup>, name: Seq<char>, j: usize) -> Seq<
    CategoryGroup,
> {
    let k = group_index(g, name);
    if k >= 0 {
        g.update(k, CategoryGroup { name: g[k].name, members: g[k].members.push(j) })
    } else if g.len() < MAX_UNIQUE_CATEGORIES_PER_MONTH {
        g.push(CategoryGroup { name, members: seq![j] })
    } else {
        g
    }
}

/// The categories of a month, in order of first appearance, each with the
/// indices of its records.
pub open spec fn category_groups(s: Seq<ExpenseView>, year: i32, month: i32) -> Seq<CategoryGroup>
    decreases s.len(),
{
    if s.len() == 0 {
        seq![]
    } else {
        let g = category_groups(s.drop_last(), year, month);
        if in_period(s.last(), Period::Month(year, month)) {
            add_to_groups(g, s.last().category, (s.len() - 1) as usize)
        } else {
            g
        }
    }
}

proof fn lemma_group_index_same_names(g1: Seq<CategoryGroup>, g2: Seq<CategoryGroup>, name: Seq<char>)
    requires
        g1.len() == g2.len(),
        forall|t: int| 0 <= t < g1.len() ==> g1[t].name == g2[t].name,
    ensures
        group_index(g1, name) == group_index(g2, name),
{
    lemma_group_index_range(g1, name);
    let k = group_index(g1, name);
    if k >= 0 {
        lemma_group_index_found(g2, name, k);
    } else {
        lemma_group_index_absent(g2, name);
    }
}

proof fn lemma_group_index_push(g: Seq<CategoryGroup>, x: CategoryGroup, name: Seq<char>)
    ensures
        group_index(g.push(x), name) == if group_index(g, name) >= 0 {
            group_index(g, name)
        } else if x.name == name {
            g.len() as int
        } else {
            -1
        },
{
    lemma_group_index_range(g, name);
    let k = group_index(g, name);
    let h = g.push(x);
    if k >= 0 {
        lemma_group_index_found(h, name, k);
    } else if x.name == name {
        lemma_group_index_found(h, name, g.len() as int);
    } else {
        lemma_group_index_absent(h, name);
    }
}

/// The categories of a month's summary, whatever the records: at most the
/// most a summary lists, no name twice; each member is a record of that month
/// with the category's name, members in ascending order; every record of the
/// month whose category is listed is among its members; a record of the
/// month falls in no category only when the list is full; and the categories
/// come in the order in which their first records come.
pub proof fn lemma_category_groups(s: Seq<ExpenseView>, year: i32, month: i32)
    requires
        s.len() <= usize::MAX,
    ensures
        ({
            let g = category_groups(s, year, month);
            &&& g.len() <= MAX_UNIQUE_CATEGORIES_PER_MONTH
            &&& forall|a: int, b: int| 0 <= a < b < g.len() ==> g[a].name != g[b].name
            &&& forall|k: int, t: int|
                0 <= k < g.len() && 0 <= t < g[k].members.len() ==> {
                    let j = #[trigger] g[k].members[t];
                    &&& j < s.len()
                    &&& in_period(s[j as int], Period::Month(year, month))
                    &&& s[j as int].category == g[k].name
                }
            &&& forall|k: int, t1: int, t2: int|
                0 <= k < g.len() && 0 <= t1 < t2 < g[k].members.len() ==> #[trigger] g[k].members[t1]
                    < #[trigger] g[k].members[t2]
            &&& forall|j: int|
                0 <= j < s.len() && in_period(#[trigger] s[j], Period::Month(year, month)) ==> {
                    let k = group_index(g, s[j].category);
                    &&& k >= 0 ==> g[k].members.contains(j as usize)
                    &&& k < 0 ==> g.len() == MAX_UNIQUE_CATEGORIES_PER_MONTH
                }
            &&& forall|k: int| 0 <= k < g.len() ==> #[trigger] g[k].members.len() > 0
            &&& forall|a: int, b: int|
                0 <= a < b < g.len() ==> #[trigger] g[a].members[0] < #[trigger] g[b].members[0]
        }),
    decreases s.len(),
{
    if s.len() == 0 {
        return;
    }
    let p = s.drop_last();
    let gp = category_groups(p, year, month);
    let g = category_groups(s, year, month);
    let n = (s.len() - 1) as int;
    let e = s.last();
    lemma_category_groups(p, year, month);
    assert forall|j: int| 0 <= j < n implies s[j] == p[j] by {}
    if !in_period(e, Period::Month(year, month)) {
        assert(g == gp);
        assert forall|j: int|
            0 <= j < s.len() && in_period(#[trigger] s[j], Period::Month(year, month)) implies {
                let k = group_index(g, s[j].category);
                &&& k >= 0 ==> g[k].members.contains(j as usize)
                &&& k < 0 ==> g.len() == MAX_UNIQUE_CATEGORIES_PER_MONTH
            } by {
            assert(j < n);
            assert(p[j] == s[j]);
        }
        return;
    }
    let name = e.category;
    lemma_group_index_range(gp, name);
    let k0 = group_index(gp, name);
    if k0 >= 0 {
        let newg = CategoryGroup { name: gp[k0].name, members: gp[k0].members.push(n as usize) };
        assert(g == gp.update(k0, newg));
        assert forall|t: int| 0 <= t < g.len() implies g[t].name == gp[t].name by {}
        assert forall|k: int, t: int|
            0 <= k < g.len() && 0 <= t < g[k].members.len() implies {
                let j = #[trigger] g[k].members[t];
                &&& j < s.len()
                &&& in_period(s[j as int], Period::Month(year, month))
                &&& s[j as int].category == g[k].name
            } by {
            if k == k0 && t == gp[k0].members.len() {
                assert(g[k].members[t] == n as usize);
                assert(s[n] == e);
                assert(g[k].name == name);
            } else {
                assert(g[k].members[t] == gp[k].members[t]);
                let j = gp[k].members[t];
                assert(j < p.len());
                assert(p[j as int] == s[j as int]);
                assert(in_period(p[j as int], Period::Month(year, month)));
                assert(p[j as int].category == gp[k].name);
                assert(g[k].name == gp[k].name);
            }
        }
        assert forall|k: int, t1: int, t2: int|
            0 <= k < g.len() && 0 <= t1 < t2 < g[k].members.len() implies #[trigger] g[k].members[t1]
                < #[trigger] g[k].members[t2] by {
            assert(g[k].members[t1] == gp[k].members[t1]);
            if k == k0 && t2 == gp[k0].members.len() {
                assert(gp[k].members[t1] < p.len());
            } else {
                assert(g[k].members[t2] == gp[k].members[t2]);
            }
        }
        assert forall|j: int|
            0 <= j < s.len() && in_period(#[trigger] s[j], Period::Month(year, month)) implies {
                let k = group_index(g, s[j].category);
                &&& k >= 0 ==> g[k].members.contains(j as usize)
                &&& k < 0 ==> g.len() == MAX_UNIQUE_CATEGORIES_PER_MONTH
            } by {
            lemma_group_index_same_names(g, gp, s[j].category);
            lemma_group_index_range(gp, s[j].category);
            let k = group_index(g, s[j].category);
            if j < n {
                assert(p[j] == s[j]);
                if k >= 0 {
                    assert(gp[k].members.contains(j as usize));
                    let t = choose|t: int| 0 <= t < gp[k].members.len() && gp[k].members[t] == j as usize;
                    if k == k0 {
                        assert(g[k] == newg);
                        assert(newg.members[t] == gp[k0].members[t]);
                    } else {
                        assert(g[k] == gp[k]);
                    }
                    assert(g[k].members[t] == j as usize);
                }
            } else {
                assert(g[k0].members[gp[k0].members.len() as int] == n as usize);
            }
        }
    } else if gp.len() < MAX_UNIQUE_CATEGORIES_PER_MONTH {
        let newg = CategoryGroup { name, members: seq![n as usize] };
        assert(g == gp.push(newg));
        assert forall|k: int, t: int|
            0 <= k < g.len() && 0 <= t < g[k].members.len() implies {
                let j = #[trigger] g[k].members[t];
                &&& j < s.len()
                &&& in_period(s[j as int], Period::Month(year, month))
                &&& s[j as int].category == g[k].name
            } by {
            if k < gp.len() {
                assert(g[k] == gp[k]);
                let j = gp[k].members[t];
                assert(j < p.len());
                assert(p[j as int] == s[j as int]);
                assert(in_period(p[j as int], Period::Month(year, month)));
                assert(p[j as int].category == gp[k].name);
            } else {
                assert(g[k] == newg);
                assert(g[k].members[t] == n as usize);
                assert(s[n] == e);
            }
        }
        assert forall|k: int, t1: int, t2: int|
            0 <= k < g.len() && 0 <= t1 < t2 < g[k].members.len() implies #[trigger] g[k].members[t1]
                < #[trigger] g[k].members[t2] by {
            assert(k < gp.len());
            assert(g[k] == gp[k]);
        }
        assert forall|j: int|
            0 <= j < s.len() && in_period(#[trigger] s[j], Period::Month(year, month)) implies {
                let k = group_index(g, s[j].category);
                &&& k >= 0 ==> g[k].members.contains(j as usize)
                &&& k < 0 ==> g.len() == MAX_UNIQUE_CATEGORIES_PER_MONTH
            } by {
            lemma_group_index_push(gp, newg, s[j].category);
            lemma_group_index_range(gp, s[j].category);
            let k = group_index(g, s[j].category);
            if j < n {
                assert(p[j] == s[j]);
                assert(group_index(gp, s[j].category) >= 0);
                let t = choose|t: int| 0 <= t < gp[k].members.len() && gp[k].members[t] == j as usize;
                assert(g[k] == gp[k]);
                assert(g[k].members[t] == j as usize);
            } else {
                assert(g[k].members[0] == n as usize);
            }
        }
    } else {
        assert(g == gp);
        assert forall|j: int|
            0 <= j < s.len() && in_period(#[trigger] s[j], Period::Month(year, month)) implies {
                let k = group_index(g, s[j].category);
                &&& k >= 0 ==> g[k].members.contains(j as usize)
                &&& k < 0 ==> g.len() == MAX_UNIQUE_CATEGORIES_PER_MONTH
            } by {
            if j < n {
                assert(p[j] == s[j]);
            }
        }
    }
}

/// What the categories of a summary hold.
pub open spec fn group_views(v: Seq<CategorySum>) -> Seq<CategoryGroup> {
    v.map_values(|c: CategorySum| c@)
}

pub proof fn lemma_group_index_found(g: Seq<CategoryGroup>, name: Seq<char>, k: int)
    requires
        0 <= k < g.len(),
        g[k].name == name,
        forall|t: int| 0 <= t < k ==> g[t].name != name,
    ensures
        group_index(g, name) == k,
    decreases k,
{
    if k > 0 {
        lemma_group_index_found(g.drop_first(), name, k - 1);
    }
}

pub proof fn lemma_group_index_absent(g: Seq<CategoryGroup>, name: Seq<char>)
    requires
        forall|t: int| 0 <= t < g.len() ==> g[t].name != name,
    ensures
        group_index(g, name) == -1,
    decreases g.len(),
{
    if g.len() > 0 {
        lemma_group_index_absent(g.drop_first(), name);
    }
}

pub proof fn lemma_group_index_range(g: Seq<CategoryGroup>, name: Seq<char>)
    ensures
        -1 <= group_index(g, name) < g.len(),
        group_index(g, name) >= 0 ==> g[group_index(g, name)].name == name,
        group_index(g, name) >= 0 ==> forall|t: int|
            0 <= t < group_index(g, name) ==> g[t].name != name,
        group_index(g, name) < 0 ==> forall|t: int| 0 <= t < g.len() ==> g[t].name != name,
    decreases g.len(),
{
    if g.len() > 0 {
        lemma_group_index_range(g.drop_first(), name);
        if g[0].name != name && group_index(g.drop_first(), name) >= 0 {
            assert forall|t: int| 0 <= t < group_index(g, name) implies g[t].name != name by {
                if t > 0 {
                    assert(g[t] == g.drop_first()[t - 1]);
                }
            }
        }
        if g[0].name != name && group_index(g.drop_first(), name) < 0 {
            assert forall|t: int| 0 <= t < g.len() implies g[t].name != name by {
                if t > 0 {
                    assert(g[t] == g.drop_first()[t - 1]);
                }
            }
        }
    }
}

/// The texts of every record line can be kept by a record: their first
/// bytes up to the field capacities are whole characters.
pub open spec fn lines_cut_cleanly(lines: Seq<RecordLine>) -> bool {
    forall|i: int|
        0 <= i < lines.len() ==> match #[trigger] lines[i] {
            RecordLine::Record(f) => cuts_cleanly(f.description@, DESC_BUF_CAP as int)
                && cuts_cleanly(f.category@, CAT_BUF_CAP as int),
            _ => true,
        }
}

/// Record lines as the data file is read have texts a record keeps whole,
/// so `load_expenses` takes them.
pub proof fn lemma_read_lines_cut_cleanly(lines: Seq<RecordLine>)
    requires
        forall|i: int| 0 <= i < lines.len() ==> within_limits(#[trigger] lines[i]),
    ensures
        lines_cut_cleanly(lines),
{
    assert forall|i: int| 0 <= i < lines.len() implies match #[trigger] lines[i] {
        RecordLine::Record(f) => cuts_cleanly(f.description@, DESC_BUF_CAP as int) && cuts_cleanly(
            f.category@,
            CAT_BUF_CAP as int,
        ),
        _ => true,
    } by {
        assert(within_limits(lines[i]));
    }
}

/// The records a load keeps: each record line whose amount was read, in
/// order, made into a record as `set_data` makes it.
pub open spec fn loaded_records(lines: Seq<RecordLine>, amounts: Seq<Option<u64>>) -> Seq<
    ExpenseView,
>
    decreases lines.len(),
{
    if lines.len() == 0 || amounts.len() == 0 {
        seq![]
    } else {
        let prev = loaded_records(lines.drop_last(), amounts.drop_last());
        match (lines.last(), amounts.last()) {
            (RecordLine::Record(f), Some(a)) => prev.push(
                record_of(f.year, f.month, f.day, f.description@, a, f.category@),
            ),
            _ => prev,
        }
    }
}

pub proof fn lemma_loaded_records_len(lines: Seq<RecordLine>, amounts: Seq<Option<u64>>)
    ensures
        loaded_records(lines, amounts).len() <= lines.len(),
    decreases lines.len(),
{
    if lines.len() > 0 && amounts.len() > 0 {
        lemma_loaded_records_len(lines.drop_last(), amounts.drop_last());
    }
}

proof fn lemma_load_lines(
    lines: Seq<RecordLine>,
    amounts: Seq<Option<u64>>,
    s: Seq<ExpenseView>,
    texts: Seq<Seq<char>>,
)
    requires
        lines.len() == s.len(),
        amounts.len() == s.len(),
        texts.len() == s.len(),
        forall|i: int|
            0 <= i < s.len() ==> storable(#[trigger] s[i]) && lines[i]@ == record_outcome(
                s[i],
                texts[i],
            ) && amounts[i] == Some(s[i].amount),
    ensures
        loaded_records(lines, amounts) == s,
    decreases s.len(),
{
    if s.len() > 0 {
        let n = s.len() - 1;
        assert forall|i: int| 0 <= i < n implies storable(#[trigger] s.drop_last()[i])
            && lines.drop_last()[i]@ == record_outcome(s.drop_last()[i], texts.drop_last()[i])
            && amounts.drop_last()[i] == Some(s.drop_last()[i].amount) by {
            assert(s.drop_last()[i] == s[i]);
        }
        lemma_load_lines(lines.drop_last(), amounts.drop_last(), s.drop_last(), texts.drop_last());
        let e = s[n];
        assert(storable(e));
        assert(lines[n]@ == record_outcome(e, texts[n]));
        match lines.last() {
            RecordLine::Record(f) => {
                lemma_utf8_injective(f.description@, e.description);
                lemma_utf8_injective(f.category@, e.category);
                lemma_keep_bytes_fits(e.description, DESC_BUF_CAP as int);
                lemma_keep_bytes_fits(e.category, CAT_BUF_CAP as int);
                assert(record_of(f.year, f.month, f.day, f.description@, e.amount, f.category@)
                    == e);
            },
            _ => {
                assert(false);
            },
        }
        assert(s =~= s.drop_last().push(e));
    }
}

/// Saving records the data file can hold and reading the file back gives the
/// same records, once each amount text is read back as the amount it was
/// written from.
pub proof fn lemma_save_load_round_trip(
    s: Seq<ExpenseView>,
    texts: Seq<Seq<char>>,
    lines: Seq<RecordLine>,
    amounts: Seq<Option<u64>>,
)
    requires
        s.len() <= MAX_EXPENSES,
        texts.len() == s.len(),
        forall|i: int| 0 <= i < s.len() ==> storable(#[trigger] s[i]) && storable_amount(texts[i]),
        data_file_outcome(utf8(data_file_text(s, texts))) == Some(
            lines.map_values(|l: RecordLine| l@),
        ),
        amounts.len() == lines.len(),
        forall|i: int| 0 <= i < amounts.len() && i < s.len() ==> #[trigger] amounts[i] == Some(
            s[i].amount,
        ),
    ensures
        loaded_records(lines, amounts) == s,
{
    lemma_data_file_round_trip(s, texts);
    let outs = Seq::new(s.len(), |i: int| record_outcome(s[i], texts[i]));
    assert(lines.map_values(|l: RecordLine| l@) == outs);
    assert(lines.map_values(|l: RecordLine| l@).len() == lines.len());
    assert(outs.len() == s.len());
    assert(lines.len() == s.len());
    assert forall|i: int| 0 <= i < s.len() implies storable(#[trigger] s[i]) && lines[i]@
        == record_outcome(s[i], texts[i]) && amounts[i] == Some(s[i].amount) by {
        assert(lines.map_values(|l: RecordLine| l@)[i] == outs[i]);
    }
    lemma_load_lines(lines, amounts, s, texts);
}

/// Deleting the record just added gives back the records as they were.
pub proof fn lemma_delete_undoes_add(s: Seq<ExpenseView>, r: ExpenseView)
    ensures
        s.push(r).remove(s.len() as int) == s,
{
    assert(s.push(r).remove(s.len() as int) =~= s);
}

/// A month's records and its categories. The amounts are doubles that the
/// library carries but does not add: the month's total is the sum over
/// `records`, a category's total the sum over its members.
pub struct MonthlySummary {
    pub records: Vec<usize>,
    pub categories: Vec<CategorySum>,
}

/// The list of expense records, oldest first.
pub struct ExpenseTracker {
    all_expenses: Vec<Expense>,
}

impl ExpenseTracker {
    /// The records, oldest first.
    pub closed spec fn view(&self) -> Seq<ExpenseView> {
        self.all_expenses@.map_values(|e: Expense| e@)
    }

    #[verifier::type_invariant]
    closed spec fn bounded(&self) -> bool {
        self.all_expenses@.len() <= MAX_EXPENSES
    }

    /// A tracker with no records.
    pub fn new() -> (t: Self)
        ensures
            t@ == Seq::<ExpenseView>::empty(),
    {
        let t = ExpenseTracker { all_expenses: Vec::new() };
        assert(t@ =~= Seq::<ExpenseView>::empty());
        t
    }

    /// Replaces the records by those of the record lines of a data file:
    /// `amounts[i]` is the amount of line `i` read as a double (its bit
    /// pattern), `None` when it is not one; a line is kept when it is a
    /// record and its amount was read.
    pub fn load_expenses(&mut self, lines: &Vec<RecordLine>, amounts: &Vec<Option<u64>>)
        requires
            lines@.len() <= MAX_EXPENSES,
            amounts@.len() == lines@.len(),
            lines_cut_cleanly(lines@),
        ensures
            final(self)@ == loaded_records(lines@, amounts@),
    {
        let n = lines.len();
        let mut v: Vec<Expense> = Vec::new();
        let mut i: usize = 0;
        while i < n
            invariant
                n == lines@.len(),
                amounts@.len() == n,
                lines_cut_cleanly(lines@),
                n <= MAX_EXPENSES,
                0 <= i <= n,
                v@.len() <= i,
                v@.map_values(|e: Expense| e@) == loaded_records(
                    lines@.take(i as int),
                    amounts@.take(i as int),
                ),
            decreases n - i,
        {
            assert(lines@.take(i + 1).drop_last() =~= lines@.take(i as int));
            assert(amounts@.take(i + 1).drop_last() =~= amounts@.take(i as int));
            let ghost old_v = v@;
            match (&lines[i], amounts[i]) {
                (RecordLine::Record(f), Some(a)) => {
                    let mut e = Expense::new();
                    e.set_data(
                        f.year,
                        f.month,
                        f.day,
                        f.description.as_str(),
                        a,
                        f.category.as_str(),
                    );
                    v.push(e);
                    assert(v@.map_values(|e: Expense| e@) =~= old_v.map_values(|e: Expense| e@).push(
                        e@,
                    ));
                },
                _ => {},
            }
            i = i + 1;
        }
        assert(lines@.take(n as int) =~= lines@);
        assert(amounts@.take(n as int) =~= amounts@);
        self.all_expenses = v;
    }

    /// The data file for the records, the amount of record `i` written
    /// `amount_texts[i]`.
    pub fn save_expenses(&self, amount_texts: &Vec<String>) -> (content: String)
        requires
            amount_texts@.len() == self@.len(),
        ensures
            content@ == data_file_text(self@, amount_texts@.map_values(|t: String| t@)),
    {
        proof {
            reveal_strlit(",");
            reveal_strlit("\n");
        }
        let ghost amounts = amount_texts@.map_values(|t: String| t@);
        let n = self.all_expenses.len();
        let mut out = String::new();
        push_nat(&mut out, n as u64);
        out.append("\n");
        let ghost head = out@;
        let mut i: usize = 0;
        while i < n
            invariant
                n == self@.len(),
                amount_texts@.len() == n,
                amounts == amount_texts@.map_values(|t: String| t@),
                0 <= i <= n,
                out@ == head + records_text(self@.take(i as int), amounts.take(i as int)),
            decreases n - i,
        {
            proof {
                reveal_strlit(",");
                reveal_strlit("\n");
            }
            let e = &self.all_expenses[i];
            assert(self@[i as int] == e@);
            assert(amounts[i as int] == amount_texts@[i as int]@);
            push_int(&mut out, e.year as i64);
            out.append(",");
            push_int(&mut out, e.month as i64);
            out.append(",");
            push_int(&mut out, e.day as i64);
            out.append(",");
            out.append(e.description.as_str());
            out.append(",");
            out.append(amount_texts[i].as_str());
            out.append(",");
            out.append(e.category.as_str());
            out.append("\n");
            assert(self@.take(i + 1).drop_last() =~= self@.take(i as int));
            assert(amounts.take(i + 1).drop_last() =~= amounts.take(i as int));
            assert(out@ =~= head + records_text(self@.take(i as int), amounts.take(i as int))
                + record_text(e@, amounts[i as int]));
            i = i + 1;
        }
        assert(self@.take(n as int) =~= self@);
        assert(amounts.take(n as int) =~= amounts);
        out
    }

    /// The number of records.
    pub fn expense_count(&self) -> (n: usize)
        ensures
            n == self@.len(),
            n <= MAX_EXPENSES,
    {
        proof {
            use_type_invariant(self);
        }
        self.all_expenses.len()
    }

    /// The record at `i`.
    pub fn get(&self, i: usize) -> (e: &Expense)
        requires
            i < self@.len(),
        ensures
            e@ == self@[i as int],
    {
        &self.all_expenses[i]
    }

    /// True when no more records fit.
    pub fn is_full(&self) -> (b: bool)
        ensures
            b == (self@.len() >= MAX_EXPENSES),
    {
        self.all_expenses.len() >= MAX_EXPENSES
    }

    /// Appends the record `set_data` makes of the arguments, when there is
    /// room; returns whether it did.
    pub fn add_record(&mut self, y: i32, m: i32, d: i32, desc: &str, amt: u64, cat: &str) -> (ok:
        bool)
        requires
            cuts_cleanly(desc@, DESC_BUF_CAP as int),
            cuts_cleanly(cat@, CAT_BUF_CAP as int),
        ensures
            ok == (old(self)@.len() < MAX_EXPENSES),
            ok ==> final(self)@ == old(self)@.push(record_of(y, m, d, desc@, amt, cat@)),
            !ok ==> final(self)@ == old(self)@,
    {
        if self.all_expenses.len() >= MAX_EXPENSES {
            return false;
        }
        let mut e = Expense::new();
        e.set_data(y, m, d, desc, amt, cat);
        let mut v: Vec<Expense> = Vec::new();
        std::mem::swap(&mut v, &mut self.all_expenses);
        v.push(e);
        self.all_expenses = v;
        assert(self@ =~= old(self)@.push(record_of(y, m, d, desc@, amt, cat@)));
        true
    }

    /// Deletes the record at `index`; the later records move up by one.
    pub fn delete(&mut self, index: usize)
        requires
            index < old(self)@.len(),
        ensures
            final(self)@ == old(self)@.remove(index as int),
    {
        proof {
            use_type_invariant(&*self);
        }
        let mut v: Vec<Expense> = Vec::new();
        std::mem::swap(&mut v, &mut self.all_expenses);
        v.remove(index);
        self.all_expenses = v;
        assert(self@ =~= old(self)@.remove(index as int));
    }

    /// The indices of the records in the period, in ascending order.
    pub fn records_in_period(&self, p: Period) -> (r: Vec<usize>)
        ensures
            r@ == period_indices(self@, p),
    {
        let n = self.all_expenses.len();
        let mut r: Vec<usize> = Vec::new();
        let mut i: usize = 0;
        while i < n
            invariant
                n == self@.len(),
                0 <= i <= n,
                r@ == period_indices(self@.take(i as int), p),
            decreases n - i,
        {
            let e = &self.all_expenses[i];
            assert(self@.take(i + 1).drop_last() =~= self@.take(i as int));
            assert(self@[i as int] == e@);
            let hit = match p {
                Period::Year(y) => e.year == y as i16,
                Period::Month(y, m) => e.year == y as i16 && e.month == m as i8,
                Period::Day(y, m, d) => e.year == y as i16 && e.month == m as i8 && e.day
                    == d as i8,
            };
            if hit {
                r.push(i);
            }
            i = i + 1;
        }
        assert(self@.take(n as int) =~= self@);
        r
    }

    /// A month's records and categories: the records of that year and month
    /// in ascending order, and their categories in order of first appearance
    /// (at most the most a summary lists), each with its records.
    pub fn monthly_summary(&self, year: i32, month: i32) -> (s: MonthlySummary)
        ensures
            s.records@ == period_indices(self@, Period::Month(year, month)),
            group_views(s.categories@) == category_groups(self@, year, month),
    {
        let n = self.all_expenses.len();
        let mut records: Vec<usize> = Vec::new();
        let mut cats: Vec<CategorySum> = Vec::new();
        let mut i: usize = 0;
        while i < n
            invariant
                n == self@.len(),
                0 <= i <= n,
                records@ == period_indices(self@.take(i as int), Period::Month(year, month)),
                group_views(cats@) == category_groups(self@.take(i as int), year, month),
            decreases n - i,
        {
            let e = &self.all_expenses[i];
            let ghost prefix = self@.take(i as int);
            assert(self@.take(i + 1).drop_last() =~= prefix);
            assert(self@[i as int] == e@);
            if e.year == year as i16 && e.month == month as i8 {
                records.push(i);
                let ghost g = group_views(cats@);
                match find_category(&cats, &e.category) {
                    Some(k) => {
                        let mut c = cats.remove(k);
                        c.members.push(i);
                        cats.insert(k, c);
                        assert(group_views(cats@) =~= g.update(
                            k as int,
                            CategoryGroup { name: g[k as int].name, members: g[k as int].members.push(i) },
                        ));
                    },
                    None => {
                        if cats.len() < MAX_UNIQUE_CATEGORIES_PER_MONTH {
                            let mut members: Vec<usize> = Vec::new();
                            members.push(i);
                            let c = CategorySum { name: e.category.clone(), members };
                            cats.push(c);
                            assert(group_views(cats@) =~= g.push(
                                CategoryGroup { name: e@.category, members: seq![i] },
                            ));
                        }
                    },
                }
            }
            i = i + 1;
        }
        assert(self@.take(n as int) =~= self@);
        MonthlySummary { records, categories: cats }
    }
}

/// The position of the category named like `name`, as `group_index` gives it.
fn find_category(cats: &Vec<CategorySum>, name: &FixedStr<CAT_BUF_CAP>) -> (r: Option<usize>)
    ensures
        match r {
            Some(k) => k < cats@.len() && k == group_index(group_views(cats@), name@),
            None => group_index(group_views(cats@), name@) == -1,
        },
{
    let ghost g = group_views(cats@);
    let mut k: usize = 0;
    while k < cats.len()
        invariant
            0 <= k <= cats@.len(),
            g == group_views(cats@),
            forall|t: int| 0 <= t < k ==> g[t].name != name@,
        decreases cats@.len() - k,
    {
        assert(g[k as int] == cats@[k as int]@);
        if cats[k].name.eq(name) {
            proof {
                lemma_group_index_found(g, name@, k as int);
            }
            return Some(k);
        }
        k = k + 1;
    }
    proof {
        lemma_group_index_absent(g, name@);
    }
    None
}

} // verus!
