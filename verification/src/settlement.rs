//! Automatic monthly settlement: the file that remembers the last settled
//! month, and which months are settled on start-up.

use vstd::prelude::*;
use vstd::string::*;

use crate::number::{int_text, lemma_int_text_chars, lemma_parse_int_text, parse_i32, parse_i32_spec, push_int};
use crate::text::{
    is_white_space, lemma_trim_end_one, lemma_trim_start_keeps, lemma_words_prefix,
    split_whitespace, trim, trim_chars, utf8, words,
};

verus! {

/// The integer the `i`-th word reads as, 0 when there is no such word or it
/// is not an `i32`.
pub open spec fn word_int(w: Seq<Seq<char>>, i: int) -> i32 {
    if 0 <= i < w.len() {
        match parse_i32_spec(utf8(w[i])) {
            Some(v) => v,
            None => 0,
        }
    } else {
        0
    }
}

/// The last settled year and month a settlement file holds: its first two
/// whitespace-separated words, each 0 when missing or not a number.
pub open spec fn settlement_of(s: Seq<char>) -> (i32, i32) {
    let w = words(trim_chars(s));
    (word_int(w, 0), word_int(w, 1))
}

/// The last settled year and month: `(0, 0)` when the settlement file could
/// not be read, otherwise what its text holds.
pub fn read_last_settlement(content: Option<&str>) -> (r: (i32, i32))
    ensures
        r == match content {
            None => (0i32, 0i32),
            Some(s) => settlement_of(s@),
        },
{
    match content {
        None => (0, 0),
        Some(s) => {
            let parts = split_whitespace(trim(s));
            let ghost w = words(trim_chars(s@));
            assert(parts@.len() == w.len());
            let y = if parts.len() > 0 {
                assert(parts@[0]@ == w[0]);
                match parse_i32(parts[0].as_bytes()) {
                    Some(v) => v,
                    None => 0,
                }
            } else {
                0
            };
            let m = if parts.len() > 1 {
                assert(parts@[1]@ == w[1]);
                match parse_i32(parts[1].as_bytes()) {
                    Some(v) => v,
                    None => 0,
                }
            } else {
                0
            };
            (y, m)
        },
    }
}

/// The text of a settlement file: year and month separated by a space, then
/// a line ending.
pub open spec fn settlement_text(year: i32, month: i32) -> Seq<char> {
    int_text(year as int) + seq![' '] + int_text(month as int) + seq!['\n']
}

/// The text that records `year` and `month` as the last settled month.
pub fn last_settlement_text(year: i32, month: i32) -> (r: String)
    ensures
        r@ == settlement_text(year, month),
{
    proof {
        reveal_strlit(" ");
        reveal_strlit("\n");
    }
    let mut out = String::new();
    push_int(&mut out, year as i64);
    out.append(" ");
    push_int(&mut out, month as i64);
    out.append("\n");
    assert(out@ =~= settlement_text(year, month));
    out
}

/// The month before `year`/`month`, the baseline set when nothing was
/// settled before.
pub open spec fn previous_month(year: int, month: int) -> (int, int) {
    if month == 1 {
        (year - 1, 12)
    } else {
        (year, month - 1)
    }
}

/// The month after `year`/`month`: the month counts up and past 12 wraps to
/// January of the next year.
pub open spec fn month_after(year: int, month: int) -> (int, int) {
    if month + 1 > 12 {
        (year + 1, 1)
    } else {
        (year, month + 1)
    }
}

/// `a` comes before `b`, comparing the year first and then the month.
pub open spec fn month_before(a: (int, int), b: (int, int)) -> bool {
    a.0 < b.0 || (a.0 == b.0 && a.1 < b.1)
}

/// The baseline recorded when no month was settled yet: the month before
/// today's.
pub fn settlement_baseline(year: i32, month: i32) -> (r: (i32, i32))
    requires
        month == 1 ==> year > i32::MIN,
        month != 1 ==> month > i32::MIN,
    ensures
        (r.0 as int, r.1 as int) == previous_month(year as int, month as int),
{
    if month == 1 {
        (year - 1, 12)
    } else {
        (year, month - 1)
    }
}

/// How settlement starts on start-up.
#[derive(PartialEq, Eq, Structural, Clone, Copy)]
pub enum SettlementStart {
    /// Nothing was settled yet: record this month (the one before today's)
    /// as the last settled and settle nothing.
    Baseline(i32, i32),
    /// Settle the months after this one that come before today's.
    ResumeAfter(i32, i32),
}

/// How settlement starts: from the baseline when the last settled year is 0
/// (nothing settled yet, or no readable settlement file), otherwise after
/// the last settled month.
pub fn settlement_start(last: (i32, i32), today: (i32, i32)) -> (r: SettlementStart)
    requires
        last.0 == 0 && today.1 == 1 ==> today.0 > i32::MIN,
        last.0 == 0 && today.1 != 1 ==> today.1 > i32::MIN,
    ensures
        last.0 == 0 ==> (r matches SettlementStart::Baseline(y, m) && (y as int, m as int)
            == previous_month(today.0 as int, today.1 as int)),
        last.0 != 0 ==> r == SettlementStart::ResumeAfter(last.0, last.1),
{
    if last.0 == 0 {
        let (y, m) = settlement_baseline(today.0, today.1);
        SettlementStart::Baseline(y, m)
    } else {
        SettlementStart::ResumeAfter(last.0, last.1)
    }
}

/// The next month to settle after `cursor`, while it comes before the
/// current month; `None` once it does not.
pub fn next_month_to_settle(cursor: (i32, i32), current: (i32, i32)) -> (r: Option<(i32, i32)>)
    requires
        cursor.1 < i32::MAX,
        cursor.1 + 1 > 12 ==> cursor.0 < i32::MAX,
    ensures
        ({
            let n = month_after(cursor.0 as int, cursor.1 as int);
            match r {
                Some(m) => month_before(n, (current.0 as int, current.1 as int)) && (
                m.0 as int,
                m.1 as int,
            ) == n,
                None => !month_before(n, (current.0 as int, current.1 as int)),
            }
        }),
{
    let mut y = cursor.0;
    let mut m = cursor.1 + 1;
    if m > 12 {
        m = 1;
        y = y + 1;
    }
    if y > current.0 || (y == current.0 && m >= current.1) {
        None
    } else {
        Some((y, m))
    }
}

/// Reading back a settlement file gives the year and month written to it.
pub proof fn lemma_settlement_round_trip(year: i32, month: i32)
    ensures
        settlement_of(settlement_text(year, month)) == (year, month),
{
    let a = int_text(year as int);
    let b = int_text(month as int);
    lemma_int_text_chars(year as int);
    lemma_int_text_chars(month as int);
    lemma_parse_int_text(year);
    lemma_parse_int_text(month);
    let body = a + seq![' '] + b;
    let t = settlement_text(year, month);
    assert(t =~= body.push('\n'));
    assert(body[0] == a[0]);
    assert(!is_white_space(body[0]));
    assert(body.last() == b.last());
    lemma_trim_start_keeps(t);
    assert(t[0] == body[0]);
    lemma_trim_end_one(body, '\n');
    assert(trim_chars(t) == body);
    assert forall|i: int| 0 <= i < a.len() implies !is_white_space(#[trigger] a[i]) by {}
    assert forall|i: int| 0 <= i < b.len() implies !is_white_space(#[trigger] b[i]) by {}
    lemma_words_prefix(a, seq![' '] + b);
    assert(body =~= a + (seq![' '] + b));
    assert((seq![' '] + b).drop_first() =~= b);
    lemma_words_prefix(b, Seq::<char>::empty());
    assert(b + Seq::<char>::empty() =~= b);
    assert(words(Seq::<char>::empty()) =~= Seq::<Seq<char>>::empty());
    assert(words(body) =~= seq![a, b]);
}

/// The months counted one after another from year 0.
pub open spec fn month_index(year: int, month: int) -> int {
    year * 12 + (month - 1)
}

/// Settling goes one month at a time: from a month (1 to 12) the next month
/// to settle is the month right after it, and it is settled exactly when it
/// still comes before the current month.
pub proof fn lemma_settlement_walk(cursor: (int, int), current: (int, int))
    requires
        1 <= cursor.1 <= 12,
        1 <= current.1 <= 12,
    ensures
        1 <= month_after(cursor.0, cursor.1).1 <= 12,
        month_index(month_after(cursor.0, cursor.1).0, month_after(cursor.0, cursor.1).1)
            == month_index(cursor.0, cursor.1) + 1,
        month_before(month_after(cursor.0, cursor.1), current) <==> month_index(
            month_after(cursor.0, cursor.1).0,
            month_after(cursor.0, cursor.1).1,
        ) < month_index(current.0, current.1),
{
    let n = month_after(cursor.0, cursor.1);
    assert(month_before(n, current) <==> month_index(n.0, n.1) < month_index(current.0, current.1))
        by (nonlinear_arith)
        requires
            1 <= n.1 <= 12,
            1 <= current.1 <= 12,
    ;
}

/// The baseline is the month right before today's.
pub proof fn lemma_baseline_is_previous(year: int, month: int)
    requires
        1 <= month <= 12,
    ensures
        1 <= previous_month(year, month).1 <= 12,
        month_index(previous_month(year, month).0, previous_month(year, month).1) == month_index(
            year,
            month,
        ) - 1,
{
}

/// Two months (1 to 12) with the same count from year 0 are the same month.
pub proof fn lemma_month_index_unique(a: (int, int), b: (int, int))
    requires
        1 <= a.1 <= 12,
        1 <= b.1 <= 12,
        month_index(a.0, a.1) == month_index(b.0, b.1),
    ensures
        a == b,
{
    assert(a.0 == b.0) by (nonlinear_arith)
        requires
            1 <= a.1 <= 12,
            1 <= b.1 <= 12,
            a.0 * 12 + (a.1 - 1) == b.0 * 12 + (b.1 - 1),
    ;
}

/// The months a start-up settles after `cursor`, in order: each month after
/// the one before, as long as it comes before the current month.
pub open spec fn settle_months(cursor: (int, int), current: (int, int)) -> Seq<(int, int)>
    decreases month_index(current.0, current.1) - month_index(cursor.0, cursor.1),
    when 1 <= cursor.1 <= 12 && 1 <= current.1 <= 12
{
    let n = month_after(cursor.0, cursor.1);
    proof {
        lemma_settlement_walk(cursor, current);
    }
    if month_before(n, current) {
        seq![n] + settle_months(n, current)
    } else {
        seq![]
    }
}

/// Settling from a month settles every month after it that comes before the
/// current month, each once and in order, and nothing else; when it settles
/// anything, the last month it settles is the month before the current one.
pub proof fn lemma_settle_months(cursor: (int, int), current: (int, int))
    requires
        1 <= cursor.1 <= 12,
        1 <= current.1 <= 12,
    ensures
        settle_months(cursor, current).len() == if month_index(current.0, current.1) - month_index(
            cursor.0,
            cursor.1,
        ) - 1 > 0 {
            month_index(current.0, current.1) - month_index(cursor.0, cursor.1) - 1
        } else {
            0
        },
        forall|k: int|
            0 <= k < settle_months(cursor, current).len() ==> 1 <= (
            #[trigger] settle_months(cursor, current)[k]).1 <= 12 && month_index(
                settle_months(cursor, current)[k].0,
                settle_months(cursor, current)[k].1,
            ) == month_index(cursor.0, cursor.1) + k + 1,
        settle_months(cursor, current).len() > 0 ==> settle_months(cursor, current).last()
            == previous_month(current.0, current.1),
    decreases month_index(current.0, current.1) - month_index(cursor.0, cursor.1),
{
    let n = month_after(cursor.0, cursor.1);
    lemma_settlement_walk(cursor, current);
    let ms = settle_months(cursor, current);
    if month_before(n, current) {
        lemma_settle_months(n, current);
        let rest = settle_months(n, current);
        assert(ms == seq![n] + rest);
        assert forall|k: int| 0 <= k < ms.len() implies 1 <= (#[trigger] ms[k]).1 <= 12
            && month_index(ms[k].0, ms[k].1) == month_index(cursor.0, cursor.1) + k + 1 by {
            if k > 0 {
                assert(ms[k] == rest[k - 1]);
            }
        }
        if rest.len() == 0 {
            lemma_settlement_walk(n, current);
            lemma_baseline_is_previous(current.0, current.1);
            lemma_month_index_unique(n, previous_month(current.0, current.1));
        } else {
            assert(ms.last() == rest.last());
        }
    }
}

/// What one start-up settlement does, given the last settled month it reads
/// and the current month: the months it reports, and the last settled month
/// recorded afterwards. With no month settled yet (year 0) it records the
/// month before the current one and reports nothing.
pub open spec fn settlement_run(last: (int, int), current: (int, int)) -> (Seq<(int, int)>, (
    int,
    int,
)) {
    if last.0 == 0 {
        (seq![], previous_month(current.0, current.1))
    } else {
        let ms = settle_months(last, current);
        (
            ms,
            if ms.len() == 0 {
                last
            } else {
                ms.last()
            },
        )
    }
}

/// Settling is idempotent: in the same month, a start-up after one that
/// settled reports nothing and records the same last settled month.
pub proof fn lemma_settlement_run_idempotent(last: (int, int), current: (int, int))
    requires
        1 <= current.1 <= 12,
        last.0 == 0 || 1 <= last.1 <= 12,
    ensures
        settlement_run(settlement_run(last, current).1, current) == (
            Seq::<(int, int)>::empty(),
            settlement_run(last, current).1,
        ),
{
    let after = settlement_run(last, current).1;
    let p = previous_month(current.0, current.1);
    lemma_baseline_is_previous(current.0, current.1);
    if last.0 != 0 {
        lemma_settle_months(last, current);
    }
    if after == p {
        if p.0 != 0 {
            lemma_settlement_walk(p, current);
            lemma_month_index_unique(month_after(p.0, p.1), current);
            assert(!month_before(month_after(p.0, p.1), current));
            assert(settle_months(p, current) =~= Seq::<(int, int)>::empty());
        }
    } else {
        assert(last.0 != 0 && after == last);
        assert(settle_months(last, current).len() == 0);
    }
}

} // verus!
