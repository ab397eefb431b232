//! The lines of the expense tables: headers, separators and record rows.

use vstd::prelude::*;
use vstd::string::*;

use crate::expense::{Expense, ExpenseView};
use crate::number::{digit_char, int_text, nat_text, push_int, push_nat};

verus! {

/// Column headings of the expense table.
pub const EXPENSE_HEADER: &'static str = "日期          描述                            类别                          金额";

/// Column headings of the expense table with a number column.
pub const EXPENSE_HEADER_WITH_INDEX: &'static str = "序号   日期          描述                            类别                          金额";

/// The rule under a table of 72 columns.
pub const DASH_72: &'static str = "------------------------------------------------------------------------";

/// The rule under a table of 77 columns.
pub const DASH_77: &'static str = "-----------------------------------------------------------------------------";

/// The rule under the category table.
pub const DASH_30: &'static str = "------------------------------";

/// `n` spaces.
pub open spec fn spaces(n: nat) -> Seq<char> {
    Seq::new(n, |i: int| ' ')
}

/// The text filled with spaces on the right to `w` characters, as `{:<w}`
/// writes it.
pub open spec fn pad_right(t: Seq<char>, w: nat) -> Seq<char> {
    if t.len() < w {
        t + spaces((w - t.len()) as nat)
    } else {
        t
    }
}

/// Filling on the right to `w` characters keeps the text as its start, and
/// adds spaces only: as many as make it `w` characters long, none when it
/// is that long already.
pub proof fn lemma_pad_right(t: Seq<char>, w: nat)
    ensures
        pad_right(t, w).len() == if t.len() < w {
            w
        } else {
            t.len()
        },
        pad_right(t, w).take(t.len() as int) == t,
        forall|i: int| t.len() <= i < pad_right(t, w).len() ==> #[trigger] pad_right(t, w)[i] == ' ',
{
    assert(pad_right(t, w).take(t.len() as int) =~= t);
}

/// An integer as `{:02}` writes it: zero-filled to two characters.
pub open spec fn two_digit_text(v: int) -> Seq<char> {
    if 0 <= v < 10 {
        seq!['0'] + nat_text(v as nat)
    } else {
        int_text(v)
    }
}

/// What `{:02}` writes of a value from 0 to 99 is exactly two digits, the
/// tens then the units (so a leading `0` only below 10); any other value is
/// written as it is.
pub proof fn lemma_two_digit_text(v: int)
    ensures
        0 <= v <= 99 ==> two_digit_text(v) == seq![
            digit_char((v / 10) as nat),
            digit_char((v % 10) as nat),
        ],
        0 <= v <= 99 ==> (two_digit_text(v)[0] == '0' <==> v < 10),
        v < 0 || v > 99 ==> two_digit_text(v) == int_text(v),
{
    if v >= 0 && v <= 9 {
        assert(two_digit_text(v) =~= seq![digit_char(0), digit_char(v as nat)]);
    } else if 10 <= v <= 99 {
        let q = (v / 10) as nat;
        assert(q < 10);
        assert(nat_text(q) == seq![digit_char(q)]);
        assert(two_digit_text(v) =~= seq![digit_char(q), digit_char((v % 10) as nat)]);
    }
    if 0 <= v <= 99 {
        assert(digit_char((v / 10) as nat) == '0' <==> v / 10 == 0);
    }
}

/// A row of the expense table: the date as `year-month-day` (the year
/// filled to four characters, month and day zero-filled to two), two
/// spaces, the description and category as they are, and the amount as
/// already written.
pub open spec fn row_text(e: ExpenseView, amount: Seq<char>) -> Seq<char> {
    pad_right(int_text(e.year as int), 4) + seq!['-'] + two_digit_text(e.month as int) + seq!['-']
        + two_digit_text(e.day as int) + seq![' ', ' '] + e.description + e.category + amount
        + seq!['\n']
}

/// A row of the expense table with its number first, filled to five
/// characters.
pub open spec fn indexed_row_text(index: nat, e: ExpenseView, amount: Seq<char>) -> Seq<char> {
    pad_right(nat_text(index), 5) + row_text(e, amount)
}

/// Appends a line of text and a line ending.
fn push_line(out: &mut String, line: &str)
    ensures
        final(out)@ == old(out)@ + line@ + seq!['\n'],
{
    proof {
        reveal_strlit("\n");
    }
    out.append(line);
    out.append("\n");
}

/// Appends spaces after `t` up to `w` characters, then `t` first.
fn push_padded(out: &mut String, t: &str, w: usize)
    ensures
        final(out)@ == old(out)@ + pad_right(t@, w as nat),
{
    proof {
        reveal_strlit(" ");
    }
    let l = t.unicode_len();
    out.append(t);
    let mut k = l;
    while k < w
        invariant
            l == t@.len(),
            l <= k,
            k <= w || k == l,
            out@ == old(out)@ + t@ + spaces((k - l) as nat),
        decreases w - k,
    {
        proof {
            reveal_strlit(" ");
        }
        out.append(" ");
        assert(spaces((k + 1 - l) as nat) =~= spaces((k - l) as nat) + seq![' ']);
        k = k + 1;
    }
    assert(l < w ==> k == w);
    assert(l >= w ==> spaces((k - l) as nat) =~= Seq::<char>::empty());
    assert(out@ =~= old(out)@ + pad_right(t@, w as nat));
}

/// Appends an integer zero-filled to two characters.
fn push_two_digits(out: &mut String, v: i8)
    ensures
        final(out)@ == old(out)@ + two_digit_text(v as int),
{
    proof {
        reveal_strlit("0");
    }
    if 0 <= v && v < 10 {
        out.append("0");
        push_nat(out, v as u64);
        assert(out@ =~= old(out)@ + two_digit_text(v as int));
    } else {
        push_int(out, v as i64);
    }
}

/// Appends the column headings of the expense table and the rule under
/// them.
pub fn write_expense_header(out: &mut String)
    ensures
        final(out)@ == old(out)@ + EXPENSE_HEADER@ + seq!['\n'] + DASH_72@ + seq!['\n'],
{
    push_line(out, EXPENSE_HEADER);
    push_line(out, DASH_72);
}

/// Appends the column headings of the expense table with a number column
/// and the rule under them.
pub fn write_expense_header_with_index(out: &mut String)
    ensures
        final(out)@ == old(out)@ + EXPENSE_HEADER_WITH_INDEX@ + seq!['\n'] + DASH_77@ + seq!['\n'],
{
    push_line(out, EXPENSE_HEADER_WITH_INDEX);
    push_line(out, DASH_77);
}

/// Appends the row of a record whose amount is written `amount`.
pub fn write_expense_row(out: &mut String, exp: &Expense, amount: &str)
    ensures
        final(out)@ == old(out)@ + row_text(exp@, amount@),
{
    proof {
        reveal_strlit("-");
        reveal_strlit("  ");
        reveal_strlit("\n");
    }
    let mut year = String::new();
    push_int(&mut year, exp.year as i64);
    assert(year@ =~= int_text(exp.year as int));
    push_padded(out, year.as_str(), 4);
    out.append("-");
    push_two_digits(out, exp.month);
    out.append("-");
    push_two_digits(out, exp.day);
    out.append("  ");
    out.append(exp.description.as_str());
    out.append(exp.category.as_str());
    out.append(amount);
    out.append("\n");
    assert(out@ =~= old(out)@ + row_text(exp@, amount@));
}

/// Appends the row of a record with its number first.
pub fn write_expense_row_with_index(out: &mut String, index: usize, exp: &Expense, amount: &str)
    ensures
        final(out)@ == old(out)@ + indexed_row_text(index as nat, exp@, amount@),
{
    let mut number = String::new();
    push_nat(&mut number, index as u64);
    assert(number@ =~= nat_text(index as nat));
    push_padded(out, number.as_str(), 5);
    write_expense_row(out, exp, amount);
    assert(out@ =~= old(out)@ + indexed_row_text(index as nat, exp@, amount@));
}

} // verus!
