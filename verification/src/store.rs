//! The data file: one line with the number of records, then one line per
//! record, `year,month,day,description,amount,category`.

use vstd::prelude::*;
use vstd::string::*;
use vstd::utf8::*;

use crate::expense::{ExpenseView, MAX_CATEGORY_LENGTH, MAX_DESCRIPTION_LENGTH, MAX_EXPENSES};
use crate::number::{
    int_text, is_digit, lemma_int_text_bytes, lemma_nat_text, lemma_parse_int_text,
    lemma_parse_nat_text, nat_text, parse_i32, parse_i32_spec, parse_usize, parse_usize_spec,
};
use crate::text::{
    cut_len, is_white_space, lemma_after_ascii, lemma_cut_len_bound, lemma_trim_end_keeps, lemma_trim_start_keeps,
    lemma_utf8_concat, slice_text, trim, trim_chars, truncate_text, utf8,
};

verus! {

broadcast use encode_utf8_valid_utf8, encode_utf8_decode_utf8;

/// The line of the data file for a record whose amount is written `amount`.
pub open spec fn record_text(e: ExpenseView, amount: Seq<char>) -> Seq<char> {
    int_text(e.year as int) + seq![','] + int_text(e.month as int) + seq![','] + int_text(
        e.day as int,
    ) + seq![','] + e.description + seq![','] + amount + seq![','] + e.category + seq!['\n']
}

/// The record lines of the data file, the amount of record `i` written
/// `amounts[i]`.
pub open spec fn records_text(s: Seq<ExpenseView>, amounts: Seq<Seq<char>>) -> Seq<char>
    decreases s.len(),
{
    if s.len() == 0 || amounts.len() == 0 {
        seq![]
    } else {
        records_text(s.drop_last(), amounts.drop_last()) + record_text(s.last(), amounts.last())
    }
}

/// The data file for the records: their number on the first line, then one
/// line per record.
pub open spec fn data_file_text(s: Seq<ExpenseView>, amounts: Seq<Seq<char>>) -> Seq<char> {
    nat_text(s.len()) + seq!['\n'] + records_text(s, amounts)
}

/// The offset of the first byte `c` in `b`, or -1.
pub open spec fn find_byte(b: Seq<u8>, c: u8) -> int
    decreases b.len(),
{
    if b.len() == 0 {
        -1
    } else if b[0] == c {
        0
    } else {
        let r = find_byte(b.drop_first(), c);
        if r < 0 {
            -1
        } else {
            r + 1
        }
    }
}

pub proof fn lemma_find_byte(b: Seq<u8>, c: u8)
    ensures
        -1 <= find_byte(b, c) < b.len(),
        find_byte(b, c) >= 0 ==> b[find_byte(b, c)] == c,
        forall|t: int|
            0 <= t < b.len() && (find_byte(b, c) < 0 || t < find_byte(b, c)) ==> b[t] != c,
    decreases b.len(),
{
    if b.len() > 0 {
        lemma_find_byte(b.drop_first(), c);
        assert forall|t: int|
            0 <= t < b.len() && (find_byte(b, c) < 0 || t < find_byte(b, c)) implies b[t]
            != c by {
            if t > 0 {
                assert(b[t] == b.drop_first()[t - 1]);
            }
        }
    }
}

proof fn lemma_find_byte_at(b: Seq<u8>, c: u8, k: int)
    requires
        0 <= k <= b.len(),
        forall|t: int| 0 <= t < k ==> b[t] != c,
        k < b.len() ==> b[k] == c,
    ensures
        find_byte(b, c) == if k < b.len() { k } else { -1 },
    decreases k,
{
    if k > 0 {
        lemma_find_byte_at(b.drop_first(), c, k - 1);
    }
}

/// The text without a final `\r`.
pub open spec fn strip_cr(b: Seq<u8>) -> Seq<u8> {
    if b.len() > 0 && b.last() == 0x0d {
        b.drop_last()
    } else {
        b
    }
}

/// The lines of a text as `str::lines` gives them: split after each `\n`,
/// the `\n` dropped and a `\r` just before it too; a final line ending adds
/// no empty line.
pub open spec fn lines_of(b: Seq<u8>) -> Seq<Seq<u8>>
    decreases b.len(),
{
    if b.len() == 0 {
        seq![]
    } else {
        proof {
            lemma_find_byte(b, 0x0a);
        }
        let k = find_byte(b, 0x0a);
        if k < 0 {
            seq![b]
        } else {
            seq![strip_cr(b.take(k))] + lines_of(b.skip(k + 1))
        }
    }
}

/// The pieces of a line as `splitn(n, ',')` gives them: at most `n`, the
/// last holding the rest of the line.
pub open spec fn split_fields(b: Seq<u8>, n: nat) -> Seq<Seq<u8>>
    decreases n,
{
    if n <= 1 {
        seq![b]
    } else {
        let k = find_byte(b, 0x2c);
        if k < 0 {
            seq![b]
        } else {
            seq![b.take(k)] + split_fields(b.skip(k + 1), (n - 1) as nat)
        }
    }
}

/// What a record line of the data file gives. Texts are UTF-8 bytes.
pub enum LineOutcome {
    /// A record; its amount is the text of the amount field, still to be read
    /// as a double.
    Record {
        year: i32,
        month: i32,
        day: i32,
        description: Seq<u8>,
        amount: Seq<u8>,
        category: Seq<u8>,
    },
    BadYear(Seq<u8>),
    NoMonth,
    BadMonth(Seq<u8>),
    NoDay,
    BadDay(Seq<u8>),
    NoDescription,
    NoAmount,
}

/// What a record line gives: the first field that is missing or not a
/// number makes it skipped; otherwise the description is cut to
/// `MAX_DESCRIPTION_LENGTH` bytes and the category (empty when missing) to
/// `MAX_CATEGORY_LENGTH` bytes.
pub open spec fn line_outcome(line: Seq<u8>) -> LineOutcome {
    let f = split_fields(line, 6);
    if parse_i32_spec(f[0]) is None {
        LineOutcome::BadYear(f[0])
    } else if f.len() < 2 {
        LineOutcome::NoMonth
    } else if parse_i32_spec(f[1]) is None {
        LineOutcome::BadMonth(f[1])
    } else if f.len() < 3 {
        LineOutcome::NoDay
    } else if parse_i32_spec(f[2]) is None {
        LineOutcome::BadDay(f[2])
    } else if f.len() < 4 {
        LineOutcome::NoDescription
    } else if f.len() < 5 {
        LineOutcome::NoAmount
    } else {
        LineOutcome::Record {
            year: parse_i32_spec(f[0])->0,
            month: parse_i32_spec(f[1])->0,
            day: parse_i32_spec(f[2])->0,
            description: f[3].take(cut_len(f[3], MAX_DESCRIPTION_LENGTH as int)),
            amount: f[4],
            category: if f.len() >= 6 {
                f[5].take(cut_len(f[5], MAX_CATEGORY_LENGTH as int))
            } else {
                seq![]
            },
        }
    }
}

/// The number of records the first line announces: the line trimmed of
/// whitespace and read as a `usize`, at most `MAX_EXPENSES`.
pub open spec fn header_count(first: Seq<u8>) -> Option<usize> {
    match parse_usize_spec(utf8(trim_chars(decode_utf8(first)))) {
        Some(c) => if c <= MAX_EXPENSES {
            Some(c)
        } else {
            None
        },
        None => None,
    }
}

/// What a data file gives: `None` when it has no first line or the first
/// line is not a count; otherwise the outcomes of the record lines, as many
/// as the count announces and the file has.
pub open spec fn data_file_outcome(b: Seq<u8>) -> Option<Seq<LineOutcome>> {
    let ls = lines_of(b);
    if ls.len() == 0 {
        None
    } else {
        match header_count(ls[0]) {
            None => None,
            Some(c) => {
                let rest = ls.drop_first();
                let n = if c <= rest.len() { c as int } else { rest.len() as int };
                Some(rest.take(n).map_values(|l: Seq<u8>| line_outcome(l)))
            },
        }
    }
}

/// The fields of a record line.
pub struct RecordFields {
    pub year: i32,
    pub month: i32,
    pub day: i32,
    pub description: String,
    /// The amount field as written, still to be read as a double.
    pub amount_text: String,
    pub category: String,
}

/// A record line of the data file, read.
pub enum RecordLine {
    Record(RecordFields),
    BadYear(String),
    NoMonth,
    BadMonth(String),
    NoDay,
    BadDay(String),
    NoDescription,
    NoAmount,
}

impl RecordLine {
    pub open spec fn view(&self) -> LineOutcome {
        match self {
            RecordLine::Record(f) => LineOutcome::Record {
                year: f.year,
                month: f.month,
                day: f.day,
                description: utf8(f.description@),
                amount: utf8(f.amount_text@),
                category: utf8(f.category@),
            },
            RecordLine::BadYear(s) => LineOutcome::BadYear(utf8(s@)),
            RecordLine::NoMonth => LineOutcome::NoMonth,
            RecordLine::BadMonth(s) => LineOutcome::BadMonth(utf8(s@)),
            RecordLine::NoDay => LineOutcome::NoDay,
            RecordLine::BadDay(s) => LineOutcome::BadDay(utf8(s@)),
            RecordLine::NoDescription => LineOutcome::NoDescription,
            RecordLine::NoAmount => LineOutcome::NoAmount,
        }
    }
}

/// The offset of the first byte `c` at or after `start`, or the length.
fn find_from(b: &[u8], start: usize, c: u8) -> (r: usize)
    requires
        start <= b@.len(),
    ensures
        start <= r <= b@.len(),
        r < b@.len() ==> find_byte(b@.skip(start as int), c) == r - start,
        r == b@.len() ==> find_byte(b@.skip(start as int), c) == -1,
        r < b@.len() ==> b@[r as int] == c,
{
    let mut j = start;
    while j < b.len()
        invariant
            start <= j <= b@.len(),
            forall|t: int| start <= t < j ==> b@[t] != c,
        decreases b@.len() - j,
    {
        if b[j] == c {
            proof {
                lemma_find_byte_at(b@.skip(start as int), c, j - start);
            }
            return j;
        }
        j = j + 1;
    }
    proof {
        lemma_find_byte_at(b@.skip(start as int), c, j - start);
    }
    j
}

/// The bounds of the pieces `splitn(6, ',')` cuts a line into.
fn field_bounds(b: &[u8]) -> (r: Vec<(usize, usize)>)
    ensures
        r@.len() == split_fields(b@, 6).len(),
        1 <= r@.len() <= 6,
        forall|i: int|
            #![trigger r@[i]]
            0 <= i < r@.len() ==> {
                &&& r@[i].0 <= r@[i].1 <= b@.len()
                &&& b@.subrange(r@[i].0 as int, r@[i].1 as int) == split_fields(b@, 6)[i]
                &&& (r@[i].0 == 0 || b@[r@[i].0 - 1] == 0x2c)
                &&& (r@[i].1 == b@.len() || b@[r@[i].1 as int] == 0x2c)
            },
{
    let n = b.len();
    let mut r: Vec<(usize, usize)> = Vec::new();
    let mut pos: usize = 0;
    let mut left: usize = 6;
    let ghost mut done: Seq<Seq<u8>> = seq![];
    assert(b@.skip(0) =~= b@);
    loop
        invariant_except_break
            r@.len() + left == 6,
            done.len() == r@.len(),
            split_fields(b@, 6) == done + split_fields(b@.skip(pos as int), left as nat),
            forall|i: int|
                #![trigger r@[i]]
                0 <= i < r@.len() ==> {
                    &&& r@[i].0 <= r@[i].1 < pos
                    &&& b@.subrange(r@[i].0 as int, r@[i].1 as int) == done[i]
                    &&& (r@[i].0 == 0 || b@[r@[i].0 - 1] == 0x2c)
                    &&& b@[r@[i].1 as int] == 0x2c
                },
        invariant
            n == b@.len(),
            pos <= n,
            1 <= left <= 6,
            pos == 0 || b@[pos - 1] == 0x2c,
        ensures
            r@.len() == split_fields(b@, 6).len(),
            1 <= r@.len() <= 6,
            forall|i: int|
                #![trigger r@[i]]
                0 <= i < r@.len() ==> {
                    &&& r@[i].0 <= r@[i].1 <= b@.len()
                    &&& b@.subrange(r@[i].0 as int, r@[i].1 as int) == split_fields(b@, 6)[i]
                    &&& (r@[i].0 == 0 || b@[r@[i].0 - 1] == 0x2c)
                    &&& (r@[i].1 == b@.len() || b@[r@[i].1 as int] == 0x2c)
                },
        decreases left,
    {
        let ghost rest = b@.skip(pos as int);
        let k = if left == 1 { n } else { find_from(b, pos, 0x2c) };
        if k == n {
            assert(split_fields(rest, left as nat) == seq![rest]);
            assert(rest =~= b@.subrange(pos as int, n as int));
            r.push((pos, n));
            proof {
                done = done.push(rest);
            }
            assert(split_fields(b@, 6) =~= done);
            break;
        }
        assert(rest.take(k - pos) =~= b@.subrange(pos as int, k as int));
        assert(rest.skip(k - pos + 1) =~= b@.skip(k + 1));
        r.push((pos, k));
        proof {
            done = done.push(rest.take(k - pos));
        }
        assert(split_fields(b@, 6) =~= done + split_fields(b@.skip(k + 1), (left - 1) as nat));
        pos = k + 1;
        left = left - 1;
    }
    r
}

/// The piece of a line between two commas (or its ends).
fn field_text<'a>(line: &'a str, bounds: (usize, usize)) -> (r: &'a str)
    requires
        bounds.0 <= bounds.1 <= line.spec_bytes().len(),
        bounds.0 == 0 || line.spec_bytes()[bounds.0 - 1] == 0x2c,
        bounds.1 == line.spec_bytes().len() || line.spec_bytes()[bounds.1 as int] == 0x2c,
    ensures
        r.spec_bytes() == line.spec_bytes().subrange(bounds.0 as int, bounds.1 as int),
{
    proof {
        if bounds.0 > 0 {
            lemma_after_ascii(line.spec_bytes(), bounds.0 - 1);
        }
    }
    slice_text(line, bounds.0, bounds.1)
}

/// A record line's description and category are within their byte limits.
pub open spec fn within_limits(l: RecordLine) -> bool {
    match l {
        RecordLine::Record(f) => utf8(f.description@).len() <= MAX_DESCRIPTION_LENGTH && utf8(
            f.category@,
        ).len() <= MAX_CATEGORY_LENGTH,
        _ => true,
    }
}

/// Reads one record line of the data file.
pub fn parse_record_line(line: &str) -> (r: RecordLine)
    ensures
        r@ == line_outcome(line.spec_bytes()),
        within_limits(r),
{
    let b = line.as_bytes();
    let f = field_bounds(b);
    let ghost fs = split_fields(b@, 6);
    assert(f@[0] == f[0]);
    let t0 = field_text(line, f[0]);
    let year = match parse_i32(t0.as_bytes()) {
        Some(v) => v,
        None => {
            return RecordLine::BadYear(t0.to_owned());
        },
    };
    if f.len() < 2 {
        return RecordLine::NoMonth;
    }
    assert(f@[1] == f[1]);
    let t1 = field_text(line, f[1]);
    let month = match parse_i32(t1.as_bytes()) {
        Some(v) => v,
        None => {
            return RecordLine::BadMonth(t1.to_owned());
        },
    };
    if f.len() < 3 {
        return RecordLine::NoDay;
    }
    assert(f@[2] == f[2]);
    let t2 = field_text(line, f[2]);
    let day = match parse_i32(t2.as_bytes()) {
        Some(v) => v,
        None => {
            return RecordLine::BadDay(t2.to_owned());
        },
    };
    if f.len() < 4 {
        return RecordLine::NoDescription;
    }
    if f.len() < 5 {
        return RecordLine::NoAmount;
    }
    assert(f@[3] == f[3]);
    assert(f@[4] == f[4]);
    let t3 = field_text(line, f[3]);
    proof {
        lemma_cut_len_bound(t3.spec_bytes(), MAX_DESCRIPTION_LENGTH as int);
    }
    let description = truncate_text(t3, MAX_DESCRIPTION_LENGTH).to_owned();
    let t4 = field_text(line, f[4]);
    let amount_text = t4.to_owned();
    let category = if f.len() >= 6 {
        assert(f@[5] == f[5]);
        let t5 = field_text(line, f[5]);
        proof {
            lemma_cut_len_bound(t5.spec_bytes(), MAX_CATEGORY_LENGTH as int);
        }
        truncate_text(t5, MAX_CATEGORY_LENGTH).to_owned()
    } else {
        let e = String::new();
        proof {
            reveal_with_fuel(encode_utf8, 1);
        }
        e
    };
    RecordLine::Record(RecordFields { year, month, day, description, amount_text, category })
}

/// The end of the line starting at `pos` (its line ending dropped) and the
/// start of the next one.
fn line_at(b: &[u8], pos: usize) -> (r: (usize, usize))
    requires
        pos < b@.len(),
    ensures
        pos <= r.0 <= r.1 <= b@.len(),
        pos < r.1,
        lines_of(b@.skip(pos as int)) == seq![b@.subrange(pos as int, r.0 as int)] + lines_of(
            b@.skip(r.1 as int),
        ),
        r.0 == b@.len() || b@[r.0 as int] == 0x0a || b@[r.0 as int] == 0x0d,
        r.1 == b@.len() || b@[r.1 - 1] == 0x0a,
{
    let n = b.len();
    let k = find_from(b, pos, 0x0a);
    let ghost rest = b@.skip(pos as int);
    if k == n {
        assert(rest =~= b@.subrange(pos as int, n as int));
        assert(b@.skip(n as int) =~= Seq::<u8>::empty());
        assert(lines_of(b@.skip(n as int)) =~= Seq::<Seq<u8>>::empty());
        assert(lines_of(rest) =~= seq![rest]);
        (n, n)
    } else {
        let e = if k > pos && b[k - 1] == 0x0d { k - 1 } else { k };
        assert(strip_cr(rest.take(k - pos)) =~= b@.subrange(pos as int, e as int));
        assert(rest.skip(k - pos + 1) =~= b@.skip(k + 1));
        (e, k + 1)
    }
}

/// Reads the data file: `None` when it has no first line or the first line
/// is not a count of at most `MAX_EXPENSES`; otherwise the record lines, as
/// many as the count announces and the file has.
pub fn parse_data_file(content: &str) -> (r: Option<Vec<RecordLine>>)
    ensures
        match r {
            None => data_file_outcome(content.spec_bytes()) is None,
            Some(v) => {
                &&& data_file_outcome(content.spec_bytes()) == Some(
                    v@.map_values(|l: RecordLine| l@),
                )
                &&& v@.len() <= MAX_EXPENSES
                &&& forall|i: int| 0 <= i < v@.len() ==> within_limits(#[trigger] v@[i])
            },
        },
{
    let b = content.as_bytes();
    let n = b.len();
    let ghost ls = lines_of(b@);
    if n == 0 {
        return None;
    }
    assert(b@.skip(0) =~= b@);
    let (e0, p0) = line_at(b, 0);
    let header = slice_text(content, 0, e0);
    assert(decode_utf8(header.spec_bytes()) == header@);
    let t = trim(header);
    let count = match parse_usize(t.as_bytes()) {
        Some(c) => c,
        None => {
            return None;
        },
    };
    if count > MAX_EXPENSES {
        return None;
    }
    let ghost rest = ls.drop_first();
    assert(lines_of(b@.skip(p0 as int)) =~= rest);
    let mut out: Vec<RecordLine> = Vec::new();
    let mut pos = p0;
    while out.len() < count && pos < n
        invariant
            n == b@.len(),
            b@ == content.spec_bytes(),
            pos <= n,
            pos == n || (pos > 0 && b@[pos - 1] == 0x0a),
            out@.len() <= count,
            count <= MAX_EXPENSES,
            forall|i: int| 0 <= i < out@.len() ==> within_limits(#[trigger] out@[i]),
            out@.len() <= rest.len(),
            lines_of(b@.skip(pos as int)) == rest.skip(out@.len() as int),
            out@.map_values(|l: RecordLine| l@) == rest.take(out@.len() as int).map_values(
                |l: Seq<u8>| line_outcome(l),
            ),
        decreases n - pos,
    {
        let (e, p) = line_at(b, pos);
        proof {
            if pos > 0 {
                lemma_after_ascii(b@, pos - 1);
            }
        }
        let line = slice_text(content, pos, e);
        let rec = parse_record_line(line);
        let ghost k = out@.len() as int;
        assert(lines_of(b@.skip(pos as int)).len() >= 1);
        assert(k < rest.len());
        assert(rest.skip(k)[0] == rest[k]);
        assert(rest[k] == b@.subrange(pos as int, e as int));
        let ghost old_out = out@;
        out.push(rec);
        assert(rest.skip(k + 1) =~= rest.skip(k).drop_first());
        assert(rest.take(k + 1) =~= rest.take(k).push(rest[k]));
        assert(out@.map_values(|l: RecordLine| l@) =~= old_out.map_values(|l: RecordLine| l@).push(
            rec@,
        ));
        assert(rest.take(k + 1).map_values(|l: Seq<u8>| line_outcome(l)) =~= rest.take(k).map_values(
            |l: Seq<u8>| line_outcome(l),
        ).push(line_outcome(rest[k])));
        pos = p;
    }
    proof {
        if pos == n {
            assert(b@.skip(n as int) =~= Seq::<u8>::empty());
            assert(lines_of(b@.skip(n as int)) =~= Seq::<Seq<u8>>::empty());
            assert(rest.skip(out@.len() as int).len() == 0);
        }
    }
    Some(out)
}

/// The first byte `c` of `x + y`, when `x` holds none, is where `y` has it.
proof fn lemma_find_byte_concat(x: Seq<u8>, y: Seq<u8>, c: u8)
    requires
        forall|i: int| 0 <= i < x.len() ==> x[i] != c,
    ensures
        find_byte(x + y, c) == if find_byte(y, c) < 0 {
            -1
        } else {
            x.len() + find_byte(y, c)
        },
    decreases x.len(),
{
    if x.len() == 0 {
        assert(x + y =~= y);
    } else {
        assert((x + y).drop_first() =~= x.drop_first() + y);
        assert((x + y)[0] == x[0]);
        lemma_find_byte_concat(x.drop_first(), y, c);
    }
}

proof fn lemma_split_first(x: Seq<u8>, rest: Seq<u8>, n: nat)
    requires
        forall|i: int| 0 <= i < x.len() ==> x[i] != 0x2c,
        n >= 2,
    ensures
        split_fields(x + seq![0x2cu8] + rest, n) == seq![x] + split_fields(rest, (n - 1) as nat),
{
    let b = x + seq![0x2cu8] + rest;
    assert(b =~= x + (seq![0x2cu8] + rest));
    lemma_find_byte_concat(x, seq![0x2cu8] + rest, 0x2c);
    assert(find_byte(seq![0x2cu8] + rest, 0x2c) == 0);
    assert(b.take(x.len() as int) =~= x);
    assert(b.skip(x.len() as int + 1) =~= rest);
}

proof fn lemma_lines_of_concat(x: Seq<u8>, y: Seq<u8>)
    requires
        x.len() == 0 || x.last() == 0x0a,
    ensures
        lines_of(x + y) == lines_of(x) + lines_of(y),
    decreases x.len(),
{
    if x.len() == 0 {
        assert(x + y =~= y);
        assert(lines_of(x) =~= Seq::<Seq<u8>>::empty());
        assert(lines_of(x) + lines_of(y) =~= lines_of(y));
    } else {
        lemma_find_byte(x, 0x0a);
        let k = find_byte(x, 0x0a);
        assert(k >= 0) by {
            if k < 0 {
                assert(x[x.len() - 1] != 0x0a);
            }
        }
        let b = x + y;
        lemma_find_byte_at(b, 0x0a, k);
        assert(b.take(k) =~= x.take(k));
        assert(b.skip(k + 1) =~= x.skip(k + 1) + y);
        let r = x.skip(k + 1);
        if r.len() > 0 {
            assert(r.last() == x.last());
        }
        lemma_lines_of_concat(r, y);
        assert(lines_of(b) =~= lines_of(x) + lines_of(y));
    }
}

proof fn lemma_lines_single(body: Seq<u8>)
    requires
        forall|i: int| 0 <= i < body.len() ==> body[i] != 0x0a,
        body.len() == 0 || body.last() != 0x0d,
    ensures
        lines_of(body.push(0x0a)) == seq![body],
{
    let b = body.push(0x0a);
    lemma_find_byte_at(b, 0x0a, body.len() as int);
    assert(b.take(body.len() as int) =~= body);
    assert(b.skip(body.len() as int + 1) =~= Seq::<u8>::empty());
    assert(lines_of(Seq::<u8>::empty()) =~= Seq::<Seq<u8>>::empty());
}

/// The data-file line of a record, without its line ending.
pub open spec fn record_body(e: ExpenseView, amount: Seq<char>) -> Seq<char> {
    int_text(e.year as int) + seq![','] + int_text(e.month as int) + seq![','] + int_text(
        e.day as int,
    ) + seq![','] + e.description + seq![','] + amount + seq![','] + e.category
}

/// A record the data file gives back unchanged: the description and the
/// category within their byte limits, the description's UTF-8 without a
/// comma or line-feed byte, the category's without a line-feed byte and not
/// ending in a carriage-return byte.
pub open spec fn storable(e: ExpenseView) -> bool {
    let d = utf8(e.description);
    let c = utf8(e.category);
    &&& d.len() <= MAX_DESCRIPTION_LENGTH
    &&& c.len() <= MAX_CATEGORY_LENGTH
    &&& forall|i: int| 0 <= i < d.len() ==> d[i] != 0x2c && d[i] != 0x0a
    &&& forall|i: int| 0 <= i < c.len() ==> c[i] != 0x0a
    &&& (c.len() == 0 || c.last() != 0x0d)
}

/// An amount text the data file gives back unchanged: its UTF-8 holds no
/// comma or line-feed byte.
pub open spec fn storable_amount(a: Seq<char>) -> bool {
    let b = utf8(a);
    forall|i: int| 0 <= i < b.len() ==> b[i] != 0x2c && b[i] != 0x0a
}

/// What the data-file line of a record reads back as.
pub open spec fn record_outcome(e: ExpenseView, amount: Seq<char>) -> LineOutcome {
    LineOutcome::Record {
        year: e.year as i32,
        month: e.month as i32,
        day: e.day as i32,
        description: utf8(e.description),
        amount: utf8(amount),
        category: utf8(e.category),
    }
}

proof fn lemma_utf8_comma(p: Seq<char>, q: Seq<char>)
    ensures
        utf8(p + seq![','] + q) == utf8(p) + seq![0x2cu8] + utf8(q),
{
    assert(is_ascii_chars(seq![',']));
    is_ascii_chars_encode_utf8(seq![',']);
    assert(utf8(seq![',']) =~= seq![0x2cu8]);
    lemma_utf8_concat(p + seq![','], q);
    lemma_utf8_concat(p, seq![',']);
}

/// A record's line reads back as the record, and is one line.
proof fn lemma_record_line(e: ExpenseView, amount: Seq<char>)
    requires
        storable(e),
        storable_amount(amount),
    ensures
        forall|i: int|
            0 <= i < utf8(record_body(e, amount)).len() ==> #[trigger] utf8(record_body(e, amount))[i]
                != 0x0a,
        utf8(record_body(e, amount)).len() > 0,
        utf8(record_body(e, amount)).last() != 0x0d,
        line_outcome(utf8(record_body(e, amount))) == record_outcome(e, amount),
{
    let y = int_text(e.year as int);
    let m = int_text(e.month as int);
    let d = int_text(e.day as int);
    let t4 = amount + seq![','] + e.category;
    let t3 = e.description + seq![','] + t4;
    let t2 = d + seq![','] + t3;
    let t1 = m + seq![','] + t2;
    let body = record_body(e, amount);
    assert(body =~= y + seq![','] + t1);
    lemma_utf8_comma(amount, e.category);
    lemma_utf8_comma(e.description, t4);
    lemma_utf8_comma(d, t3);
    lemma_utf8_comma(m, t2);
    lemma_utf8_comma(y, t1);
    lemma_int_text_bytes(e.year as int);
    lemma_int_text_bytes(e.month as int);
    lemma_int_text_bytes(e.day as int);
    let uy = utf8(y);
    let um = utf8(m);
    let ud = utf8(d);
    let uds = utf8(e.description);
    let ua = utf8(amount);
    let uc = utf8(e.category);
    assert forall|i: int| 0 <= i < uy.len() implies uy[i] != 0x2c && uy[i] != 0x0a by {
        assert(uy[i] == 0x2d || is_digit(uy[i]));
    }
    assert forall|i: int| 0 <= i < um.len() implies um[i] != 0x2c && um[i] != 0x0a by {
        assert(um[i] == 0x2d || is_digit(um[i]));
    }
    assert forall|i: int| 0 <= i < ud.len() implies ud[i] != 0x2c && ud[i] != 0x0a by {
        assert(ud[i] == 0x2d || is_digit(ud[i]));
    }
    let b = utf8(body);
    lemma_split_first(uy, utf8(t1), 6);
    lemma_split_first(um, utf8(t2), 5);
    lemma_split_first(ud, utf8(t3), 4);
    lemma_split_first(uds, utf8(t4), 3);
    lemma_split_first(ua, uc, 2);
    let f = split_fields(b, 6);
    assert(f =~= seq![uy, um, ud, uds, ua, uc]);
    assert(b =~= uy + seq![0x2cu8] + (um + seq![0x2cu8] + (ud + seq![0x2cu8] + (uds + seq![0x2cu8] + (
    ua + seq![0x2cu8] + uc)))));
    assert forall|i: int| 0 <= i < b.len() implies #[trigger] b[i] != 0x0a by {
        let o1 = uy.len() + 1;
        let o2 = o1 + um.len() + 1;
        let o3 = o2 + ud.len() + 1;
        let o4 = o3 + uds.len() + 1;
        let o5 = o4 + ua.len() + 1;
        if i < uy.len() {
            assert(b[i] == uy[i]);
        } else if i < o1 {
        } else if i < o1 + um.len() {
            assert(b[i] == um[i - o1]);
        } else if i < o2 {
        } else if i < o2 + ud.len() {
            assert(b[i] == ud[i - o2]);
        } else if i < o3 {
        } else if i < o3 + uds.len() {
            assert(b[i] == uds[i - o3]);
        } else if i < o4 {
        } else if i < o4 + ua.len() {
            assert(b[i] == ua[i - o4]);
        } else if i < o5 {
        } else {
            assert(b[i] == uc[i - o5]);
        }
    }
    if uc.len() > 0 {
        assert(b.last() == uc.last());
    } else {
        assert(b.last() == 0x2c);
    }
    lemma_parse_int_text(e.year as i32);
    lemma_parse_int_text(e.month as i32);
    lemma_parse_int_text(e.day as i32);
    assert(uds.take(cut_len(uds, MAX_DESCRIPTION_LENGTH as int)) =~= uds);
    assert(uc.take(cut_len(uc, MAX_CATEGORY_LENGTH as int)) =~= uc);
}

proof fn lemma_records_lines(s: Seq<ExpenseView>, amounts: Seq<Seq<char>>)
    requires
        amounts.len() == s.len(),
        forall|i: int| 0 <= i < s.len() ==> storable(#[trigger] s[i]) && storable_amount(amounts[i]),
    ensures
        lines_of(utf8(records_text(s, amounts))) == Seq::new(
            s.len(),
            |i: int| utf8(record_body(s[i], amounts[i])),
        ),
        utf8(records_text(s, amounts)).len() == 0 || utf8(records_text(s, amounts)).last() == 0x0a,
    decreases s.len(),
{
    if s.len() == 0 {
        assert(utf8(records_text(s, amounts)) =~= Seq::<u8>::empty());
        assert(lines_of(Seq::<u8>::empty()) =~= Seq::<Seq<u8>>::empty());
        assert(Seq::new(s.len(), |i: int| utf8(record_body(s[i], amounts[i]))) =~= Seq::<
            Seq<u8>,
        >::empty());
    } else {
        let p = s.drop_last();
        let ap = amounts.drop_last();
        assert forall|i: int| 0 <= i < p.len() implies storable(#[trigger] p[i]) && storable_amount(
            ap[i],
        ) by {
            assert(p[i] == s[i]);
            assert(ap[i] == amounts[i]);
        }
        lemma_records_lines(p, ap);
        let e = s.last();
        let a = amounts.last();
        lemma_record_line(e, a);
        let body = record_body(e, a);
        let x = utf8(records_text(p, ap));
        let z = utf8(record_text(e, a));
        assert(record_text(e, a) =~= body + seq!['\n']);
        assert(is_ascii_chars(seq!['\n']));
        is_ascii_chars_encode_utf8(seq!['\n']);
        lemma_utf8_concat(body, seq!['\n']);
        assert(z =~= utf8(body).push(0x0a));
        lemma_utf8_concat(records_text(p, ap), record_text(e, a));
        lemma_lines_of_concat(x, z);
        lemma_lines_single(utf8(body));
        assert(Seq::new(s.len(), |i: int| utf8(record_body(s[i], amounts[i]))) =~= Seq::new(
            p.len(),
            |i: int| utf8(record_body(p[i], ap[i])),
        ).push(utf8(body)));
        assert((x + z).last() == 0x0a);
    }
}

/// Reading back the data file of records that it can hold gives, line for
/// line, the records written (their dates widened back to `i32`) with the
/// amount texts written.
pub proof fn lemma_data_file_round_trip(s: Seq<ExpenseView>, amounts: Seq<Seq<char>>)
    requires
        s.len() <= MAX_EXPENSES,
        amounts.len() == s.len(),
        forall|i: int| 0 <= i < s.len() ==> storable(#[trigger] s[i]) && storable_amount(amounts[i]),
    ensures
        data_file_outcome(utf8(data_file_text(s, amounts))) == Some(
            Seq::new(s.len(), |i: int| record_outcome(s[i], amounts[i])),
        ),
{
    let n = nat_text(s.len());
    let r = records_text(s, amounts);
    lemma_records_lines(s, amounts);
    assert(is_ascii_chars(seq!['\n']));
    is_ascii_chars_encode_utf8(seq!['\n']);
    lemma_utf8_concat(n, seq!['\n']);
    lemma_utf8_concat(n + seq!['\n'], r);
    let un = utf8(n);
    let head = un.push(0x0a);
    assert(utf8(n + seq!['\n']) =~= head);
    let b = utf8(data_file_text(s, amounts));
    assert(b == head + utf8(r));
    lemma_lines_of_concat(head, utf8(r));
    lemma_nat_text(s.len());
    assert(is_ascii_chars(n));
    is_ascii_chars_encode_utf8(n);
    assert forall|i: int| 0 <= i < un.len() implies un[i] != 0x0a by {
        assert(un[i] == n[i] as u8);
        assert('0' <= n[i] <= '9');
    }
    assert(un.last() == n.last() as u8);
    lemma_lines_single(un);
    let ls = lines_of(b);
    assert(ls[0] == un);
    assert(decode_utf8(un) == n);
    assert(!is_white_space(n[0]));
    assert(!is_white_space(n.last()));
    lemma_trim_start_keeps(n);
    lemma_trim_end_keeps(n);
    lemma_parse_nat_text(s.len() as usize);
    assert(header_count(ls[0]) == Some(s.len() as usize));
    let rest = ls.drop_first();
    assert(rest =~= lines_of(utf8(r)));
    assert(rest.take(s.len() as int) =~= rest);
    assert forall|i: int| 0 <= i < s.len() implies #[trigger] line_outcome(rest[i]) == record_outcome(
        s[i],
        amounts[i],
    ) by {
        lemma_record_line(s[i], amounts[i]);
    }
    assert(rest.take(s.len() as int).map_values(|l: Seq<u8>| line_outcome(l)) =~= Seq::new(
        s.len(),
        |i: int| record_outcome(s[i], amounts[i]),
    ));
}

} // verus!
