//! Decimal integers as text: reading them the way the standard library's
//! `FromStr` for integers does, and writing them the way `Display` does.

use vstd::prelude::*;
use vstd::utf8::*;

use crate::text::{lemma_utf8_concat, utf8};

verus! {

/// An ASCII decimal digit.
pub open spec fn is_digit(b: u8) -> bool {
    0x30 <= b <= 0x39
}

/// Every byte is an ASCII decimal digit.
pub open spec fn all_digits(s: Seq<u8>) -> bool {
    forall|i: int| 0 <= i < s.len() ==> is_digit(#[trigger] s[i])
}

/// The value of a string of decimal digits, most significant first.
pub open spec fn digits_value(s: Seq<u8>) -> nat
    decreases s.len(),
{
    if s.len() == 0 {
        0
    } else {
        digits_value(s.drop_last()) * 10 + (s.last() - 0x30) as nat
    }
}

/// What `str::parse::<i32>` gives on these bytes: an optional `+` or `-`,
/// then at least one digit and nothing else, with a value that fits.
pub open spec fn parse_i32_spec(s: Seq<u8>) -> Option<i32> {
    let signed = s.len() > 0 && (s[0] == 0x2d || s[0] == 0x2b);
    let digits = if signed { s.drop_first() } else { s };
    let magnitude = digits_value(digits) as int;
    let value = if s.len() > 0 && s[0] == 0x2d { -magnitude } else { magnitude };
    if digits.len() == 0 || !all_digits(digits) || value < i32::MIN || value > i32::MAX {
        None
    } else {
        Some(value as i32)
    }
}

/// What `str::parse::<usize>` gives on these bytes: an optional `+`, then at
/// least one digit and nothing else, with a value that fits.
pub open spec fn parse_usize_spec(s: Seq<u8>) -> Option<usize> {
    let digits = if s.len() > 0 && s[0] == 0x2b { s.drop_first() } else { s };
    if digits.len() == 0 || !all_digits(digits) || digits_value(digits) > usize::MAX {
        None
    } else {
        Some(digits_value(digits) as usize)
    }
}

/// A longer digit string never has a smaller value than its prefix.
pub proof fn lemma_digits_value_prefix(s: Seq<u8>, i: int)
    requires
        all_digits(s),
        0 <= i <= s.len(),
    ensures
        digits_value(s.take(i)) <= digits_value(s),
    decreases s.len(),
{
    if i < s.len() {
        assert(s.take(i) =~= s.drop_last().take(i));
        lemma_digits_value_prefix(s.drop_last(), i);
    } else {
        assert(s.take(i) =~= s);
    }
}

/// Reads the digits `s[start..]` as long as their value stays at most `bound`;
/// `None` when a byte is not a digit or the value exceeds `bound`.
fn digits_up_to(s: &[u8], start: usize, bound: u64) -> (r: Option<u64>)
    requires
        start <= s@.len(),
        bound >= 9,
    ensures
        match r {
            Some(v) => all_digits(s@.skip(start as int)) && v == digits_value(
                s@.skip(start as int),
            ) && v <= bound,
            None => !all_digits(s@.skip(start as int)) || digits_value(s@.skip(start as int))
                > bound,
        },
{
    let n = s.len();
    let mut i = start;
    let mut acc: u64 = 0;
    let ghost full = s@.skip(start as int);
    while i < n
        invariant
            start <= i <= n,
            n == s@.len(),
            full == s@.skip(start as int),
            all_digits(full.take(i - start)),
            acc == digits_value(full.take(i - start)),
            acc <= bound,
            bound >= 9,
        decreases n - i,
    {
        let b = s[i];
        assert(full[i - start] == b);
        if b < 0x30 || b > 0x39 {
            return None;
        }
        let d = (b - 0x30) as u64;
        assert(full.take(i + 1 - start).drop_last() =~= full.take(i - start));
        if acc > (bound - d) / 10 {
            proof {
                assert(acc * 10 + d > bound) by (nonlinear_arith)
                    requires
                        acc > (bound - d) / 10,
                        d <= 9,
                        bound >= 9,
                ;
                if all_digits(full) {
                    lemma_digits_value_prefix(full, i + 1 - start);
                }
            }
            return None;
        }
        assert(acc * 10 + d <= bound) by (nonlinear_arith)
            requires
                acc <= (bound - d) / 10,
                d <= 9,
                bound >= 9,
        ;
        acc = acc * 10 + d;
        i = i + 1;
    }
    assert(full.take(i - start) =~= full);
    Some(acc)
}

/// Reads a decimal `i32` as `str::parse::<i32>` does.
pub fn parse_i32(s: &[u8]) -> (r: Option<i32>)
    ensures
        r == parse_i32_spec(s@),
{
    let n = s.len();
    let negative = n > 0 && s[0] == 0x2d;
    let start: usize = if n > 0 && (s[0] == 0x2d || s[0] == 0x2b) { 1 } else { 0 };
    if start == n {
        return None;
    }
    assert(s@.skip(start as int) =~= if start == 1 { s@.drop_first() } else { s@ });
    let bound: u64 = if negative { 2147483648 } else { 2147483647 };
    match digits_up_to(s, start, bound) {
        None => None,
        Some(v) => {
            if negative {
                Some((0 - (v as i64)) as i32)
            } else {
                Some(v as i32)
            }
        },
    }
}

/// Reads a decimal `usize` as `str::parse::<usize>` does.
pub fn parse_usize(s: &[u8]) -> (r: Option<usize>)
    ensures
        r == parse_usize_spec(s@),
{
    let n = s.len();
    let start: usize = if n > 0 && s[0] == 0x2b { 1 } else { 0 };
    if start == n {
        return None;
    }
    assert(s@.skip(start as int) =~= if start == 1 { s@.drop_first() } else { s@ });
    match digits_up_to(s, start, usize::MAX as u64) {
        None => None,
        Some(v) => Some(v as usize),
    }
}

/// The character of a decimal digit.
pub open spec fn digit_char(d: nat) -> char {
    ((0x30 + d) as u32) as char
}

/// The decimal text of a natural number, without leading zeros.
pub open spec fn nat_text(n: nat) -> Seq<char>
    decreases n,
{
    if n < 10 {
        seq![digit_char(n)]
    } else {
        nat_text(n / 10).push(digit_char(n % 10))
    }
}

/// The decimal text of an integer as `Display` writes it: a `-` before
/// negative values.
pub open spec fn int_text(v: int) -> Seq<char> {
    if v < 0 {
        seq!['-'] + nat_text((-v) as nat)
    } else {
        nat_text(v as nat)
    }
}

fn digit_str(d: u64) -> (s: &'static str)
    requires
        d < 10,
    ensures
        s@ == seq![digit_char(d as nat)],
{
    proof {
        reveal_strlit("0");
        reveal_strlit("1");
        reveal_strlit("2");
        reveal_strlit("3");
        reveal_strlit("4");
        reveal_strlit("5");
        reveal_strlit("6");
        reveal_strlit("7");
        reveal_strlit("8");
        reveal_strlit("9");
    }
    if d == 0 {
        "0"
    } else if d == 1 {
        "1"
    } else if d == 2 {
        "2"
    } else if d == 3 {
        "3"
    } else if d == 4 {
        "4"
    } else if d == 5 {
        "5"
    } else if d == 6 {
        "6"
    } else if d == 7 {
        "7"
    } else if d == 8 {
        "8"
    } else {
        "9"
    }
}

/// Appends the decimal text of `n`.
pub fn push_nat(out: &mut String, n: u64)
    ensures
        final(out)@ == old(out)@ + nat_text(n as nat),
    decreases n,
{
    if n >= 10 {
        push_nat(out, n / 10);
    }
    out.append(digit_str(n % 10));
    proof {
        if n >= 10 {
            assert(out@ =~= old(out)@ + nat_text(n as nat));
        } else {
            assert(nat_text(n as nat) == seq![digit_char(n as nat)]);
        }
    }
}

/// Appends the decimal text of `v`, with a `-` before negative values.
pub fn push_int(out: &mut String, v: i64)
    ensures
        final(out)@ == old(out)@ + int_text(v as int),
{
    proof {
        reveal_strlit("-");
    }
    if v < 0 {
        out.append("-");
        let m: u64 = (0i128 - v as i128) as u64;
        push_nat(out, m);
        assert(out@ =~= old(out)@ + int_text(v as int));
    } else {
        push_nat(out, v as u64);
    }
}

/// The decimal text of a natural number is ASCII digits whose value is the
/// number.
pub proof fn lemma_nat_text(n: nat)
    ensures
        nat_text(n).len() >= 1,
        is_ascii_chars(nat_text(n)),
        forall|i: int| 0 <= i < nat_text(n).len() ==> '0' <= #[trigger] nat_text(n)[i] <= '9',
        utf8(nat_text(n)).len() == nat_text(n).len(),
        all_digits(utf8(nat_text(n))),
        digits_value(utf8(nat_text(n))) == n,
    decreases n,
{
    let t = nat_text(n);
    if n < 10 {
        assert(is_ascii_chars(t));
        is_ascii_chars_encode_utf8(t);
        assert(utf8(t).drop_last() =~= Seq::<u8>::empty());
        assert(utf8(t).last() == 0x30 + n);
        assert(digits_value(utf8(t).drop_last()) == 0);
    } else {
        let p = nat_text(n / 10);
        let c = digit_char(n % 10);
        lemma_nat_text(n / 10);
        assert(t =~= p + seq![c]);
        assert(is_ascii_chars(seq![c]));
        is_ascii_chars_encode_utf8(seq![c]);
        is_ascii_chars_concat(t, p, seq![c]);
        lemma_utf8_concat(p, seq![c]);
        is_ascii_chars_encode_utf8(t);
        assert(utf8(t).drop_last() =~= utf8(p));
        assert(utf8(t).last() == utf8(seq![c])[0]);
        assert(utf8(seq![c])[0] == 0x30 + n % 10);
        assert((n / 10) * 10 + n % 10 == n);
        assert(digits_value(utf8(t)) == digits_value(utf8(p)) * 10 + (n % 10));
    }
}

/// Reading back what `Display` writes of an `i32` gives the same value.
pub proof fn lemma_parse_int_text(v: i32)
    ensures
        parse_i32_spec(utf8(int_text(v as int))) == Some(v),
{
    if v >= 0 {
        lemma_nat_text(v as nat);
        let b = utf8(nat_text(v as nat));
        assert(is_digit(b[0]));
    } else {
        let m = (-(v as int)) as nat;
        lemma_nat_text(m);
        assert(is_ascii_chars(seq!['-']));
        is_ascii_chars_encode_utf8(seq!['-']);
        lemma_utf8_concat(seq!['-'], nat_text(m));
        let b = utf8(int_text(v as int));
        assert(b[0] == 0x2d);
        assert(b.drop_first() =~= utf8(nat_text(m)));
    }
}

/// Reading back what `Display` writes of a `usize` gives the same value.
pub proof fn lemma_parse_nat_text(n: usize)
    ensures
        parse_usize_spec(utf8(nat_text(n as nat))) == Some(n),
{
    lemma_nat_text(n as nat);
    let b = utf8(nat_text(n as nat));
    assert(is_digit(b[0]));
}

/// The decimal text of an integer is a `-` or digits, nothing else.
pub proof fn lemma_int_text_chars(v: int)
    ensures
        int_text(v).len() >= 1,
        forall|i: int|
            0 <= i < int_text(v).len() ==> #[trigger] int_text(v)[i] == '-' || ('0' <= int_text(v)[i]
                <= '9'),
        '0' <= int_text(v).last() <= '9',
{
    if v < 0 {
        lemma_nat_text((-v) as nat);
        let t = int_text(v);
        assert forall|i: int| 0 <= i < t.len() implies #[trigger] t[i] == '-' || ('0' <= t[i]
            <= '9') by {
            if i > 0 {
                assert(t[i] == nat_text((-v) as nat)[i - 1]);
            }
        }
        assert(t.last() == nat_text((-v) as nat).last());
    } else {
        lemma_nat_text(v as nat);
    }
}

/// The UTF-8 bytes of an integer's decimal text are `-` and digit bytes,
/// ending in a digit.
pub proof fn lemma_int_text_bytes(v: int)
    ensures
        utf8(int_text(v)).len() >= 1,
        forall|i: int|
            0 <= i < utf8(int_text(v)).len() ==> #[trigger] utf8(int_text(v))[i] == 0x2d || is_digit(
                utf8(int_text(v))[i],
            ),
        is_digit(utf8(int_text(v)).last()),
{
    let t = int_text(v);
    lemma_int_text_chars(v);
    assert(is_ascii_chars(t));
    is_ascii_chars_encode_utf8(t);
    let b = utf8(t);
    assert forall|i: int| 0 <= i < b.len() implies #[trigger] b[i] == 0x2d || is_digit(b[i]) by {
        assert(b[i] == t[i] as u8);
    }
    assert(b.last() == t.last() as u8);
}

} // verus!
