//! Text handling shared by the input, the data files and the reports: input
//! lines, whitespace, byte-limited truncation and slicing of UTF-8 text.

use vstd::prelude::*;
use vstd::string::*;
use vstd::utf8::*;

use crate::number::{parse_i32, parse_i32_spec};

verus! {

broadcast use encode_utf8_valid_utf8, encode_utf8_decode_utf8;

/// The UTF-8 bytes of a text.
pub open spec fn utf8(s: Seq<char>) -> Seq<u8> {
    encode_utf8(s)
}

/// A character with the Unicode `White_Space` property, the whitespace of
/// `char::is_whitespace`, `str::trim` and `str::split_whitespace`.
pub open spec fn is_white_space(c: char) -> bool {
    let u = c as u32;
    ||| 0x09 <= u <= 0x0d
    ||| u == 0x20
    ||| u == 0x85
    ||| u == 0xa0
    ||| u == 0x1680
    ||| 0x2000 <= u <= 0x200a
    ||| u == 0x2028
    ||| u == 0x2029
    ||| u == 0x202f
    ||| u == 0x205f
    ||| u == 0x3000
}

/// The text without its leading whitespace.
pub open spec fn trim_start_chars(s: Seq<char>) -> Seq<char>
    decreases s.len(),
{
    if s.len() > 0 && is_white_space(s[0]) {
        trim_start_chars(s.drop_first())
    } else {
        s
    }
}

/// The text without its trailing whitespace.
pub open spec fn trim_end_chars(s: Seq<char>) -> Seq<char>
    decreases s.len(),
{
    if s.len() > 0 && is_white_space(s.last()) {
        trim_end_chars(s.drop_last())
    } else {
        s
    }
}

/// The text without leading and trailing whitespace.
pub open spec fn trim_chars(s: Seq<char>) -> Seq<char> {
    trim_end_chars(trim_start_chars(s))
}

/// The number of characters before the first whitespace.
pub open spec fn word_len(s: Seq<char>) -> nat
    decreases s.len(),
{
    if s.len() == 0 || is_white_space(s[0]) {
        0
    } else {
        1 + word_len(s.drop_first())
    }
}

pub proof fn lemma_word_len_bound(s: Seq<char>)
    ensures
        word_len(s) <= s.len(),
        s.len() > 0 && !is_white_space(s[0]) ==> word_len(s) >= 1,
    decreases s.len(),
{
    if s.len() > 0 && !is_white_space(s[0]) {
        lemma_word_len_bound(s.drop_first());
    }
}

/// The maximal runs of non-whitespace characters, in order.
pub open spec fn words(s: Seq<char>) -> Seq<Seq<char>>
    decreases s.len(),
{
    if s.len() == 0 {
        seq![]
    } else if is_white_space(s[0]) {
        words(s.drop_first())
    } else {
        proof {
            lemma_word_len_bound(s);
        }
        seq![s.take(word_len(s) as int)] + words(s.skip(word_len(s) as int))
    }
}

/// Text without whitespace at the front is left as it is by `trim_start_chars`.
pub proof fn lemma_trim_start_keeps(s: Seq<char>)
    requires
        s.len() > 0,
        !is_white_space(s[0]),
    ensures
        trim_start_chars(s) == s,
{
}

/// Text without whitespace at the end is left as it is by `trim_end_chars`.
pub proof fn lemma_trim_end_keeps(s: Seq<char>)
    requires
        s.len() > 0,
        !is_white_space(s.last()),
    ensures
        trim_end_chars(s) == s,
{
}

/// `trim_end_chars` drops a final whitespace and then keeps text that ends
/// in a non-whitespace character.
pub proof fn lemma_trim_end_one(s: Seq<char>, c: char)
    requires
        s.len() > 0,
        !is_white_space(s.last()),
        is_white_space(c),
    ensures
        trim_end_chars(s.push(c)) == s,
{
    assert(s.push(c).drop_last() =~= s);
    assert(s.push(c).last() == c);
    assert(trim_end_chars(s.push(c)) == trim_end_chars(s));
    assert(trim_end_chars(s) == s);
}

/// A word followed by whitespace or nothing is a word of its own.
pub proof fn lemma_words_prefix(w: Seq<char>, rest: Seq<char>)
    requires
        w.len() > 0,
        forall|i: int| 0 <= i < w.len() ==> !is_white_space(#[trigger] w[i]),
        rest.len() == 0 || is_white_space(rest[0]),
    ensures
        words(w + rest) == seq![w] + words(rest),
{
    lemma_word_len_concat(w, rest);
    assert((w + rest).take(w.len() as int) =~= w);
    assert((w + rest).skip(w.len() as int) =~= rest);
}

proof fn lemma_word_len_concat(w: Seq<char>, rest: Seq<char>)
    requires
        forall|i: int| 0 <= i < w.len() ==> !is_white_space(#[trigger] w[i]),
        rest.len() == 0 || is_white_space(rest[0]),
    ensures
        word_len(w + rest) == w.len(),
    decreases w.len(),
{
    if w.len() == 0 {
        assert(w + rest =~= rest);
    } else {
        assert((w + rest).drop_first() =~= w.drop_first() + rest);
        assert forall|i: int| 0 <= i < w.drop_first().len() implies !is_white_space(
            #[trigger] w.drop_first()[i],
        ) by {
            assert(w.drop_first()[i] == w[i + 1]);
        }
        lemma_word_len_concat(w.drop_first(), rest);
    }
}

/// Calls the standard library's `str::trim`. Believed, not proved: the result
/// is the text without its leading and trailing whitespace, whitespace being
/// the characters with the Unicode `White_Space` property, as the function's
/// documentation says.
#[verifier::external_body]
pub(crate) fn trim(s: &str) -> (r: &str)
    ensures
        r@ == trim_chars(s@),
{
    s.trim()
}

/// Calls the standard library's `str::split_whitespace` and collects the
/// pieces. Believed, not proved: the pieces are the maximal runs of
/// characters without the Unicode `White_Space` property, in order, as the
/// function's documentation says.
#[verifier::external_body]
pub(crate) fn split_whitespace(s: &str) -> (r: Vec<&str>)
    ensures
        r@.map_values(|t: &str| t@) == words(s@),
{
    s.split_whitespace().collect()
}

/// A byte offset at which a character starts, or the end of the text.
pub open spec fn starts_char(b: Seq<u8>, i: int) -> bool {
    i == b.len() || (0 <= i < b.len() && !is_continuation_byte(b[i]))
}

proof fn lemma_starts_char_is_boundary(b: Seq<u8>, i: int)
    requires
        valid_utf8(b),
        starts_char(b, i),
    ensures
        is_char_boundary(b, i),
{
    if i == b.len() {
        is_char_boundary_start_end_of_seq(b);
    } else {
        is_char_boundary_iff_not_is_continuation_byte(b, i);
    }
}

/// The byte after an ASCII byte starts a character.
pub proof fn lemma_after_ascii(b: Seq<u8>, k: int)
    requires
        valid_utf8(b),
        0 <= k < b.len(),
        b[k] < 0x80,
    ensures
        starts_char(b, k + 1),
{
    is_char_boundary_iff_not_is_continuation_byte(b, k);
    valid_utf8_split(b, k);
    let r = b.subrange(k, b.len() as int);
    assert(r[0] == b[k]);
    assert(valid_utf8(r));
    assert(length_of_first_scalar(r) == 1);
    let rest = pop_first_scalar(r);
    assert(valid_utf8(rest));
    if k + 1 < b.len() {
        assert(rest[0] == b[k + 1]);
        assert(valid_first_scalar(rest));
    }
}

proof fn lemma_starts_char_prefix(b: Seq<u8>, end: int, i: int)
    requires
        0 <= i <= end <= b.len(),
        starts_char(b, i),
    ensures
        starts_char(b.subrange(0, end), i),
{
}

/// The part of `s` between the byte offsets `start` and `end`.
pub fn slice_text(s: &str, start: usize, end: usize) -> (r: &str)
    requires
        start <= end <= s.spec_bytes().len(),
        starts_char(s.spec_bytes(), start as int),
        starts_char(s.spec_bytes(), end as int),
    ensures
        r.spec_bytes() == s.spec_bytes().subrange(start as int, end as int),
{
    let ghost b = s.spec_bytes();
    proof {
        lemma_starts_char_is_boundary(b, end as int);
    }
    let (head, _) = s.split_at(end);
    proof {
        lemma_starts_char_prefix(b, end as int, start as int);
        lemma_starts_char_is_boundary(head.spec_bytes(), start as int);
    }
    let (_, mid) = head.split_at(start);
    assert(mid.spec_bytes() =~= b.subrange(start as int, end as int));
    mid
}

/// The UTF-8 bytes of two texts one after the other are the bytes of each,
/// one after the other.
pub proof fn lemma_utf8_concat(a: Seq<char>, b: Seq<char>)
    ensures
        utf8(a + b) == utf8(a) + utf8(b),
    decreases a.len(),
{
    if a.len() == 0 {
        assert(a + b =~= b);
        assert(utf8(a) =~= Seq::<u8>::empty());
        assert(utf8(a) + utf8(b) =~= utf8(b));
    } else {
        lemma_utf8_concat(a.drop_first(), b);
        assert((a + b).drop_first() =~= a.drop_first() + b);
        assert((a + b)[0] == a[0]);
        assert(utf8(a + b) =~= utf8(a) + utf8(b));
    }
}

/// Two texts are the same exactly when their UTF-8 bytes are.
pub proof fn lemma_utf8_injective(a: Seq<char>, b: Seq<char>)
    requires
        utf8(a) == utf8(b),
    ensures
        a == b,
{
    assert(decode_utf8(encode_utf8(a)) == a);
    assert(decode_utf8(encode_utf8(b)) == b);
}

/// True when the two texts are the same.
pub fn same_text(a: &str, b: &str) -> (r: bool)
    ensures
        r == (a@ == b@),
{
    let x = a.as_bytes();
    let y = b.as_bytes();
    if x.len() != y.len() {
        return false;
    }
    let mut i: usize = 0;
    while i < x.len()
        invariant
            x@ == a.spec_bytes(),
            y@ == b.spec_bytes(),
            x@.len() == y@.len(),
            0 <= i <= x@.len(),
            forall|j: int| 0 <= j < i ==> x@[j] == y@[j],
        decreases x@.len() - i,
    {
        if x[i] != y[i] {
            assert(a@ == b@ ==> x@[i as int] == y@[i as int]);
            return false;
        }
        i = i + 1;
    }
    assert(x@ =~= y@);
    proof {
        lemma_utf8_injective(a@, b@);
    }
    true
}

/// An input line as read, without its line ending: a final `\n` is dropped,
/// and then a `\r` just before it.
pub open spec fn line_body(b: Seq<u8>) -> Seq<u8> {
    if b.len() > 0 && b.last() == 0x0a {
        let t = b.drop_last();
        if t.len() > 0 && t.last() == 0x0d {
            t.drop_last()
        } else {
            t
        }
    } else {
        b
    }
}

/// Drops the last byte of a text whose last byte is ASCII.
fn drop_last_ascii(s: &str) -> (r: &str)
    requires
        s.spec_bytes().len() > 0,
        s.spec_bytes().last() < 0x80,
    ensures
        r.spec_bytes() == s.spec_bytes().drop_last(),
{
    let n = s.as_bytes().len();
    proof {
        is_char_boundary_iff_not_is_continuation_byte(s.spec_bytes(), n - 1);
        is_char_boundary_start_end_of_seq(s.spec_bytes());
    }
    let r = slice_text(s, 0, n - 1);
    assert(r.spec_bytes() =~= s.spec_bytes().drop_last());
    r
}

/// The characters of an input line as read, without its line ending.
pub open spec fn input_line(raw: Seq<char>) -> Seq<char> {
    decode_utf8(line_body(utf8(raw)))
}

/// The text of an input line as read (with its line ending, if any) without
/// the line ending: a final `\n` is dropped, and then a `\r` just before it.
pub fn read_line_from(raw: &str) -> (line: &str)
    ensures
        line.spec_bytes() == line_body(raw.spec_bytes()),
        line@ == input_line(raw@),
{
    let b = raw.as_bytes();
    let n = b.len();
    if n > 0 && b[n - 1] == 0x0a {
        let t = drop_last_ascii(raw);
        let tb = t.as_bytes();
        let m = tb.len();
        if m > 0 && tb[m - 1] == 0x0d {
            drop_last_ascii(t)
        } else {
            t
        }
    } else {
        raw
    }
}

/// The integer an input line holds, as `trim` followed by `parse::<i32>`
/// reads it, once the line ending is dropped.
pub open spec fn input_int(raw: Seq<char>) -> Option<i32> {
    parse_i32_spec(utf8(trim_chars(input_line(raw))))
}

/// The last byte of a non-empty text's UTF-8 bytes is ASCII exactly when its
/// last character is, and is then that character.
proof fn lemma_utf8_last_byte(s: Seq<char>)
    requires
        s.len() > 0,
    ensures
        utf8(s).len() > 0,
        (utf8(s).last() < 0x80) <==> ((s.last() as u32) < 0x80),
        (s.last() as u32) < 0x80 ==> utf8(s).last() as u32 == s.last() as u32,
{
    let p = s.drop_last();
    let c = s.last();
    let u = c as u32;
    assert(s =~= p + seq![c]);
    lemma_utf8_concat(p, seq![c]);
    char_is_scalar(c);
    assert(seq![c].drop_first() =~= Seq::<char>::empty());
    assert(seq![c][0] == c);
    assert(encode_utf8(Seq::<char>::empty()) =~= Seq::<u8>::empty());
    assert(utf8(seq![c]) =~= encode_scalar(u) + encode_utf8(Seq::<char>::empty()));
    assert(utf8(seq![c]) =~= encode_scalar(u));
    if u <= 0x7f {
        assert((u & 0x7f) == u) by (bit_vector)
            requires
                u <= 0x7f,
        ;
    } else {
        let b: u8 = (u & 0x3f) as u8;
        assert(0x80 | b >= 0x80) by (bit_vector);
    }
}

/// An input line is the text before its line ending: a text followed by
/// `\r\n` reads as that text, one followed by `\n` alone reads as that text
/// when it does not end in `\r`, and a text that does not end in `\n` reads
/// as itself.
pub proof fn lemma_input_line(s: Seq<char>)
    ensures
        input_line(s + seq!['\r', '\n']) == s,
        s.len() == 0 || s.last() != '\r' ==> input_line(s.push('\n')) == s,
        s.len() == 0 || s.last() != '\n' ==> input_line(s) == s,
{
    let nl: Seq<char> = seq!['\n'];
    let crnl: Seq<char> = seq!['\r', '\n'];
    assert(is_ascii_chars(nl));
    assert(is_ascii_chars(crnl));
    is_ascii_chars_encode_utf8(nl);
    is_ascii_chars_encode_utf8(crnl);
    lemma_utf8_concat(s, crnl);
    assert(utf8(s + crnl).drop_last().drop_last() =~= utf8(s));
    assert(line_body(utf8(s + crnl)) == utf8(s));
    assert(s.push('\n') =~= s + nl);
    lemma_utf8_concat(s, nl);
    assert(utf8(s + nl).drop_last() =~= utf8(s));
    if s.len() > 0 {
        lemma_utf8_last_byte(s);
    } else {
        assert(utf8(s) =~= Seq::<u8>::empty());
    }
    assert(utf8(s + nl).last() == 0x0a);
    if s.len() == 0 || s.last() != '\r' {
        if s.len() > 0 {
            if utf8(s).last() == 0x0d {
                char_u32_cast(s.last(), 0x0d);
                char_u32_cast('\r', 0x0d);
            }
        }
        assert(line_body(utf8(s + nl)) == utf8(s));
    }
    if s.len() == 0 || s.last() != '\n' {
        if s.len() > 0 {
            if utf8(s).last() == 0x0a {
                char_u32_cast(s.last(), 0x0a);
                char_u32_cast('\n', 0x0a);
            }
        }
        assert(line_body(utf8(s)) == utf8(s));
    }
}

/// Reads an integer from an input line (with or without its line ending):
/// the line is trimmed of whitespace and read as a decimal `i32`.
pub fn read_int_from(raw: &str) -> (r: Option<i32>)
    ensures
        r == input_int(raw@),
{
    let line = read_line_from(raw);
    assert(decode_utf8(line.spec_bytes()) == line@);
    let t = trim(line);
    parse_i32(t.as_bytes())
}

/// The number of bytes kept when a text of UTF-8 bytes `b` is cut to at most
/// `max` bytes at a character boundary: all of it when it fits, otherwise the
/// largest character start at or below `max`.
pub open spec fn cut_len(b: Seq<u8>, max: int) -> int
    decreases max,
{
    if b.len() <= max {
        b.len() as int
    } else if max <= 0 || !is_continuation_byte(b[max]) {
        if max <= 0 { 0 } else { max }
    } else {
        cut_len(b, max - 1)
    }
}

/// Cutting keeps at most `max` bytes, and all of them when they fit.
pub proof fn lemma_cut_len_bound(b: Seq<u8>, max: int)
    requires
        max >= 0,
    ensures
        0 <= cut_len(b, max) <= b.len(),
        cut_len(b, max) <= max,
    decreases max,
{
    if b.len() <= max {
    } else if max <= 0 || !is_continuation_byte(b[max]) {
    } else {
        lemma_cut_len_bound(b, max - 1);
    }
}

proof fn lemma_cut_len(b: Seq<u8>, max: int)
    requires
        valid_utf8(b),
        max >= 0,
    ensures
        0 <= cut_len(b, max) <= b.len(),
        cut_len(b, max) <= max || b.len() <= max,
        starts_char(b, cut_len(b, max)),
    decreases max,
{
    if b.len() <= max {
    } else if max <= 0 || !is_continuation_byte(b[max]) {
        if max <= 0 {
            assert(b.len() > 0);
            is_char_boundary_iff_not_is_continuation_byte(b, 0);
            is_char_boundary_start_end_of_seq(b);
        }
    } else {
        lemma_cut_len(b, max - 1);
    }
}

/// The text `s` cut to at most `max` bytes at a character boundary.
pub open spec fn fit_chars(s: Seq<char>, max: int) -> Seq<char> {
    decode_utf8(utf8(s).take(cut_len(utf8(s), max)))
}

proof fn lemma_cut_len_largest(b: Seq<u8>, max: int)
    requires
        max >= 0,
    ensures
        forall|i: int|
            cut_len(b, max) < i <= max && i < b.len() ==> is_continuation_byte(#[trigger] b[i]),
    decreases max,
{
    if b.len() <= max {
    } else if max <= 0 || !is_continuation_byte(b[max]) {
    } else {
        lemma_cut_len_largest(b, max - 1);
    }
}

/// Cutting a text to `max` bytes keeps a prefix of it (the whole text when it
/// fits) that takes at most `max` bytes and ends on a character boundary, and
/// no longer prefix ending on a character boundary fits.
pub proof fn lemma_fit_chars(s: Seq<char>, max: int)
    requires
        max >= 0,
    ensures
        utf8(s).len() <= max ==> fit_chars(s, max) == s,
        utf8(fit_chars(s, max)).len() <= max,
        utf8(fit_chars(s, max)) == utf8(s).take(cut_len(utf8(s), max)),
        fit_chars(s, max) == s.take(fit_chars(s, max).len() as int),
        forall|i: int|
            cut_len(utf8(s), max) < i <= max && i < utf8(s).len() ==> is_continuation_byte(
                #[trigger] utf8(s)[i],
            ),
{
    broadcast use decode_utf8_encode_utf8;

    let b = utf8(s);
    lemma_cut_len(b, max);
    lemma_cut_len_largest(b, max);
    let c = cut_len(b, max);
    lemma_starts_char_is_boundary(b, c);
    valid_utf8_split(b, c);
    decode_utf8_split(b, c);
    assert(b.take(c) =~= b.subrange(0, c));
    let f = fit_chars(s, max);
    assert(utf8(f) == b.take(c));
    assert(s == f + decode_utf8(b.subrange(c, b.len() as int)));
    assert(f =~= s.take(f.len() as int));
    if b.len() <= max {
        assert(b.take(c) =~= b);
    }
}

/// `s` cut to at most `max` bytes at a character boundary; unchanged when it
/// fits.
pub fn truncate_text(s: &str, max: usize) -> (r: &str)
    ensures
        r.spec_bytes() == s.spec_bytes().take(cut_len(s.spec_bytes(), max as int)),
        r.spec_bytes().len() <= max,
        r@ == fit_chars(s@, max as int),
{
    let b = s.as_bytes();
    proof {
        lemma_cut_len(b@, max as int);
    }
    if b.len() <= max {
        assert(b@.take(b@.len() as int) =~= b@);
        return s;
    }
    let mut end = max;
    while end > 0 && (b[end] & 0xc0) == 0x80
        invariant
            end <= max < b@.len(),
            cut_len(b@, end as int) == cut_len(b@, max as int),
        decreases end,
    {
        proof {
            utf8_byte_ranges_bitwise(b@[end as int]);
        }
        end = end - 1;
    }
    proof {
        if end > 0 {
            utf8_byte_ranges_bitwise(b@[end as int]);
        }
        lemma_cut_len(b@, end as int);
        is_char_boundary_start_end_of_seq(b@);
    }
    let r = slice_text(s, 0, end);
    assert(r.spec_bytes() =~= b@.take(end as int));
    r
}

/// True when the first character of the line is `y` or `Y`.
pub open spec fn is_yes(b: Seq<u8>) -> bool {
    b.len() > 0 && (b[0] == 0x79 || b[0] == 0x59)
}

/// A confirmation is an answer whose first character is `y` or `Y`.
pub proof fn lemma_is_yes_chars(line: Seq<char>)
    ensures
        is_yes(utf8(line)) <==> line.len() > 0 && (line[0] == 'y' || line[0] == 'Y'),
{
    if line.len() > 0 {
        let c = line[0];
        let u = c as u32;
        char_is_scalar(c);
        assert(utf8(line) == encode_scalar(u) + utf8(line.drop_first()));
        let b = utf8(line)[0];
        assert(b == encode_scalar(u)[0]);
        if u <= 0x7f {
            assert((u & 0x7f) == u) by (bit_vector)
                requires
                    u <= 0x7f,
            ;
            assert(b as u32 == u);
            if b == 0x79 {
                char_u32_cast(c, 0x79);
                char_u32_cast('y', 0x79);
            }
            if b == 0x59 {
                char_u32_cast(c, 0x59);
                char_u32_cast('Y', 0x59);
            }
        } else if u <= 0x7ff {
            let x: u8 = ((u >> 6) & 0x1f) as u8;
            assert(0xc0 | x >= 0xc0) by (bit_vector);
        } else if u <= 0xffff && !(0xd800 <= u <= 0xdfff) {
            let x: u8 = ((u >> 12) & 0x0f) as u8;
            assert(0xe0 | x >= 0xe0) by (bit_vector);
        } else {
            let x: u8 = ((u >> 18) & 0x7) as u8;
            assert(0xf0 | x >= 0xf0) by (bit_vector);
        }
    } else {
        assert(utf8(line) =~= Seq::<u8>::empty());
    }
}

/// True when the line starts with `y` or `Y`, the answer that confirms.
pub fn starts_with_yes(line: &str) -> (r: bool)
    ensures
        r == is_yes(line.spec_bytes()),
{
    let b = line.as_bytes();
    b.len() > 0 && (b[0] == 0x79 || b[0] == 0x59)
}

} // verus!
