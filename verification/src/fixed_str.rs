//! Text with a byte capacity, as the record fields hold it.

use vstd::prelude::*;
use vstd::string::*;
use vstd::utf8::*;

use crate::text::{cut_len, same_text, truncate_text, utf8};

verus! {

broadcast use encode_utf8_decode_utf8;

/// The first `n` bytes of the text (all of it when shorter) are whole
/// characters: the text fits in `n` bytes or its byte `n` starts a
/// character.
pub open spec fn cuts_cleanly(s: Seq<char>, n: int) -> bool {
    utf8(s).len() <= n || !is_continuation_byte(utf8(s)[n])
}

/// The number of bytes kept of a text of UTF-8 bytes `b` with room for `n`:
/// all of them when they fit, otherwise `n`.
pub open spec fn kept_len(b: Seq<u8>, n: int) -> int {
    if b.len() <= n {
        b.len() as int
    } else {
        n
    }
}

/// The characters of the first `n` bytes of the text (all of it when
/// shorter).
pub open spec fn keep_bytes(s: Seq<char>, n: int) -> Seq<char> {
    decode_utf8(utf8(s).take(kept_len(utf8(s), n)))
}

/// A text that fits in `n` bytes is kept whole.
pub proof fn lemma_keep_bytes_fits(s: Seq<char>, n: int)
    requires
        utf8(s).len() <= n,
    ensures
        keep_bytes(s, n) == s,
{
    assert(utf8(s).take(utf8(s).len() as int) =~= utf8(s));
}

/// Text of at most `N` bytes in its UTF-8 encoding.
pub struct FixedStr<const N: usize> {
    text: String,
}

impl<const N: usize> FixedStr<N> {
    /// The characters held.
    pub closed spec fn view(&self) -> Seq<char> {
        self.text@
    }

    #[verifier::type_invariant]
    closed spec fn fits(&self) -> bool {
        utf8(self.text@).len() <= N
    }

    /// The empty text.
    pub fn new() -> (s: Self)
        ensures
            s@ == Seq::<char>::empty(),
    {
        let s = Self { text: String::new() };
        proof {
            reveal_with_fuel(encode_utf8, 1);
        }
        s
    }

    /// The first `N` bytes of `s`, or all of `s` when it is shorter. Those
    /// bytes must be whole characters.
    pub fn from_str(s: &str) -> (r: Self)
        requires
            cuts_cleanly(s@, N as int),
        ensures
            r@ == keep_bytes(s@, N as int),
            utf8(r@) == utf8(s@).take(kept_len(utf8(s@), N as int)),
            utf8(r@).len() <= N,
    {
        assert(cut_len(utf8(s@), N as int) == kept_len(utf8(s@), N as int));
        let t = truncate_text(s, N);
        let r = Self { text: t.to_owned() };
        r
    }

    /// The text held.
    pub fn as_str(&self) -> (r: &str)
        ensures
            r@ == self@,
            utf8(self@).len() <= N,
    {
        proof {
            use_type_invariant(self);
        }
        self.text.as_str()
    }

    /// True when no character is held.
    pub fn is_empty(&self) -> (b: bool)
        ensures
            b == (self@.len() == 0),
    {
        self.text.as_str().is_empty()
    }

    /// True when both hold the same text.
    pub fn eq(&self, other: &Self) -> (b: bool)
        ensures
            b == (self@ == other@),
    {
        same_text(self.text.as_str(), other.text.as_str())
    }

    /// True when the text held is `other`.
    pub fn eq_str(&self, other: &str) -> (b: bool)
        ensures
            b == (self@ == other@),
    {
        same_text(self.text.as_str(), other)
    }

    /// A copy of the text.
    pub fn clone(&self) -> (r: Self)
        ensures
            r@ == self@,
    {
        proof {
            use_type_invariant(self);
        }
        Self { text: self.text.clone() }
    }
}

} // verus!
