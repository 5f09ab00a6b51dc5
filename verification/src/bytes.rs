//! Searching byte sequences for delimiters.
//!
//! The parsers of this crate describe what they return through the
//! functions defined here: the offset of the first or last occurrence of a
//! delimiter, and the pieces into which a delimiter cuts a sequence.

use vstd::prelude::*;

verus! {

/// Space, which separates the tokens of a request line.
pub const SPACE: u8 = 32;

/// Carriage return.
pub const CR: u8 = 13;

/// Line feed.
pub const LF: u8 = 10;

/// Colon, which ends a header key.
pub const COLON: u8 = 58;

/// Semicolon, which separates the parameters of a header value.
pub const SEMICOLON: u8 = 59;

/// Equals sign, which separates a name from its value.
pub const EQUALS: u8 = 61;

/// Comma, which together with a space separates the values of a header.
pub const COMMA: u8 = 44;

/// Question mark, which separates a path from its query string.
pub const QUESTION: u8 = 63;

/// Ampersand, which separates the pairs of a query string.
pub const AMPERSAND: u8 = 38;

/// The offset of the first `byte` in `s` at or after `from`, or `s.len()`
/// when `s` holds none there.
pub open spec fn first_at(s: Seq<u8>, byte: u8, from: int) -> int
    decreases s.len() - from,
{
    if from < 0 || from >= s.len() {
        s.len() as int
    } else if s[from] == byte {
        from
    } else {
        first_at(s, byte, from + 1)
    }
}

/// The offset of the first place at or after `from` where `a` is directly
/// followed by `b`, or `s.len()` when `s` holds no such pair there.
pub open spec fn first_pair_at(s: Seq<u8>, a: u8, b: u8, from: int) -> int
    decreases s.len() - from,
{
    if from < 0 || from + 1 >= s.len() {
        s.len() as int
    } else if s[from] == a && s[from + 1] == b {
        from
    } else {
        first_pair_at(s, a, b, from + 1)
    }
}

/// The offset of the last `byte` in `s` before `end`, or `-1` when `s`
/// holds none there.
pub open spec fn last_before(s: Seq<u8>, byte: u8, end: int) -> int
    decreases end,
{
    if end <= 0 || end > s.len() {
        -1
    } else if s[end - 1] == byte {
        end - 1
    } else {
        last_before(s, byte, end - 1)
    }
}

/// The pieces into which the occurrences of `sep` cut `s` from `from` on:
/// one more piece than there are separators, empty pieces included.
pub open spec fn split_from(s: Seq<u8>, sep: u8, from: int) -> Seq<Seq<u8>>
    decreases s.len() - from,
{
    if from < 0 || from > s.len() {
        Seq::empty()
    } else {
        let cut = first_at(s, sep, from);
        if from <= cut < s.len() {
            seq![s.subrange(from, cut)] + split_from(s, sep, cut + 1)
        } else {
            seq![s.subrange(from, s.len() as int)]
        }
    }
}

/// The pieces into which the occurrences of `a` directly followed by `b`
/// cut `s` from `from` on, taken from left to right.
pub open spec fn split_pair_from(s: Seq<u8>, a: u8, b: u8, from: int) -> Seq<Seq<u8>>
    decreases s.len() - from,
{
    if from < 0 || from > s.len() {
        Seq::empty()
    } else {
        let cut = first_pair_at(s, a, b, from);
        if from <= cut && cut + 1 < s.len() {
            seq![s.subrange(from, cut)] + split_pair_from(s, a, b, cut + 2)
        } else {
            seq![s.subrange(from, s.len() as int)]
        }
    }
}

/// `first_at` lies between `from` and the end, skips only other bytes and
/// stops on the byte it looks for.
pub proof fn lemma_first_at(s: Seq<u8>, byte: u8, from: int)
    requires
        0 <= from <= s.len(),
    ensures
        from <= first_at(s, byte, from) <= s.len(),
        first_at(s, byte, from) < s.len() ==> s[first_at(s, byte, from)] == byte,
        forall|j: int| from <= j < first_at(s, byte, from) ==> s[j] != byte,
    decreases s.len() - from,
{
    if from < s.len() && s[from] != byte {
        lemma_first_at(s, byte, from + 1);
    }
}

/// An offset that `byte` occupies, with no `byte` between `from` and it,
/// is `first_at`; so is the end when no `byte` follows `from`.
pub proof fn lemma_first_at_found(s: Seq<u8>, byte: u8, from: int, at: int)
    requires
        0 <= from <= at <= s.len(),
        forall|j: int| from <= j < at ==> s[j] != byte,
        at < s.len() ==> s[at] == byte,
    ensures
        first_at(s, byte, from) == at,
    decreases at - from,
{
    if from < at {
        lemma_first_at_found(s, byte, from + 1, at);
    }
}

/// `first_pair_at` lies between `from` and the end, skips no pair and
/// stops on one.
pub proof fn lemma_first_pair_at(s: Seq<u8>, a: u8, b: u8, from: int)
    requires
        0 <= from <= s.len(),
    ensures
        from <= first_pair_at(s, a, b, from) <= s.len(),
        first_pair_at(s, a, b, from) < s.len() ==> {
            &&& first_pair_at(s, a, b, from) + 1 < s.len()
            &&& s[first_pair_at(s, a, b, from)] == a
            &&& s[first_pair_at(s, a, b, from) + 1] == b
        },
        forall|j: int|
            from <= j < first_pair_at(s, a, b, from) && j + 1 < s.len() ==> !(#[trigger] s[j] == a
                && s[j + 1] == b),
    decreases s.len() - from,
{
    if from + 1 < s.len() && !(s[from] == a && s[from + 1] == b) {
        lemma_first_pair_at(s, a, b, from + 1);
    }
}

/// An offset where `a` is followed by `b`, with no such pair between
/// `from` and it, is `first_pair_at`; so is the end when no pair follows
/// `from`.
pub proof fn lemma_first_pair_at_found(s: Seq<u8>, a: u8, b: u8, from: int, at: int)
    requires
        0 <= from <= at <= s.len(),
        forall|j: int|
            from <= j < at && j + 1 < s.len() ==> !(#[trigger] s[j] == a && s[j + 1] == b),
        at < s.len() ==> at + 1 < s.len() && s[at] == a && s[at + 1] == b,
    ensures
        first_pair_at(s, a, b, from) == at,
    decreases at - from,
{
    if from < at {
        lemma_first_pair_at_found(s, a, b, from + 1, at);
    }
}

/// The offset of the first `byte` of `bytes` at or after `from`.
pub fn find_first(bytes: &[u8], byte: u8, from: usize) -> (at: usize)
    requires
        from <= bytes@.len(),
    ensures
        at == first_at(bytes@, byte, from as int),
        from <= at <= bytes@.len(),
{
    let mut i: usize = from;
    while i < bytes.len()
        invariant
            from <= i <= bytes@.len(),
            first_at(bytes@, byte, from as int) == first_at(bytes@, byte, i as int),
        decreases bytes@.len() - i,
    {
        if bytes[i] == byte {
            return i;
        }
        i = i + 1;
    }
    i
}

/// The offset of the first place of `bytes` at or after `from` where `a`
/// is directly followed by `b`.
pub fn find_first_pair(bytes: &[u8], a: u8, b: u8, from: usize) -> (at: usize)
    requires
        from <= bytes@.len(),
    ensures
        at == first_pair_at(bytes@, a, b, from as int),
        from <= at <= bytes@.len(),
        at < bytes@.len() ==> at + 1 < bytes@.len(),
{
    let len = bytes.len();
    let mut i: usize = from;
    while i < len && i + 1 < len
        invariant
            len == bytes@.len(),
            from <= i <= len,
            first_pair_at(bytes@, a, b, from as int) == first_pair_at(bytes@, a, b, i as int),
        decreases len - i,
    {
        if bytes[i] == a && bytes[i + 1] == b {
            return i;
        }
        i = i + 1;
    }
    len
}

/// The offset of the last `byte` of `bytes` before `end`, if there is one.
pub fn find_last(bytes: &[u8], byte: u8, end: usize) -> (at: Option<usize>)
    requires
        end <= bytes@.len(),
    ensures
        match at {
            Some(i) => i == last_before(bytes@, byte, end as int) && i < end,
            None => last_before(bytes@, byte, end as int) == -1,
        },
{
    let mut i: usize = end;
    while i > 0
        invariant
            i <= end <= bytes@.len(),
            last_before(bytes@, byte, end as int) == last_before(bytes@, byte, i as int),
        decreases i,
    {
        if bytes[i - 1] == byte {
            return Some(i - 1);
        }
        i = i - 1;
    }
    None
}

/// Whether two byte slices hold the same bytes.
pub fn bytes_equal(a: &[u8], b: &[u8]) -> (same: bool)
    ensures
        same == (a@ == b@),
{
    if a.len() != b.len() {
        return false;
    }
    let mut i: usize = 0;
    while i < a.len()
        invariant
            i <= a@.len(),
            a@.len() == b@.len(),
            forall|j: int| 0 <= j < i ==> a@[j] == b@[j],
        decreases a@.len() - i,
    {
        if a[i] != b[i] {
            return false;
        }
        i = i + 1;
    }
    assert(a@ =~= b@);
    true
}

} // verus!
