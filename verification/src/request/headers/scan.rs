//! What the scan of a header block gives, byte by byte.
//!
//! The scan is a small machine. It walks the block once and keeps, besides
//! the lines it has completed, a mark (where the key or value being read
//! began), the key of the line being read, and the length of the run of
//! carriage returns and line feeds it is in.

use crate::bytes::{COLON, CR, LF};
use crate::request::headers::errors::CreatingHeadersErrors;
use vstd::prelude::*;

verus! {

/// One header line, as plain values.
pub struct LineView {
    /// The bytes before the colon.
    pub key: Seq<u8>,
    /// The bytes between the byte after the colon and the carriage return.
    pub value: Seq<u8>,
}

/// A scanned header block, as plain values.
pub struct HeadersView {
    /// The lines that were kept, in the order of the block.
    pub lines: Seq<LineView>,
    /// What the last content-length line of the block said, if it said
    /// anything that can be read.
    pub content_length: Option<usize>,
    /// The offset of the byte that ended the block.
    pub headers_length: nat,
}

/// What the scan remembers between two bytes.
pub struct ScanState {
    /// Where the key or the value that is being read began.
    pub mark: int,
    /// The key of the line that is being read, once its colon was met.
    pub key: Option<Seq<u8>>,
    /// How many carriage returns and line feeds were met in a row.
    pub run: int,
    /// The lines kept so far.
    pub lines: Seq<LineView>,
    /// The content length cached so far.
    pub content_length: Option<usize>,
}

/// The run of line-break bytes that ends a header block.
pub const END_OF_HEADERS_RUN: u8 = 4;

/// The bytes of `Content-Length`.
pub open spec fn content_length_key() -> Seq<u8> {
    seq![67u8, 111u8, 110u8, 116u8, 101u8, 110u8, 116u8, 45u8, 76u8, 101u8, 110u8, 103u8, 116u8, 104u8]
}

/// The bytes of `content-length`.
pub open spec fn content_length_key_lowercase() -> Seq<u8> {
    seq![99u8, 111u8, 110u8, 116u8, 101u8, 110u8, 116u8, 45u8, 108u8, 101u8, 110u8, 103u8, 116u8, 104u8]
}

/// Whether `key` is one of the two spellings under which a content length
/// is looked for. No other casing counts.
pub open spec fn is_content_length_key(key: Seq<u8>) -> bool {
    key == content_length_key() || key == content_length_key_lowercase()
}

/// Whether every byte of `s` is an ASCII digit.
pub open spec fn is_digits(s: Seq<u8>) -> bool {
    forall|i: int| 0 <= i < s.len() ==> 48 <= #[trigger] s[i] <= 57
}

/// The number that the decimal digits `s` write.
pub open spec fn decimal_value(s: Seq<u8>) -> nat
    decreases s.len(),
{
    if s.len() == 0 {
        0
    } else {
        decimal_value(s.drop_last()) * 10 + (s.last() - 48) as nat
    }
}

/// The number that `s` writes, when `s` is one to twenty decimal digits
/// whose number fits the machine word.
pub open spec fn decimal_usize(s: Seq<u8>) -> Option<usize> {
    if 1 <= s.len() <= 20 && is_digits(s) && decimal_value(s) <= usize::MAX {
        Some(decimal_value(s) as usize)
    } else {
        None
    }
}

/// The state in which a scan starts.
pub open spec fn scan_start() -> ScanState {
    ScanState { mark: 0, key: None, run: 0, lines: Seq::empty(), content_length: None }
}

/// The state after a carriage return has ended a value.
///
/// Without a key there was no line and nothing changes. With one, the line
/// is kept while fewer than `capacity` lines are; a line that finds no room
/// is dropped. Kept or not, a line whose key asks for the content length
/// replaces the cached one by what its value says.
pub open spec fn close_line(st: ScanState, value: Seq<u8>, capacity: int) -> ScanState {
    match st.key {
        None => st,
        Some(key) => ScanState {
            key: None,
            lines: if st.lines.len() < capacity {
                st.lines.push(LineView { key, value })
            } else {
                st.lines
            },
            content_length: if is_content_length_key(key) {
                decimal_usize(value)
            } else {
                st.content_length
            },
            ..st
        },
    }
}

/// The headers that a scan hands back when the byte at `at` ends the block.
pub open spec fn finished(st: ScanState, at: int) -> HeadersView {
    HeadersView { lines: st.lines, content_length: st.content_length, headers_length: at as nat }
}

/// What the scan of `bytes` gives when it stands before the byte at `at` in
/// state `st`.
///
/// - Past the end of the buffer, more data is needed.
/// - An offset at or beyond `ceiling` is refused as dangerous.
/// - A colon, when no key is held, makes the bytes since the mark the key;
///   the byte after the colon is passed over unread and the value begins
///   behind it. When a key is held, the colon is ordinary content.
/// - A carriage return ends the value of a line whose key is held.
/// - A carriage return or a line feed lengthens the run; the fourth in a
///   row ends the block at its offset. Every other byte that is read, a
///   colon too, ends the run.
pub open spec fn scan_headers(
    bytes: Seq<u8>,
    ceiling: int,
    capacity: int,
    at: int,
    st: ScanState,
) -> Result<HeadersView, CreatingHeadersErrors>
    decreases bytes.len() - at,
{
    if at < 0 || at >= bytes.len() {
        Err(CreatingHeadersErrors::ReadMore)
    } else if at >= ceiling {
        Err(CreatingHeadersErrors::DangerousInvalidFormat)
    } else if bytes[at] == COLON {
        if st.key is Some {
            scan_headers(bytes, ceiling, capacity, at + 1, ScanState { run: 0, ..st })
        } else if at + 2 >= bytes.len() {
            Err(CreatingHeadersErrors::ReadMore)
        } else {
            scan_headers(
                bytes,
                ceiling,
                capacity,
                at + 2,
                ScanState { key: Some(bytes.subrange(st.mark, at)), mark: at + 2, run: 0, ..st },
            )
        }
    } else if bytes[at] == CR {
        let closed = close_line(st, bytes.subrange(st.mark, at), capacity);
        if st.run + 1 >= END_OF_HEADERS_RUN {
            Ok(finished(closed, at))
        } else if at + 1 >= bytes.len() {
            Err(CreatingHeadersErrors::ReadMore)
        } else {
            scan_headers(
                bytes,
                ceiling,
                capacity,
                at + 1,
                ScanState { mark: at + 1, run: st.run + 1, ..closed },
            )
        }
    } else if bytes[at] == LF {
        if st.run + 1 >= END_OF_HEADERS_RUN {
            Ok(finished(st, at))
        } else if at + 1 >= bytes.len() {
            Err(CreatingHeadersErrors::ReadMore)
        } else {
            scan_headers(
                bytes,
                ceiling,
                capacity,
                at + 1,
                ScanState { mark: at + 1, run: st.run + 1, ..st },
            )
        }
    } else {
        scan_headers(bytes, ceiling, capacity, at + 1, ScanState { run: 0, ..st })
    }
}

/// What the scan of `bytes` as a header block gives, under a ceiling on the
/// size of the block and with room for `capacity` lines.
pub open spec fn headers_of(bytes: Seq<u8>, ceiling: int, capacity: int) -> Result<
    HeadersView,
    CreatingHeadersErrors,
> {
    scan_headers(bytes, ceiling, capacity, 0, scan_start())
}

/// One more digit multiplies by ten and adds the digit.
pub proof fn lemma_decimal_value_push(s: Seq<u8>, n: int)
    requires
        0 <= n < s.len(),
    ensures
        decimal_value(s.take(n + 1)) == decimal_value(s.take(n)) * 10 + (s[n] - 48) as nat,
{
    assert(s.take(n + 1).drop_last() =~= s.take(n));
}

/// The number that a prefix of digits writes is no larger than the number
/// that all of them write.
pub proof fn lemma_decimal_value_grows(s: Seq<u8>, n: int)
    requires
        is_digits(s),
        0 <= n <= s.len(),
    ensures
        decimal_value(s.take(n)) <= decimal_value(s),
    decreases s.len() - n,
{
    if n < s.len() {
        lemma_decimal_value_push(s, n);
        lemma_decimal_value_grows(s, n + 1);
    } else {
        assert(s.take(n) =~= s);
    }
}

} // verus!
