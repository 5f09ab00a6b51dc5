//! Finding the headers of a request that was parsed.

use crate::config::HttpHConfigurations;
use crate::laws::well_formed::{
    kept, lemma_well_formed_parses, well_formed, written, RequestParts,
};
use crate::request::headers::lookup::{
    first_line_where, lemma_first_line_where_found, looked_up, reads_lowered,
};
use crate::request::headers::scan::LineView;
use crate::request::request_of;
use vstd::prelude::*;

verus! {

/// `first_line_where` lies between `from` and the end, passes only lines
/// of which `wanted` does not hold, and stops on one of which it holds.
pub proof fn lemma_first_line_where(
    lines: Seq<LineView>,
    wanted: spec_fn(LineView) -> bool,
    from: int,
)
    requires
        0 <= from <= lines.len(),
    ensures
        from <= first_line_where(lines, wanted, from) <= lines.len(),
        first_line_where(lines, wanted, from) < lines.len() ==> wanted(
            lines[first_line_where(lines, wanted, from)],
        ),
        forall|j: int|
            from <= j < first_line_where(lines, wanted, from) ==> !wanted(#[trigger] lines[j]),
    decreases lines.len() - from,
{
    if from < lines.len() && !wanted(lines[from]) {
        lemma_first_line_where(lines, wanted, from + 1);
    }
}

/// A lookup by the very key of a line finds that line, unless an earlier
/// line has the same key.
pub proof fn lemma_exact_key_found(lines: Seq<LineView>, at: int, lowered: Seq<char>)
    requires
        0 <= at < lines.len(),
        forall|j: int| 0 <= j < at ==> (#[trigger] lines[j]).key != lines[at].key,
    ensures
        looked_up(lines, lines[at].key, lowered) == Some(at),
{
    let key = lines[at].key;
    lemma_first_line_where_found(lines, |line: LineView| line.key == key, 0, at);
}

/// A lookup by a key that reads the same in lowercase as the key of some
/// line finds a line: one whose key is the key that is looked up, or else
/// the first whose key reads the same in lowercase.
pub proof fn lemma_caseless_key_found(
    lines: Seq<LineView>,
    at: int,
    key: Seq<u8>,
    lowered: Seq<char>,
)
    requires
        0 <= at < lines.len(),
        reads_lowered(lines[at].key, lowered),
    ensures
        looked_up(lines, key, lowered) matches Some(place) && 0 <= place < lines.len() && (
        lines[place].key == key || (place <= at && reads_lowered(lines[place].key, lowered))),
{
    let exact = |line: LineView| line.key == key;
    let caseless = |line: LineView| reads_lowered(line.key, lowered);
    lemma_first_line_where(lines, exact, 0);
    lemma_first_line_where(lines, caseless, 0);
    if first_line_where(lines, caseless, 0) > at {
        assert(!caseless(lines[at]));
    }
}

/// A lookup by a key that no line has, and that no key reads like in
/// lowercase, finds nothing.
pub proof fn lemma_absent_key(lines: Seq<LineView>, key: Seq<u8>, lowered: Seq<char>)
    requires
        forall|j: int|
            0 <= j < lines.len() ==> (#[trigger] lines[j]).key != key && !reads_lowered(
                lines[j].key,
                lowered,
            ),
    ensures
        looked_up(lines, key, lowered) is None,
{
    let exact = |line: LineView| line.key == key;
    let caseless = |line: LineView| reads_lowered(line.key, lowered);
    lemma_first_line_where(lines, exact, 0);
    lemma_first_line_where(lines, caseless, 0);
    if first_line_where(lines, exact, 0) < lines.len() {
        assert(exact(lines[first_line_where(lines, exact, 0)]));
    }
    if first_line_where(lines, caseless, 0) < lines.len() {
        assert(caseless(lines[first_line_where(lines, caseless, 0)]));
    }
}

/// In a well-formed request that was parsed, a header line that found
/// room is found again by its key, with its value byte for byte, unless an
/// earlier line has the same key. A lookup by a key that reads the same in
/// lowercase finds a line as well.
pub proof fn lemma_header_found(
    parts: RequestParts,
    config: HttpHConfigurations,
    capacity: int,
    at: int,
    other: Seq<u8>,
    lowered: Seq<char>,
)
    requires
        well_formed(parts, config),
        0 <= at < parts.headers.len(),
        at < capacity,
        forall|j: int| 0 <= j < at ==> (#[trigger] parts.headers[j]).key != parts.headers[at].key,
        reads_lowered(parts.headers[at].key, lowered),
    ensures
        request_of(written(parts), config, capacity) matches Ok(request) && {
            &&& looked_up(request.headers.lines, parts.headers[at].key, lowered) == Some(at)
            &&& request.headers.lines[at].value == parts.headers[at].value
            &&& looked_up(request.headers.lines, other, lowered) is Some
        },
{
    lemma_well_formed_parses(parts, config, capacity);
    let lines = kept(parts.headers, capacity);
    assert(lines[at] == parts.headers[at]);
    assert forall|j: int| 0 <= j < at implies (#[trigger] lines[j]).key != lines[at].key by {
        assert(lines[j] == parts.headers[j]);
    }
    lemma_exact_key_found(lines, at, lowered);
    lemma_caseless_key_found(lines, at, other, lowered);
}

} // verus!
