//! Requests that are written as they should be.

use crate::bytes::{lemma_first_at_found, lemma_first_pair_at_found, COLON, CR, LF, SPACE};
use crate::config::HttpHConfigurations;
use crate::request::first_line::{first_line_of, FirstLineView};
use crate::request::headers::errors::CreatingHeadersErrors;
use crate::request::headers::scan::{
    close_line, decimal_usize, finished, headers_of, is_content_length_key, scan_headers,
    scan_start, HeadersView, LineView, ScanState,
};
use crate::request::{
    fast_request_of, header_block, request_of, CreatingRequestErrors, RequestView,
};
use vstd::prelude::*;
use vstd::utf8::valid_utf8;

verus! {

/// What a request is written from.
pub struct RequestParts {
    /// The method.
    pub method: Seq<u8>,
    /// The path, query string included.
    pub path: Seq<u8>,
    /// The version.
    pub version: Seq<u8>,
    /// The header lines, in their order.
    pub headers: Seq<LineView>,
    /// What follows the header block.
    pub body: Seq<u8>,
}

/// Whether `s` holds no `byte`.
pub open spec fn free_of(s: Seq<u8>, byte: u8) -> bool {
    forall|i: int| 0 <= i < s.len() ==> s[i] != byte
}

/// A header line as it is written: key, colon, space, value, line break.
pub open spec fn line_bytes(line: LineView) -> Seq<u8> {
    line.key + seq![COLON, SPACE] + line.value + seq![CR, LF]
}

/// Header lines as they are written, one after the other.
pub open spec fn lines_bytes(lines: Seq<LineView>) -> Seq<u8>
    decreases lines.len(),
{
    if lines.len() == 0 {
        Seq::empty()
    } else {
        lines_bytes(lines.drop_last()) + line_bytes(lines.last())
    }
}

/// The number of bytes that header lines are written as.
pub open spec fn lines_len(lines: Seq<LineView>) -> int {
    lines_bytes(lines).len() as int
}

/// A request line as it is written: method, space, path, space, version,
/// line break.
pub open spec fn request_line_bytes(parts: RequestParts) -> Seq<u8> {
    parts.method + seq![SPACE] + parts.path + seq![SPACE] + parts.version + seq![CR, LF]
}

/// A request as it is written: the request line, the header lines, an
/// empty line, the body.
pub open spec fn written(parts: RequestParts) -> Seq<u8> {
    request_line_bytes(parts) + lines_bytes(parts.headers) + seq![CR, LF] + parts.body
}

/// Whether a header line can be written and read back: its key holds no
/// colon, and neither its key nor its value a carriage return or a line
/// feed.
pub open spec fn well_formed_line(line: LineView) -> bool {
    &&& free_of(line.key, COLON)
    &&& free_of(line.key, CR)
    &&& free_of(line.key, LF)
    &&& free_of(line.value, CR)
    &&& free_of(line.value, LF)
}

/// Whether a request is well formed under the ceilings of `config`.
///
/// Method and path hold no space, the version no carriage return and no
/// line feed; method and version are UTF-8; each of the three is shorter
/// than its ceiling. There is at least one header line, every line is
/// well formed, and the header block, with the line feed before it and the
/// empty line behind it, stays below its ceiling.
pub open spec fn well_formed(parts: RequestParts, config: HttpHConfigurations) -> bool {
    &&& free_of(parts.method, SPACE)
    &&& free_of(parts.path, SPACE)
    &&& free_of(parts.version, CR)
    &&& free_of(parts.version, LF)
    &&& valid_utf8(parts.method)
    &&& valid_utf8(parts.version)
    &&& parts.method.len() < config.max_method_size
    &&& parts.path.len() < config.max_path_size
    &&& parts.version.len() < config.max_version_size
    &&& parts.headers.len() >= 1
    &&& forall|i: int| 0 <= i < parts.headers.len() ==> well_formed_line(#[trigger] parts.headers[i])
    &&& lines_bytes(parts.headers).len() + 2 < config.max_headers_size
}

/// The content length that header lines state: what the last line that
/// asks for it says.
pub open spec fn content_length_of(lines: Seq<LineView>) -> Option<usize>
    decreases lines.len(),
{
    if lines.len() == 0 {
        None
    } else if is_content_length_key(lines.last().key) {
        decimal_usize(lines.last().value)
    } else {
        content_length_of(lines.drop_last())
    }
}

/// The lines that are kept of `lines` where there is room for `capacity`:
/// the first `capacity` of them.
pub open spec fn kept(lines: Seq<LineView>, capacity: int) -> Seq<LineView> {
    if lines.len() <= capacity {
        lines
    } else {
        lines.take(capacity)
    }
}

/// What the parsing of a well-formed request gives.
pub open spec fn read_back(parts: RequestParts, capacity: int) -> RequestView {
    RequestView {
        first_line: FirstLineView {
            method: parts.method,
            path: parts.path,
            version: parts.version,
            first_line_length: request_line_bytes(parts).len(),
        },
        headers: HeadersView {
            lines: kept(parts.headers, capacity),
            content_length: content_length_of(parts.headers),
            headers_length: (lines_len(parts.headers) + 2) as nat,
        },
    }
}

/// A scan passes over bytes that are neither a carriage return nor a line
/// feed, nor a colon while no key is held, and only forgets the run it was
/// in.
pub proof fn lemma_scan_content(
    bytes: Seq<u8>,
    ceiling: int,
    capacity: int,
    at: int,
    end: int,
    st: ScanState,
)
    requires
        0 <= at <= end <= bytes.len(),
        end <= ceiling,
        forall|j: int|
            at <= j < end ==> {
                &&& #[trigger] bytes[j] != CR
                &&& bytes[j] != LF
                &&& bytes[j] == COLON ==> st.key is Some
            },
    ensures
        scan_headers(bytes, ceiling, capacity, at, st) == scan_headers(
            bytes,
            ceiling,
            capacity,
            end,
            if end > at {
                ScanState { run: 0, ..st }
            } else {
                st
            },
        ),
    decreases end - at,
{
    if at < end {
        let _ = bytes[at];
        lemma_scan_content(bytes, ceiling, capacity, at + 1, end, ScanState { run: 0, ..st });
    }
}

/// A scan that stands before a well-formed line, with no key held, passes
/// over the line and completes it.
pub proof fn lemma_scan_line(
    bytes: Seq<u8>,
    ceiling: int,
    capacity: int,
    at: int,
    line: LineView,
    st: ScanState,
)
    requires
        st.key is None,
        st.mark == at,
        0 <= at,
        well_formed_line(line),
        at + line_bytes(line).len() < bytes.len(),
        at + line_bytes(line).len() <= ceiling,
        bytes.subrange(at, at + line_bytes(line).len() as int) == line_bytes(line),
    ensures
        scan_headers(bytes, ceiling, capacity, at, st) == scan_headers(
            bytes,
            ceiling,
            capacity,
            at + line_bytes(line).len() as int,
            ScanState {
                mark: at + line_bytes(line).len() as int,
                run: 2,
                ..close_line(ScanState { key: Some(line.key), ..st }, line.value, capacity)
            },
        ),
{
    let written = line_bytes(line);
    let k = line.key.len() as int;
    let v = line.value.len() as int;
    let colon = at + k;
    let value_start = colon + 2;
    let cr = value_start + v;
    assert(written.len() == k + v + 4);
    assert forall|j: int| 0 <= j < written.len() implies bytes[at + j] == written[j] by {
        assert(bytes.subrange(at, at + written.len() as int)[j] == bytes[at + j]);
    }
    assert forall|j: int| at <= j < colon implies {
        &&& #[trigger] bytes[j] != CR
        &&& bytes[j] != LF
        &&& bytes[j] != COLON
    } by {
        assert(bytes[j] == written[j - at]);
        assert(written[j - at] == line.key[j - at]);
    }
    lemma_scan_content(bytes, ceiling, capacity, at, colon, st);
    let before_colon = if colon > at {
        ScanState { run: 0, ..st }
    } else {
        st
    };
    assert(bytes[colon] == written[k]);
    assert(written[k] == COLON);
    assert(bytes.subrange(at, colon) =~= line.key) by {
        assert forall|j: int| 0 <= j < k implies bytes.subrange(at, colon)[j] == line.key[j] by {
            assert(bytes[at + j] == written[j]);
        }
    }
    let held = ScanState { key: Some(line.key), mark: value_start, run: 0, ..st };
    assert(scan_headers(bytes, ceiling, capacity, colon, before_colon) == scan_headers(
        bytes,
        ceiling,
        capacity,
        value_start,
        held,
    ));
    assert forall|j: int| value_start <= j < cr implies {
        &&& #[trigger] bytes[j] != CR
        &&& bytes[j] != LF
        &&& bytes[j] == COLON ==> held.key is Some
    } by {
        assert(bytes[j] == written[j - at]);
        assert(written[j - at] == line.value[j - value_start]);
    }
    lemma_scan_content(bytes, ceiling, capacity, value_start, cr, held);
    assert(bytes[cr] == written[k + 2 + v]);
    assert(written[k + 2 + v] == CR);
    assert(bytes[cr + 1] == written[k + 3 + v]);
    assert(written[k + 3 + v] == LF);
    assert(bytes.subrange(value_start, cr) =~= line.value) by {
        assert forall|j: int| 0 <= j < v implies bytes.subrange(value_start, cr)[j]
            == line.value[j] by {
            assert(bytes[at + k + 2 + j] == written[k + 2 + j]);
        }
    }
    let closed = close_line(held, line.value, capacity);
    let after_cr = ScanState { mark: cr + 1, run: 1, ..closed };
    assert(scan_headers(bytes, ceiling, capacity, cr, held) == scan_headers(
        bytes,
        ceiling,
        capacity,
        cr + 1,
        after_cr,
    ));
    let after_lf = ScanState { mark: cr + 2, run: 2, ..after_cr };
    assert(scan_headers(bytes, ceiling, capacity, cr + 1, after_cr) == scan_headers(
        bytes,
        ceiling,
        capacity,
        cr + 2,
        after_lf,
    ));
}

/// The first `k` of some lines are written at the start of what all of
/// them are written as.
pub proof fn lemma_lines_bytes_prefix(lines: Seq<LineView>, k: int)
    requires
        0 <= k <= lines.len(),
    ensures
        lines_bytes(lines.take(k)).len() <= lines_bytes(lines).len(),
        lines_bytes(lines).take(lines_bytes(lines.take(k)).len() as int) == lines_bytes(
            lines.take(k),
        ),
    decreases lines.len() - k,
{
    if k == lines.len() {
        assert(lines.take(k) =~= lines);
        assert(lines_bytes(lines).take(lines_bytes(lines).len() as int) =~= lines_bytes(lines));
    } else {
        lemma_lines_bytes_prefix(lines, k + 1);
        assert(lines.take(k + 1).drop_last() =~= lines.take(k));
        let longer = lines_bytes(lines.take(k + 1));
        let shorter = lines_bytes(lines.take(k));
        assert(longer == shorter + line_bytes(lines[k]));
        assert(lines_bytes(lines).take(shorter.len() as int) =~= lines_bytes(lines).take(
            longer.len() as int,
        ).take(shorter.len() as int));
        assert(longer.take(shorter.len() as int) =~= shorter);
    }
}

/// The state of a scan that has passed the first `k` of `lines` behind the
/// line feed that a block starts with.
pub open spec fn state_behind(lines: Seq<LineView>, k: int, capacity: int) -> ScanState {
    ScanState {
        mark: 1 + lines_len(lines.take(k)),
        key: None,
        run: if k == 0 {
            1
        } else {
            2
        },
        lines: kept(lines.take(k), capacity),
        content_length: content_length_of(lines.take(k)),
    }
}

/// A scan that stands behind the line feed that a block starts with
/// passes over well-formed lines one by one.
pub proof fn lemma_scan_lines(
    block: Seq<u8>,
    ceiling: int,
    capacity: int,
    lines: Seq<LineView>,
    k: int,
)
    requires
        0 <= capacity,
        0 <= k <= lines.len(),
        forall|i: int| 0 <= i < lines.len() ==> well_formed_line(#[trigger] lines[i]),
        1 + lines_len(lines) < block.len(),
        1 + lines_len(lines) <= ceiling,
        block.subrange(1, 1 + lines_len(lines)) == lines_bytes(lines),
    ensures
        scan_headers(block, ceiling, capacity, 1, state_behind(lines, 0, capacity))
            == scan_headers(
            block,
            ceiling,
            capacity,
            1 + lines_len(lines.take(k)),
            state_behind(lines, k, capacity),
        ),
    decreases k,
{
    if k == 0 {
        assert(lines.take(0) =~= Seq::<LineView>::empty());
    } else {
        lemma_scan_lines(block, ceiling, capacity, lines, k - 1);
        lemma_lines_bytes_prefix(lines, k - 1);
        lemma_lines_bytes_prefix(lines, k);
        let line = lines[k - 1];
        let before = lines.take(k - 1);
        let upto = lines.take(k);
        assert(upto.drop_last() =~= before);
        assert(upto.last() == line);
        let from = 1 + lines_len(before);
        let to = 1 + lines_len(upto);
        assert(lines_bytes(upto) == lines_bytes(before) + line_bytes(line));
        assert(block.subrange(from, to) =~= line_bytes(line)) by {
            assert forall|j: int| 0 <= j < line_bytes(line).len() implies block.subrange(
                from,
                to,
            )[j] == line_bytes(line)[j] by {
                let whole = lines_bytes(lines);
                assert(block.subrange(1, 1 + lines_len(lines))[from - 1 + j] == block[from + j]);
                assert(whole.take(lines_bytes(upto).len() as int)[from - 1 + j] == whole[from - 1
                    + j]);
                assert(lines_bytes(upto)[from - 1 + j] == line_bytes(line)[j]);
            }
        }
        let st = state_behind(lines, k - 1, capacity);
        lemma_scan_line(block, ceiling, capacity, from, line, st);
        let closed = close_line(ScanState { key: Some(line.key), ..st }, line.value, capacity);
        assert(kept(upto, capacity) =~= closed.lines);
        assert(ScanState { mark: to, run: 2, ..closed } == state_behind(lines, k, capacity));
    }
}

/// The header block of a well-formed request scans into its lines.
pub proof fn lemma_well_formed_headers(
    block: Seq<u8>,
    ceiling: int,
    capacity: int,
    lines: Seq<LineView>,
    body: Seq<u8>,
)
    requires
        0 <= capacity,
        lines.len() >= 1,
        forall|i: int| 0 <= i < lines.len() ==> well_formed_line(#[trigger] lines[i]),
        lines_bytes(lines).len() + 2 < ceiling,
        block == seq![LF] + lines_bytes(lines) + seq![CR, LF] + body,
    ensures
        headers_of(block, ceiling, capacity) == Ok::<HeadersView, CreatingHeadersErrors>(
            HeadersView {
                lines: kept(lines, capacity),
                content_length: content_length_of(lines),
                headers_length: (lines_len(lines) + 2) as nat,
            },
        ),
{
    let all = lines_bytes(lines);
    let end = 1 + lines_len(lines);
    assert(block.subrange(1, end) =~= all);
    assert(block[0] == LF);
    assert(block[end] == CR);
    assert(block[end + 1] == LF);
    let start = scan_start();
    assert(lines.take(0) =~= Seq::<LineView>::empty());
    assert(state_behind(lines, 0, capacity) == ScanState { mark: 1, run: 1, ..start });
    assert(scan_headers(block, ceiling, capacity, 0, start) == scan_headers(
        block,
        ceiling,
        capacity,
        1,
        state_behind(lines, 0, capacity),
    ));
    lemma_scan_lines(block, ceiling, capacity, lines, lines.len() as int);
    assert(lines.take(lines.len() as int) =~= lines);
    let behind = state_behind(lines, lines.len() as int, capacity);
    let after_cr = ScanState { mark: end + 1, run: 3, ..behind };
    assert(close_line(behind, block.subrange(behind.mark, end), capacity) == behind);
    assert(scan_headers(block, ceiling, capacity, end, behind) == scan_headers(
        block,
        ceiling,
        capacity,
        end + 1,
        after_cr,
    ));
    assert(scan_headers(block, ceiling, capacity, end + 1, after_cr) == Ok::<
        HeadersView,
        CreatingHeadersErrors,
    >(finished(after_cr, end + 1)));
}

/// The request line of a well-formed request parses into its parts.
pub proof fn lemma_well_formed_first_line(
    bytes: Seq<u8>,
    parts: RequestParts,
    config: HttpHConfigurations,
    rest: Seq<u8>,
)
    requires
        free_of(parts.method, SPACE),
        free_of(parts.path, SPACE),
        free_of(parts.version, CR),
        free_of(parts.version, LF),
        valid_utf8(parts.method),
        valid_utf8(parts.version),
        parts.method.len() < config.max_method_size,
        parts.path.len() < config.max_path_size,
        parts.version.len() < config.max_version_size,
        bytes == request_line_bytes(parts) + rest,
    ensures
        first_line_of(bytes, config) == Ok::<FirstLineView, CreatingRequestErrors>(
            FirstLineView {
                method: parts.method,
                path: parts.path,
                version: parts.version,
                first_line_length: request_line_bytes(parts).len(),
            },
        ),
{
    let line = request_line_bytes(parts);
    let m = parts.method.len() as int;
    let p = parts.path.len() as int;
    let v = parts.version.len() as int;
    assert(line.len() == m + p + v + 4);
    assert forall|j: int| 0 <= j < line.len() implies bytes[j] == line[j] by {}
    assert forall|j: int| 0 <= j < m implies bytes[j] != SPACE by {
        assert(line[j] == parts.method[j]);
    }
    assert(line[m] == SPACE);
    lemma_first_at_found(bytes, SPACE, 0, m);
    assert forall|j: int| m + 1 <= j < m + 1 + p implies bytes[j] != SPACE by {
        assert(line[j] == parts.path[j - m - 1]);
    }
    assert(line[m + 1 + p] == SPACE);
    lemma_first_at_found(bytes, SPACE, m + 1, m + 1 + p);
    let version_start = m + p + 2;
    assert forall|j: int|
        version_start <= j < version_start + v && j + 1 < bytes.len() implies !(
    #[trigger] bytes[j] == CR && bytes[j + 1] == LF) by {
        assert(line[j] == parts.version[j - version_start]);
    }
    assert(line[version_start + v] == CR);
    assert(line[version_start + v + 1] == LF);
    lemma_first_pair_at_found(bytes, CR, LF, version_start, version_start + v);
    assert(bytes.subrange(0, m) =~= parts.method);
    assert(bytes.subrange(m + 1, m + 1 + p) =~= parts.path);
    assert(bytes.subrange(version_start, version_start + v) =~= parts.version);
}

/// A well-formed request parses, whatever body follows it and however
/// many of its lines find room. Its parts come back as they were written:
/// of the header lines the first `capacity`, and the content length that
/// the lines state, those that found no room included. The two lengths
/// that are handed back add up to the offset of the body.
pub proof fn lemma_well_formed_parses(
    parts: RequestParts,
    config: HttpHConfigurations,
    capacity: int,
)
    requires
        well_formed(parts, config),
        0 <= capacity,
    ensures
        request_of(written(parts), config, capacity) == Ok::<RequestView, CreatingRequestErrors>(
            read_back(parts, capacity),
        ),
        fast_request_of(written(parts), config, capacity) == Ok::<
            RequestView,
            CreatingRequestErrors,
        >(read_back(parts, capacity)),
        read_back(parts, capacity).first_line.first_line_length + read_back(
            parts,
            capacity,
        ).headers.headers_length == written(parts).len() - parts.body.len(),
{
    let bytes = written(parts);
    let line = request_line_bytes(parts);
    let rest = lines_bytes(parts.headers) + seq![CR, LF] + parts.body;
    assert(bytes =~= line + rest);
    lemma_well_formed_first_line(bytes, parts, config, rest);
    let block = header_block(bytes, line.len());
    assert(line[line.len() - 1] == LF);
    assert(block =~= seq![LF] + lines_bytes(parts.headers) + seq![CR, LF] + parts.body);
    lemma_well_formed_headers(
        block,
        config.max_headers_size as int,
        capacity,
        parts.headers,
        parts.body,
    );
}

} // verus!
