//! Buffers that end too early.

use crate::bytes::{
    first_at, first_pair_at, lemma_first_at, lemma_first_at_found, lemma_first_pair_at,
    lemma_first_pair_at_found, COLON, CR, LF, SPACE,
};
use crate::config::HttpHConfigurations;
use crate::request::first_line::{first_line_of, lemma_first_line_shape, FirstLineView};
use crate::request::headers::errors::CreatingHeadersErrors;
use crate::request::headers::scan::{
    close_line, scan_headers, scan_start, HeadersView, ScanState, END_OF_HEADERS_RUN,
};
use crate::request::{
    fast_request_of, header_block, request_of, CreatingRequestErrors, RequestView,
};
use vstd::prelude::*;

verus! {

/// In the first `n` bytes, the first `byte` is where it is in all of them,
/// or nowhere if it lies beyond.
pub proof fn lemma_first_at_take(s: Seq<u8>, byte: u8, from: int, n: int)
    requires
        0 <= from <= n <= s.len(),
    ensures
        first_at(s.take(n), byte, from) == if first_at(s, byte, from) < n {
            first_at(s, byte, from)
        } else {
            n
        },
{
    lemma_first_at(s, byte, from);
    let whole = first_at(s, byte, from);
    let at = if whole < n {
        whole
    } else {
        n
    };
    assert forall|j: int| from <= j < at implies s.take(n)[j] != byte by {
        assert(s.take(n)[j] == s[j]);
    }
    lemma_first_at_found(s.take(n), byte, from, at);
}

/// In the first `n` bytes, the first pair is where it is in all of them,
/// or nowhere if it does not lie within.
pub proof fn lemma_first_pair_at_take(s: Seq<u8>, a: u8, b: u8, from: int, n: int)
    requires
        0 <= from <= n <= s.len(),
    ensures
        first_pair_at(s.take(n), a, b, from) == if first_pair_at(s, a, b, from) + 1 < n {
            first_pair_at(s, a, b, from)
        } else {
            n
        },
{
    lemma_first_pair_at(s, a, b, from);
    let whole = first_pair_at(s, a, b, from);
    let at = if whole + 1 < n {
        whole
    } else {
        n
    };
    let cut = s.take(n);
    assert forall|j: int| from <= j < at && j + 1 < cut.len() implies !(#[trigger] cut[j] == a
        && cut[j + 1] == b) by {
        assert(cut[j] == s[j]);
        assert(cut[j + 1] == s[j + 1]);
        if j >= whole {
        }
    }
    if at < n {
        assert(cut[at] == s[at]);
        assert(cut[at + 1] == s[at + 1]);
    }
    lemma_first_pair_at_found(cut, a, b, from, at);
}

/// Of a buffer whose request line parses, the first `n` bytes give the
/// same line if they hold all of it, and ask for more data otherwise. Of a
/// buffer that asks for more data, so do the first `n` bytes.
pub proof fn lemma_first_line_truncated(bytes: Seq<u8>, config: HttpHConfigurations, n: int)
    requires
        0 <= n <= bytes.len(),
    ensures
        first_line_of(bytes, config) matches Ok(line) ==> first_line_of(bytes.take(n), config)
            == if n >= line.first_line_length {
            Ok::<FirstLineView, CreatingRequestErrors>(line)
        } else {
            Err::<FirstLineView, CreatingRequestErrors>(
                CreatingRequestErrors::InsufficientDataSoReadMore,
            )
        },
        first_line_of(bytes, config) == Err::<FirstLineView, CreatingRequestErrors>(
            CreatingRequestErrors::InsufficientDataSoReadMore,
        ) ==> first_line_of(bytes.take(n), config) == Err::<FirstLineView, CreatingRequestErrors>(
            CreatingRequestErrors::InsufficientDataSoReadMore,
        ),
{
    let cut = bytes.take(n);
    let method_end = first_at(bytes, SPACE, 0);
    lemma_first_at(bytes, SPACE, 0);
    lemma_first_at_take(bytes, SPACE, 0, n);
    if first_line_of(bytes, config) is Ok {
        lemma_first_at(bytes, SPACE, method_end + 1);
        lemma_first_pair_at(bytes, CR, LF, first_at(bytes, SPACE, method_end + 1) + 1);
    }
    if method_end + 1 <= n {
        let path_end = first_at(bytes, SPACE, method_end + 1);
        lemma_first_at(bytes, SPACE, method_end + 1);
        lemma_first_at_take(bytes, SPACE, method_end + 1, n);
        if path_end + 1 <= n {
            let version_end = first_pair_at(bytes, CR, LF, path_end + 1);
            lemma_first_pair_at(bytes, CR, LF, path_end + 1);
            lemma_first_pair_at_take(bytes, CR, LF, path_end + 1, n);
            if version_end + 2 <= n {
                assert(cut.subrange(0, method_end) =~= bytes.subrange(0, method_end));
                assert(cut.subrange(method_end + 1, path_end) =~= bytes.subrange(
                    method_end + 1,
                    path_end,
                ));
                assert(cut.subrange(path_end + 1, version_end) =~= bytes.subrange(
                    path_end + 1,
                    version_end,
                ));
            }
        }
    }
}

/// A scan that ends a block ends it at or behind the byte it stands
/// before, inside the buffer.
pub proof fn lemma_scan_ends_ahead(
    bytes: Seq<u8>,
    ceiling: int,
    capacity: int,
    at: int,
    st: ScanState,
)
    requires
        0 <= at,
    ensures
        scan_headers(bytes, ceiling, capacity, at, st) matches Ok(headers) ==> at
            <= headers.headers_length < bytes.len() && headers.headers_length < ceiling,
    decreases bytes.len() - at,
{
    if at < bytes.len() && at < ceiling {
        if bytes[at] == COLON {
            if st.key is Some {
                lemma_scan_ends_ahead(bytes, ceiling, capacity, at + 1, ScanState { run: 0, ..st });
            } else if at + 2 < bytes.len() {
                lemma_scan_ends_ahead(
                    bytes,
                    ceiling,
                    capacity,
                    at + 2,
                    ScanState {
                        key: Some(bytes.subrange(st.mark, at)),
                        mark: at + 2,
                        run: 0,
                        ..st
                    },
                );
            }
        } else if bytes[at] == CR {
            let closed = close_line(st, bytes.subrange(st.mark, at), capacity);
            if st.run + 1 < END_OF_HEADERS_RUN && at + 1 < bytes.len() {
                lemma_scan_ends_ahead(
                    bytes,
                    ceiling,
                    capacity,
                    at + 1,
                    ScanState { mark: at + 1, run: st.run + 1, ..closed },
                );
            }
        } else if bytes[at] == LF {
            if st.run + 1 < END_OF_HEADERS_RUN && at + 1 < bytes.len() {
                lemma_scan_ends_ahead(
                    bytes,
                    ceiling,
                    capacity,
                    at + 1,
                    ScanState { mark: at + 1, run: st.run + 1, ..st },
                );
            }
        } else {
            lemma_scan_ends_ahead(bytes, ceiling, capacity, at + 1, ScanState { run: 0, ..st });
        }
    }
}

/// Of a buffer whose scan ends a block, the scan of the first `n` bytes
/// gives the same headers if those bytes hold the byte that ends the
/// block, and asks for more data otherwise. Of a buffer whose scan asks
/// for more data, so does the scan of the first `n` bytes.
pub proof fn lemma_scan_truncated(
    bytes: Seq<u8>,
    ceiling: int,
    capacity: int,
    at: int,
    st: ScanState,
    n: int,
)
    requires
        0 <= st.mark <= at <= n <= bytes.len(),
    ensures
        scan_headers(bytes, ceiling, capacity, at, st) matches Ok(headers) ==> scan_headers(
            bytes.take(n),
            ceiling,
            capacity,
            at,
            st,
        ) == if n > headers.headers_length {
            Ok::<HeadersView, CreatingHeadersErrors>(headers)
        } else {
            Err::<HeadersView, CreatingHeadersErrors>(CreatingHeadersErrors::ReadMore)
        },
        scan_headers(bytes, ceiling, capacity, at, st) == Err::<
            HeadersView,
            CreatingHeadersErrors,
        >(CreatingHeadersErrors::ReadMore) ==> scan_headers(
            bytes.take(n),
            ceiling,
            capacity,
            at,
            st,
        ) == Err::<HeadersView, CreatingHeadersErrors>(CreatingHeadersErrors::ReadMore),
    decreases bytes.len() - at,
{
    let cut = bytes.take(n);
    lemma_scan_ends_ahead(bytes, ceiling, capacity, at, st);
    if at < n && at < ceiling {
        assert(cut[at] == bytes[at]);
        assert(cut.subrange(st.mark, at) =~= bytes.subrange(st.mark, at));
        if bytes[at] == COLON {
            if st.key is Some {
                lemma_scan_truncated(
                    bytes,
                    ceiling,
                    capacity,
                    at + 1,
                    ScanState { run: 0, ..st },
                    n,
                );
            } else if at + 2 < bytes.len() {
                let next = ScanState {
                    key: Some(bytes.subrange(st.mark, at)),
                    mark: at + 2,
                    run: 0,
                    ..st
                };
                if at + 2 <= n {
                    lemma_scan_truncated(bytes, ceiling, capacity, at + 2, next, n);
                } else {
                    lemma_scan_ends_ahead(bytes, ceiling, capacity, at + 2, next);
                }
            }
        } else if bytes[at] == CR {
            let closed = close_line(st, bytes.subrange(st.mark, at), capacity);
            if st.run + 1 < END_OF_HEADERS_RUN && at + 1 < bytes.len() {
                lemma_scan_truncated(
                    bytes,
                    ceiling,
                    capacity,
                    at + 1,
                    ScanState { mark: at + 1, run: st.run + 1, ..closed },
                    n,
                );
            }
        } else if bytes[at] == LF {
            if st.run + 1 < END_OF_HEADERS_RUN && at + 1 < bytes.len() {
                lemma_scan_truncated(
                    bytes,
                    ceiling,
                    capacity,
                    at + 1,
                    ScanState { mark: at + 1, run: st.run + 1, ..st },
                    n,
                );
            }
        } else {
            lemma_scan_truncated(bytes, ceiling, capacity, at + 1, ScanState { run: 0, ..st }, n);
        }
    }
}

/// A buffer that is cut off before the byte that ends its header block
/// asks for more data and is never refused, if the whole buffer parses or
/// itself asks for more data: no ceiling is then exceeded.
///
/// With the request line of length `first_line_length` and the block
/// ending at `headers_length`, the byte that ends the block is the one
/// before offset `first_line_length + headers_length`.
pub proof fn lemma_truncated_needs_more(
    bytes: Seq<u8>,
    config: HttpHConfigurations,
    capacity: int,
    n: int,
)
    requires
        0 <= n <= bytes.len(),
        match request_of(bytes, config, capacity) {
            Ok(request) => n < request.first_line.first_line_length
                + request.headers.headers_length,
            Err(e) => e == CreatingRequestErrors::InsufficientDataSoReadMore,
        },
    ensures
        request_of(bytes.take(n), config, capacity) == Err::<RequestView, CreatingRequestErrors>(
            CreatingRequestErrors::InsufficientDataSoReadMore,
        ),
        fast_request_of(bytes.take(n), config, capacity) == Err::<
            RequestView,
            CreatingRequestErrors,
        >(CreatingRequestErrors::InsufficientDataSoReadMore),
{
    lemma_first_line_truncated(bytes, config, n);
    if first_line_of(bytes, config) is Ok {
        lemma_first_line_shape(bytes, config);
        let line = first_line_of(bytes, config)->Ok_0;
        let start = line.first_line_length - 1;
        if n >= line.first_line_length {
            let block = header_block(bytes, line.first_line_length);
            assert(header_block(bytes.take(n), line.first_line_length) =~= block.take(n - start));
            lemma_scan_truncated(
                block,
                config.max_headers_size as int,
                capacity,
                0,
                scan_start(),
                n - start,
            );
        }
    }
}

} // verus!
