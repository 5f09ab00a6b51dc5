//! Requests: the request line, the header block and the two together.

pub mod enums;
pub mod first_line;
pub mod headers;

use crate::byte_map::{map_of, ByteMap, PairView};
use crate::bytes::{find_first, first_at, split_from, AMPERSAND, EQUALS, QUESTION};
use crate::config::HttpHConfigurations;
use crate::request::enums::CreatingRequestSteps;
use crate::request::first_line::{first_line_of, lemma_first_line_shape, FirstLineView};
use crate::request::headers::errors::CreatingHeadersErrors;
use crate::request::headers::scan::{headers_of, HeadersView};
use crate::request::headers::HttpHeaders;
use crate::text::utf8_text;
use vstd::slice::slice_subrange;
use vstd::std_specs::convert::FromSpecImpl;
use vstd::prelude::*;
use vstd::string::StringSliceAdditionalSpecFns;
use vstd::utf8::valid_utf8;

pub use crate::request::first_line::HttpFirstLine;

verus! {

/// The ways in which the parsing of a request ends without a request.
#[derive(Debug, Clone, Copy, PartialEq, Eq, Structural)]
pub enum CreatingRequestErrors {
    /// The bytes are not a request.
    InvalidHttpFormat,
    /// The buffer ends before the request does. Parse again, from the
    /// start, once the buffer holds more bytes.
    InsufficientDataSoReadMore,
    /// The bytes are oversized or otherwise shaped like an attack.
    DangerousInvalidHttpFormat,
    /// The header block was refused; the cause is inside.
    InvalidHeadersError(CreatingHeadersErrors),
}

impl From<CreatingHeadersErrors> for CreatingRequestErrors {
    /// The error of a request that stands for an error of its header
    /// block.
    fn from(value: CreatingHeadersErrors) -> (error: Self) {
        match value {
            CreatingHeadersErrors::InvalidFormat => CreatingRequestErrors::InvalidHttpFormat,
            CreatingHeadersErrors::MaxHeadersSizeReachedOut => {
                CreatingRequestErrors::DangerousInvalidHttpFormat
            },
            CreatingHeadersErrors::ReadMore => CreatingRequestErrors::InsufficientDataSoReadMore,
            CreatingHeadersErrors::DangerousInvalidFormat => {
                CreatingRequestErrors::DangerousInvalidHttpFormat
            },
        }
    }
}

impl FromSpecImpl<CreatingHeadersErrors> for CreatingRequestErrors {
    open spec fn obeys_from_spec() -> bool {
        true
    }

    open spec fn from_spec(value: CreatingHeadersErrors) -> Self {
        converted_headers_error(value)
    }
}

/// The error of a request that stands for `error` of its header block:
/// what `CreatingRequestErrors::from` gives.
pub open spec fn converted_headers_error(error: CreatingHeadersErrors) -> CreatingRequestErrors {
    match error {
        CreatingHeadersErrors::InvalidFormat => CreatingRequestErrors::InvalidHttpFormat,
        CreatingHeadersErrors::MaxHeadersSizeReachedOut => {
            CreatingRequestErrors::DangerousInvalidHttpFormat
        },
        CreatingHeadersErrors::ReadMore => CreatingRequestErrors::InsufficientDataSoReadMore,
        CreatingHeadersErrors::DangerousInvalidFormat => {
            CreatingRequestErrors::DangerousInvalidHttpFormat
        },
    }
}

/// The error of a request whose header block was refused with `error`,
/// when the request is put together step by step: the need for more data
/// stays what it is, and every other error is handed on inside
/// `InvalidHeadersError`.
pub open spec fn wrapped_headers_error(error: CreatingHeadersErrors) -> CreatingRequestErrors {
    if error is ReadMore {
        CreatingRequestErrors::InsufficientDataSoReadMore
    } else {
        CreatingRequestErrors::InvalidHeadersError(error)
    }
}

/// A request, as plain values.
pub struct RequestView {
    /// The request line.
    pub first_line: FirstLineView,
    /// The headers.
    pub headers: HeadersView,
}

/// The bytes that the scan of the header block is given: those from the
/// line feed that ends the request line on. With that byte in front, the
/// offset at which the block ends counts the bytes of the block.
pub open spec fn header_block(bytes: Seq<u8>, first_line_length: nat) -> Seq<u8> {
    bytes.subrange(first_line_length - 1, bytes.len() as int)
}

/// What the parsing of `bytes` as a request gives: the request line, then
/// the header block behind it with room for `capacity` lines. An error of
/// the request line is handed on as it is, one of the header block as
/// `on_headers_error` says.
pub open spec fn assembled(
    bytes: Seq<u8>,
    config: HttpHConfigurations,
    capacity: int,
    on_headers_error: spec_fn(CreatingHeadersErrors) -> CreatingRequestErrors,
) -> Result<RequestView, CreatingRequestErrors> {
    match first_line_of(bytes, config) {
        Err(e) => Err(e),
        Ok(first_line) => match headers_of(
            header_block(bytes, first_line.first_line_length),
            config.max_headers_size as int,
            capacity,
        ) {
            Err(e) => Err(on_headers_error(e)),
            Ok(headers) => Ok(RequestView { first_line, headers }),
        },
    }
}

/// What `HttpRequest::from_incoming_bytes` gives for `bytes`.
pub open spec fn request_of(bytes: Seq<u8>, config: HttpHConfigurations, capacity: int) -> Result<
    RequestView,
    CreatingRequestErrors,
> {
    assembled(bytes, config, capacity, |e: CreatingHeadersErrors| wrapped_headers_error(e))
}

/// What `HttpRequest::from_bytes` gives for `bytes`.
pub open spec fn fast_request_of(
    bytes: Seq<u8>,
    config: HttpHConfigurations,
    capacity: int,
) -> Result<RequestView, CreatingRequestErrors> {
    assembled(
        bytes,
        config,
        capacity,
        |e: CreatingHeadersErrors| converted_headers_error(e),
    )
}

/// A parsed request: its request line and its headers, both views into
/// the buffer that was parsed.
#[derive(Debug)]
pub struct HttpRequest<'buf, const HC: usize> {
    http_first_line: HttpFirstLine<'buf>,
    headers: HttpHeaders<'buf, HC>,
}

impl<'buf, const HC: usize> View for HttpRequest<'buf, HC> {
    type V = RequestView;

    closed spec fn view(&self) -> RequestView {
        RequestView { first_line: self.http_first_line@, headers: self.headers@ }
    }
}

impl<'buf, const HC: usize> HttpRequest<'buf, HC> {
    /// The method of the request.
    pub fn method(&self) -> (method: &'buf str)
        ensures
            method.spec_bytes() == self@.first_line.method,
    {
        self.http_first_line.method
    }

    /// The version of the request.
    pub fn version(&self) -> (version: &'buf str)
        ensures
            version.spec_bytes() == self@.first_line.version,
    {
        self.http_first_line.version
    }

    /// The path of the request.
    pub fn path(&self) -> (path: &HttpPath<'buf>)
        ensures
            path@ == self@.first_line.path,
    {
        &self.http_first_line.path
    }

    /// The request line.
    pub fn first_line(&self) -> (line: &HttpFirstLine<'buf>)
        ensures
            line@ == self@.first_line,
    {
        &self.http_first_line
    }

    /// The headers.
    pub fn headers(&self) -> (headers: &HttpHeaders<'buf, HC>)
        ensures
            headers@ == self@.headers,
    {
        &self.headers
    }

    /// Parses the request that `bytes` starts with, in two steps: the
    /// request line, then the header block, with room for `N` lines.
    ///
    /// Every error of the request line ends the parsing as it is. Of the
    /// header block, the need for more data is handed on as such and every
    /// other error inside `InvalidHeadersError`.
    pub fn from_incoming_bytes<const N: usize>(
        bytes: &'buf [u8],
        config: &HttpHConfigurations,
    ) -> (request: Result<HttpRequest<'buf, N>, CreatingRequestErrors>)
        ensures
            match request {
                Ok(r) => request_of(bytes@, *config, N as int) == Ok::<
                    RequestView,
                    CreatingRequestErrors,
                >(r@),
                Err(e) => request_of(bytes@, *config, N as int) == Err::<
                    RequestView,
                    CreatingRequestErrors,
                >(e),
            },
    {
        let mut step = CreatingRequestSteps::init();
        let mut first_line: Option<HttpFirstLine<'buf>> = None;
        let mut rest: &'buf [u8] = bytes;
        loop
            invariant
                step is FirstLine ==> rest@ == bytes@,
                step is Headers ==> first_line is Some && first_line_of(bytes@, *config) == Ok::<
                    FirstLineView,
                    CreatingRequestErrors,
                >(first_line->Some_0@) && rest@ == header_block(
                    bytes@,
                    first_line->Some_0@.first_line_length,
                ),
            decreases step.steps_left(),
        {
            match step {
                CreatingRequestSteps::FirstLine => {
                    match HttpFirstLine::from_server(rest, config) {
                        Err(e) => {
                            return Err(e);
                        },
                        Ok(line) => {
                            proof {
                                lemma_first_line_shape(bytes@, *config);
                            }
                            let index: usize = line.first_line_length - 1;
                            rest = slice_subrange(rest, index, rest.len());
                            first_line = Some(line);
                            step = CreatingRequestSteps::Headers;
                        },
                    }
                },
                CreatingRequestSteps::Headers => {
                    match HttpHeaders::<N>::new(rest, config) {
                        Ok(headers) => {
                            let line = first_line.unwrap();
                            return Ok(HttpRequest { http_first_line: line, headers });
                        },
                        Err(e) => {
                            return match e {
                                CreatingHeadersErrors::ReadMore => Err(
                                    CreatingRequestErrors::InsufficientDataSoReadMore,
                                ),
                                _ => Err(CreatingRequestErrors::InvalidHeadersError(e)),
                            };
                        },
                    }
                },
            }
        }
    }

    /// Parses the request that `bytes` starts with in one go: the request
    /// line, then the header block, with room for `N` lines.
    ///
    /// An error of the header block is turned into the error of a request
    /// that stands for it.
    pub fn from_bytes<const N: usize>(bytes: &'buf [u8], config: &HttpHConfigurations) -> (request:
        Result<HttpRequest<'buf, N>, CreatingRequestErrors>)
        ensures
            match request {
                Ok(r) => fast_request_of(bytes@, *config, N as int) == Ok::<
                    RequestView,
                    CreatingRequestErrors,
                >(r@),
                Err(e) => fast_request_of(bytes@, *config, N as int) == Err::<
                    RequestView,
                    CreatingRequestErrors,
                >(e),
            },
    {
        let first_line = match HttpFirstLine::from_server(bytes, config) {
            Ok(line) => line,
            Err(e) => {
                return Err(e);
            },
        };
        proof {
            lemma_first_line_shape(bytes@, *config);
        }
        let block = slice_subrange(bytes, first_line.first_line_length - 1, bytes.len());
        match HttpHeaders::<N>::new(block, config) {
            Ok(headers) => Ok(HttpRequest { headers, http_first_line: first_line }),
            Err(e) => Err(CreatingRequestErrors::from(e)),
        }
    }
}

/// The path of a request as it stands in the buffer, query string
/// included. The bytes are not checked to be text.
#[derive(Debug, Clone, Copy)]
pub struct HttpPath<'buf> {
    bytes: &'buf [u8],
}

impl<'buf> View for HttpPath<'buf> {
    type V = Seq<u8>;

    closed spec fn view(&self) -> Seq<u8> {
        self.bytes@
    }
}

impl<'buf> HttpPath<'buf> {
    /// The path made of `bytes`.
    pub fn new(bytes: &'buf [u8]) -> (path: HttpPath<'buf>)
        ensures
            path@ == bytes@,
    {
        HttpPath { bytes }
    }

    /// The whole path as text, when its bytes are UTF-8.
    pub fn to_str(&self) -> (text: Option<&'buf str>)
        ensures
            text is Some <==> valid_utf8(self@),
            text matches Some(t) ==> t.spec_bytes() == self@,
    {
        utf8_text(self.bytes)
    }

    /// The bytes of the path.
    pub fn get_bytes(&self) -> (bytes: &'buf [u8])
        ensures
            bytes@ == self@,
    {
        self.bytes
    }

    /// The path without its query string, and the pairs of the query
    /// string.
    ///
    /// The first question mark ends the path. What follows it is cut at
    /// every ampersand, and every piece at its first equals sign into a key
    /// and what the key maps to. A piece without an equals sign is
    /// dropped; of two pieces with one key, the later one stays. Nothing is
    /// decoded.
    pub fn split_to_path_and_query(&self) -> (parts: (&'buf [u8], ByteMap<'buf>))
        ensures
            parts.0@ == path_of(self@),
            parts.1@ == query_of(self@),
    {
        let bytes = self.bytes;
        let len = bytes.len();
        let mark = find_first(bytes, QUESTION, 0);
        let path = slice_subrange(bytes, 0, mark);
        let mut query = ByteMap::new();
        if mark >= len {
            return (path, query);
        }
        let mut start: usize = mark + 1;
        let ghost mut done: Seq<Seq<u8>> = Seq::empty();
        loop
            invariant
                len == bytes@.len(),
                bytes@ == self@,
                mark < start <= len,
                mark == first_at(bytes@, QUESTION, 0),
                path@ == path_of(bytes@),
                split_from(bytes@, AMPERSAND, mark + 1) == done + split_from(
                    bytes@,
                    AMPERSAND,
                    start as int,
                ),
                query@ == map_of(query_pairs(done)),
            decreases len - start,
        {
            let cut = find_first(bytes, AMPERSAND, start);
            let piece = slice_subrange(bytes, start, cut);
            let sign = find_first(piece, EQUALS, 0);
            proof {
                assert(done.push(piece@).drop_last() =~= done);
            }
            if sign < piece.len() {
                let key = slice_subrange(piece, 0, sign);
                let value = slice_subrange(piece, sign + 1, piece.len());
                query = query.insert(key, value);
                proof {
                    assert(query_pairs(done.push(piece@)).drop_last() =~= query_pairs(done));
                }
            }
            proof {
                if cut < len {
                    assert(done + split_from(bytes@, AMPERSAND, start as int) =~= done.push(
                        piece@,
                    ) + split_from(bytes@, AMPERSAND, cut + 1));
                } else {
                    assert(done + split_from(bytes@, AMPERSAND, start as int) =~= done.push(
                        piece@,
                    ));
                }
                done = done.push(piece@);
            }
            if cut >= len {
                return (path, query);
            }
            start = cut + 1;
        }
    }
}

/// The path without its query string: the bytes before the first question
/// mark, and all of them where there is none.
pub open spec fn path_of(path: Seq<u8>) -> Seq<u8> {
    path.subrange(0, first_at(path, QUESTION, 0))
}

/// The pairs that the pieces of a query string give, in their order: one
/// for every piece that holds an equals sign, made of what stands before
/// the first one and what stands behind it.
pub open spec fn query_pairs(pieces: Seq<Seq<u8>>) -> Seq<PairView>
    decreases pieces.len(),
{
    if pieces.len() == 0 {
        Seq::empty()
    } else {
        let piece = pieces.last();
        let sign = first_at(piece, EQUALS, 0);
        if sign < piece.len() {
            query_pairs(pieces.drop_last()).push(
                (piece.subrange(0, sign), piece.subrange(sign + 1, piece.len() as int)),
            )
        } else {
            query_pairs(pieces.drop_last())
        }
    }
}

/// The map that the query string of a path gives: empty where the path
/// holds no question mark.
pub open spec fn query_of(path: Seq<u8>) -> Map<Seq<u8>, Seq<u8>> {
    let mark = first_at(path, QUESTION, 0);
    if mark < path.len() {
        map_of(query_pairs(split_from(path, AMPERSAND, mark + 1)))
    } else {
        Map::empty()
    }
}

} // verus!
