//! The header block of a request.

pub mod errors;
pub mod lookup;
pub mod params;
pub mod scan;

use crate::bytes::{bytes_equal, find_first_pair, split_pair_from, COLON, COMMA, CR, LF, SPACE};
use crate::config::HttpHConfigurations;
use crate::request::headers::params::{parameterized, HeaderVWithParams, ParamsView};
use crate::request::headers::scan::{
    close_line, content_length_key, content_length_key_lowercase, decimal_usize, decimal_value,
    headers_of, is_content_length_key, is_digits, lemma_decimal_value_grows,
    lemma_decimal_value_push, scan_headers, scan_start, HeadersView, LineView, ScanState,
    END_OF_HEADERS_RUN,
};
use crate::text::utf8_text;
use vstd::prelude::*;
use vstd::slice::slice_subrange;
use vstd::string::StringSliceAdditionalSpecFns;
use vstd::utf8::valid_utf8;

pub use crate::request::headers::errors::CreatingHeadersErrors;

verus! {

/// The value of a header line as it stands in the buffer. It may hold one
/// value or several.
#[derive(Debug, Clone, Copy)]
pub struct HeaderValue<'buf> {
    bytes: &'buf [u8],
}

impl<'buf> View for HeaderValue<'buf> {
    type V = Seq<u8>;

    closed spec fn view(&self) -> Seq<u8> {
        self.bytes@
    }
}

impl<'buf> HeaderValue<'buf> {
    /// The value made of `bytes`.
    pub fn new(bytes: &'buf [u8]) -> (value: HeaderValue<'buf>)
        ensures
            value@ == bytes@,
    {
        HeaderValue { bytes }
    }

    /// The bytes of the value.
    pub fn as_bytes(&self) -> (bytes: &'buf [u8])
        ensures
            bytes@ == self@,
    {
        self.bytes
    }

    /// The value as text, when its bytes are UTF-8.
    pub fn to_str(&self) -> (text: Option<&'buf str>)
        ensures
            text is Some <==> valid_utf8(self@),
            text matches Some(t) ==> t.spec_bytes() == self@,
    {
        utf8_text(self.bytes)
    }

    /// The values that a header such as `Accept: text/html, */*;q=0.8`
    /// holds: the pieces into which a comma followed by a space cuts the
    /// value. Nothing is trimmed, and no other separator counts.
    pub fn all_injected_values(&self) -> (values: Vec<&'buf [u8]>)
        ensures
            byte_views(values@) == split_pair_from(self@, COMMA, SPACE, 0),
    {
        let bytes = self.bytes;
        let len = bytes.len();
        let mut values: Vec<&'buf [u8]> = Vec::new();
        let mut start: usize = 0;
        loop
            invariant
                len == bytes@.len(),
                bytes@ == self@,
                start <= len,
                split_pair_from(bytes@, COMMA, SPACE, 0) == byte_views(values@) + split_pair_from(
                    bytes@,
                    COMMA,
                    SPACE,
                    start as int,
                ),
            decreases len - start,
        {
            let cut = find_first_pair(bytes, COMMA, SPACE, start);
            let ghost before = values@;
            if cut < len {
                values.push(slice_subrange(bytes, start, cut));
                proof {
                    assert(byte_views(values@) =~= byte_views(before).push(
                        bytes@.subrange(start as int, cut as int),
                    ));
                    assert(byte_views(before) + split_pair_from(bytes@, COMMA, SPACE, start as int)
                        =~= byte_views(values@) + split_pair_from(bytes@, COMMA, SPACE, cut + 2));
                }
                start = cut + 2;
            } else {
                values.push(slice_subrange(bytes, start, len));
                proof {
                    assert(byte_views(values@) =~= byte_views(before).push(
                        bytes@.subrange(start as int, len as int),
                    ));
                    assert(byte_views(before) + split_pair_from(bytes@, COMMA, SPACE, start as int)
                        =~= byte_views(values@));
                }
                return values;
            }
        }
    }

    /// The values that the header holds, each taken apart into its primary
    /// value and its parameters. A value that is refused is left out.
    pub fn all_injected_values_with_params(&self) -> (values: Vec<HeaderVWithParams<'buf>>)
        ensures
            params_views(values@) == accepted(split_pair_from(self@, COMMA, SPACE, 0)),
    {
        let pieces = self.all_injected_values();
        let mut values: Vec<HeaderVWithParams<'buf>> = Vec::new();
        let mut i: usize = 0;
        while i < pieces.len()
            invariant
                i <= pieces@.len(),
                params_views(values@) == accepted(byte_views(pieces@).take(i as int)),
            decreases pieces@.len() - i,
        {
            proof {
                assert(byte_views(pieces@).take(i + 1).drop_last() =~= byte_views(pieces@).take(
                    i as int,
                ));
            }
            match HeaderVWithParams::new(pieces[i]) {
                Ok(value) => {
                    let ghost before = values@;
                    values.push(value);
                    assert(params_views(values@) =~= params_views(before).push(value@));
                },
                Err(_) => {},
            }
            i = i + 1;
        }
        proof {
            assert(byte_views(pieces@).take(i as int) =~= byte_views(pieces@));
        }
        values
    }
}

/// The bytes that slices hold.
pub open spec fn byte_views(slices: Seq<&[u8]>) -> Seq<Seq<u8>> {
    Seq::new(slices.len(), |i: int| slices[i]@)
}

/// The values with parameters that a vector holds, as plain values.
pub open spec fn params_views(values: Seq<HeaderVWithParams>) -> Seq<ParamsView> {
    Seq::new(values.len(), |i: int| values[i]@)
}

/// What the reading of `pieces` as values with parameters gives, in their
/// order: one value for every piece that is not refused.
pub open spec fn accepted(pieces: Seq<Seq<u8>>) -> Seq<ParamsView>
    decreases pieces.len(),
{
    if pieces.len() == 0 {
        Seq::empty()
    } else {
        match parameterized(pieces.last()) {
            Ok(value) => accepted(pieces.drop_last()).push(value),
            Err(_) => accepted(pieces.drop_last()),
        }
    }
}

/// One header line: what stands before the colon and what stands behind it.
#[derive(Debug, Clone, Copy)]
pub struct HeaderLine<'buf> {
    /// The key. Its bytes are not checked to be text.
    pub key: &'buf [u8],
    /// The value.
    pub value: HeaderValue<'buf>,
}

impl<'buf> View for HeaderLine<'buf> {
    type V = LineView;

    open spec fn view(&self) -> LineView {
        LineView { key: self.key@, value: self.value@ }
    }
}

impl<'buf> HeaderLine<'buf> {
    /// The line with an empty key and an empty value.
    pub fn empty() -> (line: HeaderLine<'buf>)
        ensures
            line@.key.len() == 0,
            line@.value.len() == 0,
    {
        let nothing: &'buf [u8] = &[];
        HeaderLine { key: nothing, value: HeaderValue::new(nothing) }
    }
}

/// Room for `HL` header lines. Lines are kept in the order in which they
/// come; once the room is used up, further lines are dropped.
#[derive(Debug)]
pub struct HeaderStore<'buf, const HL: usize> {
    slots: [HeaderLine<'buf>; HL],
    stored: usize,
}

impl<'buf, const HL: usize> View for HeaderStore<'buf, HL> {
    type V = Seq<LineView>;

    closed spec fn view(&self) -> Seq<LineView> {
        Seq::new(self.stored as nat, |i: int| self.slots@[i]@)
    }
}

impl<'buf, const HL: usize> HeaderStore<'buf, HL> {
    #[verifier::type_invariant]
    spec fn within_capacity(self) -> bool {
        self.stored <= HL
    }

    /// A store that holds no line.
    pub fn new() -> (store: Self)
        ensures
            store@ == Seq::<LineView>::empty(),
    {
        let store = HeaderStore { slots: [HeaderLine::empty();HL], stored: 0 };
        assert(store@ =~= Seq::<LineView>::empty());
        store
    }

    /// The number of lines that are kept. It never exceeds `HL`.
    pub fn len(&self) -> (len: usize)
        ensures
            len == self@.len(),
            len <= HL,
    {
        proof {
            use_type_invariant(self);
        }
        self.stored
    }

    /// The line that was kept as number `index`.
    pub fn line(&self, index: usize) -> (line: &HeaderLine<'buf>)
        requires
            index < self@.len(),
        ensures
            line@ == self@[index as int],
    {
        proof {
            use_type_invariant(self);
        }
        &self.slots[index]
    }

    /// Keeps `line` if there is room left for it, and drops it otherwise.
    pub fn keep(&mut self, line: HeaderLine<'buf>)
        ensures
            final(self)@ == if old(self)@.len() < HL {
                old(self)@.push(line@)
            } else {
                old(self)@
            },
    {
        proof {
            use_type_invariant(&*self);
        }
        if self.stored < HL {
            self.slots[self.stored] = line;
            self.stored = self.stored + 1;
            assert(self@ =~= old(self)@.push(line@));
        }
    }
}

/// The headers of a request.
#[derive(Debug)]
pub struct HttpHeaders<'buf, const HL: usize> {
    /// The lines that were kept: the first `HL` of the block.
    pub lines: HeaderStore<'buf, HL>,
    /// What the last content-length line of the block said. It is read from
    /// every line of the block, kept or dropped.
    pub content_length: Option<usize>,
    /// The offset of the byte that ended the block.
    pub headers_length: usize,
}

impl<'buf, const HL: usize> View for HttpHeaders<'buf, HL> {
    type V = HeadersView;

    open spec fn view(&self) -> HeadersView {
        HeadersView {
            lines: self.lines@,
            content_length: self.content_length,
            headers_length: self.headers_length as nat,
        }
    }
}

/// The number that `bytes` write in decimal digits.
///
/// The bytes must be one to twenty ASCII digits and the number must fit the
/// machine word; there is no number otherwise.
pub fn bytes_to_usize(bytes: &[u8]) -> (number: Option<usize>)
    ensures
        number == decimal_usize(bytes@),
{
    if bytes.len() == 0 || bytes.len() > 20 {
        return None;
    }
    let mut result: usize = 0;
    let mut i: usize = 0;
    while i < bytes.len()
        invariant
            i <= bytes@.len(),
            1 <= bytes@.len() <= 20,
            is_digits(bytes@.take(i as int)),
            result == decimal_value(bytes@.take(i as int)),
        decreases bytes@.len() - i,
    {
        let byte = bytes[i];
        if byte < 48 || byte > 57 {
            return None;
        }
        proof {
            lemma_decimal_value_push(bytes@, i as int);
            if is_digits(bytes@) {
                lemma_decimal_value_grows(bytes@, i as int + 1);
            }
        }
        let digit: usize = (byte - 48) as usize;
        result =
        match result.checked_mul(10) {
            Some(tenfold) => match tenfold.checked_add(digit) {
                Some(sum) => sum,
                None => {
                    return None;
                },
            },
            None => {
                return None;
            },
        };
        i = i + 1;
    }
    proof {
        assert(bytes@.take(i as int) =~= bytes@);
    }
    Some(result)
}

/// Whether `key` is `Content-Length` or `content-length`.
fn asks_content_length(key: &[u8]) -> (asks: bool)
    ensures
        asks == is_content_length_key(key@),
{
    let capitalised: [u8; 14] = [67, 111, 110, 116, 101, 110, 116, 45, 76, 101, 110, 103, 116, 104];
    let lowercase: [u8; 14] = [99, 111, 110, 116, 101, 110, 116, 45, 108, 101, 110, 103, 116, 104];
    proof {
        assert(capitalised@ =~= content_length_key());
        assert(lowercase@ =~= content_length_key_lowercase());
    }
    bytes_equal(key, capitalised.as_slice()) || bytes_equal(key, lowercase.as_slice())
}

impl<'buf, const HL: usize> HttpHeaders<'buf, HL> {
    /// Scans the header block that `bytes` starts with, under the ceiling
    /// that `config` sets on the size of a block.
    ///
    /// The scan never refuses a block for the number of its lines, nor
    /// for its format.
    pub fn new(bytes: &'buf [u8], config: &HttpHConfigurations) -> (headers: Result<
        HttpHeaders<'buf, HL>,
        CreatingHeadersErrors,
    >)
        ensures
            match headers {
                Ok(h) => headers_of(bytes@, config.max_headers_size as int, HL as int) == Ok::<
                    HeadersView,
                    CreatingHeadersErrors,
                >(h@),
                Err(e) => headers_of(bytes@, config.max_headers_size as int, HL as int) == Err::<
                    HeadersView,
                    CreatingHeadersErrors,
                >(e),
            },
    {
        let len = bytes.len();
        let ceiling = config.max_headers_size;
        let mut lines: HeaderStore<'buf, HL> = HeaderStore::new();
        let mut content_length: Option<usize> = None;
        let mut key: Option<&'buf [u8]> = None;
        let mut mark: usize = 0;
        let mut run: u8 = 0;
        let mut index: usize = 0;
        let ghost mut st: ScanState = scan_start();
        while index < len
            invariant
                len == bytes@.len(),
                ceiling == config.max_headers_size,
                mark <= index,
                run < END_OF_HEADERS_RUN,
                st.mark == mark,
                st.run == run,
                st.lines == lines@,
                st.content_length == content_length,
                match key {
                    Some(k) => st.key == Some(k@),
                    None => st.key is None,
                },
                headers_of(bytes@, ceiling as int, HL as int) == scan_headers(
                    bytes@,
                    ceiling as int,
                    HL as int,
                    index as int,
                    st,
                ),
            decreases len - index,
        {
            if index >= ceiling {
                return Err(CreatingHeadersErrors::DangerousInvalidFormat);
            }
            let byte = bytes[index];
            if byte == COLON {
                if key.is_some() {
                    run = 0;
                    proof {
                        st = ScanState { run: 0, ..st };
                    }
                    index = index + 1;
                } else {
                    if len - index <= 2 {
                        return Err(CreatingHeadersErrors::ReadMore);
                    }
                    let k = slice_subrange(bytes, mark, index);
                    key = Some(k);
                    mark = index + 2;
                    run = 0;
                    proof {
                        st = ScanState { key: Some(k@), mark: index + 2, run: 0, ..st };
                    }
                    index = index + 2;
                }
            } else if byte == CR {
                let ghost closed = close_line(st, bytes@.subrange(mark as int, index as int), HL as int);
                if let Some(k) = key {
                    let value = slice_subrange(bytes, mark, index);
                    if asks_content_length(k) {
                        content_length = bytes_to_usize(value);
                    }
                    lines.keep(HeaderLine { key: k, value: HeaderValue::new(value) });
                    key = None;
                }
                run = run + 1;
                if run >= END_OF_HEADERS_RUN {
                    return Ok(HttpHeaders { lines, content_length, headers_length: index });
                }
                if index + 1 >= len {
                    return Err(CreatingHeadersErrors::ReadMore);
                }
                mark = index + 1;
                proof {
                    st = ScanState { mark: index + 1, run: run as int, ..closed };
                }
                index = index + 1;
            } else if byte == LF {
                run = run + 1;
                if run >= END_OF_HEADERS_RUN {
                    return Ok(HttpHeaders { lines, content_length, headers_length: index });
                }
                if index + 1 >= len {
                    return Err(CreatingHeadersErrors::ReadMore);
                }
                mark = index + 1;
                proof {
                    st = ScanState { mark: index + 1, run: run as int, ..st };
                }
                index = index + 1;
            } else {
                run = 0;
                proof {
                    st = ScanState { run: 0, ..st };
                }
                index = index + 1;
            }
        }
        Err(CreatingHeadersErrors::ReadMore)
    }
}

} // verus!
