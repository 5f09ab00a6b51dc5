//! Header values with parameters, such as `text/html; charset=utf-8`.

use crate::byte_map::ByteMap;
use crate::bytes::{
    bytes_equal, find_first, find_last, first_at, last_before, split_from, EQUALS, SEMICOLON,
    SPACE,
};
use crate::text::utf8_text;
use vstd::prelude::*;
use vstd::slice::slice_subrange;
use vstd::string::StringSliceAdditionalSpecFns;
use vstd::utf8::valid_utf8;

verus! {

/// The parameters of a header value, as plain values: a map from the name
/// of a parameter to its bytes. The one key without a name is that of the
/// bare tokens, which share it.
pub type ParamsMap = Map<Option<Seq<u8>>, Seq<u8>>;

/// A header value with its parameters, as plain values.
pub struct ParamsView {
    /// The whole value.
    pub data: Seq<u8>,
    /// The primary value.
    pub value: Seq<u8>,
    /// The parameters.
    pub params: ParamsMap,
}

/// The token of a segment: the segment itself, or, behind a semicolon,
/// the segment without the single space that it may start with.
pub open spec fn token_of(segment: Seq<u8>, leading: bool) -> Seq<u8> {
    if !leading && segment.len() > 0 && segment[0] == SPACE {
        segment.subrange(1, segment.len() as int)
    } else {
        segment
    }
}

/// Whether a token holds an equals sign, which makes it a named parameter.
pub open spec fn is_named(token: Seq<u8>) -> bool {
    last_before(token, EQUALS, token.len() as int) >= 0
}

/// The name of a named parameter: what stands before its last equals sign,
/// behind the equals sign before that one if there is one.
pub open spec fn name_of(token: Seq<u8>) -> Seq<u8> {
    let sign = last_before(token, EQUALS, token.len() as int);
    token.subrange(last_before(token, EQUALS, sign) + 1, sign)
}

/// The bytes of a named parameter: what stands behind its last equals
/// sign.
pub open spec fn bytes_of(token: Seq<u8>) -> Seq<u8> {
    token.subrange(last_before(token, EQUALS, token.len() as int) + 1, token.len() as int)
}

/// The parameters that the segments of a value give, taken from left to
/// right. A named parameter goes under its name. A bare token goes under
/// the key without a name, unless it is the leading segment, which is the
/// primary value and no parameter. A later parameter replaces an earlier
/// one of the same key.
pub open spec fn collected(segments: Seq<Seq<u8>>) -> ParamsMap
    decreases segments.len(),
{
    if segments.len() == 0 {
        Map::empty()
    } else {
        let before = collected(segments.drop_last());
        let leading = segments.len() == 1;
        let token = token_of(segments.last(), leading);
        if is_named(token) {
            before.insert(Some(name_of(token)), bytes_of(token))
        } else if leading {
            before
        } else {
            before.insert(None, token)
        }
    }
}

/// Whether a value is refused: it ends with an equals sign, or with the
/// space that follows a semicolon.
pub open spec fn refused(bytes: Seq<u8>) -> bool {
    let len = bytes.len() as int;
    ||| len >= 1 && bytes[len - 1] == EQUALS
    ||| len >= 2 && bytes[len - 2] == SEMICOLON && bytes[len - 1] == SPACE
}

/// The primary value of a value: its leading segment, the bytes before
/// the first semicolon, unless that segment is a named parameter; the
/// whole value then.
pub open spec fn primary_of(bytes: Seq<u8>) -> Seq<u8> {
    let leading = bytes.subrange(0, first_at(bytes, SEMICOLON, 0));
    if is_named(leading) {
        bytes
    } else {
        leading
    }
}

/// What the reading of `bytes` as a value with parameters gives. The
/// semicolons cut the value into segments.
pub open spec fn parameterized(bytes: Seq<u8>) -> Result<ParamsView, ()> {
    if refused(bytes) {
        Err(())
    } else {
        Ok(
            ParamsView {
                data: bytes,
                value: primary_of(bytes),
                params: collected(split_from(bytes, SEMICOLON, 0)),
            },
        )
    }
}

/// What a lookup of `name` among parameters gives: the bytes of the
/// parameter of that name; or else the bare token, if there is one and it
/// reads `name`.
pub open spec fn param_of(params: ParamsMap, name: Seq<u8>) -> Option<Seq<u8>> {
    if params.dom().contains(Some(name)) {
        Some(params[Some(name)])
    } else if params.dom().contains(None) && params[None] == name {
        Some(name)
    } else {
        None
    }
}

/// The parameters of a header value.
#[derive(Debug)]
pub struct HeaderParams<'buf> {
    /// The parameters that have a name.
    pub named: ByteMap<'buf>,
    /// The last bare token.
    pub unnamed: Option<&'buf [u8]>,
}

impl<'buf> View for HeaderParams<'buf> {
    type V = ParamsMap;

    open spec fn view(&self) -> ParamsMap {
        Map::new(
            |key: Option<Seq<u8>>|
                match key {
                    Some(name) => self.named@.dom().contains(name),
                    None => self.unnamed is Some,
                },
            |key: Option<Seq<u8>>|
                match key {
                    Some(name) => self.named@[name],
                    None => self.unnamed->Some_0@,
                },
        )
    }
}

impl<'buf> HeaderParams<'buf> {
    /// No parameters.
    pub fn new() -> (params: HeaderParams<'buf>)
        ensures
            params@ == ParamsMap::empty(),
    {
        let params = HeaderParams { named: ByteMap::new(), unnamed: None };
        assert(params@ =~= ParamsMap::empty());
        params
    }

    /// The parameters with `bytes` under `name`, and under the key without
    /// a name where `name` is `None`.
    pub fn insert(self, name: Option<&'buf [u8]>, bytes: &'buf [u8]) -> (params: HeaderParams<
        'buf,
    >)
        ensures
            params@ == self@.insert(
                match name {
                    Some(n) => Some(n@),
                    None => None,
                },
                bytes@,
            ),
    {
        let ghost key: Option<Seq<u8>> = match name {
            Some(n) => Some(n@),
            None => None,
        };
        let params = match name {
            Some(n) => HeaderParams { named: self.named.insert(n, bytes), unnamed: self.unnamed },
            None => HeaderParams { named: self.named, unnamed: Some(bytes) },
        };
        assert(params@ =~= self@.insert(key, bytes@));
        params
    }

    /// The bytes of the parameter `name`; or else the bare token, if there
    /// is one and it reads `name`.
    pub fn get(&self, name: &[u8]) -> (bytes: Option<&'buf [u8]>)
        ensures
            match bytes {
                Some(b) => param_of(self@, name@) == Some(b@),
                None => param_of(self@, name@) is None,
            },
    {
        match self.named.get(name) {
            Some(bytes) => Some(bytes),
            None => match self.unnamed {
                Some(token) => if bytes_equal(token, name) {
                    Some(token)
                } else {
                    None
                },
                None => None,
            },
        }
    }
}

/// A header value taken apart: its primary value and its parameters.
#[derive(Debug)]
pub struct HeaderVWithParams<'buf> {
    data: &'buf [u8],
    value: &'buf [u8],
    /// The parameters of the value.
    pub params: HeaderParams<'buf>,
}

impl<'buf> View for HeaderVWithParams<'buf> {
    type V = ParamsView;

    closed spec fn view(&self) -> ParamsView {
        ParamsView { data: self.data@, value: self.value@, params: self.params@ }
    }
}

impl<'buf> HeaderVWithParams<'buf> {
    /// Takes `bytes` apart into a primary value and parameters.
    pub fn new(bytes: &'buf [u8]) -> (parsed: Result<HeaderVWithParams<'buf>, ()>)
        ensures
            match parsed {
                Ok(p) => parameterized(bytes@) == Ok::<ParamsView, ()>(p@),
                Err(_) => parameterized(bytes@) is Err,
            },
    {
        let len = bytes.len();
        if len >= 1 && bytes[len - 1] == EQUALS {
            return Err(());
        }
        if len >= 2 && bytes[len - 2] == SEMICOLON && bytes[len - 1] == SPACE {
            return Err(());
        }
        let mut params = HeaderParams::new();
        let mut primary: Option<&'buf [u8]> = None;
        let mut leading = true;
        let mut start: usize = 0;
        let ghost mut done: Seq<Seq<u8>> = Seq::empty();
        loop
            invariant
                len == bytes@.len(),
                !refused(bytes@),
                start <= len,
                leading <==> done.len() == 0,
                leading ==> start == 0 && primary is None,
                split_from(bytes@, SEMICOLON, 0) == done + split_from(
                    bytes@,
                    SEMICOLON,
                    start as int,
                ),
                params@ == collected(done),
                !leading ==> done[0] == bytes@.subrange(0, first_at(bytes@, SEMICOLON, 0)),
                !leading ==> match primary {
                    Some(p) => !is_named(done[0]) && p@ == done[0],
                    None => is_named(done[0]),
                },
            decreases len - start,
        {
            let cut = find_first(bytes, SEMICOLON, start);
            let segment = slice_subrange(bytes, start, cut);
            let token = if !leading && segment.len() > 0 && segment[0] == SPACE {
                slice_subrange(segment, 1, segment.len())
            } else {
                segment
            };
            proof {
                assert(done.push(segment@).drop_last() =~= done);
            }
            match find_last(token, EQUALS, token.len()) {
                Some(sign) => {
                    let name_start = match find_last(token, EQUALS, sign) {
                        Some(earlier) => earlier + 1,
                        None => 0,
                    };
                    let name = slice_subrange(token, name_start, sign);
                    let value = slice_subrange(token, sign + 1, token.len());
                    params = params.insert(Some(name), value);
                },
                None => {
                    if leading {
                        primary = Some(token);
                    } else {
                        params = params.insert(None, token);
                    }
                },
            }
            proof {
                if cut < len {
                    assert(done + split_from(bytes@, SEMICOLON, start as int) =~= done.push(
                        segment@,
                    ) + split_from(bytes@, SEMICOLON, cut + 1));
                } else {
                    assert(done + split_from(bytes@, SEMICOLON, start as int) =~= done.push(
                        segment@,
                    ));
                }
                done = done.push(segment@);
            }
            leading = false;
            if cut >= len {
                let value = match primary {
                    Some(p) => p,
                    None => bytes,
                };
                return Ok(HeaderVWithParams { data: bytes, value, params });
            }
            start = cut + 1;
        }
    }

    /// The primary value as text, when its bytes are UTF-8.
    pub fn to_str(&self) -> (text: Option<&'buf str>)
        ensures
            text is Some <==> valid_utf8(self@.value),
            text matches Some(t) ==> t.spec_bytes() == self@.value,
    {
        utf8_text(self.value)
    }

    /// The whole value as text, when its bytes are UTF-8.
    pub fn whole_value_as_str(&self) -> (text: Option<&'buf str>)
        ensures
            text is Some <==> valid_utf8(self@.data),
            text matches Some(t) ==> t.spec_bytes() == self@.data,
    {
        utf8_text(self.data)
    }

    /// The bytes of the primary value.
    pub fn value_bytes(&self) -> (bytes: &'buf [u8])
        ensures
            bytes@ == self@.value,
    {
        self.value
    }

    /// The bytes of the whole value.
    pub fn whole_value(&self) -> (bytes: &'buf [u8])
        ensures
            bytes@ == self@.data,
    {
        self.data
    }

    /// The bytes of the parameter `k`; or else the bare token, if there is
    /// one and it reads `k`.
    pub fn get_param(&self, k: &str) -> (bytes: Option<&'buf [u8]>)
        ensures
            match bytes {
                Some(b) => param_of(self@.params, k.spec_bytes()) == Some(b@),
                None => param_of(self@.params, k.spec_bytes()) is None,
            },
    {
        self.params.get(k.as_bytes())
    }
}

} // verus!
