//! The request line: method, path and version.

use crate::bytes::{
    first_at, first_pair_at, lemma_first_at, lemma_first_at_found, lemma_first_pair_at,
    lemma_first_pair_at_found, CR, LF, SPACE,
};
use crate::config::HttpHConfigurations;
use crate::request::{CreatingRequestErrors, HttpPath};
use crate::text::utf8_text;
use vstd::prelude::*;
use vstd::slice::slice_subrange;
use vstd::string::StringSliceAdditionalSpecFns;
use vstd::utf8::valid_utf8;

verus! {

/// What a request line holds, as plain values.
pub struct FirstLineView {
    /// The bytes of the method.
    pub method: Seq<u8>,
    /// The bytes of the path, query string included.
    pub path: Seq<u8>,
    /// The bytes of the version.
    pub version: Seq<u8>,
    /// The offset of the first byte after the line break that ends the line.
    pub first_line_length: nat,
}

/// What the parsing of `bytes` as a request line gives.
///
/// The line is `method SP path SP version CR LF`. The method ends at the
/// first space, the path at the next one, the version at the first
/// carriage return that a line feed follows; a lone carriage return belongs
/// to the version.
///
/// A token is refused once the scan has gone as many bytes into it as its
/// ceiling says without finding its end: `InvalidHttpFormat` for the method,
/// `DangerousInvalidHttpFormat` for the path and the version. Where the
/// buffer ends before that, more data is needed. Method and version must be
/// UTF-8, or else the line is refused as dangerous; the path is not looked
/// into.
pub open spec fn first_line_of(bytes: Seq<u8>, config: HttpHConfigurations) -> Result<
    FirstLineView,
    CreatingRequestErrors,
> {
    let len = bytes.len() as int;
    let method_end = first_at(bytes, SPACE, 0);
    let path_start = method_end + 1;
    let path_end = first_at(bytes, SPACE, path_start);
    let version_start = path_end + 1;
    let version_end = first_pair_at(bytes, CR, LF, version_start);
    if config.max_method_size < len && config.max_method_size <= method_end {
        Err(CreatingRequestErrors::InvalidHttpFormat)
    } else if path_start >= len {
        Err(CreatingRequestErrors::InsufficientDataSoReadMore)
    } else if path_start + config.max_path_size < len && path_start + config.max_path_size
        <= path_end {
        Err(CreatingRequestErrors::DangerousInvalidHttpFormat)
    } else if version_start >= len {
        Err(CreatingRequestErrors::InsufficientDataSoReadMore)
    } else if version_start + config.max_version_size < len && version_start
        + config.max_version_size <= version_end {
        Err(CreatingRequestErrors::DangerousInvalidHttpFormat)
    } else if version_end >= len {
        Err(CreatingRequestErrors::InsufficientDataSoReadMore)
    } else if !valid_utf8(bytes.subrange(0, method_end)) || !valid_utf8(
        bytes.subrange(version_start, version_end),
    ) {
        Err(CreatingRequestErrors::DangerousInvalidHttpFormat)
    } else {
        Ok(
            FirstLineView {
                method: bytes.subrange(0, method_end),
                path: bytes.subrange(path_start, path_end),
                version: bytes.subrange(version_start, version_end),
                first_line_length: (version_end + 2) as nat,
            },
        )
    }
}

/// The request line of a request. Its parts are views into the buffer that
/// was parsed.
#[derive(Debug)]
pub struct HttpFirstLine<'buf> {
    /// The version, which was checked to be text.
    pub version: &'buf str,
    /// The path, query string included.
    pub path: HttpPath<'buf>,
    /// The method, which was checked to be text.
    pub method: &'buf str,
    /// The offset of the first byte after the line break that ends the line.
    pub first_line_length: usize,
}

impl<'buf> HttpFirstLine<'buf> {
    /// The line as plain values.
    pub open spec fn view(&self) -> FirstLineView {
        FirstLineView {
            method: self.method.spec_bytes(),
            path: self.path@,
            version: self.version.spec_bytes(),
            first_line_length: self.first_line_length as nat,
        }
    }

    /// Parses the request line that `bytes` starts with, under the ceilings
    /// of `config`.
    #[verifier::loop_isolation(false)]
    pub fn from_server(bytes: &'buf [u8], config: &HttpHConfigurations) -> (line: Result<
        HttpFirstLine<'buf>,
        CreatingRequestErrors,
    >)
        ensures
            match line {
                Ok(l) => first_line_of(bytes@, *config) == Ok::<
                    FirstLineView,
                    CreatingRequestErrors,
                >(l@),
                Err(e) => first_line_of(bytes@, *config) == Err::<
                    FirstLineView,
                    CreatingRequestErrors,
                >(e),
            },
    {
        let len = bytes.len();
        let mut index: usize = 0;
        while index < len && bytes[index] != SPACE
            invariant
                len == bytes@.len(),
                index <= len,
                index <= config.max_method_size,
                forall|j: int| 0 <= j < index ==> bytes@[j] != SPACE,
            decreases len - index,
        {
            if index >= config.max_method_size {
                proof {
                    lemma_token_too_long(bytes@, SPACE, 0, index as int);
                }
                return Err(CreatingRequestErrors::InvalidHttpFormat);
            }
            index = index + 1;
        }
        let method_end = index;
        proof {
            lemma_first_at_found(bytes@, SPACE, 0, method_end as int);
        }
        if method_end < len && method_end >= config.max_method_size {
            return Err(CreatingRequestErrors::InvalidHttpFormat);
        }
        if method_end >= len || method_end + 1 >= len {
            return Err(CreatingRequestErrors::InsufficientDataSoReadMore);
        }
        let path_start = method_end + 1;
        index = path_start;
        while index < len && bytes[index] != SPACE
            invariant
                len == bytes@.len(),
                path_start <= index <= len,
                index - path_start <= config.max_path_size,
                forall|j: int| path_start <= j < index ==> bytes@[j] != SPACE,
            decreases len - index,
        {
            if index - path_start >= config.max_path_size {
                proof {
                    lemma_token_too_long(bytes@, SPACE, path_start as int, index as int);
                }
                return Err(CreatingRequestErrors::DangerousInvalidHttpFormat);
            }
            index = index + 1;
        }
        let path_end = index;
        proof {
            lemma_first_at_found(bytes@, SPACE, path_start as int, path_end as int);
        }
        if path_end < len && path_end - path_start >= config.max_path_size {
            return Err(CreatingRequestErrors::DangerousInvalidHttpFormat);
        }
        if path_end >= len || path_end + 1 >= len {
            return Err(CreatingRequestErrors::InsufficientDataSoReadMore);
        }
        let version_start = path_end + 1;
        index = version_start;
        while index < len && !(bytes[index] == CR && index + 1 < len && bytes[index + 1] == LF)
            invariant
                len == bytes@.len(),
                version_start <= index <= len,
                index - version_start <= config.max_version_size,
                forall|j: int|
                    version_start <= j < index && j + 1 < len ==> !(#[trigger] bytes@[j] == CR
                        && bytes@[j + 1] == LF),
            decreases len - index,
        {
            if index - version_start >= config.max_version_size {
                proof {
                    lemma_version_too_long(bytes@, version_start as int, index as int);
                }
                return Err(CreatingRequestErrors::DangerousInvalidHttpFormat);
            }
            index = index + 1;
        }
        let version_end = index;
        proof {
            lemma_first_pair_at_found(bytes@, CR, LF, version_start as int, version_end as int);
        }
        if version_end < len && version_end - version_start >= config.max_version_size {
            return Err(CreatingRequestErrors::DangerousInvalidHttpFormat);
        }
        if version_end >= len {
            return Err(CreatingRequestErrors::InsufficientDataSoReadMore);
        }
        let method = utf8_text(slice_subrange(bytes, 0, method_end));
        let version = utf8_text(slice_subrange(bytes, version_start, version_end));
        let path = HttpPath::new(slice_subrange(bytes, path_start, path_end));
        match (method, version) {
            (Some(method), Some(version)) => Ok(
                HttpFirstLine { method, version, path, first_line_length: version_end + 2 },
            ),
            _ => Err(CreatingRequestErrors::DangerousInvalidHttpFormat),
        }
    }
}

/// A request line that parses ends with a carriage return and a line feed
/// inside the buffer, behind two spaces; its tokens are those that lie
/// between the delimiters.
pub proof fn lemma_first_line_shape(bytes: Seq<u8>, config: HttpHConfigurations)
    requires
        first_line_of(bytes, config) is Ok,
    ensures
        ({
            let line = first_line_of(bytes, config)->Ok_0;
            let end = line.first_line_length as int;
            &&& 4 <= end <= bytes.len()
            &&& bytes[end - 2] == CR
            &&& bytes[end - 1] == LF
            &&& end == line.method.len() + line.path.len() + line.version.len() + 4
            &&& line.method.len() < config.max_method_size
            &&& line.path.len() < config.max_path_size
            &&& line.version.len() < config.max_version_size
            &&& bytes.subrange(0, end) == line.method + seq![SPACE] + line.path + seq![SPACE]
                + line.version + seq![CR, LF]
        }),
{
    let method_end = first_at(bytes, SPACE, 0);
    lemma_first_at(bytes, SPACE, 0);
    let path_end = first_at(bytes, SPACE, method_end + 1);
    lemma_first_at(bytes, SPACE, method_end + 1);
    let version_end = first_pair_at(bytes, CR, LF, path_end + 1);
    lemma_first_pair_at(bytes, CR, LF, path_end + 1);
    let line = first_line_of(bytes, config)->Ok_0;
    assert(bytes.subrange(0, version_end + 2) =~= line.method + seq![SPACE] + line.path
        + seq![SPACE] + line.version + seq![CR, LF]);
}

/// A scan that has reached `at` from `start` without meeting `byte` cannot
/// meet it before `at`.
proof fn lemma_token_too_long(bytes: Seq<u8>, byte: u8, start: int, at: int)
    requires
        0 <= start <= at < bytes.len(),
        forall|j: int| start <= j < at ==> bytes[j] != byte,
    ensures
        first_at(bytes, byte, start) >= at,
{
    lemma_first_at(bytes, byte, start);
}

/// A scan that has reached `at` from `start` without meeting a line break
/// cannot meet one before `at`.
proof fn lemma_version_too_long(bytes: Seq<u8>, start: int, at: int)
    requires
        0 <= start <= at < bytes.len(),
        forall|j: int|
            start <= j < at && j + 1 < bytes.len() ==> !(#[trigger] bytes[j] == CR && bytes[j + 1]
                == LF),
    ensures
        first_pair_at(bytes, CR, LF, start) >= at,
{
    lemma_first_pair_at(bytes, CR, LF, start);
}

} // verus!
