//! Tokens that reach their ceiling, and parsing as a function of the bytes.

use crate::bytes::{first_at, first_pair_at, lemma_first_at, CR, LF, SPACE};
use crate::config::HttpHConfigurations;
use crate::request::first_line::{first_line_of, FirstLineView};
use crate::request::{fast_request_of, request_of, CreatingRequestErrors, RequestView};
use vstd::prelude::*;

verus! {

/// A method that is as long as its ceiling or longer is refused as an
/// invalid format, whatever follows it, once the buffer reaches beyond the
/// ceiling.
pub proof fn lemma_method_at_ceiling(bytes: Seq<u8>, config: HttpHConfigurations, capacity: int)
    requires
        config.max_method_size < bytes.len(),
        first_at(bytes, SPACE, 0) >= config.max_method_size,
    ensures
        first_line_of(bytes, config) == Err::<FirstLineView, CreatingRequestErrors>(
            CreatingRequestErrors::InvalidHttpFormat,
        ),
        request_of(bytes, config, capacity) == Err::<RequestView, CreatingRequestErrors>(
            CreatingRequestErrors::InvalidHttpFormat,
        ),
        fast_request_of(bytes, config, capacity) == Err::<RequestView, CreatingRequestErrors>(
            CreatingRequestErrors::InvalidHttpFormat,
        ),
{
}

/// Behind a method that is accepted, a path that is as long as its ceiling
/// or longer is refused as dangerous, once the buffer reaches beyond the
/// ceiling.
pub proof fn lemma_path_at_ceiling(bytes: Seq<u8>, config: HttpHConfigurations, capacity: int)
    requires
        first_at(bytes, SPACE, 0) < config.max_method_size,
        first_at(bytes, SPACE, 0) + 1 + config.max_path_size < bytes.len(),
        first_at(bytes, SPACE, first_at(bytes, SPACE, 0) + 1) - (first_at(bytes, SPACE, 0) + 1)
            >= config.max_path_size,
    ensures
        first_line_of(bytes, config) == Err::<FirstLineView, CreatingRequestErrors>(
            CreatingRequestErrors::DangerousInvalidHttpFormat,
        ),
        request_of(bytes, config, capacity) == Err::<RequestView, CreatingRequestErrors>(
            CreatingRequestErrors::DangerousInvalidHttpFormat,
        ),
        fast_request_of(bytes, config, capacity) == Err::<RequestView, CreatingRequestErrors>(
            CreatingRequestErrors::DangerousInvalidHttpFormat,
        ),
{
}

/// Behind a method and a path that are accepted, a version that is as long
/// as its ceiling or longer is refused as dangerous, once the buffer
/// reaches beyond the ceiling.
pub proof fn lemma_version_at_ceiling(bytes: Seq<u8>, config: HttpHConfigurations, capacity: int)
    requires
        ({
            let method_end = first_at(bytes, SPACE, 0);
            let path_end = first_at(bytes, SPACE, method_end + 1);
            let version_end = first_pair_at(bytes, CR, LF, path_end + 1);
            &&& method_end < config.max_method_size
            &&& path_end - (method_end + 1) < config.max_path_size
            &&& path_end + 1 + config.max_version_size < bytes.len()
            &&& version_end - (path_end + 1) >= config.max_version_size
        }),
    ensures
        first_line_of(bytes, config) == Err::<FirstLineView, CreatingRequestErrors>(
            CreatingRequestErrors::DangerousInvalidHttpFormat,
        ),
        request_of(bytes, config, capacity) == Err::<RequestView, CreatingRequestErrors>(
            CreatingRequestErrors::DangerousInvalidHttpFormat,
        ),
        fast_request_of(bytes, config, capacity) == Err::<RequestView, CreatingRequestErrors>(
            CreatingRequestErrors::DangerousInvalidHttpFormat,
        ),
{
    lemma_first_at(bytes, SPACE, 0);
    lemma_first_at(bytes, SPACE, first_at(bytes, SPACE, 0) + 1);
}

/// Parsing keeps no state: what it gives depends on the bytes, the
/// ceilings and the capacity alone, so two parsings of one buffer give one
/// result.
pub proof fn lemma_parsing_twice(
    first: Seq<u8>,
    second: Seq<u8>,
    config: HttpHConfigurations,
    capacity: int,
)
    requires
        first == second,
    ensures
        request_of(first, config, capacity) == request_of(second, config, capacity),
        fast_request_of(first, config, capacity) == fast_request_of(second, config, capacity),
{
}

} // verus!
