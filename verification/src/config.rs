//! Size ceilings applied while a request is scanned.

use vstd::prelude::*;

verus! {

/// The ceilings that bound the parsing of one request.
#[derive(Debug, Clone, Copy)]
pub struct HttpHConfigurations {
    /// Ceiling on the method token of the request line.
    pub max_method_size: usize,
    /// Ceiling on the version token of the request line.
    pub max_version_size: usize,
    /// Ceiling on the path token of the request line.
    pub max_path_size: usize,
    /// Ceiling on the header block, the request line not included.
    pub max_headers_size: usize,
    /// Ceiling on the body. The parsers carry it and never enforce it.
    pub max_body_size: Option<usize>,
}

impl HttpHConfigurations {
    /// The stock ceilings: 10 bytes of method, 25 of version, 15 KiB of
    /// path, 10 KiB of headers and no limit on the body.
    pub fn default() -> (config: Self)
        ensures
            config.max_method_size == 10,
            config.max_version_size == 25,
            config.max_path_size == 15360,
            config.max_headers_size == 10240,
            config.max_body_size is None,
    {
        HttpHConfigurations {
            max_method_size: 10,
            max_version_size: 25,
            max_path_size: 1024 * 15,
            max_headers_size: 1024 * 10,
            max_body_size: None,
        }
    }
}

} // verus!
