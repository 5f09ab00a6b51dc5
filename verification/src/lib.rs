//! Zero-copy parsing of HTTP/1.1 request lines and header blocks.
//!
//! Every parser works on a caller-owned byte buffer and hands back views
//! into it. The size ceilings that bound a scan are passed in as an
//! [`config::HttpHConfigurations`] value.

pub mod byte_map;
pub mod bytes;
pub mod config;
pub mod laws;
pub mod request;
pub mod text;
