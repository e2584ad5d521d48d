//! A small HTTP/1.1 server framework: wire-format parsing, URL parsing,
//! URI-pattern routing with path parameters, a middleware chain, and the
//! pure core of a blocking HTTP client.
//!
//! Everything here is executable Rust verified with Verus; socket I/O and
//! thread scheduling live outside this crate and call into it with plain
//! strings and values.

pub mod http;
pub mod stringmap;
pub mod templating;
pub mod text;
