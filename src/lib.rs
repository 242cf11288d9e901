//! A small static-content HTTP core: request-line parsing, exact-path
//! routing, HTML minification with size-beneficial gzip, and response framing.

pub mod text;
pub mod request;
pub mod route;
pub mod transform;
pub mod response;
