//! The content transformer: HTML is minified, then gzipped where that makes
//! it smaller; everything else is sent as stored.

use vstd::prelude::*;
use std::io::Write;
use flate2::Compression;
use flate2::write::GzEncoder;
use crate::request::{decode_lossy, lossy_utf8};
use crate::route::AssetKind;
use crate::text::{minified, minify_html};

verus! {

/// A content encoding applied to a response body.
#[derive(Clone, Copy, Debug, PartialEq, Eq, Structural)]
pub enum Encoding {
    Gzip,
}

impl Encoding {
    /// The `Content-Encoding` header value.
    pub fn label(&self) -> (r: &'static str)
        ensures
            r@ == "gzip"@,
    {
        "gzip"
    }
}

/// The bytes to send for one request, and the encoding applied to them.
pub struct Payload {
    pub body: Vec<u8>,
    pub encoding: Option<Encoding>,
}

impl View for Payload {
    type V = (Seq<u8>, Option<Encoding>);

    open spec fn view(&self) -> (Seq<u8>, Option<Encoding>) {
        (self.body@, self.encoding)
    }
}

/// The gzip stream that flate2 makes of `data` at the default level.
pub uninterp spec fn gzip_of(data: Seq<u8>) -> Seq<u8>;

/// Relies on flate2's `GzEncoder` at the default level, writing into a `Vec`:
/// on success the output is the gzip stream of `data`, whose header carries
/// no time stamp and a fixed system byte, so it depends on `data` alone.
#[verifier::external_body]
fn gzip(data: &[u8]) -> (r: Option<Vec<u8>>)
    ensures
        r is Some ==> r->0@ == gzip_of(data@),
{
    let mut encoder = GzEncoder::new(Vec::new(), Compression::default());
    match encoder.write_all(data) {
        Ok(()) => encoder.finish().ok(),
        Err(_) => None,
    }
}

/// The UTF-8 bytes of the minified form of an HTML file's contents.
pub open spec fn minified_bytes(contents: Seq<u8>) -> Seq<u8> {
    vstd::utf8::encode_utf8(minified(lossy_utf8(contents)))
}

/// Whether compressed bytes are worth sending in place of `plain`.
pub open spec fn smaller(plain: Seq<u8>, compressed: Option<Vec<u8>>) -> bool {
    compressed is Some && compressed->0@.len() < plain.len()
}

/// Picks the compressed bytes where they exist and are strictly smaller than
/// `plain`, else `plain` with no encoding.
pub fn choose_encoding(plain: Vec<u8>, compressed: Option<Vec<u8>>) -> (p: Payload)
    ensures
        smaller(plain@, compressed) ==> p@ == (compressed->0@, Some(Encoding::Gzip)),
        !smaller(plain@, compressed) ==> p@ == (plain@, None::<Encoding>),
{
    match compressed {
        Some(z) if z.len() < plain.len() => Payload { body: z, encoding: Some(Encoding::Gzip) },
        _ => Payload { body: plain, encoding: None },
    }
}

/// The UTF-8 bytes of the minified HTML stored as `contents`.
pub fn minify_bytes(contents: &[u8]) -> (r: Vec<u8>)
    ensures
        r@ == minified_bytes(contents@),
{
    let text = decode_lossy(contents);
    let m = minify_html(text.as_str());
    vstd::slice::slice_to_vec(m.as_str().as_bytes())
}

/// What may be sent for an asset of kind `kind` stored as `contents`: HTML
/// is minified and sent either as it is or gzipped where that is strictly
/// smaller; anything else is sent unchanged and unencoded.
pub open spec fn transformed(kind: AssetKind, contents: Seq<u8>, p: (Seq<u8>, Option<Encoding>)) -> bool {
    if kind == AssetKind::Html {
        let m = minified_bytes(contents);
        p == (m, None::<Encoding>) || (p == (gzip_of(m), Some(Encoding::Gzip)) && gzip_of(m).len()
            < m.len())
    } else {
        p == (contents, None::<Encoding>)
    }
}

/// The bytes to send for an asset of kind `kind` stored as `contents`.
pub fn transform(kind: AssetKind, contents: Vec<u8>) -> (p: Payload)
    ensures
        transformed(kind, contents@, p@),
{
    match kind {
        AssetKind::Html => {
            let m = minify_bytes(contents.as_slice());
            let z = gzip(m.as_slice());
            choose_encoding(m, z)
        },
        _ => Payload { body: contents, encoding: None },
    }
}

} // verus!
