//! The response builder: status line, headers, blank line, body.

use vstd::prelude::*;
use vstd::utf8::encode_utf8;
use crate::route::{AssetKind, RouteView, cacheable, content_type_of, is_routed, ranged, route_of, unique_paths};
use crate::text::push_char;
use crate::transform::{Encoding, Payload, transform, transformed};

verus! {

/// The decimal digit `d`.
pub open spec fn digit(d: nat) -> char {
    if d == 0 { '0' }
    else if d == 1 { '1' }
    else if d == 2 { '2' }
    else if d == 3 { '3' }
    else if d == 4 { '4' }
    else if d == 5 { '5' }
    else if d == 6 { '6' }
    else if d == 7 { '7' }
    else if d == 8 { '8' }
    else { '9' }
}

/// `n` written in decimal, without leading zeros.
pub open spec fn decimal(n: nat) -> Seq<char>
    decreases n,
{
    if n < 10 {
        seq![digit(n)]
    } else {
        decimal(n / 10).push(digit(n % 10))
    }
}

/// The number that decimal digits stand for.
pub open spec fn decimal_value(ds: Seq<char>) -> int
    decreases ds.len(),
{
    if ds.len() == 0 {
        0
    } else {
        decimal_value(ds.drop_last()) * 10 + (ds.last() as int - '0' as int)
    }
}

/// The `Content-Length` header line for a body of `n` bytes.
pub open spec fn length_line(n: nat) -> Seq<char> {
    "Content-Length: "@ + decimal(n) + "\r\n"@
}

/// The `Content-Encoding` header line, where an encoding was applied.
pub open spec fn encoding_line(e: Option<Encoding>) -> Seq<char> {
    match e {
        Some(_) => "Content-Encoding: "@ + "gzip"@ + "\r\n"@,
        None => seq![],
    }
}

/// The `Cache-Control` header line, for kinds that may be cached.
pub open spec fn cache_line(k: AssetKind) -> Seq<char> {
    if cacheable(k) {
        "Cache-Control: public, max-age=31536000\r\n"@
    } else {
        seq![]
    }
}

/// The `Accept-Ranges` header line, for media kinds.
pub open spec fn ranges_line(k: AssetKind) -> Seq<char> {
    if ranged(k) {
        "Accept-Ranges: bytes\r\n"@
    } else {
        seq![]
    }
}

/// The status line of a successful response.
pub open spec fn ok_status() -> Seq<char> {
    "HTTP/1.1 200 OK\r\n"@
}

/// The header of a successful response for a body of `n` bytes, up to and
/// including the blank line.
pub open spec fn head(k: AssetKind, n: nat, e: Option<Encoding>) -> Seq<char> {
    ok_status() + "Content-Type: "@ + content_type_of(k) + "\r\n"@ + length_line(n)
        + encoding_line(e) + cache_line(k) + ranges_line(k) + "\r\n"@
}

/// The whole successful response that carries payload `p`.
pub open spec fn ok_response(k: AssetKind, p: (Seq<u8>, Option<Encoding>)) -> Seq<u8> {
    encode_utf8(head(k, p.0.len(), p.1)) + p.0
}

/// The response for a path that has no route or no readable file.
pub open spec fn not_found() -> Seq<u8> {
    encode_utf8("HTTP/1.1 404 Not Found\r\n\r\n"@)
}

/// Relies on `String::push_str`: appends the characters of `t`.
#[verifier::external_body]
fn push_str(s: &mut String, t: &str)
    ensures
        final(s)@ == old(s)@ + t@,
{
    s.push_str(t)
}

fn digit_char(d: usize) -> (r: char)
    requires
        d < 10,
    ensures
        r == digit(d as nat),
{
    match d {
        0 => '0',
        1 => '1',
        2 => '2',
        3 => '3',
        4 => '4',
        5 => '5',
        6 => '6',
        7 => '7',
        8 => '8',
        _ => '9',
    }
}

/// Appends `n` in decimal.
fn push_decimal(s: &mut String, n: usize)
    ensures
        final(s)@ == old(s)@ + decimal(n as nat),
    decreases n,
{
    if n >= 10 {
        push_decimal(s, n / 10);
    }
    push_char(s, digit_char(n % 10));
    assert(final(s)@ =~= old(s)@ + decimal(n as nat));
}

/// The header of a successful response for a body of `n` bytes.
pub fn header(kind: AssetKind, n: usize, encoding: Option<Encoding>) -> (r: String)
    ensures
        r@ == head(kind, n as nat, encoding),
{
    let mut h = String::new();
    push_str(&mut h, "HTTP/1.1 200 OK\r\n");
    push_str(&mut h, "Content-Type: ");
    push_str(&mut h, kind.content_type());
    push_str(&mut h, "\r\n");
    push_str(&mut h, "Content-Length: ");
    push_decimal(&mut h, n);
    push_str(&mut h, "\r\n");
    if let Some(e) = encoding {
        push_str(&mut h, "Content-Encoding: ");
        push_str(&mut h, e.label());
        push_str(&mut h, "\r\n");
    }
    if kind.is_cacheable() {
        push_str(&mut h, "Cache-Control: public, max-age=31536000\r\n");
    }
    if kind.accepts_ranges() {
        push_str(&mut h, "Accept-Ranges: bytes\r\n");
    }
    push_str(&mut h, "\r\n");
    assert(h@ =~= head(kind, n as nat, encoding));
    h
}

/// The successful response that carries `payload`.
pub fn build_response(kind: AssetKind, payload: Payload) -> (r: Vec<u8>)
    ensures
        r@ == ok_response(kind, payload@),
{
    let h = header(kind, payload.body.len(), payload.encoding);
    let mut out = vstd::slice::slice_to_vec(h.as_str().as_bytes());
    let mut body = payload.body;
    out.append(&mut body);
    out
}

/// The response for a path that has no route or no readable file.
pub fn not_found_response() -> (r: Vec<u8>)
    ensures
        r@ == not_found(),
{
    vstd::slice::slice_to_vec("HTTP/1.1 404 Not Found\r\n\r\n".as_bytes())
}

/// The response for a routed asset of kind `kind` (`None` where the path has
/// no route), given the stored contents (`None` where they could not be read).
pub fn respond(kind: Option<AssetKind>, contents: Option<Vec<u8>>) -> (r: Vec<u8>)
    ensures
        kind is None || contents is None ==> r@ == not_found(),
        kind is Some && contents is Some ==> exists|p: (Seq<u8>, Option<Encoding>)|
            #[trigger] transformed(kind->0, contents->0@, p) && r@ == ok_response(kind->0, p),
{
    match (kind, contents) {
        (Some(k), Some(c)) => {
            let p = transform(k, c);
            build_response(k, p)
        },
        _ => not_found_response(),
    }
}


proof fn lemma_decimal_value(n: nat)
    ensures
        decimal_value(decimal(n)) == n,
    decreases n,
{
    let d = n % 10;
    assert(digit(d) as int - '0' as int == d) by {
        assert('0' as int == 48 && '1' as int == 49 && '2' as int == 50 && '3' as int == 51
            && '4' as int == 52 && '5' as int == 53 && '6' as int == 54 && '7' as int == 55
            && '8' as int == 56 && '9' as int == 57);
    }
    if n >= 10 {
        lemma_decimal_value(n / 10);
        assert(decimal(n).drop_last() == decimal(n / 10));
        assert(decimal(n).last() == digit(d));
        assert(n == (n / 10) * 10 + n % 10) by (nonlinear_arith);
        assert(decimal_value(decimal(n)) == decimal_value(decimal(n / 10)) * 10 + d);
    } else {
        assert(d == n);
        assert(decimal(n).drop_last() == Seq::<char>::empty());
        assert(decimal(n).last() == digit(d));
        assert(decimal_value(decimal(n)) == decimal_value(Seq::<char>::empty()) * 10 + d);
    }
}

/// A routed path is found, and its response opens with status 200 and holds
/// a `Content-Length` line whose digits read back as the length of the body
/// that follows the header.
pub proof fn routed_path_declares_body_length(
    t: Seq<RouteView>,
    path: Seq<char>,
    p: (Seq<u8>, Option<Encoding>),
)
    requires
        unique_paths(t),
        is_routed(t, path),
    ensures
        route_of(t, path) is Some,
        ({
            let k = (route_of(t, path)->0).1;
            let h = head(k, p.0.len(), p.1);
            let l = length_line(p.0.len());
            &&& ok_response(k, p) == encode_utf8(h) + p.0
            &&& h.subrange(0, ok_status().len() as int) == ok_status()
            &&& exists|i: int|
                0 <= i && i + l.len() <= h.len() && #[trigger] h.subrange(i, i + l.len() as int) == l
        }),
        decimal_value(decimal(p.0.len())) == p.0.len(),
{
    let k = (route_of(t, path)->0).1;
    let h = head(k, p.0.len(), p.1);
    let l = length_line(p.0.len());
    let pre = ok_status() + "Content-Type: "@ + content_type_of(k) + "\r\n"@;
    assert(h.subrange(0, ok_status().len() as int) =~= ok_status());
    assert(h.subrange(pre.len() as int, pre.len() + l.len() as int) =~= l);
    lemma_decimal_value(p.0.len());
}

/// Media is sent byte for byte as stored and unencoded, and its header
/// offers byte ranges just before the blank line.
pub proof fn media_sent_as_stored(k: AssetKind, contents: Seq<u8>, p: (Seq<u8>, Option<Encoding>))
    requires
        ranged(k),
        transformed(k, contents, p),
    ensures
        p == (contents, None::<Encoding>),
        ({
            let h = head(k, contents.len(), p.1);
            let tail = "Accept-Ranges: bytes\r\n"@ + "\r\n"@;
            h.subrange(h.len() - tail.len(), h.len() as int) == tail
        }),
{
    let h = head(k, contents.len(), p.1);
    let tail = "Accept-Ranges: bytes\r\n"@ + "\r\n"@;
    assert(h.subrange(h.len() - tail.len(), h.len() as int) =~= tail);
}

} // verus!
