use std::io::Read;

use flate2::read::GzDecoder;
use static_serve::request::{path_of_text, request_path};
use static_serve::response::{build_response, header, not_found_response, respond};
use static_serve::route::{Asset, AssetKind, RouteTable};
use static_serve::text::{is_whitespace_char, minify_html};
use static_serve::transform::{choose_encoding, minify_bytes, transform, Encoding, Payload};

fn split_response(r: &[u8]) -> (String, Vec<u8>) {
    let end = r.windows(4).position(|w| w == b"\r\n\r\n").expect("blank line") + 4;
    (String::from_utf8(r[..end].to_vec()).unwrap(), r[end..].to_vec())
}

fn header_value(head: &str, name: &str) -> Option<String> {
    head.split("\r\n")
        .find_map(|l| l.strip_prefix(&format!("{}: ", name)).map(|v| v.to_string()))
}

fn gunzip(b: &[u8]) -> Vec<u8> {
    let mut out = Vec::new();
    GzDecoder::new(b).read_to_end(&mut out).unwrap();
    out
}

fn big_html() -> Vec<u8> {
    let mut s = String::from("<html>\n  <body>\n");
    for i in 0..200 {
        s.push_str(&format!("    <p>   paragraph   number {}   </p>\n", i % 7));
    }
    s.push_str("  </body>\n</html>\n");
    s.into_bytes()
}

fn home_table() -> RouteTable {
    let mut t = RouteTable::new();
    assert!(t.add("/".to_string(), "static/index.html".to_string()));
    t
}

#[test]
fn home_page_scenario() {
    let table = home_table();
    let path = request_path(b"GET / HTTP/1.1\r\n\r\n");
    assert_eq!(path, "/");
    let asset = table.lookup(&path).expect("routed");
    assert_eq!(asset.kind, AssetKind::Html);
    let file = b"<p> hi </p>".to_vec();
    let r = respond(Some(asset.kind), Some(file.clone()));
    let (head, body) = split_response(&r);
    assert!(head.starts_with("HTTP/1.1 200 OK\r\n"));
    assert!(header_value(&head, "Content-Type").unwrap().starts_with("text/html"));
    assert_eq!(header_value(&head, "Content-Length").unwrap(), body.len().to_string());
    let sent = match header_value(&head, "Content-Encoding") {
        Some(e) => {
            assert_eq!(e, "gzip");
            gunzip(&body)
        }
        None => body.clone(),
    };
    assert_eq!(sent, b"<p> hi </p>".to_vec());
    assert_eq!(sent, minify_bytes(&file));
}

#[test]
fn missing_path_scenario() {
    let table = RouteTable::standard();
    let path = request_path(b"GET /missing HTTP/1.1\r\n\r\n");
    assert_eq!(path, "/missing");
    let found = table.lookup(&path);
    assert!(found.is_none());
    let r = respond(found.map(|a| a.kind), None);
    assert_eq!(r, b"HTTP/1.1 404 Not Found\r\n\r\n".to_vec());
    assert_eq!(not_found_response(), b"HTTP/1.1 404 Not Found\r\n\r\n".to_vec());
}

#[test]
fn unknown_paths_are_not_found_even_with_contents() {
    let table = RouteTable::standard();
    for p in ["/index.html", "/ROBOTS.TXT", "/robots.txt/", "/static", ""] {
        assert!(table.lookup(&p.to_string()).is_none(), "{}", p);
    }
    assert_eq!(respond(None, Some(b"x".to_vec())), b"HTTP/1.1 404 Not Found\r\n\r\n".to_vec());
}

#[test]
fn unreadable_file_is_not_found() {
    assert_eq!(
        respond(Some(AssetKind::Html), None),
        b"HTTP/1.1 404 Not Found\r\n\r\n".to_vec()
    );
}

#[test]
fn known_routes_declare_body_length() {
    let table = RouteTable::standard();
    let cases: [(&str, &[u8]); 4] = [
        ("/", b"<html>  <p> a </p> </html>"),
        ("/robots.txt", b"User-agent: *\nDisallow:\n"),
        ("/static/maxwell.webm", &[0x1a, 0x45, 0xdf, 0xa3, 0, 0, 9]),
        ("/static/lq-store.mp3", b"ID3\x04\x00"),
    ];
    for (p, contents) in cases {
        let asset = table.lookup(&p.to_string()).expect(p);
        let r = respond(Some(asset.kind), Some(contents.to_vec()));
        let (head, body) = split_response(&r);
        assert!(head.starts_with("HTTP/1.1 200 OK\r\n"));
        assert_eq!(header_value(&head, "Content-Length").unwrap(), body.len().to_string());
    }
}

#[test]
fn standard_table_files_and_kinds() {
    let table = RouteTable::standard();
    let expect = [
        ("/", "static/index.html", AssetKind::Html),
        ("/robots.txt", "static/robots.txt", AssetKind::Text),
        ("/static/maxwell.webm", "static/maxwell.webm", AssetKind::Video),
        ("/static/lq-store.mp3", "static/lq-store.mp3", AssetKind::Audio),
    ];
    for (p, f, k) in expect {
        let a = table.lookup(&p.to_string()).unwrap();
        assert_eq!(a.file, f);
        assert_eq!(a.kind, k);
    }
}

#[test]
fn add_refuses_a_second_route_for_a_path() {
    let mut t = home_table();
    assert!(!t.add("/".to_string(), "other.txt".to_string()));
    assert_eq!(t.lookup(&"/".to_string()).unwrap().file, "static/index.html");
    assert!(t.add("/a.txt".to_string(), "a.txt".to_string()));
    assert_eq!(t.lookup(&"/a.txt".to_string()).unwrap().kind, AssetKind::Text);
}

#[test]
fn minify_examples() {
    assert_eq!(minify_html("  <p>  hi \n there </p>\t"), "<p> hi there </p>");
    assert_eq!(minify_html("<div> <span> x </span> </div>"), "<div><span> x </span></div>");
    assert_eq!(minify_html("a> < <b"), "a>< <b");
    assert_eq!(minify_html(""), "");
    assert_eq!(minify_html(" \n\t "), "");
    assert_eq!(minify_html("x\u{a0}y\u{3000}z"), "x y z");
}

#[test]
fn minify_is_idempotent() {
    for x in [
        "<p> hi </p>",
        "> < >",
        "> > <",
        "  <a>\n\n<b>  c  </b>\r\n</a> ",
        "a> < <b",
    ] {
        let once = minify_html(x);
        assert_eq!(minify_html(&once), once, "{:?}", x);
    }
}

#[test]
fn whitespace_is_unicode_white_space() {
    for c in [' ', '\t', '\n', '\u{b}', '\u{c}', '\r', '\u{85}', '\u{a0}', '\u{2000}', '\u{200a}', '\u{3000}'] {
        assert!(is_whitespace_char(c));
        assert!(c.is_whitespace());
    }
    for c in ['a', '<', '\u{200b}', '\u{feff}', '\0'] {
        assert!(!is_whitespace_char(c));
        assert_eq!(c.is_whitespace(), false);
    }
}

#[test]
fn small_html_is_sent_uncompressed() {
    let p = transform(AssetKind::Html, b"<b> x </b>".to_vec());
    assert_eq!(p.encoding, None);
    assert_eq!(p.body, b"<b> x </b>".to_vec());
    let r = respond(Some(AssetKind::Html), Some(b"<b> x </b>".to_vec()));
    let (head, _) = split_response(&r);
    assert_eq!(header_value(&head, "Content-Encoding"), None);
}

#[test]
fn large_html_is_gzipped_and_round_trips() {
    let file = big_html();
    let minified = minify_bytes(&file);
    assert!(minified.len() < file.len());
    let p = transform(AssetKind::Html, file.clone());
    assert_eq!(p.encoding, Some(Encoding::Gzip));
    assert!(p.body.len() < minified.len());
    assert_eq!(gunzip(&p.body), minified);
    let r = respond(Some(AssetKind::Html), Some(file));
    let (head, body) = split_response(&r);
    assert_eq!(header_value(&head, "Content-Encoding").unwrap(), "gzip");
    assert_eq!(header_value(&head, "Content-Length").unwrap(), body.len().to_string());
    assert_eq!(gunzip(&body), minified);
}

#[test]
fn choose_encoding_keeps_plain_unless_strictly_smaller() {
    let plain = b"abcd".to_vec();
    let p = choose_encoding(plain.clone(), Some(b"wxyz".to_vec()));
    assert_eq!((p.body, p.encoding), (plain.clone(), None));
    let p = choose_encoding(plain.clone(), Some(b"xyz".to_vec()));
    assert_eq!((p.body, p.encoding), (b"xyz".to_vec(), Some(Encoding::Gzip)));
    let p = choose_encoding(plain.clone(), None);
    assert_eq!((p.body, p.encoding), (plain, None));
}

#[test]
fn media_is_sent_as_stored() {
    let bytes: Vec<u8> = (0..=255u8).cycle().take(3000).collect();
    for kind in [AssetKind::Video, AssetKind::Audio] {
        let r = respond(Some(kind), Some(bytes.clone()));
        let (head, body) = split_response(&r);
        assert_eq!(body, bytes);
        assert_eq!(header_value(&head, "Accept-Ranges").unwrap(), "bytes");
        assert_eq!(header_value(&head, "Content-Encoding"), None);
        assert_eq!(header_value(&head, "Cache-Control").unwrap(), "public, max-age=31536000");
    }
}

#[test]
fn text_and_octet_stream_pass_through() {
    let t = transform(AssetKind::Text, b"  a  \n".to_vec());
    assert_eq!((t.body, t.encoding), (b"  a  \n".to_vec(), None));
    let r = respond(Some(AssetKind::OctetStream), Some(vec![1, 2, 3]));
    let (head, body) = split_response(&r);
    assert_eq!(body, vec![1, 2, 3]);
    assert_eq!(header_value(&head, "Content-Type").unwrap(), "application/octet-stream");
    assert_eq!(header_value(&head, "Cache-Control"), None);
    assert_eq!(header_value(&head, "Accept-Ranges"), None);
}

#[test]
fn exact_header_for_text() {
    assert_eq!(
        header(AssetKind::Text, 1234, None),
        "HTTP/1.1 200 OK\r\nContent-Type: text/plain\r\nContent-Length: 1234\r\n\r\n"
    );
    assert_eq!(
        header(AssetKind::Html, 0, Some(Encoding::Gzip)),
        "HTTP/1.1 200 OK\r\nContent-Type: text/html; charset=utf-8\r\nContent-Length: 0\r\nContent-Encoding: gzip\r\nCache-Control: public, max-age=31536000\r\n\r\n"
    );
    let r = build_response(AssetKind::Audio, Payload { body: vec![7; 10], encoding: None });
    let (head, body) = split_response(&r);
    assert_eq!(
        head,
        "HTTP/1.1 200 OK\r\nContent-Type: audio/mpeg\r\nContent-Length: 10\r\nCache-Control: public, max-age=31536000\r\nAccept-Ranges: bytes\r\n\r\n"
    );
    assert_eq!(body, vec![7; 10]);
}

#[test]
fn request_path_edge_cases() {
    assert_eq!(request_path(b""), "/");
    assert_eq!(request_path(b"GET"), "/");
    assert_eq!(request_path(b"GET\n/robots.txt"), "/");
    assert_eq!(request_path(b"  GET   /robots.txt   HTTP/1.1  \r\nHost: x\r\n\r\n"), "/robots.txt");
    assert_eq!(request_path(b"GET /a\xffb HTTP/1.1\r\n"), "/a\u{fffd}b");
    assert_eq!(path_of_text("GET /x\u{a0}y HTTP/1.1"), "/x");
    assert_eq!(path_of_text("GET /only"), "/only");
}

#[test]
fn invalid_utf8_html_is_decoded_lossily() {
    assert_eq!(minify_bytes(b"<p>\xff  x</p>"), "<p>\u{fffd} x</p>".as_bytes().to_vec());
}

#[test]
fn kinds_come_from_extensions() {
    assert_eq!(AssetKind::of_file("a/b.html"), AssetKind::Html);
    assert_eq!(AssetKind::of_file("v.webm"), AssetKind::Video);
    assert_eq!(AssetKind::of_file("s.mp3"), AssetKind::Audio);
    assert_eq!(AssetKind::of_file("r.txt"), AssetKind::Text);
    assert_eq!(AssetKind::of_file("x.png"), AssetKind::OctetStream);
    assert_eq!(AssetKind::of_file("html"), AssetKind::OctetStream);
    assert_eq!(AssetKind::Video.content_type(), "video/webm");
    assert!(AssetKind::Html.is_cacheable() && !AssetKind::Text.is_cacheable());
    assert!(AssetKind::Audio.accepts_ranges() && !AssetKind::Html.accepts_ranges());
    let a = Asset::for_file("index.html".to_string());
    assert_eq!(a.kind, AssetKind::Html);
    assert_eq!(Encoding::Gzip.label(), "gzip");
}
