//! Asset kinds, the file-extension table, and the route table.

use vstd::prelude::*;
use vstd::std_specs::iter::IteratorSpec;

verus! {

/// What an asset is, as its file extension tells.
#[derive(Clone, Copy, Debug, PartialEq, Eq, Structural)]
pub enum AssetKind {
    Html,
    Video,
    Audio,
    Text,
    OctetStream,
}

/// Whether `s` ends with `suf`.
pub open spec fn has_suffix(s: Seq<char>, suf: Seq<char>) -> bool {
    suf.len() <= s.len() && s.subrange(s.len() - suf.len(), s.len() as int) == suf
}

/// The kind of the asset stored in the file named `f`.
pub open spec fn kind_of_file(f: Seq<char>) -> AssetKind {
    if has_suffix(f, ".html"@) {
        AssetKind::Html
    } else if has_suffix(f, ".webm"@) {
        AssetKind::Video
    } else if has_suffix(f, ".mp3"@) {
        AssetKind::Audio
    } else if has_suffix(f, ".txt"@) {
        AssetKind::Text
    } else {
        AssetKind::OctetStream
    }
}

/// The characters of `s`, in order.
pub fn chars_of(s: &str) -> (r: Vec<char>)
    ensures
        r@ == s@,
{
    let mut out: Vec<char> = Vec::new();
    let mut chars = s.chars();
    loop
        invariant_except_break
            chars.remaining() == s@.subrange(out@.len() as int, s@.len() as int),
            chars.obeys_prophetic_iter_laws(),
        invariant
            out@.len() <= s@.len(),
            out@ == s@.subrange(0, out@.len() as int),
        ensures
            out@ == s@,
        decreases s@.len() - out@.len(),
    {
        match chars.next() {
            None => {
                break ;
            },
            Some(c) => {
                out.push(c);
            },
        }
    }
    out
}

/// Whether the characters `s` end with those of `suf`.
pub fn ends_with(s: &Vec<char>, suf: &str) -> (r: bool)
    ensures
        r == has_suffix(s@, suf@),
{
    let t = chars_of(suf);
    if t.len() > s.len() {
        return false;
    }
    let off = s.len() - t.len();
    let mut i: usize = 0;
    while i < t.len()
        invariant
            t@ == suf@,
            t@.len() <= s@.len(),
            off == s@.len() - t@.len(),
            s@.len() == s.len(),
            i <= t@.len(),
            forall|j: int| 0 <= j < i ==> s@[off + j] == t@[j],
        decreases t@.len() - i,
    {
        if s[off + i] != t[i] {
            assert(s@.subrange(off as int, s@.len() as int)[i as int] != t@[i as int]);
            return false;
        }
        i = i + 1;
    }
    assert(s@.subrange(off as int, s@.len() as int) =~= t@);
    true
}

/// The `Content-Type` of an asset of kind `k`.
pub open spec fn content_type_of(k: AssetKind) -> Seq<char> {
    match k {
        AssetKind::Html => "text/html; charset=utf-8"@,
        AssetKind::Video => "video/webm"@,
        AssetKind::Audio => "audio/mpeg"@,
        AssetKind::Text => "text/plain"@,
        AssetKind::OctetStream => "application/octet-stream"@,
    }
}

/// Whether responses for an asset of kind `k` may be cached for a year.
pub open spec fn cacheable(k: AssetKind) -> bool {
    k == AssetKind::Html || k == AssetKind::Video || k == AssetKind::Audio
}

/// Whether an asset of kind `k` is media that supports partial fetches.
pub open spec fn ranged(k: AssetKind) -> bool {
    k == AssetKind::Video || k == AssetKind::Audio
}

impl AssetKind {
    /// The `Content-Type` header value for this kind.
    pub fn content_type(&self) -> (r: &'static str)
        ensures
            r@ == content_type_of(*self),
    {
        match self {
            AssetKind::Html => "text/html; charset=utf-8",
            AssetKind::Video => "video/webm",
            AssetKind::Audio => "audio/mpeg",
            AssetKind::Text => "text/plain",
            AssetKind::OctetStream => "application/octet-stream",
        }
    }

    /// Whether responses for this kind carry a year-long `Cache-Control`.
    pub fn is_cacheable(&self) -> (r: bool)
        ensures
            r == cacheable(*self),
    {
        match self {
            AssetKind::Html | AssetKind::Video | AssetKind::Audio => true,
            _ => false,
        }
    }

    /// Whether responses for this kind carry `Accept-Ranges: bytes`.
    pub fn accepts_ranges(&self) -> (r: bool)
        ensures
            r == ranged(*self),
    {
        match self {
            AssetKind::Video | AssetKind::Audio => true,
            _ => false,
        }
    }

    /// The kind of the asset stored in the file named `file`.
    pub fn of_file(file: &str) -> (r: AssetKind)
        ensures
            r == kind_of_file(file@),
    {
        let f = chars_of(file);
        if ends_with(&f, ".html") {
            AssetKind::Html
        } else if ends_with(&f, ".webm") {
            AssetKind::Video
        } else if ends_with(&f, ".mp3") {
            AssetKind::Audio
        } else if ends_with(&f, ".txt") {
            AssetKind::Text
        } else {
            AssetKind::OctetStream
        }
    }
}


/// A servable asset: the file that holds it and its kind.
pub struct Asset {
    pub file: String,
    pub kind: AssetKind,
}

impl View for Asset {
    type V = (Seq<char>, AssetKind);

    open spec fn view(&self) -> (Seq<char>, AssetKind) {
        (self.file@, self.kind)
    }
}

impl Asset {
    /// The asset stored in `file`, of the kind its extension gives.
    pub fn for_file(file: String) -> (r: Asset)
        ensures
            r@ == (file@, kind_of_file(file@)),
    {
        let kind = AssetKind::of_file(file.as_str());
        Asset { file, kind }
    }
}

/// One route: a request path, the file that backs it and the asset's kind.
pub type RouteView = (Seq<char>, Seq<char>, AssetKind);

/// No two routes share a request path.
pub open spec fn unique_paths(t: Seq<RouteView>) -> bool {
    forall|i: int, j: int| 0 <= i < j < t.len() ==> #[trigger] t[i].0 != #[trigger] t[j].0
}

/// Whether `path` is the request path of some route.
pub open spec fn is_routed(t: Seq<RouteView>, path: Seq<char>) -> bool {
    exists|i: int| 0 <= i < t.len() && #[trigger] t[i].0 == path
}

/// The asset that `path` routes to, matched exactly.
pub open spec fn route_of(t: Seq<RouteView>, path: Seq<char>) -> Option<(Seq<char>, AssetKind)> {
    if is_routed(t, path) {
        let i = choose|i: int| 0 <= i < t.len() && #[trigger] t[i].0 == path;
        Some((t[i].1, t[i].2))
    } else {
        None
    }
}

proof fn lemma_route_at(t: Seq<RouteView>, path: Seq<char>, i: int)
    requires
        unique_paths(t),
        0 <= i < t.len(),
        t[i].0 == path,
    ensures
        route_of(t, path) == Some((t[i].1, t[i].2)),
{
    assert(is_routed(t, path));
    let k = choose|k: int| 0 <= k < t.len() && #[trigger] t[k].0 == path;
    if k < i {
        assert(t[k].0 != t[i].0);
    } else if i < k {
        assert(t[i].0 != t[k].0);
    }
}

/// An immutable map from exact request paths to assets.
pub struct RouteTable {
    routes: Vec<(String, Asset)>,
}

impl View for RouteTable {
    type V = Seq<RouteView>;

    closed spec fn view(&self) -> Seq<RouteView> {
        Seq::new(
            self.routes@.len(),
            |i: int| (self.routes@[i].0@, self.routes@[i].1.file@, self.routes@[i].1.kind),
        )
    }
}

impl RouteTable {
    /// Well-formed: request paths are unique.
    pub open spec fn wf(&self) -> bool {
        unique_paths(self@)
    }

    /// A table with no routes.
    pub fn new() -> (r: RouteTable)
        ensures
            r.wf(),
            r@ == Seq::<RouteView>::empty(),
    {
        let r = RouteTable { routes: Vec::new() };
        assert(r@ =~= Seq::<RouteView>::empty());
        r
    }

    /// The site's routes: `/` to its HTML page, `/robots.txt`, and two media
    /// files.
    pub fn standard() -> (r: RouteTable)
        ensures
            r.wf(),
            r@ == seq![
                ("/"@, "static/index.html"@, kind_of_file("static/index.html"@)),
                ("/robots.txt"@, "static/robots.txt"@, kind_of_file("static/robots.txt"@)),
                (
                    "/static/maxwell.webm"@,
                    "static/maxwell.webm"@,
                    kind_of_file("static/maxwell.webm"@),
                ),
                (
                    "/static/lq-store.mp3"@,
                    "static/lq-store.mp3"@,
                    kind_of_file("static/lq-store.mp3"@),
                ),
            ],
    {
        let mut t = RouteTable::new();
        proof {
            reveal_strlit("/");
            reveal_strlit("/robots.txt");
            reveal_strlit("/static/maxwell.webm");
            reveal_strlit("/static/lq-store.mp3");
        }
        let ghost t0 = t@;
        t.add("/".to_owned(), "static/index.html".to_owned());
        let ghost t1 = t@;
        assert(!is_routed(t1, "/robots.txt"@)) by {
            assert("/"@.len() != "/robots.txt"@.len());
        }
        t.add("/robots.txt".to_owned(), "static/robots.txt".to_owned());
        let ghost t2 = t@;
        assert(!is_routed(t2, "/static/maxwell.webm"@)) by {
            assert("/"@.len() != "/static/maxwell.webm"@.len());
            assert("/robots.txt"@.len() != "/static/maxwell.webm"@.len());
        }
        t.add("/static/maxwell.webm".to_owned(), "static/maxwell.webm".to_owned());
        let ghost t3 = t@;
        assert(!is_routed(t3, "/static/lq-store.mp3"@)) by {
            assert("/"@.len() != "/static/lq-store.mp3"@.len());
            assert("/robots.txt"@.len() != "/static/lq-store.mp3"@.len());
            assert("/static/maxwell.webm"@[8] != "/static/lq-store.mp3"@[8]);
        }
        t.add("/static/lq-store.mp3".to_owned(), "static/lq-store.mp3".to_owned());
        assert(t@ =~= seq![
            ("/"@, "static/index.html"@, kind_of_file("static/index.html"@)),
            ("/robots.txt"@, "static/robots.txt"@, kind_of_file("static/robots.txt"@)),
            ("/static/maxwell.webm"@, "static/maxwell.webm"@, kind_of_file("static/maxwell.webm"@)),
            ("/static/lq-store.mp3"@, "static/lq-store.mp3"@, kind_of_file("static/lq-store.mp3"@)),
        ]);
        t
    }

    /// The asset routed to by `path`, matched exactly.
    pub fn lookup(&self, path: &String) -> (r: Option<&Asset>)
        requires
            self.wf(),
        ensures
            match r {
                None => route_of(self@, path@) is None,
                Some(a) => route_of(self@, path@) == Some(a@),
            },
    {
        let mut i: usize = 0;
        while i < self.routes.len()
            invariant
                self.wf(),
                i <= self.routes@.len(),
                forall|j: int| 0 <= j < i ==> self@[j].0 != path@,
            decreases self.routes@.len() - i,
        {
            if self.routes[i].0 == *path {
                proof {
                    lemma_route_at(self@, path@, i as int);
                }
                return Some(&self.routes[i].1);
            }
            i = i + 1;
        }
        None
    }

    /// Adds a route from `path` to the asset stored in `file`, unless `path`
    /// is routed already; says whether it was added.
    pub fn add(&mut self, path: String, file: String) -> (added: bool)
        requires
            old(self).wf(),
        ensures
            final(self).wf(),
            added == !is_routed(old(self)@, path@),
            added ==> final(self)@ == old(self)@.push((path@, file@, kind_of_file(file@))),
            !added ==> final(self)@ == old(self)@,
    {
        if self.lookup(&path).is_some() {
            return false;
        }
        let asset = Asset::for_file(file);
        let ghost before = self@;
        self.routes.push((path, asset));
        assert(self@ =~= before.push((path@, asset.file@, asset.kind)));
        true
    }
}

} // verus!
