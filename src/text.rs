//! Text-level rules: Unicode whitespace, word splitting and HTML minification.

use vstd::prelude::*;
use vstd::std_specs::iter::IteratorSpec;

verus! {

/// The Unicode `White_Space` property, as `char::is_whitespace` documents it.
pub open spec fn is_ws(c: char) -> bool {
    let u = c as u32;
    (9 <= u && u <= 13) || u == 32 || u == 0x85 || u == 0xA0 || u == 0x1680
        || (0x2000 <= u && u <= 0x200A) || u == 0x2028 || u == 0x2029 || u == 0x202F
        || u == 0x205F || u == 0x3000
}

/// The maximal runs of non-whitespace characters of `s`, in order.
pub open spec fn words(s: Seq<char>) -> Seq<Seq<char>>
    decreases s.len(),
{
    if s.len() == 0 {
        seq![]
    } else {
        let w = words(s.drop_last());
        let c = s.last();
        if is_ws(c) {
            w
        } else if s.len() >= 2 && !is_ws(s[s.len() - 2]) {
            w.update(w.len() - 1, w.last().push(c))
        } else {
            w.push(seq![c])
        }
    }
}

/// What stands between two consecutive words of minified HTML: nothing
/// between a word ending in `>` and one starting with `<`, else one space.
pub open spec fn joint(a: Seq<char>, b: Seq<char>) -> Seq<char> {
    if a.last() == '>' && b[0] == '<' {
        seq![]
    } else {
        seq![' ']
    }
}

/// The words joined in order, each pair separated by their `joint`.
pub open spec fn glue(ws: Seq<Seq<char>>) -> Seq<char>
    decreases ws.len(),
{
    if ws.len() == 0 {
        seq![]
    } else if ws.len() == 1 {
        ws[0]
    } else {
        glue(ws.drop_last()) + joint(ws[ws.len() - 2], ws.last()) + ws.last()
    }
}

/// Minified HTML: every run of whitespace collapsed to one space, leading and
/// trailing whitespace dropped, and the space in `> <` removed.
pub open spec fn minified(s: Seq<char>) -> Seq<char> {
    glue(words(s))
}

/// A text that minification leaves as it is: its only whitespace is single
/// spaces between two other characters, never between `>` and `<`.
pub open spec fn is_minimal(y: Seq<char>) -> bool {
    forall|i: int|
        0 <= i < y.len() && #[trigger] is_ws(y[i]) ==> {
            &&& y[i] == ' '
            &&& 0 < i < y.len() - 1
            &&& !is_ws(y[i - 1])
            &&& !is_ws(y[i + 1])
            &&& !(y[i - 1] == '>' && y[i + 1] == '<')
        }
}

pub(crate) proof fn lemma_words_shape(s: Seq<char>)
    ensures
        forall|k: int|
            0 <= k < words(s).len() ==> #[trigger] words(s)[k].len() > 0 && forall|j: int|
                0 <= j < words(s)[k].len() ==> !is_ws(#[trigger] words(s)[k][j]),
        s.len() > 0 && !is_ws(s.last()) ==> words(s).len() > 0 && words(s).last().last()
            == s.last(),
        s.len() > 0 && !is_ws(s.last()) && (s.len() == 1 || is_ws(s[s.len() - 2]))
            ==> words(s).last() == seq![s.last()],
    decreases s.len(),
{
    if s.len() > 0 {
        let p = s.drop_last();
        lemma_words_shape(p);
        let c = s.last();
        if !is_ws(c) && s.len() >= 2 && !is_ws(s[s.len() - 2]) {
            assert(p.last() == s[s.len() - 2]);
            let w = words(p);
            let v = w.last().push(c);
            assert forall|k: int| 0 <= k < words(s).len() implies #[trigger] words(s)[k].len()
                > 0 && forall|j: int|
                0 <= j < words(s)[k].len() ==> !is_ws(#[trigger] words(s)[k][j]) by {
                if k == w.len() - 1 {
                    assert forall|j: int| 0 <= j < v.len() implies !is_ws(#[trigger] v[j]) by {
                        if j < w.last().len() {
                            assert(v[j] == w[k][j]);
                        }
                    }
                }
            }
        }
    }
}

proof fn lemma_glue_extend(ws: Seq<Seq<char>>, c: char)
    requires
        ws.len() > 0,
        ws.last().len() > 0,
    ensures
        glue(ws.update(ws.len() - 1, ws.last().push(c))) == glue(ws).push(c),
{
    let v = ws.update(ws.len() - 1, ws.last().push(c));
    if ws.len() >= 2 {
        assert(v.drop_last() == ws.drop_last());
        assert(glue(v) == glue(ws.drop_last()) + joint(ws[ws.len() - 2], v.last()) + v.last());
        assert(joint(ws[ws.len() - 2], v.last()) == joint(ws[ws.len() - 2], ws.last()));
        assert(glue(v) == glue(ws).push(c));
    }
}

proof fn lemma_glue_push(ws: Seq<Seq<char>>, v: Seq<char>)
    ensures
        glue(ws.push(v)) == if ws.len() == 0 {
            v
        } else {
            glue(ws) + joint(ws.last(), v) + v
        },
{
    assert(ws.push(v).drop_last() == ws);
}

proof fn lemma_glue_last(ws: Seq<Seq<char>>)
    requires
        ws.len() > 0,
        forall|k: int| 0 <= k < ws.len() ==> #[trigger] ws[k].len() > 0,
    ensures
        glue(ws).len() > 0,
        glue(ws).last() == ws.last().last(),
    decreases ws.len(),
{
    if ws.len() > 1 {
        lemma_glue_last(ws.drop_last());
    }
}


proof fn lemma_minified_is_minimal(s: Seq<char>)
    ensures
        is_minimal(minified(s)),
    decreases s.len(),
{
    if s.len() > 0 {
        let p = s.drop_last();
        let c = s.last();
        lemma_minified_is_minimal(p);
        lemma_words_shape(p);
        let w = words(p);
        let g = glue(w);
        if !is_ws(c) {
            if w.len() > 0 {
                lemma_glue_last(w);
                assert(!is_ws(w.last()[w.last().len() - 1]));
            }
            if s.len() >= 2 && !is_ws(s[s.len() - 2]) {
                assert(p.last() == s[s.len() - 2]);
                lemma_glue_extend(w, c);
                let y = g.push(c);
                assert forall|i: int| 0 <= i < y.len() && #[trigger] is_ws(y[i]) implies {
                    &&& y[i] == ' '
                    &&& 0 < i < y.len() - 1
                    &&& !is_ws(y[i - 1])
                    &&& !is_ws(y[i + 1])
                    &&& !(y[i - 1] == '>' && y[i + 1] == '<')
                } by {
                    assert(is_ws(g[i]));
                }
            } else {
                lemma_glue_push(w, seq![c]);
                if w.len() > 0 {
                    let y = minified(s);
                    let j = joint(w.last(), seq![c]);
                    assert(y == g + j + seq![c]);
                    assert forall|i: int| 0 <= i < y.len() && #[trigger] is_ws(y[i]) implies {
                        &&& y[i] == ' '
                        &&& 0 < i < y.len() - 1
                        &&& !is_ws(y[i - 1])
                        &&& !is_ws(y[i + 1])
                        &&& !(y[i - 1] == '>' && y[i + 1] == '<')
                    } by {
                        if i < g.len() {
                            assert(y[i] == g[i]);
                            assert(is_ws(g[i]));
                        }
                    }
                } else {
                    assert(minified(s) == seq![c]);
                }
            }
        }
    }
}

proof fn lemma_minimal_prefix(y: Seq<char>, k: int)
    requires
        is_minimal(y),
        0 <= k <= y.len(),
    ensures
        k == 0 || !is_ws(y[k - 1]) ==> minified(y.subrange(0, k)) == y.subrange(0, k),
        k > 0 && is_ws(y[k - 1]) ==> minified(y.subrange(0, k)) == y.subrange(0, k - 1),
    decreases k,
{
    if k > 0 {
        let p = y.subrange(0, k);
        let q = y.subrange(0, k - 1);
        let c = y[k - 1];
        assert(p.drop_last() == q);
        assert(p.last() == c);
        lemma_minimal_prefix(y, k - 1);
        if is_ws(c) {
            assert(is_ws(y[k - 1]));
            assert(q.last() == y[k - 2]);
        } else if k == 1 {
            assert(words(q) == Seq::<Seq<char>>::empty());
            assert(p == seq![c]);
        } else if !is_ws(y[k - 2]) {
            assert(p[p.len() - 2] == y[k - 2]);
            assert(q.last() == y[k - 2]);
            lemma_words_shape(q);
            lemma_glue_extend(words(q), c);
            assert(q.push(c) == p);
        } else {
            assert(p[p.len() - 2] == y[k - 2]);
            assert(is_ws(y[k - 2]));
            let r = y.subrange(0, k - 2);
            assert(q.drop_last() == r);
            assert(q.last() == y[k - 2]);
            assert(words(q) == words(r));
            lemma_minimal_prefix(y, k - 2);
            assert(r.last() == y[k - 3]);
            lemma_words_shape(r);
            lemma_glue_push(words(q), seq![c]);
            assert(joint(words(q).last(), seq![c]) == seq![y[k - 2]]);
            assert(r + seq![y[k - 2]] + seq![c] == p);
        }
    }
}

/// Minifying minified HTML changes nothing.
pub proof fn minify_idempotent(x: Seq<char>)
    ensures
        minified(minified(x)) == minified(x),
{
    let y = minified(x);
    lemma_minified_is_minimal(x);
    lemma_minimal_prefix(y, y.len() as int);
    assert(y.subrange(0, y.len() as int) == y);
}

/// Whether `c` is Unicode whitespace.
pub fn is_whitespace_char(c: char) -> (r: bool)
    ensures
        r == is_ws(c),
{
    let u = c as u32;
    (9 <= u && u <= 13) || u == 32 || u == 0x85 || u == 0xA0 || u == 0x1680 || (0x2000 <= u
        && u <= 0x200A) || u == 0x2028 || u == 0x2029 || u == 0x202F || u == 0x205F || u == 0x3000
}

/// Relies on `String::push`: appends one character.
#[verifier::external_body]
pub(crate) fn push_char(s: &mut String, c: char)
    ensures
        final(s)@ == old(s)@.push(c),
{
    s.push(c)
}

/// Collapses every run of whitespace to one space, drops leading and trailing
/// whitespace, and removes the space between `>` and `<`.
pub fn minify_html(html: &str) -> (r: String)
    ensures
        r@ == minified(html@),
{
    let ghost s = html@;
    let mut out = String::new();
    let mut chars = html.chars();
    let ghost mut i: int = 0;
    // whether the character before position `i` was part of a word
    let mut in_word = false;
    // whether a word has been seen, and the last character of the last one
    let mut have_word = false;
    let mut last: char = ' ';
    loop
        invariant
            0 <= i <= s.len(),
            chars.remaining() == s.subrange(i, s.len() as int),
            chars.obeys_prophetic_iter_laws(),
            out@ == glue(words(s.subrange(0, i))),
            in_word == (i > 0 && !is_ws(s[i - 1])),
            have_word == (words(s.subrange(0, i)).len() > 0),
            have_word ==> last == words(s.subrange(0, i)).last().last(),
        ensures
            out@ == minified(s),
        decreases s.len() - i,
    {
        let ghost p = s.subrange(0, i);
        let next = chars.next();
        match next {
            None => {
                assert(s.subrange(0, i) == s);
                break ;
            },
            Some(c) => {
                proof {
                    let q = s.subrange(0, i + 1);
                    assert(q.drop_last() == p);
                    assert(q.last() == c);
                    lemma_words_shape(p);
                    lemma_words_shape(q);
                    if i > 0 {
                        assert(q[q.len() - 2] == s[i - 1]);
                    }
                }
                if is_whitespace_char(c) {
                    in_word = false;
                } else if in_word {
                    proof {
                        lemma_words_shape(p);
                        lemma_glue_extend(words(p), c);
                    }
                    push_char(&mut out, c);
                    last = c;
                } else {
                    proof {
                        lemma_glue_push(words(p), seq![c]);
                    }
                    if have_word && !(last == '>' && c == '<') {
                        push_char(&mut out, ' ');
                    }
                    push_char(&mut out, c);
                    have_word = true;
                    in_word = true;
                    last = c;
                }
                proof {
                    i = i + 1;
                }
            },
        }
    }
    out
}

} // verus!
