//! The request parser: the path is the second word of the first line.

use vstd::prelude::*;
use vstd::std_specs::iter::IteratorSpec;
use crate::text::{is_ws, words, is_whitespace_char, push_char};

verus! {

/// What `String::from_utf8_lossy` makes of a byte sequence.
pub uninterp spec fn lossy_utf8(b: Seq<u8>) -> Seq<char>;

/// Relies on `String::from_utf8_lossy`: decodes UTF-8, putting U+FFFD in
/// place of each invalid sequence.
#[verifier::external_body]
pub(crate) fn decode_lossy(b: &[u8]) -> (r: String)
    ensures
        r@ == lossy_utf8(b@),
{
    String::from_utf8_lossy(b).into_owned()
}

/// The index of the first line feed of `t`, or its length if it has none.
pub open spec fn line_end(t: Seq<char>) -> int
    decreases t.len(),
{
    if t.len() == 0 || t[0] == '\n' {
        0
    } else {
        1 + line_end(t.drop_first())
    }
}

/// The first line of `t`, without its line feed.
pub open spec fn first_line(t: Seq<char>) -> Seq<char> {
    t.subrange(0, line_end(t))
}

/// The requested path: the second word of the first line, or `/` where the
/// line has fewer than two words.
pub open spec fn path_of(t: Seq<char>) -> Seq<char> {
    let w = words(first_line(t));
    if w.len() >= 2 {
        w[1]
    } else {
        seq!['/']
    }
}

proof fn lemma_line_end(t: Seq<char>, i: int)
    requires
        0 <= i <= t.len(),
        forall|j: int| 0 <= j < i ==> t[j] != '\n',
        i == t.len() || t[i] == '\n',
    ensures
        line_end(t) == i,
    decreases i,
{
    if i > 0 {
        let u = t.drop_first();
        assert forall|j: int| 0 <= j < i - 1 implies u[j] != '\n' by {
            assert(u[j] == t[j + 1]);
        }
        if i < t.len() {
            assert(u[i - 1] == t[i]);
        }
        lemma_line_end(u, i - 1);
    }
}

/// The path requested by decoded request text.
pub fn path_of_text(text: &str) -> (r: String)
    ensures
        r@ == path_of(text@),
{
    let ghost s = text@;
    let mut chars = text.chars();
    let ghost mut i: int = 0;
    let mut second = String::new();
    // the number of words seen so far, counted up to three
    let mut count: usize = 0;
    let mut in_word = false;
    loop
        invariant_except_break
            chars.remaining() == s.subrange(i, s.len() as int),
            chars.obeys_prophetic_iter_laws(),
        invariant
            0 <= i <= s.len(),
            forall|j: int| 0 <= j < i ==> s[j] != '\n',
            in_word == (i > 0 && !is_ws(s[i - 1])),
            count <= 3,
            count < 3 ==> count == words(s.subrange(0, i)).len(),
            count == 3 ==> words(s.subrange(0, i)).len() >= 3,
            count >= 2 ==> second@ == words(s.subrange(0, i))[1],
            count < 2 ==> second@ == Seq::<char>::empty(),
        ensures
            count >= 2 ==> second@ == path_of(s),
            count < 2 ==> path_of(s) == seq!['/'],
        decreases s.len() - i,
    {
        let ghost p = s.subrange(0, i);
        let next = chars.next();
        let c = match next {
            None => {
                proof {
                    lemma_line_end(s, i);
                    assert(p == first_line(s));
                }
                break ;
            },
            Some(c) => c,
        };
        if c == '\n' {
            proof {
                lemma_line_end(s, i);
                assert(p == first_line(s));
            }
            break ;
        }
        proof {
            let q = s.subrange(0, i + 1);
            assert(q.drop_last() == p);
            assert(q.last() == c);
            crate::text::lemma_words_shape(p);
            if i > 0 {
                assert(q[q.len() - 2] == s[i - 1]);
            }
        }
        if is_whitespace_char(c) {
            in_word = false;
        } else if in_word {
            if count == 2 {
                push_char(&mut second, c);
            }
        } else {
            if count == 1 {
                push_char(&mut second, c);
            }
            if count < 3 {
                count = count + 1;
            }
            in_word = true;
        }
        proof {
            i = i + 1;
        }
    }
    if count >= 2 {
        second
    } else {
        let mut root = String::new();
        push_char(&mut root, '/');
        root
    }
}

/// The path requested by the raw bytes of a request.
pub fn request_path(raw: &[u8]) -> (r: String)
    ensures
        r@ == path_of(lossy_utf8(raw@)),
{
    let text = decode_lossy(raw);
    path_of_text(text.as_str())
}

} // verus!
