//! The filename slug of a post: a short, filesystem-safe fragment of its text.

use vstd::prelude::*;
use crate::text::{alnum, is_alnum, push_char};

verus! {

/// How many leading characters of a post's text the slug is made from.
pub const SLUG_SOURCE_LEN: usize = 21;

/// The separator that stands for a run of non-alphanumeric characters.
pub const SEPARATOR: char = '-';

/// Slug built from `s`, together with whether a separator is pending
/// (a non-alphanumeric run has been seen since the last kept character).
pub open spec fn slug_state(s: Seq<char>) -> (Seq<char>, bool)
    decreases s.len(),
{
    if s.len() == 0 {
        (Seq::empty(), false)
    } else {
        let (out, pending) = slug_state(s.drop_last());
        let c = s.last();
        if alnum(c) {
            let sep = if pending && out.len() > 0 { out.push(SEPARATOR) } else { out };
            (sep.push(c), false)
        } else {
            (out, true)
        }
    }
}

/// The leading characters of `text` that the slug is made from.
pub open spec fn slug_source(text: Seq<char>) -> Seq<char> {
    if text.len() <= SLUG_SOURCE_LEN { text } else { text.take(SLUG_SOURCE_LEN as int) }
}

/// The slug of `text`: the alphanumeric runs of its first characters, kept
/// as they are, joined by single separators.
pub open spec fn slug_of(text: Seq<char>) -> Seq<char> {
    slug_state(slug_source(text)).0
}

proof fn lemma_slug_state_shape(s: Seq<char>)
    ensures
        ({
            let (out, pending) = slug_state(s);
            &&& out.len() + (if pending && out.len() > 0 { 1int } else { 0 }) <= s.len()
            &&& out.len() > 0 ==> alnum(out[0]) && alnum(out.last())
        }),
    decreases s.len(),
{
    if s.len() > 0 {
        lemma_slug_state_shape(s.drop_last());
    }
}

/// A slug is never longer than the part of the text it is made from, and it
/// neither begins nor ends with the separator: its first and last characters
/// are alphanumeric.
pub proof fn lemma_slug_shape(text: Seq<char>)
    ensures
        slug_of(text).len() <= SLUG_SOURCE_LEN,
        slug_of(text).len() > 0 ==> slug_of(text)[0] != SEPARATOR,
        slug_of(text).len() > 0 ==> slug_of(text).last() != SEPARATOR,
{
    lemma_slug_state_shape(slug_source(text));
}

/// Turns the start of a post's text into a slug for its filename.
pub fn slugify(text: &str) -> (r: String)
    ensures
        r@ == slug_of(text@),
{
    let n = text.unicode_len();
    let m: usize = if n <= SLUG_SOURCE_LEN { n } else { SLUG_SOURCE_LEN };
    let ghost src = slug_source(text@);
    let mut out = String::new();
    let mut pending = false;
    let mut i: usize = 0;
    while i < m
        invariant
            m <= n,
            n == text@.len(),
            m == src.len(),
            src == slug_source(text@),
            i <= m,
            (out@, pending) == slug_state(src.take(i as int)),
        decreases m - i,
    {
        let c = text.get_char(i);
        proof {
            assert(src.take(i + 1).drop_last() =~= src.take(i as int));
        }
        if is_alnum(c) {
            if pending && out.unicode_len() > 0 {
                push_char(&mut out, SEPARATOR);
            }
            push_char(&mut out, c);
            pending = false;
        } else {
            pending = true;
        }
        i = i + 1;
    }
    proof {
        assert(src.take(m as int) =~= src);
    }
    out
}

} // verus!
