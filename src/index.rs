//! The post index (one post file name per line, in the order the posts were
//! written) and the contents of a post file.

use vstd::prelude::*;
use crate::text::{chars_of, push_char};

verus! {

/// The character that ends each line of the index.
pub const NEWLINE: char = '\n';

/// Lines that have ended in `s`, and the unfinished line after them.
pub open spec fn line_state(s: Seq<char>) -> (Seq<Seq<char>>, Seq<char>)
    decreases s.len(),
{
    if s.len() == 0 {
        (Seq::empty(), Seq::empty())
    } else {
        let (done, cur) = line_state(s.drop_last());
        if s.last() == NEWLINE {
            (done.push(cur), Seq::empty())
        } else {
            (done, cur.push(s.last()))
        }
    }
}

/// A line without its trailing carriage return, if it has one.
pub open spec fn strip_cr(l: Seq<char>) -> Seq<char> {
    if l.len() > 0 && l.last() == '\r' { l.drop_last() } else { l }
}

/// The lines of `s`: split at each newline, a final line without a newline
/// counted, a final empty one not, and a carriage return before a newline
/// dropped.
pub open spec fn lines_of(s: Seq<char>) -> Seq<Seq<char>> {
    let (done, cur) = line_state(s);
    let ended = done.map_values(|l: Seq<char>| strip_cr(l));
    if cur.len() > 0 { ended.push(cur) } else { ended }
}

/// The line that records a post named `name` in the index.
pub open spec fn entry_line(name: Seq<char>) -> Seq<char> {
    name.push(NEWLINE)
}

/// The metadata header of a post written at `timestamp`.
pub open spec fn header_of(timestamp: Seq<char>) -> Seq<char> {
    "---\ntimestamp: "@ + timestamp + "\n---\n"@
}

/// What a new post file holds: the header when `metadata` is set, then the
/// text as it is.
pub open spec fn post_text_of(metadata: bool, timestamp: Seq<char>, text: Seq<char>) -> Seq<char> {
    if metadata { header_of(timestamp) + text } else { text }
}

/// The views of a vector of strings.
pub open spec fn views(v: Seq<String>) -> Seq<Seq<char>> {
    v.map_values(|s: String| s@)
}

proof fn lemma_line_state_append(s: Seq<char>, t: Seq<char>)
    requires
        forall|i: int| 0 <= i < t.len() ==> t[i] != NEWLINE,
    ensures
        line_state(s + t) == (line_state(s).0, line_state(s).1 + t),
    decreases t.len(),
{
    if t.len() == 0 {
        assert(s + t =~= s);
        assert(line_state(s).1 + t =~= line_state(s).1);
    } else {
        lemma_line_state_append(s, t.drop_last());
        assert((s + t).drop_last() =~= s + t.drop_last());
        assert(line_state(s).1 + t =~= (line_state(s).1 + t.drop_last()).push(t.last()));
    }
}

/// Appending the entry of a post to an index whose lines are complete adds
/// exactly that name as the last entry, and keeps the earlier entries.
pub proof fn lemma_index_append(s: Seq<char>, name: Seq<char>)
    requires
        s.len() == 0 || s.last() == NEWLINE,
        forall|i: int| 0 <= i < name.len() ==> name[i] != NEWLINE,
        name.len() == 0 || name.last() != '\r',
    ensures
        lines_of(s + entry_line(name)) == lines_of(s).push(name),
{
    let (done, cur) = line_state(s);
    assert(cur.len() == 0) by {
        if s.len() > 0 {
            assert(s.last() == NEWLINE);
        }
    }
    lemma_line_state_append(s, name);
    assert((s + entry_line(name)).drop_last() =~= s + name);
    assert(cur + name =~= name);
    assert(line_state(s + entry_line(name)) == (done.push(name), Seq::<char>::empty()));
    assert(lines_of(s) == done.map_values(|l: Seq<char>| strip_cr(l)));
    assert(done.push(name).map_values(|l: Seq<char>| strip_cr(l))
        =~= done.map_values(|l: Seq<char>| strip_cr(l)).push(strip_cr(name)));
    assert(lines_of(s + entry_line(name)) =~= lines_of(s).push(name));
}

/// The string made of the characters `v[from..to]`.
pub(crate) fn string_of(v: &Vec<char>, from: usize, to: usize) -> (r: String)
    requires
        from <= to <= v.len(),
    ensures
        r@ == v@.subrange(from as int, to as int),
{
    let mut r = String::new();
    let mut i: usize = from;
    while i < to
        invariant
            from <= i <= to <= v.len(),
            r@ == v@.subrange(from as int, i as int),
        decreases to - i,
    {
        push_char(&mut r, v[i]);
        proof {
            assert(v@.subrange(from as int, i + 1) =~= v@.subrange(from as int, i as int).push(v@[i as int]));
        }
        i = i + 1;
    }
    r
}

/// The line `v[from..to]` without a trailing carriage return.
fn line_of(v: &Vec<char>, from: usize, to: usize) -> (r: String)
    requires
        from <= to <= v.len(),
    ensures
        r@ == strip_cr(v@.subrange(from as int, to as int)),
{
    if to > from && v[to - 1] == '\r' {
        let r = string_of(v, from, to - 1);
        assert(v@.subrange(from as int, to as int).drop_last() =~= v@.subrange(from as int, to - 1));
        r
    } else {
        string_of(v, from, to)
    }
}

/// The entries of a post index, oldest first.
pub fn parse_index(contents: &str) -> (r: Vec<String>)
    ensures
        views(r@) == lines_of(contents@),
{
    let v = chars_of(contents);
    let mut r: Vec<String> = Vec::new();
    let mut start: usize = 0;
    let mut i: usize = 0;
    while i < v.len()
        invariant
            v@ == contents@,
            start <= i <= v.len(),
            line_state(v@.take(i as int)).1 == v@.subrange(start as int, i as int),
            views(r@) == line_state(v@.take(i as int)).0.map_values(|l: Seq<char>| strip_cr(l)),
        decreases v.len() - i,
    {
        proof {
            assert(v@.take(i + 1).drop_last() =~= v@.take(i as int));
        }
        if v[i] == NEWLINE {
            let line = line_of(&v, start, i);
            let ghost before = r@;
            r.push(line);
            proof {
                let (d, c) = line_state(v@.take(i as int));
                assert(views(r@) =~= views(before).push(strip_cr(c)));
                assert(d.push(c).map_values(|l: Seq<char>| strip_cr(l))
                    =~= d.map_values(|l: Seq<char>| strip_cr(l)).push(strip_cr(c)));
                assert(v@.subrange(i + 1, i + 1) =~= Seq::<char>::empty());
            }
            start = i + 1;
        } else {
            proof {
                assert(v@.subrange(start as int, i + 1) =~= v@.subrange(start as int, i as int).push(v@[i as int]));
            }
        }
        i = i + 1;
    }
    proof {
        assert(v@.take(v.len() as int) =~= v@);
    }
    if start < v.len() {
        let line = string_of(&v, start, v.len());
        let ghost before = r@;
        r.push(line);
        proof {
            assert(views(r@) =~= views(before).push(line@));
        }
    }
    r
}

/// The line that records the post file `name` in the index.
pub fn index_entry(name: &str) -> (r: String)
    ensures
        r@ == entry_line(name@),
{
    let mut r = name.to_string();
    push_char(&mut r, NEWLINE);
    r
}

/// What a new post file holds, for the notebook's `metadata` setting, the
/// ISO timestamp of the post and its text.
pub fn post_contents(metadata: bool, timestamp: &str, text: &str) -> (r: String)
    ensures
        r@ == post_text_of(metadata, timestamp@, text@),
{
    if metadata {
        let mut r = String::from_str("---\ntimestamp: ");
        r.append(timestamp);
        r.append("\n---\n");
        r.append(text);
        r
    } else {
        text.to_string()
    }
}

} // verus!
