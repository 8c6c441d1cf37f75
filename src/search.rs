//! Full-text search over posts and hashtag tallies.
//!
//! Reading the posts is left to the caller: each function takes the text of
//! every post, or `None` for a post that could not be read, which is skipped.

use vstd::prelude::*;
use crate::index::views;
use crate::text::chars_of;

verus! {

/// The character that starts a tag.
pub const TAG_MARK: char = '#';

/// Whether `q` occurs in `s` as a contiguous run of characters.
pub open spec fn occurs_in(q: Seq<char>, s: Seq<char>) -> bool {
    exists|i: int| 0 <= i && i + q.len() <= s.len() && #[trigger] s.subrange(i, i + q.len()) == q
}

/// Relies on `str::contains` with a string pattern: whether `q` occurs in
/// `s` as a substring.
#[verifier::external_body]
fn contains(s: &str, q: &str) -> (r: bool)
    ensures
        r == occurs_in(q@, s@),
{
    s.contains(q)
}

/// Whether a post with text `text` (`None`: unreadable) matches `q`.
pub open spec fn post_matches(text: Option<String>, q: Seq<char>) -> bool {
    text is Some && occurs_in(q, text->0@)
}

/// The paths among the first `n` whose post matches `q`, in their order.
pub open spec fn matches_upto(paths: Seq<Seq<char>>, texts: Seq<Option<String>>, q: Seq<char>, n: nat) -> Seq<Seq<char>>
    decreases n,
{
    if n == 0 {
        Seq::empty()
    } else {
        let prev = matches_upto(paths, texts, q, (n - 1) as nat);
        if post_matches(texts[n - 1], q) { prev.push(paths[n - 1]) } else { prev }
    }
}

/// The paths whose post matches `q`, in their order.
pub open spec fn search_result(paths: Seq<Seq<char>>, texts: Seq<Option<String>>, q: Seq<char>) -> Seq<Seq<char>> {
    matches_upto(paths, texts, q, paths.len())
}

/// Keeps, in order, the paths whose post text contains `query`; posts that
/// could not be read are skipped.
pub fn search_files(paths: &Vec<String>, texts: &Vec<Option<String>>, query: &str) -> (r: Vec<String>)
    requires
        paths.len() == texts.len(),
    ensures
        views(r@) == search_result(views(paths@), texts@, query@),
{
    let mut r: Vec<String> = Vec::new();
    let mut i: usize = 0;
    while i < paths.len()
        invariant
            paths.len() == texts.len(),
            i <= paths.len(),
            views(r@) == matches_upto(views(paths@), texts@, query@, i as nat),
        decreases paths.len() - i,
    {
        let hit = match &texts[i] {
            Some(t) => contains(t.as_str(), query),
            None => false,
        };
        if hit {
            let ghost before = r@;
            r.push(paths[i].clone());
            proof {
                assert(views(r@) =~= views(before).push(paths@[i as int]@));
            }
        }
        i = i + 1;
    }
    r
}

/// Searching is repeatable: two searches with the same query over the same
/// paths and unchanged post texts give the same paths in the same order.
pub proof fn lemma_search_repeatable(paths: Seq<String>, texts: Seq<Option<String>>, q: Seq<char>, r1: Seq<String>, r2: Seq<String>)
    requires
        views(r1) == search_result(views(paths), texts, q),
        views(r2) == search_result(views(paths), texts, q),
    ensures
        views(r1) == views(r2),
{
}

/// Unicode white space, as `char::is_whitespace` classifies it.
pub open spec fn whitespace(c: char) -> bool {
    let u = c as u32;
    (9 <= u <= 13) || u == 32 || u == 0x85 || u == 0xA0 || u == 0x1680 || (0x2000 <= u <= 0x200A)
        || u == 0x2028 || u == 0x2029 || u == 0x202F || u == 0x205F || u == 0x3000
}

/// ASCII punctuation, as `char::is_ascii_punctuation` classifies it.
pub open spec fn ascii_punctuation(c: char) -> bool {
    let u = c as u32;
    (33 <= u <= 47) || (58 <= u <= 64) || (91 <= u <= 96) || (123 <= u <= 126)
}

/// Whether `c` ends a tag.
pub open spec fn ends_tag(c: char) -> bool {
    whitespace(c) || ascii_punctuation(c)
}

/// How many characters from position `i` of `s` on can belong to a tag.
pub open spec fn run_len(s: Seq<char>, i: int) -> nat
    decreases s.len() - i,
{
    if 0 <= i < s.len() && !ends_tag(s[i]) { 1 + run_len(s, i + 1) } else { 0 }
}

/// The tags that start at one of the first `n` characters of `s`, in order:
/// a tag mark followed by a non-empty run of characters that do not end a
/// tag, without the mark.
pub open spec fn tags_upto(s: Seq<char>, n: nat) -> Seq<Seq<char>>
    decreases n,
{
    if n == 0 || n > s.len() {
        Seq::empty()
    } else {
        let prev = tags_upto(s, (n - 1) as nat);
        let k = run_len(s, n as int);
        if s[n - 1] == TAG_MARK && k > 0 { prev.push(s.subrange(n as int, (n + k) as int)) } else { prev }
    }
}

/// The tags of a text, in order.
pub open spec fn tags_of(s: Seq<char>) -> Seq<Seq<char>> {
    tags_upto(s, s.len())
}

/// The tags of the readable posts among `texts`, in order.
pub open spec fn all_tags(texts: Seq<Option<String>>) -> Seq<Seq<char>>
    decreases texts.len(),
{
    if texts.len() == 0 {
        Seq::empty()
    } else {
        all_tags(texts.drop_last()) + match texts.last() {
            Some(t) => tags_of(t@),
            None => Seq::empty(),
        }
    }
}

/// How many times `x` occurs in `ts`.
pub open spec fn count(ts: Seq<Seq<char>>, x: Seq<char>) -> nat
    decreases ts.len(),
{
    if ts.len() == 0 {
        0
    } else {
        count(ts.drop_last(), x) + if ts.last() == x { 1nat } else { 0nat }
    }
}

proof fn lemma_count_le_len(ts: Seq<Seq<char>>, x: Seq<char>)
    ensures
        count(ts, x) <= ts.len(),
    decreases ts.len(),
{
    if ts.len() > 0 {
        lemma_count_le_len(ts.drop_last(), x);
    }
}

fn is_ws(c: char) -> (r: bool)
    ensures
        r == whitespace(c),
{
    let u = c as u32;
    (9 <= u && u <= 13) || u == 32 || u == 0x85 || u == 0xA0 || u == 0x1680 || (0x2000 <= u && u <= 0x200A)
        || u == 0x2028 || u == 0x2029 || u == 0x202F || u == 0x205F || u == 0x3000
}

fn is_punct(c: char) -> (r: bool)
    ensures
        r == ascii_punctuation(c),
{
    let u = c as u32;
    (33 <= u && u <= 47) || (58 <= u && u <= 64) || (91 <= u && u <= 96) || (123 <= u && u <= 126)
}

/// Appends the tags of `text` to `out`, in order.
fn push_tags(text: &str, out: &mut Vec<String>)
    ensures
        views(final(out)@) == views(old(out)@) + tags_of(text@),
{
    let v = chars_of(text);
    let ghost start = views(out@);
    let mut n: usize = 0;
    assert(start + tags_upto(v@, 0) =~= start);
    while n < v.len()
        invariant
            v@ == text@,
            n <= v.len(),
            views(out@) == start + tags_upto(v@, n as nat),
        decreases v.len() - n,
    {
        n = n + 1;
        if v[n - 1] == TAG_MARK {
            let mut j: usize = n;
            while j < v.len() && !is_ws(v[j]) && !is_punct(v[j])
                invariant
                    v@ == text@,
                    n <= j <= v.len(),
                    run_len(v@, n as int) == (j - n) + run_len(v@, j as int),
                decreases v.len() - j,
            {
                j = j + 1;
            }
            if j > n {
                let t = crate::index::string_of(&v, n, j);
                let ghost before = out@;
                out.push(t);
                proof {
                    assert(views(out@) =~= views(before).push(t@));
                }
            }
        }
    }
}

/// A tag and how many times it occurs.
pub struct Tag {
    pub name: String,
    pub occurances: usize,
}

/// The tags of the readable posts among `texts`, in order.
fn collect_tags(texts: &Vec<Option<String>>) -> (r: Vec<String>)
    ensures
        views(r@) == all_tags(texts@),
{
    let mut r: Vec<String> = Vec::new();
    let mut i: usize = 0;
    while i < texts.len()
        invariant
            i <= texts.len(),
            views(r@) == all_tags(texts@.take(i as int)),
        decreases texts.len() - i,
    {
        proof {
            assert(texts@.take(i + 1).drop_last() =~= texts@.take(i as int));
        }
        match &texts[i] {
            Some(t) => push_tags(t.as_str(), &mut r),
            None => {
                assert(views(r@) =~= all_tags(texts@.take(i as int)) + Seq::<Seq<char>>::empty());
            },
        }
        i = i + 1;
    }
    assert(texts@.take(texts.len() as int) =~= texts@);
    r
}

/// Whether `r` tallies `ts`: each tag of `ts` stands once in `r`, with the
/// number of times it occurs in `ts`, and nothing else stands there.
pub open spec fn is_tally(r: Seq<Tag>, ts: Seq<Seq<char>>) -> bool {
    &&& forall|a: int, b: int| 0 <= a < b < r.len() ==> r[a].name@ != r[b].name@
    &&& forall|a: int| 0 <= a < r.len() ==> #[trigger] r[a].occurances == count(ts, r[a].name@)
    &&& forall|a: int| 0 <= a < r.len() ==> count(ts, #[trigger] r[a].name@) > 0
    &&& forall|k: int| 0 <= k < ts.len() ==> exists|a: int| 0 <= a < r.len() && #[trigger] r[a].name@ == #[trigger] ts[k]
}

/// Counts each distinct tag of `ts`.
fn tally(ts: &Vec<String>) -> (r: Vec<Tag>)
    ensures
        is_tally(r@, views(ts@)),
{
    let ghost all = views(ts@);
    let mut r: Vec<Tag> = Vec::new();
    let mut i: usize = 0;
    while i < ts.len()
        invariant
            i <= ts.len(),
            all == views(ts@),
            is_tally(r@, all.take(i as int)),
        decreases ts.len() - i,
    {
        let ghost p = all.take(i as int);
        let ghost q = all.take(i + 1);
        proof {
            assert(q.drop_last() =~= p);
            assert(q.last() == ts@[i as int]@);
        }
        let t = &ts[i];
        let mut j: usize = 0;
        while j < r.len()
            invariant
                j <= r.len(),
                forall|a: int| 0 <= a < j ==> r@[a].name@ != t@,
            ensures
                j <= r.len(),
                forall|a: int| 0 <= a < j ==> r@[a].name@ != t@,
                j < r.len() ==> r@[j as int].name@ == t@,
            decreases r.len() - j,
        {
            if r[j].name == *t {
                break;
            }
            j = j + 1;
        }
        let found = j < r.len();
        if found {
            proof {
                lemma_count_le_len(p, t@);
            }
            let n = r[j].occurances + 1;
            let name = r[j].name.clone();
            let ghost before = r@;
            r.set(j, Tag { name, occurances: n });
            proof {
                assert forall|a: int| 0 <= a < r.len() implies #[trigger] r@[a].occurances == count(q, r@[a].name@) by {
                    if a != j {
                        assert(before[a].name@ != t@);
                    }
                }
                assert forall|k: int| 0 <= k < q.len() implies exists|a: int| 0 <= a < r.len() && #[trigger] r@[a].name@ == #[trigger] q[k] by {
                    if k < p.len() {
                        assert(q[k] == p[k]);
                        let a = choose|a: int| 0 <= a < before.len() && #[trigger] before[a].name@ == p[k];
                        assert(r@[a].name@ == q[k]);
                    } else {
                        assert(r@[j as int].name@ == q[k]);
                    }
                }
            }
        } else {
            let ghost before = r@;
            r.push(Tag { name: t.clone(), occurances: 1 });
            proof {
                assert(count(p, t@) == 0) by {
                    if count(p, t@) > 0 {
                        assert(exists|k: int| 0 <= k < p.len() && p[k] == t@) by {
                            lemma_count_pos(p, t@);
                        }
                        let k = choose|k: int| 0 <= k < p.len() && p[k] == t@;
                        let a = choose|a: int| 0 <= a < before.len() && #[trigger] before[a].name@ == #[trigger] p[k];
                    }
                }
                assert forall|a: int| 0 <= a < r.len() implies #[trigger] r@[a].occurances == count(q, r@[a].name@) by {
                    if a < before.len() {
                        assert(before[a].name@ != t@);
                    }
                }
                assert forall|k: int| 0 <= k < q.len() implies exists|a: int| 0 <= a < r.len() && #[trigger] r@[a].name@ == #[trigger] q[k] by {
                    if k < p.len() {
                        assert(q[k] == p[k]);
                        let a = choose|a: int| 0 <= a < before.len() && #[trigger] before[a].name@ == p[k];
                        assert(r@[a].name@ == q[k]);
                    } else {
                        assert(r@[before.len() as int].name@ == q[k]);
                    }
                }
            }
        }
        i = i + 1;
    }
    proof {
        assert(all.take(ts.len() as int) =~= all);
    }
    r
}

proof fn lemma_count_pos(ts: Seq<Seq<char>>, x: Seq<char>)
    requires
        count(ts, x) > 0,
    ensures
        exists|k: int| 0 <= k < ts.len() && ts[k] == x,
    decreases ts.len(),
{
    if ts.last() != x {
        lemma_count_pos(ts.drop_last(), x);
        let k = choose|k: int| 0 <= k < ts.drop_last().len() && ts.drop_last()[k] == x;
        assert(ts[k] == x);
    } else {
        assert(ts[ts.len() - 1] == x);
    }
}

/// Counts the tags of the readable posts among `texts`: each distinct tag
/// once, with the number of times it occurs over all of them.
pub fn tags(texts: &Vec<Option<String>>) -> (r: Vec<Tag>)
    ensures
        is_tally(r@, all_tags(texts@)),
{
    let all = collect_tags(texts);
    tally(&all)
}

} // verus!
