//! Post paths: the post path template with its date and slug placeholders,
//! collision suffixes, and joining and splitting of `/`-separated paths.

use vstd::prelude::*;
use crate::text::push_char;
use crate::time::Timestamp;

verus! {

/// The character that starts a placeholder in a post path template.
pub const PLACEHOLDER_MARK: char = '%';

/// The path separator.
pub const PATH_SEPARATOR: char = '/';

/// The decimal digit for `d < 10`.
pub open spec fn digit_char(d: nat) -> char {
    if d == 0 { '0' } else if d == 1 { '1' } else if d == 2 { '2' } else if d == 3 { '3' }
    else if d == 4 { '4' } else if d == 5 { '5' } else if d == 6 { '6' } else if d == 7 { '7' }
    else if d == 8 { '8' } else { '9' }
}

/// The decimal digits of `n`, without leading zeros (`0` is one digit).
pub open spec fn digits(n: nat) -> Seq<char>
    decreases n,
{
    if n < 10 { seq![digit_char(n)] } else { digits(n / 10).push(digit_char(n % 10)) }
}

/// `s` with zeros in front, to a width of at least `w`.
pub open spec fn zero_pad(s: Seq<char>, w: nat) -> Seq<char> {
    if s.len() >= w { s } else { Seq::new((w - s.len()) as nat, |i: int| '0') + s }
}

/// A year as `{:04}` renders it: four digits at least, the sign counted in
/// the width.
pub open spec fn year_text(y: int) -> Seq<char> {
    if y >= 0 { zero_pad(digits(y as nat), 4) } else { seq!['-'] + zero_pad(digits((-y) as nat), 3) }
}

/// A month or a day as `{:02}` renders it.
pub open spec fn two_digit_text(n: nat) -> Seq<char> {
    zero_pad(digits(n), 2)
}

/// What a placeholder letter stands for, given the date and the slug.
pub open spec fn placeholder_value(key: char, year: Seq<char>, month: Seq<char>, day: Seq<char>, slug: Seq<char>) -> Option<Seq<char>> {
    if key == 'Y' { Some(year) }
    else if key == 'm' { Some(month) }
    else if key == 'd' { Some(day) }
    else if key == 's' { Some(slug) }
    else { None }
}

/// The template `t` with each placeholder (`%Y`, `%m`, `%d`, `%s`) replaced
/// by its value, in a single left-to-right pass; all other characters are
/// kept as they are.
pub open spec fn render(t: Seq<char>, year: Seq<char>, month: Seq<char>, day: Seq<char>, slug: Seq<char>) -> Seq<char>
    decreases t.len(),
{
    if t.len() == 0 {
        Seq::empty()
    } else if t.len() >= 2 && t[0] == PLACEHOLDER_MARK && placeholder_value(t[1], year, month, day, slug) is Some {
        placeholder_value(t[1], year, month, day, slug)->0 + render(t.skip(2), year, month, day, slug)
    } else {
        seq![t[0]] + render(t.skip(1), year, month, day, slug)
    }
}

/// The relative post path that `template` gives for the date of `now` and
/// the slug `slug`.
pub open spec fn post_path_of(template: Seq<char>, now: Timestamp, slug: Seq<char>) -> Seq<char> {
    render(template, year_text(now.year as int), two_digit_text(now.month as nat),
        two_digit_text(now.day as nat), slug)
}

/// `path` with the collision suffix of attempt `n`: unchanged for `0`, else
/// `.n` appended to its last component.
pub open spec fn suffixed(path: Seq<char>, n: nat) -> Seq<char> {
    if n == 0 { path } else { path + seq!['.'] + digits(n) }
}

/// What follows the last separator of `path`.
pub open spec fn tail_component(path: Seq<char>) -> Seq<char>
    decreases path.len(),
{
    if path.len() == 0 || path.last() == PATH_SEPARATOR {
        Seq::empty()
    } else {
        tail_component(path.drop_last()).push(path.last())
    }
}

/// `path` without the separators at its end.
pub open spec fn trim_separators(path: Seq<char>) -> Seq<char>
    decreases path.len(),
{
    if path.len() > 0 && path.last() == PATH_SEPARATOR { trim_separators(path.drop_last()) } else { path }
}

/// The last component of `path`, the name of what it points to: what
/// follows its last separator once separators at its end are dropped.
pub open spec fn last_component(path: Seq<char>) -> Seq<char> {
    tail_component(trim_separators(path))
}

/// `rel` joined onto `base`: an absolute `rel` replaces `base`; otherwise a
/// separator is put between them unless `base` is empty or ends with one.
pub open spec fn joined(base: Seq<char>, rel: Seq<char>) -> Seq<char> {
    if rel.len() > 0 && rel[0] == PATH_SEPARATOR {
        rel
    } else if base.len() == 0 || base.last() == PATH_SEPARATOR {
        base + rel
    } else {
        base + seq![PATH_SEPARATOR] + rel
    }
}

fn digit(d: u64) -> (c: char)
    requires
        d < 10,
    ensures
        c == digit_char(d as nat),
{
    if d == 0 { '0' } else if d == 1 { '1' } else if d == 2 { '2' } else if d == 3 { '3' }
    else if d == 4 { '4' } else if d == 5 { '5' } else if d == 6 { '6' } else if d == 7 { '7' }
    else if d == 8 { '8' } else { '9' }
}

/// Appends the decimal digits of `n` to `s`.
fn push_digits(s: &mut String, n: u64)
    ensures
        final(s)@ == old(s)@ + digits(n as nat),
    decreases n,
{
    if n >= 10 {
        push_digits(s, n / 10);
    }
    push_char(s, digit(n % 10));
    proof {
        if n >= 10 {
            assert(digits(n as nat) == digits((n / 10) as nat).push(digit_char((n % 10) as nat)));
        }
    }
}

/// Appends `n` in decimal, with zeros in front to a width of at least `w`.
fn push_padded(s: &mut String, n: u64, w: usize)
    ensures
        final(s)@ == old(s)@ + zero_pad(digits(n as nat), w as nat),
{
    let mut d = String::new();
    push_digits(&mut d, n);
    assert(d@ =~= digits(n as nat));
    let k = d.as_str().unicode_len();
    let ghost start = s@;
    if k < w {
        let mut i: usize = k;
        while i < w
            invariant
                k <= i <= w,
                s@ =~= start + Seq::new((i - k) as nat, |j: int| '0'),
            decreases w - i,
        {
            push_char(s, '0');
            i = i + 1;
        }
    }
    s.append(d.as_str());
    proof {
        if k < w {
            assert(s@ =~= start + (Seq::new((w - k) as nat, |j: int| '0') + d@));
        } else {
            assert(s@ =~= start + d@);
        }
    }
}

/// Appends a year as `{:04}` renders it.
fn push_year(s: &mut String, y: i32)
    ensures
        final(s)@ == old(s)@ + year_text(y as int),
{
    if y >= 0 {
        push_padded(s, y as u64, 4);
    } else {
        let ghost start = s@;
        push_char(s, '-');
        let a: u64 = (-(y as i64)) as u64;
        push_padded(s, a, 3);
        proof {
            assert(s@ =~= start + (seq!['-'] + zero_pad(digits(a as nat), 3)));
        }
    }
}

/// Renders `template` for the date of `now` and the slug `slug`.
pub fn render_post_path(template: &str, now: &Timestamp, slug: &str) -> (r: String)
    ensures
        r@ == post_path_of(template@, *now, slug@),
{
    let ghost year = year_text(now.year as int);
    let ghost month = two_digit_text(now.month as nat);
    let ghost day = two_digit_text(now.day as nat);
    let t = crate::text::chars_of(template);
    let mut out = String::new();
    let mut i: usize = 0;
    assert(t@.skip(0) =~= t@);
    while i < t.len()
        invariant
            t@ == template@,
            i <= t.len(),
            year == year_text(now.year as int),
            month == two_digit_text(now.month as nat),
            day == two_digit_text(now.day as nat),
            out@ + render(t@.skip(i as int), year, month, day, slug@)
                == render(t@, year, month, day, slug@),
        decreases t.len() - i,
    {
        let ghost rest = t@.skip(i as int);
        let ghost prev = out@;
        let c = t[i];
        let mut step: usize = 1;
        let ghost mut v: Seq<char> = Seq::empty();
        if c == PLACEHOLDER_MARK && i + 1 < t.len() {
            let k = t[i + 1];
            if k == 'Y' {
                push_year(&mut out, now.year);
                step = 2;
                proof { v = year; }
            } else if k == 'm' {
                push_padded(&mut out, now.month as u64, 2);
                step = 2;
                proof { v = month; }
            } else if k == 'd' {
                push_padded(&mut out, now.day as u64, 2);
                step = 2;
                proof { v = day; }
            } else if k == 's' {
                out.append(slug);
                step = 2;
                proof { v = slug@; }
            }
        }
        if step == 1 {
            push_char(&mut out, c);
        }
        proof {
            assert(rest.skip(step as int) =~= t@.skip(i + step));
            assert(rest[0] == c);
            if step == 2 {
                assert(rest[1] == t@[i + 1]);
                assert(out@ == prev + v);
                assert(placeholder_value(rest[1], year, month, day, slug@) == Some(v));
                assert(out@ + render(t@.skip(i + 2), year, month, day, slug@)
                    =~= prev + render(rest, year, month, day, slug@));
            }
            if step == 1 {
                assert(out@ + render(t@.skip(i + 1), year, month, day, slug@)
                    =~= prev + render(rest, year, month, day, slug@)) by {
                    assert(rest[0] == c);
                }
            }
        }
        i = i + step;
    }
    proof {
        assert(t@.skip(i as int) =~= Seq::<char>::empty());
    }
    out
}

proof fn lemma_digits_len(n: nat)
    ensures
        digits(n).len() >= 1,
        n >= 10 ==> digits(n).len() >= 2,
    decreases n,
{
    if n >= 10 {
        lemma_digits_len(n / 10);
    }
}

proof fn lemma_digit_char_injective(x: nat, y: nat)
    requires
        x < 10,
        y < 10,
        digit_char(x) == digit_char(y),
    ensures
        x == y,
{
}

proof fn lemma_digits_injective(a: nat, b: nat)
    requires
        digits(a) == digits(b),
    ensures
        a == b,
    decreases a,
{
    lemma_digits_len(a);
    lemma_digits_len(b);
    if a >= 10 && b >= 10 {
        assert(digits(a) == digits((a / 10) as nat).push(digit_char((a % 10) as nat)));
        assert(digits(b) == digits((b / 10) as nat).push(digit_char((b % 10) as nat)));
        assert(digits(a).drop_last() == digits(b).drop_last());
        assert(digits(a).drop_last() =~= digits(a / 10));
        assert(digits(b).drop_last() =~= digits(b / 10));
        lemma_digits_injective(a / 10, b / 10);
        let ca = digit_char((a % 10) as nat);
        let cb = digit_char((b % 10) as nat);
        assert(digits((a / 10) as nat).push(ca).last() == ca);
        assert(digits((b / 10) as nat).push(cb).last() == cb);
        assert(digit_char((a % 10) as nat) == digit_char((b % 10) as nat));
        lemma_digit_char_injective((a % 10) as nat, (b % 10) as nat);
        assert(a == 10 * (a / 10) + a % 10);
        assert(b == 10 * (b / 10) + b % 10);
    } else if a < 10 && b < 10 {
        assert(digits(a) == seq![digit_char(a)]);
        assert(digits(b) == seq![digit_char(b)]);
        assert(seq![digit_char(a)][0] == digit_char(a));
        assert(seq![digit_char(b)][0] == digit_char(b));
        assert(digits(a)[0] == digits(b)[0]);
        lemma_digit_char_injective(a, b);
    } else if a < 10 {
        lemma_digits_len(b);
        assert(digits(a).len() == 1);
    } else {
        lemma_digits_len(a);
        assert(digits(b).len() == 1);
    }
}

proof fn lemma_suffixed_injective(p: Seq<char>, a: nat, b: nat)
    requires
        suffixed(p, a) == suffixed(p, b),
    ensures
        a == b,
{
    lemma_digits_len(a);
    lemma_digits_len(b);
    if a > 0 && b > 0 {
        let k: int = p.len() as int + 1;
        assert(suffixed(p, a).skip(k) =~= digits(a));
        assert(suffixed(p, b).skip(k) =~= digits(b));
        lemma_digits_injective(a, b);
    } else if a > 0 {
        assert(suffixed(p, a).len() > p.len());
    } else if b > 0 {
        assert(suffixed(p, b).len() > p.len());
    }
}

/// Posts that collide on one template path never share a place: the
/// candidate paths of two different attempts differ, relative to the
/// notebook directory and joined onto it alike.
pub proof fn lemma_attempts_distinct(base: Seq<char>, rel: Seq<char>, a: nat, b: nat)
    requires
        a != b,
    ensures
        suffixed(rel, a) != suffixed(rel, b),
        joined(base, suffixed(rel, a)) != joined(base, suffixed(rel, b)),
{
    let x = suffixed(rel, a);
    let y = suffixed(rel, b);
    if x == y {
        lemma_suffixed_injective(rel, a, b);
    }
    if joined(base, x) == joined(base, y) {
        let ax = x.len() > 0 && x[0] == PATH_SEPARATOR;
        let ay = y.len() > 0 && y[0] == PATH_SEPARATOR;
        assert(ax == ay) by {
            if rel.len() > 0 {
                assert(x[0] == rel[0]);
                assert(y[0] == rel[0]);
            } else {
                if a > 0 {
                    assert(x[0] == '.');
                }
                if b > 0 {
                    assert(y[0] == '.');
                }
            }
        }
        if !ax {
            let pre = if base.len() == 0 || base.last() == PATH_SEPARATOR { base } else { base + seq![PATH_SEPARATOR] };
            assert(joined(base, x) =~= pre + x);
            assert(joined(base, y) =~= pre + y);
            assert((pre + x).skip(pre.len() as int) =~= x);
            assert((pre + y).skip(pre.len() as int) =~= y);
        }
        lemma_suffixed_injective(rel, a, b);
    }
}

/// `path` with the collision suffix of attempt `n`.
pub fn suffixed_path(path: &str, n: u64) -> (r: String)
    ensures
        r@ == suffixed(path@, n as nat),
{
    let mut r = path.to_string();
    if n > 0 {
        push_char(&mut r, '.');
        push_digits(&mut r, n);
    }
    r
}

/// The last component of `path`: the file name of a post.
pub fn file_name(path: &str) -> (r: String)
    ensures
        r@ == last_component(path@),
{
    let t = crate::text::chars_of(path);
    let mut end: usize = t.len();
    assert(t@.take(end as int) =~= t@);
    while end > 0 && t[end - 1] == PATH_SEPARATOR
        invariant
            t@ == path@,
            end <= t.len(),
            trim_separators(t@) == trim_separators(t@.take(end as int)),
        decreases end,
    {
        assert(t@.take(end as int).drop_last() =~= t@.take(end - 1));
        end = end - 1;
    }
    assert(trim_separators(t@) == t@.take(end as int));
    let mut start: usize = end;
    while start > 0 && t[start - 1] != PATH_SEPARATOR
        invariant
            t@ == path@,
            start <= end <= t.len(),
            forall|j: int| start <= j < end ==> t@[j] != PATH_SEPARATOR,
        decreases start,
    {
        start = start - 1;
    }
    let mut r = String::new();
    let mut i: usize = start;
    while i < end
        invariant
            t@ == path@,
            start <= i <= end <= t.len(),
            forall|j: int| start <= j < end ==> t@[j] != PATH_SEPARATOR,
            start == 0 || t@[start - 1] == PATH_SEPARATOR,
            r@ == t@.subrange(start as int, i as int),
            r@ == tail_component(t@.take(i as int)),
        decreases end - i,
    {
        proof {
            assert(t@.take(i + 1).drop_last() =~= t@.take(i as int));
            assert(t@.subrange(start as int, i + 1) =~= t@.subrange(start as int, i as int).push(t@[i as int]));
        }
        push_char(&mut r, t[i]);
        i = i + 1;
    }
    r
}

/// `rel` joined onto the directory `base`.
pub fn join(base: &str, rel: &str) -> (r: String)
    ensures
        r@ == joined(base@, rel@),
{
    let b = crate::text::chars_of(base);
    let rl = crate::text::chars_of(rel);
    if rl.len() > 0 && rl[0] == PATH_SEPARATOR {
        rel.to_string()
    } else if b.len() == 0 || b[b.len() - 1] == PATH_SEPARATOR {
        let mut r = base.to_string();
        r.append(rel);
        r
    } else {
        let mut r = base.to_string();
        push_char(&mut r, PATH_SEPARATOR);
        r.append(rel);
        r
    }
}

} // verus!
