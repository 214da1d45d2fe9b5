//! Characters, whitespace and lines: the vocabulary in which palette text is
//! described.
//!
//! Text is modelled as `Seq<char>`, the view of `str` and `String`.

use vstd::prelude::*;

verus! {

/// Whether `c` is whitespace as Unicode defines it (`White_Space`).
pub open spec fn is_space(c: char) -> bool {
    let n = c as u32;
    ||| 0x09 <= n <= 0x0d
    ||| n == 0x20
    ||| n == 0x85
    ||| n == 0xa0
    ||| n == 0x1680
    ||| 0x2000 <= n <= 0x200a
    ||| n == 0x2028
    ||| n == 0x2029
    ||| n == 0x202f
    ||| n == 0x205f
    ||| n == 0x3000
}

/// `s` without the whitespace it starts with.
pub open spec fn trim_start(s: Seq<char>) -> Seq<char>
    decreases s.len(),
{
    if s.len() > 0 && is_space(s.first()) {
        trim_start(s.drop_first())
    } else {
        s
    }
}

/// `s` without the whitespace it ends with.
pub open spec fn trim_end(s: Seq<char>) -> Seq<char>
    decreases s.len(),
{
    if s.len() > 0 && is_space(s.last()) {
        trim_end(s.drop_last())
    } else {
        s
    }
}

/// `s` without leading and trailing whitespace.
pub open spec fn trimmed(s: Seq<char>) -> Seq<char> {
    trim_end(trim_start(s))
}

/// The lines of `s`: the pieces between its line feeds, in order. A text with
/// `n` line feeds has `n + 1` lines, some of which may be empty. A carriage
/// return stays with its line; it is whitespace, so trimming removes one that
/// precedes a line feed.
pub open spec fn lines(s: Seq<char>) -> Seq<Seq<char>>
    decreases s.len(),
{
    if s.len() == 0 {
        seq![Seq::empty()]
    } else if s.last() == '\n' {
        lines(s.drop_last()).push(Seq::empty())
    } else {
        let before = lines(s.drop_last());
        before.drop_last().push(before.last().push(s.last()))
    }
}

/// Where the part that [`trim_start`] keeps begins.
pub proof fn lemma_trim_start_bounds(s: Seq<char>) -> (a: int)
    ensures
        0 <= a <= s.len(),
        trim_start(s) == s.subrange(a, s.len() as int),
        forall|i: int| 0 <= i < a ==> is_space(s[i]),
        a < s.len() ==> !is_space(s[a]),
    decreases s.len(),
{
    if s.len() > 0 && is_space(s.first()) {
        let rest = s.drop_first();
        let a = lemma_trim_start_bounds(rest);
        assert(rest.subrange(a, rest.len() as int) == s.subrange(a + 1, s.len() as int));
        assert forall|i: int| 0 <= i < a + 1 implies is_space(s[i]) by {
            if i > 0 {
                assert(s[i] == rest[i - 1]);
            }
        }
        a + 1
    } else {
        assert(s.subrange(0, s.len() as int) == s);
        0
    }
}

/// Where the part that [`trim_end`] keeps ends.
pub proof fn lemma_trim_end_bounds(s: Seq<char>) -> (b: int)
    ensures
        0 <= b <= s.len(),
        trim_end(s) == s.subrange(0, b),
        forall|i: int| b <= i < s.len() ==> is_space(s[i]),
        0 < b ==> !is_space(s[b - 1]),
    decreases s.len(),
{
    if s.len() > 0 && is_space(s.last()) {
        let rest = s.drop_last();
        let b = lemma_trim_end_bounds(rest);
        assert(rest.subrange(0, b) == s.subrange(0, b));
        assert forall|i: int| b <= i < s.len() implies is_space(s[i]) by {
            if i < rest.len() {
                assert(s[i] == rest[i]);
            }
        }
        b
    } else {
        assert(s.subrange(0, s.len() as int) == s);
        s.len() as int
    }
}

/// Trimming cuts whitespace, and only whitespace, from both ends: `trimmed(s)`
/// is the piece `s[a..b]` where everything before `a` and from `b` on is
/// whitespace, and the piece, unless it is empty, starts and ends with a
/// character that is not.
pub proof fn lemma_trimmed_bounds(s: Seq<char>) -> (r: (int, int))
    ensures
        0 <= r.0 <= r.1 <= s.len(),
        trimmed(s) == s.subrange(r.0, r.1),
        forall|i: int| 0 <= i < r.0 ==> is_space(s[i]),
        forall|i: int| r.1 <= i < s.len() ==> is_space(s[i]),
        r.0 < r.1 ==> !is_space(s[r.0]) && !is_space(s[r.1 - 1]),
{
    let a = lemma_trim_start_bounds(s);
    let kept = s.subrange(a, s.len() as int);
    let b = lemma_trim_end_bounds(kept);
    assert(kept.subrange(0, b) == s.subrange(a, a + b));
    assert forall|i: int| a + b <= i < s.len() implies is_space(s[i]) by {
        assert(s[i] == kept[i - a]);
    }
    if 0 < b {
        assert(kept[b - 1] == s[a + b - 1]);
    }
    (a, a + b)
}

/// A text that neither starts nor ends with whitespace is its own trimmed
/// form; so trimming twice is trimming once.
pub proof fn lemma_trimmed_fixed(s: Seq<char>)
    ensures
        s.len() == 0 || (!is_space(s.first()) && !is_space(s.last())) ==> trimmed(s) == s,
        trimmed(trimmed(s)) == trimmed(s),
{
    let r = lemma_trimmed_bounds(s);
    let t = trimmed(s);
    if t.len() > 0 {
        assert(t.first() == s[r.0]);
        assert(t.last() == s[r.1 - 1]);
    }
}

/// A text without a line feed is one line.
pub proof fn lemma_lines_single(s: Seq<char>)
    requires
        forall|i: int| 0 <= i < s.len() ==> s[i] != '\n',
    ensures
        lines(s) == seq![s],
    decreases s.len(),
{
    if s.len() == 0 {
        assert(s == Seq::<char>::empty());
    } else {
        lemma_lines_single(s.drop_last());
        assert(s.drop_last().push(s.last()) == s);
        assert(seq![s.drop_last()].drop_last().push(s) == seq![s]);
    }
}

/// Every text has at least one line.
pub proof fn lemma_lines_nonempty(s: Seq<char>)
    ensures
        lines(s).len() > 0,
    decreases s.len(),
{
    if s.len() > 0 {
        lemma_lines_nonempty(s.drop_last());
    }
}

/// The lines of two texts joined by a line feed are the lines of the first
/// followed by the lines of the second.
pub proof fn lemma_lines_join(a: Seq<char>, b: Seq<char>)
    ensures
        lines(a + seq!['\n'] + b) == lines(a) + lines(b),
    decreases b.len(),
{
    let joined = a + seq!['\n'] + b;
    if b.len() == 0 {
        assert(joined.drop_last() == a);
        assert(lines(a).push(Seq::empty()) == lines(a) + lines(b));
    } else {
        let shorter = b.drop_last();
        lemma_lines_join(a, shorter);
        lemma_lines_nonempty(shorter);
        assert(joined.drop_last() == a + seq!['\n'] + shorter);
        let before = lines(a) + lines(shorter);
        if b.last() == '\n' {
            assert(before.push(Seq::empty()) == lines(a) + lines(b));
        } else {
            assert(before.drop_last() == lines(a) + lines(shorter).drop_last());
            assert(before.drop_last().push(before.last().push(b.last())) == lines(a) + lines(b));
        }
    }
}

/// Decides [`is_space`].
pub fn is_whitespace(c: char) -> (b: bool)
    ensures
        b == is_space(c),
{
    let n: u32 = c as u32;
    (0x09 <= n && n <= 0x0d) || n == 0x20 || n == 0x85 || n == 0xa0 || n == 0x1680 || (0x2000 <= n
        && n <= 0x200a) || n == 0x2028 || n == 0x2029 || n == 0x202f || n == 0x205f || n == 0x3000
}

/// The characters of `s`, in order.
pub fn chars_of(s: &str) -> (v: Vec<char>)
    ensures
        v@ == s@,
{
    let mut v: Vec<char> = Vec::new();
    for c in it: s.chars()
        invariant
            v@ == it.seq().take(it.index()),
    {
        v.push(c);
    }
    v
}

/// Where the trimmed form of `chars[from..to]` lies within `chars`.
pub fn trim_bounds(chars: &Vec<char>, from: usize, to: usize) -> (r: (usize, usize))
    requires
        from <= to <= chars.len(),
    ensures
        from <= r.0 <= r.1 <= to,
        chars@.subrange(r.0 as int, r.1 as int) == trimmed(chars@.subrange(from as int, to as int)),
{
    let mut a: usize = from;
    while a < to && is_whitespace(chars[a])
        invariant
            from <= a <= to <= chars.len(),
            trim_start(chars@.subrange(from as int, to as int)) == trim_start(
                chars@.subrange(a as int, to as int),
            ),
        decreases to - a,
    {
        assert(chars@.subrange(a as int, to as int).drop_first() == chars@.subrange(
            a + 1,
            to as int,
        ));
        a += 1;
    }
    let mut b: usize = to;
    while a < b && is_whitespace(chars[b - 1])
        invariant
            a <= b <= to <= chars.len(),
            trim_end(chars@.subrange(a as int, to as int)) == trim_end(
                chars@.subrange(a as int, b as int),
            ),
        decreases b - a,
    {
        assert(chars@.subrange(a as int, b as int).drop_last() == chars@.subrange(
            a as int,
            b - 1,
        ));
        b -= 1;
    }
    (a, b)
}

} // verus!
