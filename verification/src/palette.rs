//! The palette: the colour entries that a text holds.

use crate::text::{
    chars_of, is_space, lemma_lines_join, lemma_lines_nonempty, lemma_lines_single,
    lemma_trimmed_bounds, lines, trim_bounds, trimmed,
};
use vstd::prelude::*;

verus! {

/// The character that every colour entry starts with.
pub const MARKER: char = '#';

/// Whether `entry` is a colour entry: not empty, and starting with the marker.
/// Nothing more is asked of it.
pub open spec fn is_color_entry(entry: Seq<char>) -> bool {
    entry.len() > 0 && entry.first() == MARKER
}

/// The colour entries among `ls`: each line trimmed, and kept where what is
/// left is a colour entry. The order of the lines is the order of the entries.
pub open spec fn color_entries(ls: Seq<Seq<char>>) -> Seq<Seq<char>> {
    ls.map_values(|l: Seq<char>| trimmed(l)).filter(|e: Seq<char>| is_color_entry(e))
}

/// The palette that `text` holds.
pub open spec fn parsed_palette(text: Seq<char>) -> Seq<Seq<char>> {
    color_entries(lines(text))
}

/// One more line adds its trimmed form to the entries, or nothing.
pub proof fn lemma_color_entries_push(ls: Seq<Seq<char>>, l: Seq<char>)
    ensures
        color_entries(ls.push(l)) == if is_color_entry(trimmed(l)) {
            color_entries(ls).push(trimmed(l))
        } else {
            color_entries(ls)
        },
{
    let f = |l: Seq<char>| trimmed(l);
    let p = |e: Seq<char>| is_color_entry(e);
    ls.lemma_push_map_commute(f, l);
    ls.map_values(f).lemma_filter_push(f(l), p);
}

/// The entries of two runs of lines are the entries of the first followed by
/// the entries of the second.
pub proof fn lemma_color_entries_concat(xs: Seq<Seq<char>>, ys: Seq<Seq<char>>)
    ensures
        color_entries(xs + ys) == color_entries(xs) + color_entries(ys),
{
    let f = |l: Seq<char>| trimmed(l);
    let p = |e: Seq<char>| is_color_entry(e);
    assert((xs + ys).map_values(f) == xs.map_values(f) + ys.map_values(f));
    Seq::filter_distributes_over_add(xs.map_values(f), ys.map_values(f), p);
}

/// The line from which entry `i` of `color_entries(ls)` comes.
pub open spec fn source_line(ls: Seq<Seq<char>>, i: int) -> int
    decreases ls.len(),
{
    if ls.len() == 0 {
        0
    } else if i < color_entries(ls.drop_last()).len() {
        source_line(ls.drop_last(), i)
    } else {
        ls.len() - 1
    }
}

/// Only qualifying lines are kept, and their order is preserved: each entry is
/// the trimmed form of its source line, it is a colour entry, and a later
/// entry comes from a later line.
pub proof fn lemma_entries_follow_lines(ls: Seq<Seq<char>>, i: int, j: int)
    requires
        0 <= i <= j < color_entries(ls).len(),
    ensures
        0 <= source_line(ls, i) < ls.len(),
        color_entries(ls)[i] == trimmed(ls[source_line(ls, i)]),
        is_color_entry(color_entries(ls)[i]),
        i < j ==> source_line(ls, i) < source_line(ls, j),
    decreases ls.len(),
{
    if ls.len() == 0 {
        assert(color_entries(ls).len() == 0) by {
            reveal(Seq::filter);
        }
    } else {
        let before = ls.drop_last();
        lemma_color_entries_push(before, ls.last());
        assert(before.push(ls.last()) == ls);
        if j < color_entries(before).len() {
            lemma_entries_follow_lines(before, i, j);
        } else if i < j {
            lemma_entries_follow_lines(before, i, i);
        }
    }
}

/// Every qualifying line is kept: a line whose trimmed form is a colour entry
/// is the source line of some entry.
pub proof fn lemma_qualifying_lines_are_kept(ls: Seq<Seq<char>>, k: int) -> (i: int)
    requires
        0 <= k < ls.len(),
        is_color_entry(trimmed(ls[k])),
    ensures
        0 <= i < color_entries(ls).len(),
        source_line(ls, i) == k,
    decreases ls.len(),
{
    let before = ls.drop_last();
    lemma_color_entries_push(before, ls.last());
    assert(before.push(ls.last()) == ls);
    if k == ls.len() - 1 {
        color_entries(before).len() as int
    } else {
        lemma_qualifying_lines_are_kept(before, k)
    }
}

/// Every entry of a parsed palette is a colour entry that neither starts nor
/// ends with whitespace.
pub proof fn lemma_parsed_entries_are_colors(text: Seq<char>, i: int)
    requires
        0 <= i < parsed_palette(text).len(),
    ensures
        is_color_entry(parsed_palette(text)[i]),
        !is_space(parsed_palette(text)[i].first()),
        !is_space(parsed_palette(text)[i].last()),
{
    let ls = lines(text);
    lemma_entries_follow_lines(ls, i, i);
    lemma_trimmed_bounds(ls[source_line(ls, i)]);
}

/// The palette of two texts joined by a line feed is the palette of the first
/// followed by the palette of the second.
pub proof fn lemma_palette_join(a: Seq<char>, b: Seq<char>)
    ensures
        parsed_palette(a + seq!['\n'] + b) == parsed_palette(a) + parsed_palette(b),
{
    lemma_lines_join(a, b);
    lemma_color_entries_concat(lines(a), lines(b));
}

/// The palette of a single line: its trimmed form where that is a colour
/// entry, and nothing otherwise.
pub proof fn lemma_palette_of_line(line: Seq<char>)
    requires
        forall|i: int| 0 <= i < line.len() ==> line[i] != '\n',
    ensures
        parsed_palette(line) == if is_color_entry(trimmed(line)) {
            seq![trimmed(line)]
        } else {
            Seq::empty()
        },
{
    lemma_lines_single(line);
    lemma_color_entries_push(Seq::empty(), line);
    assert(Seq::<Seq<char>>::empty().push(line) == seq![line]);
    assert(color_entries(Seq::empty()) == Seq::<Seq<char>>::empty()) by {
        reveal(Seq::filter);
    }
}

/// Why a text gave no palette.
#[derive(Debug, Clone, Copy, PartialEq, Eq, Structural)]
pub enum PaletteError {
    /// The text holds no colour entry.
    EmptyPalette,
}

impl PaletteError {
    /// A sentence for the user.
    pub fn message(&self) -> (text: String)
        ensures
            text@ == "No valid colors found"@,
    {
        "No valid colors found".to_owned()
    }
}

/// A palette to choose from: at least one colour entry, in the order of the
/// text that it was read from.
#[derive(Debug)]
pub struct Palette {
    entries: Vec<String>,
}

impl View for Palette {
    type V = Seq<Seq<char>>;

    closed spec fn view(&self) -> Seq<Seq<char>> {
        self.entries.deep_view()
    }
}

impl Palette {
    #[verifier::type_invariant]
    spec fn well_formed(self) -> bool {
        &&& self.entries.len() > 0
        &&& forall|i: int| 0 <= i < self.entries.len() ==> is_color_entry(#[trigger] self.entries[i]@)
    }

    /// Reads the palette that `content` holds; a text without a colour entry
    /// gives none.
    pub fn from_text(content: &str) -> (r: Result<Palette, PaletteError>)
        ensures
            match r {
                Ok(palette) => palette@ == parsed_palette(content@) && palette@.len() > 0,
                Err(e) => e == PaletteError::EmptyPalette && parsed_palette(content@).len() == 0,
            },
    {
        let entries = parse_colors(content);
        if entries.len() == 0 {
            return Err(PaletteError::EmptyPalette);
        }
        proof {
            assert forall|i: int| 0 <= i < entries.len() implies is_color_entry(
                #[trigger] entries[i]@,
            ) by {
                lemma_parsed_entries_are_colors(content@, i);
                assert(entries.deep_view()[i] == entries[i]@);
            }
        }
        Ok(Palette { entries })
    }

    /// The number of entries, which is never zero.
    pub fn len(&self) -> (n: usize)
        ensures
            n == self@.len(),
            n > 0,
    {
        proof {
            use_type_invariant(self);
        }
        self.entries.len()
    }

    /// The entry at position `i`, counted from zero.
    pub fn get(&self, i: usize) -> (entry: Option<&String>)
        ensures
            i < self@.len() ==> entry is Some && entry->0@ == self@[i as int] && is_color_entry(
                self@[i as int],
            ),
            i >= self@.len() ==> entry is None,
    {
        proof {
            use_type_invariant(self);
        }
        if i < self.entries.len() {
            Some(&self.entries[i])
        } else {
            None
        }
    }

    /// The entry at position `i`, which the palette has.
    pub fn entry(&self, i: usize) -> (entry: &String)
        requires
            i < self@.len(),
        ensures
            entry@ == self@[i as int],
            is_color_entry(entry@),
    {
        proof {
            use_type_invariant(self);
        }
        &self.entries[i]
    }

    /// All entries, in order.
    pub fn entries(&self) -> (entries: &Vec<String>)
        ensures
            entries.deep_view() == self@,
    {
        &self.entries
    }
}

/// Appends the trimmed form of `chars[from..to]` to `colors` where it is a
/// colour entry.
fn keep_entry(content: &str, chars: &Vec<char>, from: usize, to: usize, colors: &mut Vec<String>)
    requires
        chars@ == content@,
        from <= to <= chars.len(),
    ensures
        final(colors).deep_view() == ({
            let entry = trimmed(chars@.subrange(from as int, to as int));
            if is_color_entry(entry) {
                old(colors).deep_view().push(entry)
            } else {
                old(colors).deep_view()
            }
        }),
{
    let (a, b) = trim_bounds(chars, from, to);
    if a < b && chars[a] == MARKER {
        let entry = content.substring_char(a, b).to_owned();
        colors.push(entry);
        assert(colors.deep_view() =~= old(colors).deep_view().push(entry@));
    }
}

/// Reads a palette: the lines of `content` that, once trimmed, are not empty
/// and start with `#`, trimmed and in the order in which they stand. All other
/// lines are passed over.
pub fn parse_colors(content: &str) -> (colors: Vec<String>)
    ensures
        colors.deep_view() == parsed_palette(content@),
{
    let chars = chars_of(content);
    let mut colors: Vec<String> = Vec::new();
    let mut start: usize = 0;
    let mut i: usize = 0;
    assert(colors.deep_view() =~= Seq::<Seq<char>>::empty());
    assert(chars@.take(0) =~= Seq::<char>::empty());
    assert(lines(chars@.take(0)).drop_last() =~= Seq::<Seq<char>>::empty());
    assert(color_entries(Seq::<Seq<char>>::empty()) =~= Seq::<Seq<char>>::empty()) by {
        reveal(Seq::filter);
    }
    while i < chars.len()
        invariant
            chars@ == content@,
            start <= i <= chars.len(),
            lines(chars@.take(i as int)).last() == chars@.subrange(start as int, i as int),
            colors.deep_view() == color_entries(lines(chars@.take(i as int)).drop_last()),
        decreases chars.len() - i,
    {
        let ghost seen = lines(chars@.take(i as int));
        proof {
            lemma_lines_nonempty(chars@.take(i as int));
            assert(chars@.take(i + 1).drop_last() == chars@.take(i as int));
        }
        if chars[i] == '\n' {
            keep_entry(content, &chars, start, i, &mut colors);
            proof {
                lemma_color_entries_push(seen.drop_last(), seen.last());
                assert(seen.drop_last().push(seen.last()) == seen);
                assert(lines(chars@.take(i + 1)).drop_last() == seen);
            }
            start = i + 1;
        } else {
            proof {
                assert(lines(chars@.take(i + 1)).drop_last() == seen.drop_last());
                assert(chars@.subrange(start as int, i as int).push(chars@[i as int])
                    == chars@.subrange(start as int, i + 1));
            }
        }
        i += 1;
    }
    proof {
        let all = lines(chars@);
        assert(chars@.take(i as int) == chars@);
        lemma_lines_nonempty(chars@);
        lemma_color_entries_push(all.drop_last(), all.last());
        assert(all.drop_last().push(all.last()) == all);
    }
    keep_entry(content, &chars, start, i, &mut colors);
    colors
}

} // verus!
