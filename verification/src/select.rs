//! The selector: which colour a request resolves to.
//!
//! An explicit colour wins; else an index into the palette, where it is in
//! bounds; else a position drawn at random.

use crate::palette::{is_color_entry, Palette};
use crate::text::chars_of;
use rand::Rng;
use vstd::prelude::*;

verus! {

/// Whether `c` is one of the decimal digits `0` to `9`.
pub open spec fn is_digit(c: char) -> bool {
    '0' <= c <= '9'
}

/// The number that the digit `c` stands for; zero for any other character.
pub open spec fn digit_value(c: char) -> nat {
    if is_digit(c) {
        (c as u32 - '0' as u32) as nat
    } else {
        0
    }
}

/// The number that `digits` spells in base ten, the empty text spelling zero.
pub open spec fn decimal_value(digits: Seq<char>) -> nat
    decreases digits.len(),
{
    if digits.len() == 0 {
        0
    } else {
        10 * decimal_value(digits.drop_last()) + digit_value(digits.last())
    }
}

/// `text` without the plus sign that it may start with.
pub open spec fn unsigned_part(text: Seq<char>) -> Seq<char> {
    if text.len() > 0 && text.first() == '+' {
        text.drop_first()
    } else {
        text
    }
}

/// Whether `text` spells a number: an optional plus sign, then one or more
/// decimal digits and nothing else.
pub open spec fn is_number(text: Seq<char>) -> bool {
    let digits = unsigned_part(text);
    digits.len() > 0 && forall|i: int| 0 <= i < digits.len() ==> is_digit(#[trigger] digits[i])
}

/// The position that `text` spells, where it spells one that a `usize` holds.
pub open spec fn parsed_index(text: Seq<char>) -> Option<nat> {
    if is_number(text) && decimal_value(unsigned_part(text)) <= usize::MAX {
        Some(decimal_value(unsigned_part(text)))
    } else {
        None
    }
}

/// The position that an index argument asks for: the one it spells, and zero
/// where it spells none.
pub open spec fn requested_index(text: Seq<char>) -> nat {
    match parsed_index(text) {
        Some(n) => n,
        None => 0,
    }
}

/// A number is at least what any of its leading digits spell.
pub proof fn lemma_decimal_value_grows(digits: Seq<char>, k: int)
    requires
        0 <= k <= digits.len(),
    ensures
        decimal_value(digits.take(k)) <= decimal_value(digits),
    decreases digits.len(),
{
    if k == digits.len() {
        assert(digits.take(k) == digits);
    } else {
        lemma_decimal_value_grows(digits.drop_last(), k);
        assert(digits.drop_last().take(k) == digits.take(k));
    }
}

/// Decides [`parsed_index`].
pub fn parse_index(text: &str) -> (r: Option<usize>)
    ensures
        match r {
            Some(n) => parsed_index(text@) == Some(n as nat),
            None => parsed_index(text@) is None,
        },
{
    let chars = chars_of(text);
    let first: usize = if chars.len() > 0 && chars[0] == '+' {
        1
    } else {
        0
    };
    if first == chars.len() {
        return None;
    }
    let ghost digits = unsigned_part(text@);
    assert(digits == chars@.subrange(first as int, chars.len() as int));
    let mut value: usize = 0;
    let mut i: usize = first;
    while i < chars.len()
        invariant
            first <= i <= chars.len(),
            digits == unsigned_part(text@),
            digits == chars@.subrange(first as int, chars.len() as int),
            forall|k: int| 0 <= k < i - first ==> is_digit(#[trigger] digits[k]),
            value == decimal_value(digits.take(i - first)),
        decreases chars.len() - i,
    {
        let c = chars[i];
        assert(c == digits[i - first]);
        if !('0' <= c && c <= '9') {
            return None;
        }
        let d: usize = (c as u32 - '0' as u32) as usize;
        proof {
            let next = digits.take(i - first + 1);
            assert(next.drop_last() == digits.take(i - first));
            assert(next.last() == c);
            lemma_decimal_value_grows(digits, i - first + 1);
        }
        let scaled = match value.checked_mul(10) {
            Some(v) => v,
            None => { return None; },
        };
        value = match scaled.checked_add(d) {
            Some(v) => v,
            None => { return None; },
        };
        i += 1;
    }
    assert(digits.take(i - first) == digits);
    Some(value)
}

/// What the invoker asked for: a position in the palette, a colour, both or
/// neither. The position is kept as it was typed.
#[derive(Debug, PartialEq, Eq)]
pub struct SelectionRequest {
    pub index: Option<String>,
    pub color: Option<String>,
}

/// How a colour came to be chosen.
#[derive(Debug, Clone, Copy, PartialEq, Eq, Structural)]
pub enum Origin {
    /// The request named the colour.
    Explicit,
    /// The request named this position, and the palette has it.
    Indexed(usize),
    /// The request named neither a colour nor a position; this one was drawn.
    Random(usize),
    /// The request named a position that the palette lacks, so another was
    /// drawn.
    Fallback { requested: usize, drawn: usize },
}

/// The colour that a request resolved to, and how.
#[derive(Debug, PartialEq, Eq)]
pub struct Resolution {
    pub color: String,
    pub origin: Origin,
}

/// Whether `color` names a colour: it is given and not empty. An empty colour
/// counts as none.
pub open spec fn names_color(color: Option<Seq<char>>) -> bool {
    color is Some && color->0.len() > 0
}

/// Whether `index` names a position that `palette` has.
pub open spec fn names_entry(palette: Seq<Seq<char>>, index: Option<Seq<char>>) -> bool {
    index is Some && requested_index(index->0) < palette.len()
}

/// How the request `(index, color)` is resolved against `palette`, `draw`
/// being the position that chance gives. The colour comes first, then the
/// position, then chance.
pub open spec fn origin_of(
    palette: Seq<Seq<char>>,
    index: Option<Seq<char>>,
    color: Option<Seq<char>>,
    draw: usize,
) -> Origin {
    if names_color(color) {
        Origin::Explicit
    } else if names_entry(palette, index) {
        Origin::Indexed(requested_index(index->0) as usize)
    } else if index is Some {
        Origin::Fallback { requested: requested_index(index->0) as usize, drawn: draw }
    } else {
        Origin::Random(draw)
    }
}

/// The colour that the request `(index, color)` resolves to against `palette`
/// when chance gives `draw`.
pub open spec fn resolved_color(
    palette: Seq<Seq<char>>,
    index: Option<Seq<char>>,
    color: Option<Seq<char>>,
    draw: usize,
) -> Seq<char> {
    match origin_of(palette, index, color, draw) {
        Origin::Explicit => color->0,
        Origin::Indexed(n) => palette[n as int],
        Origin::Random(d) => palette[d as int],
        Origin::Fallback { requested, drawn } => palette[drawn as int],
    }
}

/// Whether the request `(index, color)` leaves the choice to chance.
pub open spec fn leaves_to_chance(
    palette: Seq<Seq<char>>,
    index: Option<Seq<char>>,
    color: Option<Seq<char>>,
) -> bool {
    !names_color(color) && !names_entry(palette, index)
}

/// An explicit colour wins: whatever the palette, the index and the draw, a
/// request with a colour that is not empty resolves to that colour.
pub proof fn lemma_explicit_color_wins(
    palette: Seq<Seq<char>>,
    index: Option<Seq<char>>,
    color: Seq<char>,
    draw: usize,
)
    requires
        color.len() > 0,
    ensures
        resolved_color(palette, index, Some(color), draw) == color,
        origin_of(palette, index, Some(color), draw) == Origin::Explicit,
{
}

/// A position within the palette, given without a colour, resolves to the
/// entry at that position, whatever the draw.
pub proof fn lemma_index_in_bounds_decides(
    palette: Seq<Seq<char>>,
    index: Seq<char>,
    color: Option<Seq<char>>,
    draw: usize,
)
    requires
        !names_color(color),
        requested_index(index) < palette.len(),
    ensures
        resolved_color(palette, Some(index), color, draw) == palette[requested_index(
            index,
        ) as int],
        origin_of(palette, Some(index), color, draw) == Origin::Indexed(
            requested_index(index) as usize,
        ),
{
}

/// A position that the palette lacks, given without a colour, leaves the
/// choice to the draw, and what is chosen is an entry of the palette.
pub proof fn lemma_index_out_of_bounds_falls_back(
    palette: Seq<Seq<char>>,
    index: Seq<char>,
    color: Option<Seq<char>>,
    draw: usize,
)
    requires
        !names_color(color),
        requested_index(index) >= palette.len(),
        draw < palette.len(),
    ensures
        leaves_to_chance(palette, Some(index), color),
        resolved_color(palette, Some(index), color, draw) == palette[draw as int],
        palette.contains(resolved_color(palette, Some(index), color, draw)),
        origin_of(palette, Some(index), color, draw) == (Origin::Fallback {
            requested: requested_index(index) as usize,
            drawn: draw,
        }),
{
}

/// A request without a position and without a colour resolves to the entry
/// that was drawn.
pub proof fn lemma_empty_request_takes_draw(
    palette: Seq<Seq<char>>,
    color: Option<Seq<char>>,
    draw: usize,
)
    requires
        !names_color(color),
        draw < palette.len(),
    ensures
        leaves_to_chance(palette, None, color),
        resolved_color(palette, None, color, draw) == palette[draw as int],
        origin_of(palette, None, color, draw) == Origin::Random(draw),
{
}

/// Where the choice is not left to chance, the draw has no part in it.
pub proof fn lemma_draw_is_ignored(
    palette: Seq<Seq<char>>,
    index: Option<Seq<char>>,
    color: Option<Seq<char>>,
    draw: usize,
    other: usize,
)
    requires
        !leaves_to_chance(palette, index, color),
    ensures
        resolved_color(palette, index, color, draw) == resolved_color(palette, index, color, other),
        origin_of(palette, index, color, draw) == origin_of(palette, index, color, other),
{
}

/// The position that an index argument asks for: the number it spells, and
/// zero where it spells none that a `usize` holds.
pub fn index_or_zero(text: &str) -> (n: usize)
    ensures
        n == requested_index(text@),
{
    match parse_index(text) {
        Some(n) => n,
        None => 0,
    }
}

/// Whether `request` leaves the choice among the entries of `palette` to
/// chance.
pub fn needs_draw(palette: &Palette, request: &SelectionRequest) -> (b: bool)
    ensures
        b == leaves_to_chance(palette@, request.index.deep_view(), request.color.deep_view()),
{
    if let Some(color) = &request.color {
        if !color.as_str().is_empty() {
            return false;
        }
    }
    match &request.index {
        Some(text) => index_or_zero(text.as_str()) >= palette.len(),
        None => true,
    }
}

/// Resolves `request` against `palette`, with `draw` as the position that
/// chance gave. The draw is used only where the request leaves the choice to
/// chance.
pub fn resolve(palette: &Palette, request: &SelectionRequest, draw: usize) -> (r: Resolution)
    requires
        draw < palette@.len(),
    ensures
        r.origin == origin_of(
            palette@,
            request.index.deep_view(),
            request.color.deep_view(),
            draw,
        ),
        r.color@ == resolved_color(
            palette@,
            request.index.deep_view(),
            request.color.deep_view(),
            draw,
        ),
        r.color@.len() > 0,
        r.origin != Origin::Explicit ==> is_color_entry(r.color@) && palette@.contains(r.color@),
{
    if let Some(color) = &request.color {
        if !color.as_str().is_empty() {
            return Resolution { color: color.clone(), origin: Origin::Explicit };
        }
    }
    let origin = match &request.index {
        Some(text) => {
            let requested: usize = index_or_zero(text.as_str());
            if requested < palette.len() {
                Origin::Indexed(requested)
            } else {
                Origin::Fallback { requested, drawn: draw }
            }
        },
        None => Origin::Random(draw),
    };
    let position: usize = match origin {
        Origin::Indexed(n) => n,
        _ => draw,
    };
    Resolution { color: palette.entry(position).clone(), origin }
}

/// Draws a position below `len`.
///
/// Calls `rand::rng()` and then `Rng::random_range` on the range `0..len`.
/// The contract claims only that the result lies in that range; which
/// position comes out is left open. `random_range` panics on an empty range,
/// hence the bound on `len`. `rand::rng()` panics where the operating system
/// gives the thread's generator no seed.
#[verifier::external_body]
fn draw_index(len: usize) -> (i: usize)
    requires
        len > 0,
    ensures
        i < len,
{
    rand::rng().random_range(0..len)
}

/// Resolves `request` against `palette`, drawing a position at random where
/// the request leaves the choice to chance, and only then.
pub fn select(palette: &Palette, request: &SelectionRequest) -> (r: Resolution)
    ensures
        exists|draw: usize|
            draw < palette@.len() && r.origin == #[trigger] origin_of(
                palette@,
                request.index.deep_view(),
                request.color.deep_view(),
                draw,
            ) && r.color@ == resolved_color(
                palette@,
                request.index.deep_view(),
                request.color.deep_view(),
                draw,
            ),
        r.color@.len() > 0,
        r.origin != Origin::Explicit ==> is_color_entry(r.color@) && palette@.contains(r.color@),
{
    let len: usize = palette.len();
    let draw: usize = if needs_draw(palette, request) {
        draw_index(len)
    } else {
        0
    };
    resolve(palette, request, draw)
}

} // verus!
