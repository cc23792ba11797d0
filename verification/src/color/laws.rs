//! What holds of colors that are read, written and laid over each other.

use crate::color::{
    byte_hex, byte_value, digit_value, first_invalid, first_invalid_layer, hex_color, is_hex,
    is_hex_digit, is_opaque_hex, layered, layers_are_hex, lemma_blend_laws,
    lemma_hex_round_trip, overlaid, Rgb24, Rgba,
};
use crate::text::{lower_character, lowered};
use vstd::prelude::*;

verus! {

/// Whether the character is one of the sixteen digits, with `value` as its value.
pub open spec fn denotes(digit: char, value: int) -> bool {
    ||| '0' <= digit && digit <= '9' && value == digit as int - 48
    ||| 'a' <= digit && digit <= 'f' && value == digit as int - 97 + 10
    ||| 'A' <= digit && digit <= 'F' && value == digit as int - 65 + 10
}

/// Whether the character is one of the sixteen digits.
pub open spec fn is_digit(digit: char) -> bool {
    exists|value: int| denotes(digit, value)
}

/// Whether the two characters at `at` are hex digits that denote the byte, the high
/// digit first.
pub open spec fn spells(text: Seq<char>, at: int, byte: u8) -> bool {
    exists|high: int, low: int|
        #[trigger] denotes(text[at], high) && #[trigger] denotes(text[at + 1], low) && byte == 16
            * high + low
}

proof fn lemma_spells(text: Seq<char>, at: int)
    requires
        is_hex(text),
        1 <= at,
        at + 1 < text.len(),
    ensures
        spells(text, at, byte_value(text[at], text[at + 1])),
{
    let high = digit_value(text[at]);
    let low = digit_value(text[at + 1]);
    assert(is_hex_digit(text[at]) && is_hex_digit(text[at + 1]));
    assert(denotes(text[at], high) && denotes(text[at + 1], low));
}

/// A color is read as red, green and blue in this order, each with two digits, and an
/// alpha behind them if there are eight; six digits are a color without transparency.
pub proof fn lemma_color_is_read(text: Seq<char>)
    requires
        is_hex(text),
    ensures
        text[0] == '#',
        text.len() == 7 || text.len() == 9,
        spells(text, 1, hex_color(text).r),
        spells(text, 3, hex_color(text).g),
        spells(text, 5, hex_color(text).b),
        text.len() == 9 ==> spells(text, 7, hex_color(text).a),
        text.len() == 7 ==> hex_color(text).a == 255,
{
    lemma_spells(text, 1);
    lemma_spells(text, 3);
    lemma_spells(text, 5);
    if text.len() == 9 {
        lemma_spells(text, 7);
    }
}

/// Exactly the texts of a number sign and six or eight hex digits are colors.
pub proof fn lemma_what_is_a_color(text: Seq<char>)
    ensures
        is_hex(text) <==> (text.len() == 7 || text.len() == 9) && text[0] == '#' && forall|i: int|
            1 <= i < text.len() ==> is_digit(#[trigger] text[i]),
        is_opaque_hex(text) <==> is_hex(text) && text.len() == 7,
{
    if is_hex(text) {
        assert forall|i: int| 1 <= i < text.len() implies is_digit(#[trigger] text[i]) by {
            assert(is_hex_digit(text[i]));
            assert(denotes(text[i], digit_value(text[i])));
        }
    }
    if text.len() == 7 || text.len() == 9 {
        if forall|i: int| 1 <= i < text.len() ==> is_digit(#[trigger] text[i]) {
            assert forall|i: int| 1 <= i < text.len() implies is_hex_digit(#[trigger] text[i]) by {
                assert(is_digit(text[i]));
            }
        }
    }
}

/// A color is written in small letters: red, green, blue and, unless it hides what is
/// below it, its alpha.
pub proof fn lemma_color_is_written(color: Rgba)
    ensures
        is_hex(color.hex_view()),
        spells(color.hex_view(), 1, color.r),
        spells(color.hex_view(), 3, color.g),
        spells(color.hex_view(), 5, color.b),
        color.a == 255 <==> color.hex_view().len() == 7,
        color.a != 255 ==> spells(color.hex_view(), 7, color.a),
        lowered(color.hex_view()) == color.hex_view(),
{
    lemma_hex_round_trip(color);
    lemma_color_is_read(color.hex_view());
    let text = color.hex_view();
    assert forall|i: int| 0 <= i < text.len() implies lower_character(text[i])
        == text[i] by {
        if i > 0 {
            assert(is_hex_digit(text[i]));
            let byte = if i <= 2 {
                color.r
            } else if i <= 4 {
                color.g
            } else if i <= 6 {
                color.b
            } else {
                color.a
            };
            assert(text[i] == byte_hex(byte)[(i - 1) % 2]);
        }
    }
    assert(lowered(text) =~= text);
}

/// Red weighs most, then green, then blue, and no two colors share a number.
pub proof fn lemma_packed(one: Rgb24, other: Rgb24)
    ensures
        0 <= one.packed() < 0x100_0000,
        one.packed() == other.packed() <==> one == other,
        one.r < other.r ==> one.packed() < other.packed(),
        one.r == other.r && one.g < other.g ==> one.packed() < other.packed(),
        one.r == other.r && one.g == other.g && one.b < other.b ==> one.packed() < other.packed(),
{
}

/// Whether the channel lies between the two.
pub open spec fn lies_between(channel: u8, one: u8, other: u8) -> bool {
    one <= channel <= other || other <= channel <= one
}

/// Whether the channel is the mean of the two, weighted by alpha and rounded to the
/// nearest byte.
pub open spec fn is_mean(channel: u8, base: u8, overlay: u8, alpha: u8) -> bool {
    -127 <= 255 * channel - (base * (255 - alpha) + overlay * alpha) <= 127
}

/// What lies over a color mixes with it channel by channel, as much as its alpha says, and
/// leaves the alpha below as it was. What is transparent changes nothing; what is opaque
/// hides all.
pub proof fn lemma_overlay_mixes(base: Rgba, overlay: Rgba)
    ensures
        ({
            let seen = overlaid(base, overlay);
            &&& seen.a == base.a
            &&& is_mean(seen.r, base.r, overlay.r, overlay.a)
            &&& is_mean(seen.g, base.g, overlay.g, overlay.a)
            &&& is_mean(seen.b, base.b, overlay.b, overlay.a)
            &&& lies_between(seen.r, base.r, overlay.r)
            &&& lies_between(seen.g, base.g, overlay.g)
            &&& lies_between(seen.b, base.b, overlay.b)
            &&& overlay.a == 0 ==> seen == base
            &&& overlay.a == 255 ==> seen.rgb() == overlay.rgb()
        }),
{
    lemma_blend_laws(base.r, overlay.r, overlay.a);
    lemma_blend_laws(base.g, overlay.g, overlay.a);
    lemma_blend_laws(base.b, overlay.b, overlay.a);
}

/// Laying two lists over a base, one after the other, is laying their sequence over it; a
/// single layer is an overlay; no layer leaves the base as it is.
pub proof fn lemma_layers_follow_each_other(
    base: Seq<char>,
    first: Seq<Seq<char>>,
    second: Seq<Seq<char>>,
)
    ensures
        layered(base, first + second) == layered(layered(base, first), second),
        layered(base, Seq::empty()) == base,
        first.len() == 1 ==> layered(base, first) == overlaid(
            hex_color(base),
            hex_color(first[0]),
        ).rgb().hex_view(),
    decreases second.len(),
{
    if second.len() == 0 {
        assert(first + second =~= first);
    } else {
        assert((first + second).drop_last() =~= first + second.drop_last());
        lemma_layers_follow_each_other(base, first, second.drop_last());
    }
    if first.len() == 1 {
        assert(first.drop_last() =~= Seq::<Seq<char>>::empty());
        assert(first.last() == first[0]);
        assert(layered(base, first.drop_last()) == base);
    }
}

/// What is seen through layers hides what is below it, and an opaque layer hides all
/// layers below it.
pub proof fn lemma_layers_are_seen(base: Seq<char>, overlays: Seq<Seq<char>>)
    requires
        overlays.len() > 0,
        layers_are_hex(base, overlays),
    ensures
        is_opaque_hex(layered(base, overlays)),
        hex_color(overlays.last()).a == 255 ==> layered(base, overlays) == hex_color(
            overlays.last(),
        ).rgb().hex_view(),
{
    let below = hex_color(layered(base, overlays.drop_last()));
    let top = hex_color(overlays.last());
    lemma_overlay_mixes(below, top);
    let seen = overlaid(below, top);
    lemma_hex_round_trip(Rgba { a: 255, ..seen });
    assert(seen.rgb().hex_view() == (Rgba { a: 255, ..seen }).hex_view());
}

/// The layer that is complained about is no color, and all before it are.
pub proof fn lemma_first_invalid_layer_is_first(base: Seq<char>, overlays: Seq<Seq<char>>)
    requires
        !layers_are_hex(base, overlays),
    ensures
        !is_hex(first_invalid_layer(base, overlays)),
        !is_hex(base) ==> first_invalid_layer(base, overlays) == base,
        is_hex(base) ==> exists|at: int|
            {
                &&& 0 <= at < overlays.len()
                &&& #[trigger] overlays[at] == first_invalid_layer(base, overlays)
                &&& forall|i: int| 0 <= i < at ==> is_hex(#[trigger] overlays[i])
            },
{
    if is_hex(base) {
        lemma_first_invalid_is_first(overlays);
        let at = choose|at: int|
            {
                &&& 0 <= at < overlays.len()
                &&& #[trigger] overlays[at] == first_invalid(overlays)
                &&& !is_hex(overlays[at])
                &&& forall|i: int| 0 <= i < at ==> is_hex(#[trigger] overlays[i])
            };
        assert(overlays[at] == first_invalid_layer(base, overlays));
    }
}

proof fn lemma_first_invalid_is_first(texts: Seq<Seq<char>>)
    requires
        !(forall|i: int| 0 <= i < texts.len() ==> is_hex(#[trigger] texts[i])),
    ensures
        exists|at: int|
            {
                &&& 0 <= at < texts.len()
                &&& #[trigger] texts[at] == first_invalid(texts)
                &&& !is_hex(texts[at])
                &&& forall|i: int| 0 <= i < at ==> is_hex(#[trigger] texts[i])
            },
    decreases texts.len(),
{
    if !is_hex(texts[0]) {
        assert(texts[0] == first_invalid(texts));
    } else {
        let rest = texts.drop_first();
        let bad = choose|i: int| 0 <= i < texts.len() && !is_hex(#[trigger] texts[i]);
        assert(rest[bad - 1] == texts[bad]);
        lemma_first_invalid_is_first(rest);
        let at = choose|at: int|
            {
                &&& 0 <= at < rest.len()
                &&& #[trigger] rest[at] == first_invalid(rest)
                &&& !is_hex(rest[at])
                &&& forall|i: int| 0 <= i < at ==> is_hex(#[trigger] rest[i])
            };
        assert(texts[at + 1] == first_invalid(texts));
        assert forall|i: int| 0 <= i < at + 1 implies is_hex(#[trigger] texts[i]) by {
            if i > 0 {
                assert(is_hex(rest[i - 1]));
            }
        }
    }
}

} // verus!
