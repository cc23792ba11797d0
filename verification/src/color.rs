//! Byte colors: hex notation, packing order and compositing.

pub mod laws;

use crate::text::{characters, debug_text, lower_character, lowered, quoted, text_before, to_lower};
use crate::{Error, Result};
use core::cmp::Ordering;
use vstd::prelude::*;

verus! {

/// An opaque color of three byte channels.
#[derive(Clone, Copy, Debug, PartialEq, Eq, Structural)]
pub struct Rgb24 {
    pub r: u8,
    pub g: u8,
    pub b: u8,
}

/// A color of three byte channels and a byte of alpha.
#[derive(Clone, Copy, Debug, PartialEq, Eq, Structural)]
pub struct Rgba {
    pub r: u8,
    pub g: u8,
    pub b: u8,
    pub a: u8,
}

/// The small hex digit of a value below 16.
pub open spec fn hex_digit(value: int) -> char {
    if value < 10 {
        ('0' as u32 + value) as char
    } else {
        ('a' as u32 + (value - 10)) as char
    }
}

/// The value of a hex digit of either case.
pub open spec fn digit_value(digit: char) -> int {
    if '0' <= digit && digit <= '9' {
        digit as u32 - '0' as u32
    } else if 'a' <= digit && digit <= 'f' {
        digit as u32 - 'a' as u32 + 10
    } else {
        digit as u32 - 'A' as u32 + 10
    }
}

/// Whether `digit` is an ASCII hex digit.
pub open spec fn is_hex_digit(digit: char) -> bool {
    ||| '0' <= digit && digit <= '9'
    ||| 'a' <= digit && digit <= 'f'
    ||| 'A' <= digit && digit <= 'F'
}

/// The two digits of a byte.
pub open spec fn byte_hex(value: u8) -> Seq<char> {
    seq![hex_digit(value as int / 16), hex_digit(value as int % 16)]
}

/// The byte that two digits denote.
pub open spec fn byte_value(high: char, low: char) -> u8 {
    (16 * digit_value(high) + digit_value(low)) as u8
}

/// Whether `text` is `#` and six hex digits.
pub open spec fn is_opaque_hex(text: Seq<char>) -> bool {
    &&& text.len() == 7
    &&& text[0] == '#'
    &&& forall|i: int| 1 <= i < 7 ==> is_hex_digit(#[trigger] text[i])
}

/// Whether `text` is `#` and six or eight hex digits.
pub open spec fn is_hex(text: Seq<char>) -> bool {
    &&& text.len() == 7 || text.len() == 9
    &&& text[0] == '#'
    &&& forall|i: int| 1 <= i < text.len() ==> is_hex_digit(#[trigger] text[i])
}

/// The color that a hex text denotes.
pub open spec fn hex_color(text: Seq<char>) -> Rgba {
    Rgba {
        r: byte_value(text[1], text[2]),
        g: byte_value(text[3], text[4]),
        b: byte_value(text[5], text[6]),
        a: if text.len() == 9 {
            byte_value(text[7], text[8])
        } else {
            255
        },
    }
}

/// One channel of `overlay` laid over `base` with `alpha`, rounded to a byte.
pub open spec fn blended_channel(base: u8, overlay: u8, alpha: u8) -> u8 {
    ((base * (255 - alpha) + overlay * alpha + 127) / 255) as u8
}

impl Rgb24 {
    /// The channels as one number, red highest.
    pub open spec fn packed(self) -> int {
        self.r * 65536 + self.g * 256 + self.b
    }

    /// `#rrggbb`.
    pub open spec fn hex_view(self) -> Seq<char> {
        seq!['#'] + byte_hex(self.r) + byte_hex(self.g) + byte_hex(self.b)
    }

    /// `overlay` laid over this color with `alpha`.
    pub open spec fn blended(self, overlay: Self, alpha: u8) -> Self {
        Rgb24 {
            r: blended_channel(self.r, overlay.r, alpha),
            g: blended_channel(self.g, overlay.g, alpha),
            b: blended_channel(self.b, overlay.b, alpha),
        }
    }

    pub fn black() -> (color: Self)
        ensures
            color.hex_view() == "#000000"@,
            color.packed() == 0,
    {
        proof {
            reveal_strlit("#000000");
        }
        let color = Rgb24 { r: 0, g: 0, b: 0 };
        assert(color.hex_view() =~= "#000000"@);
        color
    }

    pub fn white() -> (color: Self)
        ensures
            color.hex_view() == "#ffffff"@,
            color.packed() == 0xffffff,
    {
        proof {
            reveal_strlit("#ffffff");
        }
        let color = Rgb24 { r: 255, g: 255, b: 255 };
        assert(color.hex_view() =~= "#ffffff"@);
        color
    }

    /// The channels as one number, red highest.
    pub fn pack(self) -> (value: u32)
        ensures
            value == self.packed(),
    {
        self.r as u32 * 65536 + self.g as u32 * 256 + self.b as u32
    }

    /// The channel whose lowest bit is bit `shift` of the packed number.
    pub fn channel(self, shift: u32) -> (value: u8)
        requires
            shift == 0 || shift == 8 || shift == 16,
        ensures
            shift == 16 ==> value == self.r,
            shift == 8 ==> value == self.g,
            shift == 0 ==> value == self.b,
    {
        if shift == 16 {
            self.r
        } else if shift == 8 {
            self.g
        } else {
            self.b
        }
    }

    /// Lays `overlay` over this color with `alpha`, rounding each channel to the
    /// nearest byte.
    pub fn blend(self, overlay: Self, alpha: u8) -> (color: Self)
        ensures
            color == self.blended(overlay, alpha),
    {
        Rgb24 {
            r: blend_channel(self.r, overlay.r, alpha),
            g: blend_channel(self.g, overlay.g, alpha),
            b: blend_channel(self.b, overlay.b, alpha),
        }
    }

    pub fn hex(self) -> (text: String)
        ensures
            text@ == self.hex_view(),
    {
        let mut text = String::new();
        text.push('#');
        push_byte(&mut text, self.r);
        push_byte(&mut text, self.g);
        push_byte(&mut text, self.b);
        assert(text@ =~= self.hex_view());
        text
    }
}

impl Rgba {
    /// The opaque part.
    pub open spec fn rgb(self) -> Rgb24 {
        Rgb24 { r: self.r, g: self.g, b: self.b }
    }

    /// `#rrggbb`, followed by the alpha digits unless the color is opaque.
    pub open spec fn hex_view(self) -> Seq<char> {
        if self.a == 255 {
            self.rgb().hex_view()
        } else {
            self.rgb().hex_view() + byte_hex(self.a)
        }
    }

    pub fn from_rgb_alpha(rgb: Rgb24, alpha: u8) -> (color: Self)
        ensures
            color.rgb() == rgb,
            color.a == alpha,
    {
        Rgba { r: rgb.r, g: rgb.g, b: rgb.b, a: alpha }
    }

    pub fn rgb24(self) -> (color: Rgb24)
        ensures
            color == self.rgb(),
    {
        Rgb24 { r: self.r, g: self.g, b: self.b }
    }

    pub fn alpha(self) -> (alpha: u8)
        ensures
            alpha == self.a,
    {
        self.a
    }

    pub fn opaque_hex(self) -> (text: String)
        ensures
            text@ == self.rgb().hex_view(),
    {
        self.rgb24().hex()
    }

    pub fn hex(self) -> (text: String)
        ensures
            text@ == self.hex_view(),
    {
        let mut text = self.opaque_hex();
        if self.a != 255 {
            push_byte(&mut text, self.a);
        }
        text
    }

    /// Whether this color's hex text precedes that of `other`: by the packed
    /// channels, then an opaque color, then the smaller alpha.
    pub open spec fn hex_less(self, other: Self) -> bool {
        if self.rgb().packed() != other.rgb().packed() {
            self.rgb().packed() < other.rgb().packed()
        } else if self.a == 255 {
            other.a != 255
        } else {
            other.a != 255 && self.a < other.a
        }
    }

    /// Orders two colors as their hex texts are ordered.
    pub fn hex_cmp(self, other: Self) -> (order: Ordering)
        ensures
            order == Ordering::Less <==> self.hex_less(other),
            order == Ordering::Equal <==> self == other,
            order == Ordering::Greater <==> other.hex_less(self),
    {
        let left = self.rgb24().pack();
        let right = other.rgb24().pack();
        if left < right {
            Ordering::Less
        } else if left > right {
            Ordering::Greater
        } else if self.a == other.a {
            Ordering::Equal
        } else if self.a == 255 {
            Ordering::Less
        } else if other.a == 255 {
            Ordering::Greater
        } else if self.a < other.a {
            Ordering::Less
        } else {
            Ordering::Greater
        }
    }
}

fn blend_channel(base: u8, overlay: u8, alpha: u8) -> (value: u8)
    ensures
        value == blended_channel(base, overlay, alpha),
{
    proof {
        lemma_blend_bounds(base, overlay, alpha);
    }
    let base = base as u32;
    let overlay = overlay as u32;
    let alpha = alpha as u32;
    ((base * (255 - alpha) + overlay * alpha + 127) / 255) as u8
}

proof fn lemma_blend_bounds(base: u8, overlay: u8, alpha: u8)
    ensures
        0 <= base * (255 - alpha) <= 65025,
        0 <= overlay * alpha <= 65025,
        0 <= base * (255 - alpha) + overlay * alpha <= 65025,
        (base * (255 - alpha) + overlay * alpha + 127) / 255 <= 255,
{
    assert(0 <= base * (255 - alpha) <= 255 * (255 - alpha)) by (nonlinear_arith)
        requires
            0 <= base <= 255,
            0 <= alpha <= 255,
    ;
    assert(0 <= overlay * alpha <= 255 * alpha) by (nonlinear_arith)
        requires
            0 <= overlay <= 255,
            0 <= alpha <= 255,
    ;
}

fn digit(value: u8) -> (character: char)
    requires
        value < 16,
    ensures
        character == hex_digit(value as int),
{
    if value < 10 {
        (48 + value) as char
    } else {
        (87 + value) as char
    }
}

fn push_byte(text: &mut String, value: u8)
    ensures
        final(text)@ == old(text)@ + byte_hex(value),
{
    text.push(digit(value / 16));
    text.push(digit(value % 16));
    assert(text@ =~= old(text)@ + byte_hex(value));
}

fn hex_digit_character(character: char) -> (is_digit: bool)
    ensures
        is_digit == is_hex_digit(character),
{
    ('0' <= character && character <= '9') || ('a' <= character && character <= 'f') || ('A'
        <= character && character <= 'F')
}

fn value_of(digit: char) -> (value: u8)
    requires
        is_hex_digit(digit),
    ensures
        value == digit_value(digit),
        value < 16,
{
    let code = digit as u32;
    if code <= 57 {
        (code - 48) as u8
    } else if code >= 97 {
        (code - 87) as u8
    } else {
        (code - 55) as u8
    }
}

fn byte_at(chars: &Vec<char>, index: usize) -> (value: u8)
    requires
        index + 1 < chars.len(),
        is_hex_digit(chars@[index as int]),
        is_hex_digit(chars@[index as int + 1]),
    ensures
        value == byte_value(chars@[index as int], chars@[index as int + 1]),
{
    16 * value_of(chars[index]) + value_of(chars[index + 1])
}

fn all_digits(chars: &Vec<char>) -> (all: bool)
    ensures
        all == (forall|i: int| 1 <= i < chars@.len() ==> is_hex_digit(#[trigger] chars@[i])),
{
    let mut index: usize = 1;
    while index < chars.len()
        invariant
            1 <= index,
            forall|i: int| 1 <= i < index && i < chars@.len() ==> is_hex_digit(#[trigger] chars@[i]),
        decreases chars@.len() - index,
    {
        if !hex_digit_character(chars[index]) {
            return false;
        }
        index += 1;
    }
    true
}

/// The message for a text that is no hex color.
pub open spec fn invalid_hex_message(value: Seq<char>) -> Seq<char> {
    "invalid hex color: "@ + debug_text(value)
}

/// Parses `#rrggbb` or `#rrggbbaa`.
pub fn parse_hex(value: &str) -> (result: Result<Rgba>)
    ensures
        result is Ok <==> is_hex(value@),
        result matches Ok(color) ==> color == hex_color(value@),
        result matches Err(error) ==> error.is_invalid(invalid_hex_message(value@)),
{
    let chars = characters(value);
    if (chars.len() != 7 && chars.len() != 9) || chars[0] != '#' || !all_digits(&chars) {
        let mut message = "invalid hex color: ".to_owned();
        message.append(quoted(value).as_str());
        return Err(Error::invalid(message));
    }
    Ok(
        Rgba {
            r: byte_at(&chars, 1),
            g: byte_at(&chars, 3),
            b: byte_at(&chars, 5),
            a: if chars.len() == 9 {
                byte_at(&chars, 7)
            } else {
                255
            },
        },
    )
}

/// The message for a text that is no six-digit hex color.
pub open spec fn opaque_hex_message(label: Seq<char>, value: Seq<char>) -> Seq<char> {
    label + " must be a six-digit hex color, got "@ + debug_text(value)
}

/// Accepts exactly `#rrggbb`; `label` names the value in the error.
pub fn validate_opaque_hex(value: &str, label: &str) -> (result: Result<()>)
    ensures
        result is Ok <==> is_opaque_hex(value@),
        result matches Err(error) ==> error.is_invalid(opaque_hex_message(label@, value@)),
{
    let chars = characters(value);
    if chars.len() != 7 || chars[0] != '#' || !all_digits(&chars) {
        let mut message = label.to_owned();
        message.append(" must be a six-digit hex color, got ");
        message.append(quoted(value).as_str());
        return Err(Error::invalid(message));
    }
    Ok(())
}

/// How a palette key is named in an error.
pub open spec fn palette_key_label(key: Seq<char>) -> Seq<char> {
    "resolved palette key "@ + debug_text(key)
}

/// The canonical small-letter form of the opaque color under `key`.
pub fn normalize_hex(value: &str, key: &str) -> (result: Result<String>)
    ensures
        result is Ok <==> is_opaque_hex(value@),
        result matches Ok(text) ==> text@ == lowered(value@),
        result matches Err(error) ==> error.is_invalid(
            opaque_hex_message(palette_key_label(key@), value@),
        ),
{
    let mut label = "resolved palette key ".to_owned();
    label.append(quoted(key).as_str());
    match validate_opaque_hex(value, label.as_str()) {
        Ok(()) => Ok(to_lower(value)),
        Err(error) => Err(error),
    }
}

/// What `overlay` gives when it is laid over `base`: the blended channels with
/// the alpha of `base`.
pub open spec fn overlaid(base: Rgba, overlay: Rgba) -> Rgba {
    let rgb = base.rgb().blended(overlay.rgb(), overlay.a);
    Rgba { r: rgb.r, g: rgb.g, b: rgb.b, a: base.a }
}

/// Lays `overlay` over `base` as the editor's renderer does.
pub fn gpui_blend(base: &str, overlay: &str) -> (result: Result<Rgba>)
    ensures
        result is Ok <==> is_hex(base@) && is_hex(overlay@),
        result matches Ok(color) ==> color == overlaid(hex_color(base@), hex_color(overlay@)),
        result matches Err(error) ==> error.is_invalid(
            invalid_hex_message(if is_hex(base@) { overlay@ } else { base@ }),
        ),
{
    let base = parse_hex(base)?;
    let overlay = parse_hex(overlay)?;
    let rgb = base.rgb24().blend(overlay.rgb24(), overlay.a);
    Ok(Rgba::from_rgb_alpha(rgb, base.a))
}

/// The opaque text left after laying `overlays` in order over `base`; the text of
/// `base` itself when there is none.
pub open spec fn layered(base: Seq<char>, overlays: Seq<Seq<char>>) -> Seq<char>
    decreases overlays.len(),
{
    if overlays.len() == 0 {
        base
    } else {
        overlaid(
            hex_color(layered(base, overlays.drop_last())),
            hex_color(overlays.last()),
        ).rgb().hex_view()
    }
}

/// Whether compositing `overlays` over `base` reads only hex colors.
pub open spec fn layers_are_hex(base: Seq<char>, overlays: Seq<Seq<char>>) -> bool {
    overlays.len() > 0 ==> is_hex(base) && forall|i: int|
        0 <= i < overlays.len() ==> is_hex(#[trigger] overlays[i])
}

/// Lays `overlays` in order over `base` and gives the opaque color that is seen.
pub fn render_layers(base: &str, overlays: &[&str]) -> (result: Result<String>)
    ensures
        result is Ok <==> layers_are_hex(base@, crate::text::slice_views(overlays@)),
        result matches Ok(text) ==> text@ == layered(base@, crate::text::slice_views(overlays@)),
        result matches Err(error) ==> error.is_invalid(
            invalid_hex_message(first_invalid_layer(base@, crate::text::slice_views(overlays@))),
        ),
{
    let ghost all = crate::text::slice_views(overlays@);
    let mut rendered = base.to_owned();
    let mut index: usize = 0;
    while index < overlays.len()
        invariant
            all == crate::text::slice_views(overlays@),
            index <= overlays@.len(),
            index == 0 ==> rendered@ == base@,
            index > 0 ==> is_hex(rendered@) && is_hex(base@),
            rendered@ == layered(base@, all.subrange(0, index as int)),
            forall|i: int| 0 <= i < index ==> is_hex(#[trigger] all[i]),
        decreases overlays@.len() - index,
    {
        assert(all[index as int] == overlays@[index as int]@);
        assert(all.subrange(0, index as int + 1).drop_last() =~= all.subrange(0, index as int));
        match gpui_blend(rendered.as_str(), overlays[index]) {
            Ok(color) => {
                rendered = color.opaque_hex();
                proof {
                    lemma_hex_round_trip(Rgba { r: color.r, g: color.g, b: color.b, a: 255 });
                }
            },
            Err(error) => {
                assert(!layers_are_hex(base@, all)) by {
                    assert(!is_hex(rendered@) || !is_hex(all[index as int]));
                }
                proof {
                    lemma_first_invalid_layer(base@, all, index as int);
                }
                return Err(error);
            },
        }
        index += 1;
    }
    assert(all.subrange(0, index as int) =~= all);
    Ok(rendered)
}

/// The text that compositing rejects first: `base`, else the first overlay that
/// is no hex color.
pub open spec fn first_invalid_layer(base: Seq<char>, overlays: Seq<Seq<char>>) -> Seq<char> {
    if !is_hex(base) {
        base
    } else {
        first_invalid(overlays)
    }
}

/// The first text that is no hex color.
pub open spec fn first_invalid(texts: Seq<Seq<char>>) -> Seq<char>
    decreases texts.len(),
{
    if texts.len() == 0 || !is_hex(texts[0]) {
        texts[0]
    } else {
        first_invalid(texts.drop_first())
    }
}

proof fn lemma_first_invalid(texts: Seq<Seq<char>>, at: int)
    requires
        0 <= at < texts.len(),
        !is_hex(texts[at]),
        forall|i: int| 0 <= i < at ==> is_hex(#[trigger] texts[i]),
    ensures
        first_invalid(texts) == texts[at],
    decreases texts.len(),
{
    if at > 0 {
        assert(is_hex(texts[0]));
        assert forall|i: int| 0 <= i < at - 1 implies is_hex(#[trigger] texts.drop_first()[i]) by {
            assert(is_hex(texts[i + 1]));
        }
        lemma_first_invalid(texts.drop_first(), at - 1);
    }
}

proof fn lemma_first_invalid_layer(base: Seq<char>, overlays: Seq<Seq<char>>, at: int)
    requires
        0 <= at < overlays.len(),
        !is_hex(base) ==> at == 0,
        is_hex(base) ==> !is_hex(overlays[at]),
        forall|i: int| 0 <= i < at ==> is_hex(#[trigger] overlays[i]),
    ensures
        first_invalid_layer(base, overlays) == if is_hex(base) { overlays[at] } else { base },
{
    if is_hex(base) {
        lemma_first_invalid(overlays, at);
    }
}

/// Gives `value` the alpha `alpha`, keeping its channels.
pub fn with_alpha(value: &str, alpha: u8) -> (result: Result<String>)
    ensures
        result is Ok <==> is_hex(value@),
        result matches Ok(text) ==> text@ == (Rgba { a: alpha, ..hex_color(value@) }).hex_view(),
        result matches Err(error) ==> error.is_invalid(invalid_hex_message(value@)),
{
    let color = parse_hex(value)?;
    Ok(Rgba { r: color.r, g: color.g, b: color.b, a: alpha }.hex())
}

proof fn lemma_digits(value: u8)
    ensures
        is_hex_digit(byte_hex(value)[0]),
        is_hex_digit(byte_hex(value)[1]),
        byte_value(byte_hex(value)[0], byte_hex(value)[1]) == value,
{
    assert(16 * (value as int / 16) + value as int % 16 == value);
}

/// Parsing the hex text of a color gives the color back.
pub proof fn lemma_hex_round_trip(color: Rgba)
    ensures
        is_hex(color.hex_view()),
        hex_color(color.hex_view()) == color,
        color.a == 255 ==> is_opaque_hex(color.hex_view()),
{
    let text = color.hex_view();
    lemma_digits(color.r);
    lemma_digits(color.g);
    lemma_digits(color.b);
    lemma_digits(color.a);
    assert(text[1] == byte_hex(color.r)[0] && text[2] == byte_hex(color.r)[1]);
    assert(text[3] == byte_hex(color.g)[0] && text[4] == byte_hex(color.g)[1]);
    assert(text[5] == byte_hex(color.b)[0] && text[6] == byte_hex(color.b)[1]);
    if color.a != 255 {
        assert(text[7] == byte_hex(color.a)[0] && text[8] == byte_hex(color.a)[1]);
    }
}

proof fn lemma_byte_hex_lowered(high: char, low: char)
    requires
        is_hex_digit(high),
        is_hex_digit(low),
    ensures
        byte_hex(byte_value(high, low)) == seq![lower_character(high), lower_character(low)],
{
    let value = byte_value(high, low);
    assert(0 <= digit_value(high) < 16 && 0 <= digit_value(low) < 16);
    assert(value as int / 16 == digit_value(high) && value as int % 16 == digit_value(low));
    assert(byte_hex(value) =~= seq![lower_character(high), lower_character(low)]);
}

/// Writing a parsed opaque color gives its text in small letters: all spellings
/// of one color share one canonical text.
pub proof fn lemma_opaque_hex_canonical(text: Seq<char>)
    requires
        is_opaque_hex(text),
    ensures
        hex_color(text).hex_view() == lowered(text),
        is_opaque_hex(lowered(text)),
        lowered(lowered(text)) == lowered(text),
{
    lemma_byte_hex_lowered(text[1], text[2]);
    lemma_byte_hex_lowered(text[3], text[4]);
    lemma_byte_hex_lowered(text[5], text[6]);
    assert(hex_color(text).hex_view() =~= lowered(text));
    lemma_hex_round_trip(hex_color(text));
    assert(lowered(lowered(text)) =~= lowered(text));
}

/// Compositing keeps every channel between the base and the overlay, leaves the
/// base under a transparent overlay and shows an opaque overlay unchanged.
pub proof fn lemma_blend_laws(base: u8, overlay: u8, alpha: u8)
    ensures
        blended_channel(base, overlay, 0) == base,
        blended_channel(base, overlay, 255) == overlay,
        base <= overlay ==> base <= blended_channel(base, overlay, alpha) <= overlay,
        overlay <= base ==> overlay <= blended_channel(base, overlay, alpha) <= base,
        -127 <= 255 * blended_channel(base, overlay, alpha) - (base * (255 - alpha) + overlay * alpha)
            <= 127,
{
    lemma_blend_bounds(base, overlay, alpha);
    lemma_blend_bounds(base, overlay, 0);
    lemma_blend_bounds(base, overlay, 255);
    let exact = base * (255 - alpha) + overlay * alpha;
    if base <= overlay {
        assert(255 * base <= exact <= 255 * overlay) by (nonlinear_arith)
            requires
                0 <= base <= overlay,
                0 <= alpha <= 255,
                exact == base * (255 - alpha) + overlay * alpha,
        ;
    }
    if overlay <= base {
        assert(255 * overlay <= exact <= 255 * base) by (nonlinear_arith)
            requires
                0 <= overlay <= base,
                0 <= alpha <= 255,
                exact == base * (255 - alpha) + overlay * alpha,
        ;
    }
}

proof fn lemma_digit_order(left: int, right: int)
    requires
        0 <= left < 16,
        0 <= right < 16,
    ensures
        (hex_digit(left) < hex_digit(right)) == (left < right),
        (hex_digit(left) == hex_digit(right)) == (left == right),
{
}

proof fn lemma_text_step(left: Seq<char>, right: Seq<char>)
    requires
        left.len() > 0,
        right.len() > 0,
    ensures
        left[0] != right[0] ==> text_before(left, right) == (left[0] < right[0]),
        left[0] == right[0] ==> text_before(left, right) == text_before(
            left.drop_first(),
            right.drop_first(),
        ),
{
}

proof fn lemma_byte_text_order(left: u8, right: u8, left_rest: Seq<char>, right_rest: Seq<char>)
    ensures
        left != right ==> text_before(byte_hex(left) + left_rest, byte_hex(right) + right_rest) == (
        left < right),
        left == right ==> text_before(byte_hex(left) + left_rest, byte_hex(right) + right_rest)
            == text_before(left_rest, right_rest),
{
    let first = byte_hex(left) + left_rest;
    let second = byte_hex(right) + right_rest;
    lemma_digit_order(left as int / 16, right as int / 16);
    lemma_digit_order(left as int % 16, right as int % 16);
    lemma_text_step(first, second);
    lemma_text_step(first.drop_first(), second.drop_first());
    assert(first.drop_first().drop_first() =~= left_rest);
    assert(second.drop_first().drop_first() =~= right_rest);
}

/// Colors are ordered as their hex texts are ordered.
pub proof fn lemma_hex_order_is_text_order(left: Rgba, right: Rgba)
    ensures
        left.hex_less(right) == text_before(left.hex_view(), right.hex_view()),
{
    let left_tail = if left.a == 255 { Seq::empty() } else { byte_hex(left.a) };
    let right_tail = if right.a == 255 { Seq::empty() } else { byte_hex(right.a) };
    let left_blue = byte_hex(left.b) + left_tail;
    let right_blue = byte_hex(right.b) + right_tail;
    let left_green = byte_hex(left.g) + left_blue;
    let right_green = byte_hex(right.g) + right_blue;
    let left_red = byte_hex(left.r) + left_green;
    let right_red = byte_hex(right.r) + right_green;
    assert(left.hex_view() =~= seq!['#'] + left_red);
    assert(right.hex_view() =~= seq!['#'] + right_red);
    lemma_text_step(left.hex_view(), right.hex_view());
    assert(left.hex_view().drop_first() =~= left_red);
    assert(right.hex_view().drop_first() =~= right_red);
    lemma_byte_text_order(left.r, right.r, left_green, right_green);
    lemma_byte_text_order(left.g, right.g, left_blue, right_blue);
    lemma_byte_text_order(left.b, right.b, left_tail, right_tail);
    lemma_byte_text_order(left.a, right.a, Seq::empty(), Seq::empty());
    assert(byte_hex(left.a) + Seq::<char>::empty() =~= byte_hex(left.a));
    assert(byte_hex(right.a) + Seq::<char>::empty() =~= byte_hex(right.a));
}

} // verus!
