//! Text handling shared by the parsers: comparison, slicing, splitting and
//! rendering over sequences of characters.

pub mod laws;

use vstd::prelude::*;
use vstd::utf8::encode_utf8;
use vstd::utf8::encode_utf8_decode_utf8;

verus! {

/// `String::push` appends one character.
pub assume_specification[ std::string::String::push ](text: &mut std::string::String, character: char)
    ensures
        final(text)@ == old(text)@.push(character),
;

/// What `{:?}` renders for a string slice: the text in double quotes with
/// `str::escape_debug` escapes.
pub uninterp spec fn debug_text(value: Seq<char>) -> Seq<char>;

/// Renders `value` with the `Debug` formatting of `str`; the result is the
/// text that formatting gives for that value.
#[verifier::external_body]
pub(crate) fn quoted(value: &str) -> (text: String)
    ensures
        text@ == debug_text(value@),
{
    format!("{value:?}")
}

/// Whether the two texts hold the same characters.
pub fn same_text(left: &str, right: &str) -> (same: bool)
    ensures
        same == (left@ == right@),
{
    let left_bytes = left.as_bytes();
    let right_bytes = right.as_bytes();
    proof {
        encode_utf8_decode_utf8(left@);
        encode_utf8_decode_utf8(right@);
    }
    if left_bytes.len() != right_bytes.len() {
        return false;
    }
    let mut index: usize = 0;
    while index < left_bytes.len()
        invariant
            left_bytes@.len() == right_bytes@.len(),
            index <= left_bytes@.len(),
            left_bytes@ == encode_utf8(left@),
            right_bytes@ == encode_utf8(right@),
            forall|i: int| 0 <= i < index ==> left_bytes@[i] == right_bytes@[i],
        decreases left_bytes@.len() - index,
    {
        if left_bytes[index] != right_bytes[index] {
            assert(left_bytes@[index as int] != right_bytes@[index as int]);
            return false;
        }
        index += 1;
    }
    assert(left_bytes@ =~= right_bytes@);
    true
}

/// The characters of `text`, in order.
pub fn characters(text: &str) -> (chars: Vec<char>)
    ensures
        chars@ == text@,
{
    let mut chars: Vec<char> = Vec::new();
    for character in iter: text.chars()
        invariant
            iter.seq() == text@,
            chars@ == text@.subrange(0, iter.index() as int),
    {
        chars.push(character);
        assert(chars@ =~= text@.subrange(0, iter.index() as int + 1));
    }
    assert(chars@ =~= text@);
    chars
}

/// The text made of the characters `from..to`.
pub fn text_between(chars: &Vec<char>, from: usize, to: usize) -> (text: String)
    requires
        from <= to <= chars@.len(),
    ensures
        text@ == chars@.subrange(from as int, to as int),
{
    let mut text = String::new();
    let mut index: usize = from;
    while index < to
        invariant
            from <= index <= to <= chars@.len(),
            text@ == chars@.subrange(from as int, index as int),
        decreases to - index,
    {
        text.push(chars[index]);
        index += 1;
        assert(text@ =~= chars@.subrange(from as int, index as int));
    }
    assert(text@ =~= chars@.subrange(from as int, to as int));
    text
}

/// The texts that a vector of strings holds.
pub open spec fn views(texts: Seq<String>) -> Seq<Seq<char>> {
    texts.map_values(|text: String| text@)
}

/// The texts that a slice of string slices holds.
pub open spec fn slice_views(texts: Seq<&str>) -> Seq<Seq<char>> {
    texts.map_values(|text: &str| text@)
}

/// The pieces of `text` between occurrences of `separator`; one more than there
/// are occurrences.
pub open spec fn split_on(text: Seq<char>, separator: char) -> Seq<Seq<char>>
    decreases text.len(),
{
    if text.len() == 0 {
        seq![Seq::<char>::empty()]
    } else {
        let pieces = split_on(text.drop_last(), separator);
        if text.last() == separator {
            pieces.push(Seq::empty())
        } else {
            pieces.drop_last().push(pieces.last().push(text.last()))
        }
    }
}

proof fn lemma_split_nonempty(text: Seq<char>, separator: char)
    ensures
        split_on(text, separator).len() >= 1,
    decreases text.len(),
{
    if text.len() > 0 {
        lemma_split_nonempty(text.drop_last(), separator);
    }
}

/// Splits `text` at every occurrence of `separator`.
pub fn split(text: &str, separator: char) -> (pieces: Vec<String>)
    ensures
        views(pieces@) == split_on(text@, separator),
        pieces@.len() >= 1,
{
    let chars = characters(text);
    let mut pieces: Vec<String> = Vec::new();
    let mut current = String::new();
    let mut index: usize = 0;
    assert(views(pieces@).push(current@) =~= split_on(chars@.subrange(0, 0), separator));
    while index < chars.len()
        invariant
            index <= chars@.len(),
            views(pieces@).push(current@) == split_on(chars@.subrange(0, index as int), separator),
        decreases chars@.len() - index,
    {
        let ghost before = views(pieces@).push(current@);
        let ghost prefix = chars@.subrange(0, index as int + 1);
        let character = chars[index];
        assert(prefix.drop_last() =~= chars@.subrange(0, index as int));
        assert(prefix.last() == character);
        if character == separator {
            pieces.push(current);
            assert(views(pieces@) =~= before);
            current = String::new();
        } else {
            current.push(character);
            assert(before.drop_last() =~= views(pieces@));
        }
        index += 1;
        assert(views(pieces@).push(current@) =~= split_on(prefix, separator));
    }
    let ghost complete = views(pieces@).push(current@);
    pieces.push(current);
    assert(views(pieces@) =~= complete);
    assert(chars@.subrange(0, index as int) =~= text@);
    pieces
}

/// `line` without one carriage return at its end.
pub open spec fn without_return(line: Seq<char>) -> Seq<char> {
    if line.len() > 0 && line.last() == '\r' {
        line.drop_last()
    } else {
        line
    }
}

/// The lines of `text`: a line ends at a line feed, or at a carriage return
/// followed by one; an empty last line does not count.
pub open spec fn lines_of(text: Seq<char>) -> Seq<Seq<char>> {
    let pieces = split_on(text, '\n');
    let ended = pieces.drop_last().map_values(|line: Seq<char>| without_return(line));
    if pieces.last().len() == 0 {
        ended
    } else {
        ended.push(pieces.last())
    }
}

/// Splits `text` into lines.
pub fn lines(text: &str) -> (found: Vec<String>)
    ensures
        views(found@) == lines_of(text@),
{
    let mut pieces = split(text, '\n');
    let ghost all = views(pieces@);
    proof {
        lemma_split_nonempty(text@, '\n');
    }
    let ghost original = pieces@;
    let last = pieces.pop();
    assert(views(pieces@) =~= all.drop_last());
    let mut found: Vec<String> = Vec::new();
    let mut index: usize = 0;
    let ghost ended = all.drop_last().map_values(|line: Seq<char>| without_return(line));
    while index < pieces.len()
        invariant
            index <= pieces@.len(),
            views(pieces@) == all.drop_last(),
            ended == all.drop_last().map_values(|line: Seq<char>| without_return(line)),
            views(found@) == ended.subrange(0, index as int),
        decreases pieces@.len() - index,
    {
        assert(views(pieces@)[index as int] == pieces@[index as int]@);
        let chars = characters(pieces[index].as_str());
        let mut end: usize = chars.len();
        if end > 0 && chars[end - 1] == '\r' {
            end = end - 1;
        }
        let line = text_between(&chars, 0, end);
        assert(line@ =~= without_return(all.drop_last()[index as int]));
        let ghost so_far = views(found@);
        found.push(line);
        assert(views(found@) =~= so_far.push(line@));
        assert(ended[index as int] == line@);
        index += 1;
        assert(views(found@) =~= ended.subrange(0, index as int));
    }
    assert(views(found@) =~= ended);
    if let Some(line) = last {
        assert(line@ == all.last());
        if line.as_str().is_empty() {
            assert(views(found@) =~= lines_of(text@));
        } else {
            let ghost so_far = views(found@);
            found.push(line);
            assert(views(found@) =~= so_far.push(line@));
            assert(views(found@) =~= lines_of(text@));
        }
    }
    found
}

/// `parts` in order with `separator` between neighbours.
pub open spec fn joined(parts: Seq<Seq<char>>, separator: Seq<char>) -> Seq<char>
    decreases parts.len(),
{
    if parts.len() == 0 {
        Seq::empty()
    } else if parts.len() == 1 {
        parts[0]
    } else {
        joined(parts.drop_last(), separator) + separator + parts.last()
    }
}

/// Joins `parts` with `separator` between neighbours.
pub fn join(parts: &Vec<&str>, separator: &str) -> (text: String)
    ensures
        text@ == joined(slice_views(parts@), separator@),
{
    let mut text = String::new();
    let mut index: usize = 0;
    let ghost all = slice_views(parts@);
    while index < parts.len()
        invariant
            index <= parts@.len(),
            all == slice_views(parts@),
            text@ == joined(all.subrange(0, index as int), separator@),
        decreases parts@.len() - index,
    {
        let ghost prefix = all.subrange(0, index as int + 1);
        assert(prefix.drop_last() =~= all.subrange(0, index as int));
        assert(prefix.last() == parts@[index as int]@);
        if index > 0 {
            text.append(separator);
        } else {
            assert(text@ + parts@[0]@ =~= parts@[0]@);
        }
        text.append(parts[index]);
        index += 1;
    }
    assert(all.subrange(0, index as int) =~= all);
    text
}

/// The decimal digits of `value`.
pub open spec fn decimal_of(value: nat) -> Seq<char>
    decreases value,
{
    let digit = (('0' as u32) + (value % 10)) as char;
    if value < 10 {
        seq![digit]
    } else {
        decimal_of(value / 10).push(digit)
    }
}

/// Renders `value` in decimal.
pub fn decimal(value: usize) -> (text: String)
    ensures
        text@ == decimal_of(value as nat),
    decreases value,
{
    let digits: [char; 10] = ['0', '1', '2', '3', '4', '5', '6', '7', '8', '9'];
    let mut text = if value < 10 {
        String::new()
    } else {
        decimal(value / 10)
    };
    text.push(digits[value % 10]);
    assert(text@ =~= decimal_of(value as nat));
    text
}

/// `character` with an ASCII capital letter replaced by its small letter.
pub open spec fn lower_character(character: char) -> char {
    if 'A' <= character && character <= 'Z' {
        (character as u32 + 32) as char
    } else {
        character
    }
}

/// `text` with ASCII capital letters replaced by small letters.
pub open spec fn lowered(text: Seq<char>) -> Seq<char> {
    text.map_values(|character: char| lower_character(character))
}

fn lower(character: char) -> (small: char)
    ensures
        small == lower_character(character),
{
    if 'A' <= character && character <= 'Z' {
        (character as u8 + 32) as char
    } else {
        character
    }
}

/// Replaces ASCII capital letters by small letters.
pub fn to_lower(text: &str) -> (small: String)
    ensures
        small@ == lowered(text@),
{
    let chars = characters(text);
    let mut small = String::new();
    let mut index: usize = 0;
    while index < chars.len()
        invariant
            index <= chars@.len(),
            small@ == lowered(chars@.subrange(0, index as int)),
        decreases chars@.len() - index,
    {
        small.push(lower(chars[index]));
        index += 1;
        assert(small@ =~= lowered(chars@.subrange(0, index as int)));
    }
    assert(chars@.subrange(0, index as int) =~= text@);
    small
}

/// The characters with the Unicode property `White_Space`.
pub open spec fn is_white_space(character: char) -> bool {
    let code = character as u32;
    ||| 0x09 <= code <= 0x0d
    ||| code == 0x20
    ||| code == 0x85
    ||| code == 0xa0
    ||| code == 0x1680
    ||| 0x2000 <= code <= 0x200a
    ||| code == 0x2028
    ||| code == 0x2029
    ||| code == 0x202f
    ||| code == 0x205f
    ||| code == 0x3000
}

fn white_space(character: char) -> (white: bool)
    ensures
        white == is_white_space(character),
{
    let code = character as u32;
    (0x09 <= code && code <= 0x0d) || code == 0x20 || code == 0x85 || code == 0xa0 || code == 0x1680
        || (0x2000 <= code && code <= 0x200a) || code == 0x2028 || code == 0x2029 || code == 0x202f
        || code == 0x205f || code == 0x3000
}

/// `text` without the white space at its start.
pub open spec fn start_trimmed(text: Seq<char>) -> Seq<char>
    decreases text.len(),
{
    if text.len() > 0 && is_white_space(text[0]) {
        start_trimmed(text.drop_first())
    } else {
        text
    }
}

/// `text` without the white space at its end.
pub open spec fn end_trimmed(text: Seq<char>) -> Seq<char>
    decreases text.len(),
{
    if text.len() > 0 && is_white_space(text.last()) {
        end_trimmed(text.drop_last())
    } else {
        text
    }
}

/// `text` without the white space at either end.
pub open spec fn trimmed(text: Seq<char>) -> Seq<char> {
    end_trimmed(start_trimmed(text))
}

/// Removes the white space at either end of `text`.
pub fn trim(text: &str) -> (inner: String)
    ensures
        inner@ == trimmed(text@),
{
    let chars = characters(text);
    let mut from: usize = 0;
    assert(chars@.subrange(0, chars@.len() as int) =~= text@);
    while from < chars.len() && white_space(chars[from])
        invariant
            from <= chars@.len(),
            start_trimmed(text@) == start_trimmed(chars@.subrange(from as int, chars@.len() as int)),
        decreases chars@.len() - from,
    {
        assert(chars@.subrange(from as int, chars@.len() as int).drop_first() =~= chars@.subrange(
            from as int + 1,
            chars@.len() as int,
        ));
        from += 1;
    }
    let mut to: usize = chars.len();
    assert(start_trimmed(text@) == chars@.subrange(from as int, to as int));
    while from < to && white_space(chars[to - 1])
        invariant
            from <= to <= chars@.len(),
            trimmed(text@) == end_trimmed(chars@.subrange(from as int, to as int)),
        decreases to,
    {
        assert(chars@.subrange(from as int, to as int).drop_last() =~= chars@.subrange(
            from as int,
            to as int - 1,
        ));
        to = to - 1;
    }
    text_between(&chars, from, to)
}

/// Whether `left` comes before `right` in the order of their code points.
pub open spec fn text_before(left: Seq<char>, right: Seq<char>) -> bool
    decreases left.len(),
{
    if right.len() == 0 {
        false
    } else if left.len() == 0 {
        true
    } else if left[0] != right[0] {
        left[0] < right[0]
    } else {
        text_before(left.drop_first(), right.drop_first())
    }
}

/// Whether `left` comes before `right` in the order of their code points.
pub fn comes_before(left: &str, right: &str) -> (before: bool)
    ensures
        before == text_before(left@, right@),
{
    let first = characters(left);
    let second = characters(right);
    let mut index: usize = 0;
    assert(first@.subrange(0, first@.len() as int) =~= left@);
    assert(second@.subrange(0, second@.len() as int) =~= right@);
    while index < first.len() && index < second.len() && first[index] == second[index]
        invariant
            index <= first@.len(),
            index <= second@.len(),
            text_before(left@, right@) == text_before(
                first@.subrange(index as int, first@.len() as int),
                second@.subrange(index as int, second@.len() as int),
            ),
        decreases first@.len() - index,
    {
        assert(first@.subrange(index as int, first@.len() as int).drop_first() =~= first@.subrange(
            index as int + 1,
            first@.len() as int,
        ));
        assert(second@.subrange(index as int, second@.len() as int).drop_first()
            =~= second@.subrange(index as int + 1, second@.len() as int));
        index += 1;
    }
    if index >= second.len() {
        false
    } else if index >= first.len() {
        true
    } else {
        first[index] < second[index]
    }
}

/// Two different texts stand in exactly one order, and no text precedes itself.
pub proof fn lemma_text_order_total(left: Seq<char>, right: Seq<char>)
    ensures
        text_before(left, right) ==> !text_before(right, left) && left != right,
        left != right ==> text_before(left, right) || text_before(right, left),
    decreases left.len(),
{
    if left.len() > 0 && right.len() > 0 {
        lemma_text_order_total(left.drop_first(), right.drop_first());
        if left[0] == right[0] && left.drop_first() == right.drop_first() {
            assert(left =~= right) by {
                assert(left =~= seq![left[0]] + left.drop_first());
                assert(right =~= seq![right[0]] + right.drop_first());
            }
        }
    } else if left.len() == 0 && right.len() == 0 {
        assert(left =~= right);
    }
}

/// The order of texts is transitive.
pub proof fn lemma_text_order_transitive(first: Seq<char>, second: Seq<char>, third: Seq<char>)
    requires
        text_before(first, second),
        text_before(second, third),
    ensures
        text_before(first, third),
    decreases first.len(),
{
    if first.len() > 0 && second.len() > 0 && third.len() > 0 && first[0] == second[0] && second[0]
        == third[0] {
        lemma_text_order_transitive(first.drop_first(), second.drop_first(), third.drop_first());
    }
}

} // verus!
