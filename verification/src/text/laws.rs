//! What holds of texts that are taken apart, trimmed and written.

use crate::text::{
    decimal_of, end_trimmed, is_white_space, joined, lines_of, lowered, split_on, start_trimmed,
    trimmed,
};
use vstd::prelude::*;

verus! {

/// Whether the text has the character somewhere.
pub open spec fn holds_char(text: Seq<char>, character: char) -> bool {
    exists|i: int| 0 <= i < text.len() && text[i] == character
}

proof fn lemma_has_pushed(text: Seq<char>, last: char, character: char)
    ensures
        holds_char(text.push(last), character) <==> holds_char(text, character) || last == character,
{
    let longer = text.push(last);
    if holds_char(longer, character) {
        let at = choose|i: int| 0 <= i < longer.len() && longer[i] == character;
        if at < text.len() {
            assert(text[at] == character);
        }
    }
    if holds_char(text, character) {
        let at = choose|i: int| 0 <= i < text.len() && text[i] == character;
        assert(longer[at] == character);
    }
    assert(longer[text.len() as int] == last);
}

/// Joining what was split gives the text back, and no piece has the separator.
pub proof fn lemma_split_joins_back(text: Seq<char>, separator: char)
    ensures
        split_on(text, separator).len() >= 1,
        joined(split_on(text, separator), seq![separator]) == text,
        forall|i: int|
            0 <= i < split_on(text, separator).len() ==> !holds_char(
                #[trigger] split_on(text, separator)[i],
                separator,
            ),
    decreases text.len(),
{
    let pieces = split_on(text, separator);
    if text.len() > 0 {
        let shorter = text.drop_last();
        let before = split_on(shorter, separator);
        lemma_split_joins_back(shorter, separator);
        assert(text =~= shorter.push(text.last()));
        if text.last() == separator {
            assert(pieces.drop_last() =~= before);
            assert(joined(pieces, seq![separator]) =~= text);
            assert forall|i: int| 0 <= i < pieces.len() implies !holds_char(
                #[trigger] pieces[i],
                separator,
            ) by {
                if i < before.len() {
                    assert(pieces[i] == before[i]);
                }
            }
        } else {
            let last = before.last().push(text.last());
            assert(pieces.drop_last() =~= before.drop_last());
            lemma_has_pushed(before.last(), text.last(), separator);
            assert(before[before.len() - 1] == before.last());
            if before.len() == 1 {
                assert(joined(pieces, seq![separator]) =~= text);
            } else {
                assert(joined(pieces, seq![separator]) =~= joined(
                    before.drop_last(),
                    seq![separator],
                ) + seq![separator] + last);
                assert(joined(pieces, seq![separator]) =~= text);
            }
            assert forall|i: int| 0 <= i < pieces.len() implies !holds_char(
                #[trigger] pieces[i],
                separator,
            ) by {
                if i < before.len() - 1 {
                    assert(pieces[i] == before[i]);
                }
            }
        }
    }
}

proof fn lemma_split_whole(text: Seq<char>, separator: char)
    requires
        !holds_char(text, separator),
    ensures
        split_on(text, separator) == seq![text],
    decreases text.len(),
{
    if text.len() > 0 {
        let shorter = text.drop_last();
        assert(text =~= shorter.push(text.last()));
        lemma_has_pushed(shorter, text.last(), separator);
        lemma_split_whole(shorter, separator);
        assert(split_on(shorter, separator).last() == shorter);
        assert(seq![shorter].drop_last() =~= Seq::<Seq<char>>::empty());
    } else {
        assert(text =~= Seq::<char>::empty());
    }
    assert(split_on(text, separator) =~= seq![text]);
}

/// Two texts with one separator between them are told apart again.
pub proof fn lemma_split_pair(key: Seq<char>, separator: char, value: Seq<char>)
    requires
        !holds_char(key, separator),
        !holds_char(value, separator),
    ensures
        split_on(key + seq![separator] + value, separator) == seq![key, value],
    decreases value.len(),
{
    let text = key + seq![separator] + value;
    if value.len() == 0 {
        assert(text.drop_last() =~= key);
        assert(text.last() == separator);
        assert(value =~= Seq::<char>::empty());
        lemma_split_whole(key, separator);
    } else {
        let shorter = value.drop_last();
        assert(value =~= shorter.push(value.last()));
        lemma_has_pushed(shorter, value.last(), separator);
        assert(text.drop_last() =~= key + seq![separator] + shorter);
        lemma_split_pair(key, separator, shorter);
        assert(text.last() == value.last());
        assert(seq![key, shorter].drop_last() =~= seq![key]);
        assert(seq![key, shorter].last() == shorter);
    }
    assert(split_on(text, separator) =~= seq![key, value]);
}

/// No line has a line feed.
pub proof fn lemma_lines_have_no_feed(text: Seq<char>)
    ensures
        forall|i: int| 0 <= i < lines_of(text).len() ==> !holds_char(#[trigger] lines_of(text)[i], '\n'),
{
    lemma_split_joins_back(text, '\n');
    let pieces = split_on(text, '\n');
    let found = lines_of(text);
    assert forall|i: int| 0 <= i < found.len() implies !holds_char(#[trigger] found[i], '\n') by {
        assert(!holds_char(pieces[i], '\n'));
        if holds_char(found[i], '\n') {
            let at = choose|k: int| 0 <= k < found[i].len() && found[i][k] == '\n';
            assert(pieces[i][at] == '\n');
        }
    }
}

proof fn lemma_start_trimmed(text: Seq<char>)
    ensures
        start_trimmed(text).len() <= text.len(),
        start_trimmed(text) == text.skip(text.len() - start_trimmed(text).len()),
        forall|i: int|
            0 <= i < text.len() - start_trimmed(text).len() ==> is_white_space(#[trigger] text[i]),
        start_trimmed(text).len() > 0 ==> !is_white_space(start_trimmed(text)[0]),
    decreases text.len(),
{
    if text.len() > 0 && is_white_space(text[0]) {
        let rest = text.drop_first();
        lemma_start_trimmed(rest);
        let count = text.len() - start_trimmed(text).len();
        assert(text.skip(count) =~= rest.skip(count - 1));
        assert forall|i: int| 0 <= i < count implies is_white_space(#[trigger] text[i]) by {
            if i > 0 {
                assert(rest[i - 1] == text[i]);
            }
        }
    } else {
        assert(text.skip(0) =~= text);
    }
}

proof fn lemma_end_trimmed(text: Seq<char>)
    ensures
        end_trimmed(text).len() <= text.len(),
        end_trimmed(text) == text.take(end_trimmed(text).len() as int),
        forall|i: int|
            end_trimmed(text).len() <= i < text.len() ==> is_white_space(#[trigger] text[i]),
        end_trimmed(text).len() > 0 ==> !is_white_space(end_trimmed(text).last()),
    decreases text.len(),
{
    if text.len() > 0 && is_white_space(text.last()) {
        let rest = text.drop_last();
        lemma_end_trimmed(rest);
        let count = end_trimmed(text).len() as int;
        assert(text.take(count) =~= rest.take(count));
        assert forall|i: int| count <= i < text.len() implies is_white_space(#[trigger] text[i]) by {
            if i < rest.len() {
                assert(rest[i] == text[i]);
            }
        }
    } else {
        assert(text.take(text.len() as int) =~= text);
    }
}

/// Trimming takes white space from both ends and nothing else: what is left starts and
/// ends with other characters, and stood between `from` and `to`.
pub proof fn lemma_trimmed(text: Seq<char>)
    ensures
        exists|from: int, to: int|
            {
                &&& 0 <= from <= to <= text.len()
                &&& trimmed(text) == #[trigger] text.subrange(from, to)
                &&& forall|i: int| 0 <= i < from ==> is_white_space(#[trigger] text[i])
                &&& forall|i: int| to <= i < text.len() ==> is_white_space(#[trigger] text[i])
            },
        trimmed(text).len() > 0 ==> !is_white_space(trimmed(text)[0]) && !is_white_space(
            trimmed(text).last(),
        ),
{
    lemma_start_trimmed(text);
    let later = start_trimmed(text);
    lemma_end_trimmed(later);
    let inner = trimmed(text);
    let from = text.len() - later.len();
    let to = from + inner.len();
    assert(inner =~= text.subrange(from, to));
    assert forall|i: int| to <= i < text.len() implies is_white_space(#[trigger] text[i]) by {
        assert(later[i - from] == text[i]);
    }
}

/// The number that decimal digits stand for.
pub open spec fn value_of(digits: Seq<char>) -> int
    decreases digits.len(),
{
    if digits.len() == 0 {
        0
    } else {
        value_of(digits.drop_last()) * 10 + (digits.last() as int - '0' as int)
    }
}

/// The digits of a number stand for it, are all digits, and start with no needless
/// nought.
pub proof fn lemma_decimal_value(value: nat)
    ensures
        value_of(decimal_of(value)) == value,
        forall|i: int|
            0 <= i < decimal_of(value).len() ==> '0' <= #[trigger] decimal_of(value)[i] && decimal_of(
                value,
            )[i] <= '9',
        decimal_of(value).len() >= 1,
        value > 0 ==> decimal_of(value)[0] != '0',
    decreases value,
{
    let digits = decimal_of(value);
    if value < 10 {
        assert(digits.drop_last() =~= Seq::<char>::empty());
        assert(value_of(digits.drop_last()) == 0);
    } else {
        lemma_decimal_value(value / 10);
        assert(digits.drop_last() =~= decimal_of(value / 10));
        assert(digits[0] == decimal_of(value / 10)[0]);
        assert forall|i: int| 0 <= i < digits.len() implies '0' <= #[trigger] digits[i] && digits[i]
            <= '9' by {
            if i < digits.len() - 1 {
                assert(digits[i] == decimal_of(value / 10)[i]);
            }
        }
    }
}

/// Lowering keeps the length, leaves no capital letter and changes nothing else.
pub proof fn lemma_lowered(text: Seq<char>)
    ensures
        lowered(text).len() == text.len(),
        forall|i: int|
            0 <= i < text.len() ==> {
                let character = #[trigger] lowered(text)[i];
                &&& !('A' <= character && character <= 'Z')
                &&& !('A' <= text[i] && text[i] <= 'Z') ==> character == text[i]
                &&& 'A' <= text[i] && text[i] <= 'Z' ==> character as int - 'a' as int == text[i]
                    as int - 'A' as int
            },
        lowered(lowered(text)) == lowered(text),
{
    assert(lowered(lowered(text)) =~= lowered(text));
}

} // verus!
