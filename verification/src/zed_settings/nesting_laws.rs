//! What counts towards the nesting of a document.

use crate::zed_settings::nesting::{nesting, nesting_of, nesting_step, NestingView, Place};
use vstd::prelude::*;

verus! {

/// What follows a text that is in `before`.
spec fn after(before: NestingView, text: Seq<char>) -> NestingView
    decreases text.len(),
{
    if text.len() == 0 {
        before
    } else {
        nesting_step(after(before, text.drop_last()), text.last())
    }
}

proof fn lemma_after(first: Seq<char>, second: Seq<char>)
    ensures
        nesting_of(first + second) == after(nesting_of(first), second),
    decreases second.len(),
{
    if second.len() == 0 {
        assert(first + second =~= first);
    } else {
        assert((first + second).drop_last() =~= first + second.drop_last());
        lemma_after(first, second.drop_last());
    }
}

/// Whether the text ends neither in a string nor in a comment.
pub open spec fn ends_plainly(text: Seq<char>) -> bool {
    nesting_of(text).place == Place::Plain
}

/// Nothing is open at the start of a document.
pub proof fn lemma_nothing_is_open_at_first()
    ensures
        ends_plainly(Seq::empty()),
        nesting(Seq::empty()) == 0,
        nesting_of(Seq::empty()).open == 0,
{
}

/// An opening bracket opens one more level, a closing one closes one, and the deepest level is
/// remembered. A text never nests less than its start.
pub proof fn lemma_brackets_nest(text: Seq<char>, next: char)
    ensures
        nesting(text.push(next)) >= nesting(text),
        nesting(text) >= nesting_of(text).open,
        ends_plainly(text) && (next == '[' || next == '{') ==> ends_plainly(text.push(next))
            && nesting_of(text.push(next)).open == nesting_of(text).open + 1 && nesting(
            text.push(next),
        ) > nesting_of(text).open,
        ends_plainly(text) && (next == ']' || next == '}') && nesting_of(text).open > 0
            ==> ends_plainly(text.push(next)) && nesting_of(text.push(next)).open == nesting_of(
            text,
        ).open - 1,
        nesting(text.push(next)) > nesting(text) ==> next == '[' || next == '{',
    decreases text.len(),
{
    assert(text.push(next).drop_last() =~= text);
    if text.len() > 0 {
        lemma_brackets_nest(text.drop_last(), text.last());
        assert(text.drop_last().push(text.last()) =~= text);
    }
}

proof fn lemma_inside_string(before: NestingView, inside: Seq<char>)
    requires
        before.place == Place::Text,
        forall|i: int| 0 <= i < inside.len() ==> inside[i] != '"' && inside[i] != '\\',
    ensures
        after(before, inside) == before,
    decreases inside.len(),
{
    if inside.len() > 0 {
        assert forall|i: int| 0 <= i < inside.drop_last().len() implies inside.drop_last()[i] != '"'
            && inside.drop_last()[i] != '\\' by {
            assert(inside.drop_last()[i] == inside[i]);
        }
        lemma_inside_string(before, inside.drop_last());
        assert(inside.last() == inside[inside.len() - 1]);
    }
}

/// Brackets in a string do not count: behind it everything is as it was before it.
pub proof fn lemma_strings_do_not_nest(text: Seq<char>, inside: Seq<char>)
    requires
        ends_plainly(text),
        forall|i: int| 0 <= i < inside.len() ==> inside[i] != '"' && inside[i] != '\\',
    ensures
        nesting_of(text + (seq!['"'] + inside).push('"')) == nesting_of(text),
{
    let string = (seq!['"'] + inside).push('"');
    lemma_after(text, string);
    let opened = text.push('"');
    assert(opened.drop_last() =~= text);
    lemma_after(opened, inside);
    lemma_inside_string(nesting_of(opened), inside);
    let whole = text + string;
    assert(whole.drop_last() =~= opened + inside);
    assert(whole.last() == '"');
}

/// An escaped quote does not end a string.
pub proof fn lemma_escaped_quote_stays_inside(text: Seq<char>, next: char)
    requires
        nesting_of(text).place == Place::Text,
    ensures
        nesting_of(text.push('\\').push(next)) == nesting_of(text),
{
    let escaped = text.push('\\');
    assert(escaped.drop_last() =~= text);
    assert(escaped.push(next).drop_last() =~= escaped);
    assert(nesting_of(escaped) == nesting_step(nesting_of(text), '\\'));
}

proof fn lemma_inside_line(before: NestingView, inside: Seq<char>)
    requires
        before.place == Place::Line,
        forall|i: int| 0 <= i < inside.len() ==> inside[i] != '\n',
    ensures
        after(before, inside) == before,
    decreases inside.len(),
{
    if inside.len() > 0 {
        assert forall|i: int| 0 <= i < inside.drop_last().len() implies inside.drop_last()[i]
            != '\n' by {
            assert(inside.drop_last()[i] == inside[i]);
        }
        lemma_inside_line(before, inside.drop_last());
        assert(inside.last() == inside[inside.len() - 1]);
    }
}

/// Brackets in a comment up to the end of its line do not count.
pub proof fn lemma_line_comments_do_not_nest(text: Seq<char>, inside: Seq<char>)
    requires
        ends_plainly(text),
        forall|i: int| 0 <= i < inside.len() ==> inside[i] != '\n',
    ensures
        nesting_of(text + (seq!['/', '/'] + inside).push('\n')) == nesting_of(text),
{
    let slash = text.push('/');
    let opened = slash.push('/');
    assert(slash.drop_last() =~= text);
    assert(opened.drop_last() =~= slash);
    assert(nesting_of(slash) == nesting_step(nesting_of(text), '/'));
    assert(nesting_of(opened) == nesting_step(nesting_of(slash), '/'));
    lemma_after(opened, inside);
    lemma_inside_line(nesting_of(opened), inside);
    let whole = text + (seq!['/', '/'] + inside).push('\n');
    assert(whole.drop_last() =~= opened + inside);
    assert(whole.last() == '\n');
    assert(nesting_of(whole) == nesting_step(nesting_of(opened + inside), '\n'));
}

proof fn lemma_inside_block(before: NestingView, inside: Seq<char>)
    requires
        before.place == Place::Block,
        forall|i: int| 0 <= i < inside.len() ==> inside[i] != '*',
    ensures
        after(before, inside) == before,
    decreases inside.len(),
{
    if inside.len() > 0 {
        assert forall|i: int| 0 <= i < inside.drop_last().len() implies inside.drop_last()[i]
            != '*' by {
            assert(inside.drop_last()[i] == inside[i]);
        }
        lemma_inside_block(before, inside.drop_last());
        assert(inside.last() == inside[inside.len() - 1]);
    }
}

/// Brackets in a comment up to its closing mark do not count.
pub proof fn lemma_block_comments_do_not_nest(text: Seq<char>, inside: Seq<char>)
    requires
        ends_plainly(text),
        forall|i: int| 0 <= i < inside.len() ==> inside[i] != '*',
    ensures
        nesting_of(text + (seq!['/', '*'] + inside).push('*').push('/')) == nesting_of(text),
{
    let slash = text.push('/');
    let opened = slash.push('*');
    assert(slash.drop_last() =~= text);
    assert(opened.drop_last() =~= slash);
    assert(nesting_of(slash) == nesting_step(nesting_of(text), '/'));
    assert(nesting_of(opened) == nesting_step(nesting_of(slash), '*'));
    lemma_after(opened, inside);
    lemma_inside_block(nesting_of(opened), inside);
    let whole = text + (seq!['/', '*'] + inside).push('*').push('/');
    let star = whole.drop_last();
    assert(star.drop_last() =~= opened + inside);
    assert(star.last() == '*');
    assert(whole.last() == '/');
    assert(nesting_of(star) == nesting_step(nesting_of(opened + inside), '*'));
    assert(nesting_of(whole) == nesting_step(nesting_of(star), '/'));
}

} // verus!
