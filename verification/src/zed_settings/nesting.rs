//! How deep the brackets of a settings document nest.

use crate::text::characters;
use vstd::prelude::*;

verus! {

/// How deep settings may nest. A parser that goes down once for each level needs a
/// stack that holds them all.
pub const MAXIMUM_NESTING: usize = 256;

/// What the next character belongs to.
#[derive(Clone, Copy, Debug, PartialEq, Eq, Structural)]
pub enum Place {
    /// The document itself.
    Plain,
    /// A slash, which may start a comment.
    Slash,
    /// A comment up to the end of the line.
    Line,
    /// A comment up to its closing mark.
    Block,
    /// A star in such a comment, which may close it.
    Star,
    /// A string.
    Text,
    /// A backslash in a string.
    Escape,
}

/// How far brackets are open behind some text, and how far they have been.
pub struct NestingView {
    pub place: Place,
    pub open: nat,
    pub deepest: nat,
}

/// What a character leads to that is neither in a string nor in a comment.
pub open spec fn plain_step(before: NestingView, next: char) -> NestingView {
    if next == '[' || next == '{' {
        NestingView {
            place: Place::Plain,
            open: before.open + 1,
            deepest: if before.open + 1 > before.deepest {
                before.open + 1
            } else {
                before.deepest
            },
        }
    } else if next == ']' || next == '}' {
        NestingView {
            place: Place::Plain,
            open: if before.open > 0 {
                (before.open - 1) as nat
            } else {
                0
            },
            deepest: before.deepest,
        }
    } else {
        NestingView {
            place: if next == '"' {
                Place::Text
            } else if next == '/' {
                Place::Slash
            } else {
                Place::Plain
            },
            ..before
        }
    }
}

/// Where a character leads to inside a string or a comment.
pub open spec fn next_place(place: Place, next: char) -> Place {
    match place {
        Place::Line => if next == '\n' {
            Place::Plain
        } else {
            Place::Line
        },
        Place::Block => if next == '*' {
            Place::Star
        } else {
            Place::Block
        },
        Place::Star => if next == '/' {
            Place::Plain
        } else if next == '*' {
            Place::Star
        } else {
            Place::Block
        },
        Place::Text => if next == '"' {
            Place::Plain
        } else if next == '\\' {
            Place::Escape
        } else {
            Place::Text
        },
        _ => Place::Text,
    }
}

/// What a character leads to.
pub open spec fn nesting_step(before: NestingView, next: char) -> NestingView {
    match before.place {
        Place::Plain => plain_step(before, next),
        Place::Slash => if next == '/' {
            NestingView { place: Place::Line, ..before }
        } else if next == '*' {
            NestingView { place: Place::Block, ..before }
        } else {
            plain_step(before, next)
        },
        place => NestingView { place: next_place(place, next), ..before },
    }
}

/// How far brackets are open behind a text.
pub open spec fn nesting_of(text: Seq<char>) -> NestingView
    decreases text.len(),
{
    if text.len() == 0 {
        NestingView { place: Place::Plain, open: 0, deepest: 0 }
    } else {
        nesting_step(nesting_of(text.drop_last()), text.last())
    }
}

/// How deep the brackets of a text nest. Those in strings and comments do not count.
pub open spec fn nesting(text: Seq<char>) -> nat {
    nesting_of(text).deepest
}

/// Whether a document nests no deeper than it may.
pub open spec fn is_shallow(source: Seq<char>) -> bool {
    nesting(source) <= MAXIMUM_NESTING
}

struct Nesting {
    place: Place,
    open: usize,
    deepest: usize,
}

impl Nesting {
    spec fn shows(&self, view: NestingView) -> bool {
        self.place == view.place && self.open == view.open && self.deepest == view.deepest
    }

    fn at(&self, place: Place) -> (after: Nesting)
        ensures
            after == (Nesting { place, open: self.open, deepest: self.deepest }),
    {
        Nesting { place, open: self.open, deepest: self.deepest }
    }

    fn plain(&self, next: char, Ghost(before): Ghost<NestingView>) -> (after: Nesting)
        requires
            self.shows(before),
            self.open < usize::MAX,
        ensures
            after.shows(plain_step(before, next)),
            after.open <= self.open + 1,
    {
        if next == '[' || next == '{' {
            let open = self.open + 1;
            let deepest = if open > self.deepest {
                open
            } else {
                self.deepest
            };
            Nesting { place: Place::Plain, open, deepest }
        } else if next == ']' || next == '}' {
            let open = if self.open > 0 {
                self.open - 1
            } else {
                0
            };
            Nesting { place: Place::Plain, open, deepest: self.deepest }
        } else if next == '"' {
            self.at(Place::Text)
        } else if next == '/' {
            self.at(Place::Slash)
        } else {
            self.at(Place::Plain)
        }
    }

    fn step(&self, next: char, Ghost(before): Ghost<NestingView>) -> (after: Nesting)
        requires
            self.shows(before),
            self.open < usize::MAX,
        ensures
            after.shows(nesting_step(before, next)),
            after.open <= self.open + 1,
    {
        match self.place {
            Place::Plain => self.plain(next, Ghost(before)),
            Place::Slash => if next == '/' {
                self.at(Place::Line)
            } else if next == '*' {
                self.at(Place::Block)
            } else {
                self.plain(next, Ghost(before))
            },
            Place::Line => if next == '\n' {
                self.at(Place::Plain)
            } else {
                self.at(Place::Line)
            },
            Place::Block => if next == '*' {
                self.at(Place::Star)
            } else {
                self.at(Place::Block)
            },
            Place::Star => if next == '/' {
                self.at(Place::Plain)
            } else if next == '*' {
                self.at(Place::Star)
            } else {
                self.at(Place::Block)
            },
            Place::Text => if next == '"' {
                self.at(Place::Plain)
            } else if next == '\\' {
                self.at(Place::Escape)
            } else {
                self.at(Place::Text)
            },
            Place::Escape => self.at(Place::Text),
        }
    }
}

/// Whether a document nests no deeper than it may.
pub fn nests_shallow(source: &str) -> (shallow: bool)
    ensures
        shallow == is_shallow(source@),
{
    let chars = characters(source);
    let mut nesting = Nesting { place: Place::Plain, open: 0, deepest: 0 };
    let mut index: usize = 0;
    assert(source@.take(0) =~= Seq::empty());
    while index < chars.len()
        invariant
            chars@ == source@,
            index <= chars@.len(),
            nesting.shows(nesting_of(source@.take(index as int))),
            nesting.open <= index,
        decreases chars@.len() - index,
    {
        assert(source@.take(index + 1).drop_last() =~= source@.take(index as int));
        let ghost before = nesting_of(source@.take(index as int));
        nesting = nesting.step(chars[index], Ghost(before));
        index += 1;
    }
    assert(source@.take(index as int) =~= source@);
    nesting.deepest <= MAXIMUM_NESTING
}

} // verus!
