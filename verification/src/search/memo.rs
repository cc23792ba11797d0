//! Answers that are remembered.

use crate::map::TextMap;
use vstd::prelude::*;

verus! {

/// The answers to questions that were asked before.
pub struct Memo<V> {
    answers: TextMap<V>,
}

impl<V> View for Memo<V> {
    type V = Map<Seq<char>, V>;

    closed spec fn view(&self) -> Map<Seq<char>, V> {
        self.answers@
    }
}

/// Whether solving the question can give the answer.
pub open spec fn is_answer<V, F: Fn(String) -> V>(solve: &F, question: Seq<char>, answer: V) -> bool {
    exists|text: String| text@ == question && #[trigger] call_ensures(*solve, (text,), answer)
}

/// Whether solving a question always gives the same answer.
pub open spec fn is_function<V, F: Fn(String) -> V>(solve: &F) -> bool {
    forall|question: Seq<char>, one: V, other: V|
        #[trigger] is_answer(solve, question, one) && #[trigger] is_answer(solve, question, other)
            ==> one == other
}

impl<V> Memo<V> {
    /// Whether every answer is one that solving its question gives.
    pub open spec fn agrees<F: Fn(String) -> V>(&self, solve: &F) -> bool {
        forall|question: Seq<char>|
            #[trigger] self@.contains_key(question) ==> is_answer(solve, question, self@[question])
    }

    pub fn new() -> (memo: Self)
        ensures
            memo@ == Map::<Seq<char>, V>::empty(),
    {
        Memo { answers: TextMap::new() }
    }

    /// How many answers are remembered.
    pub fn len(&self) -> (count: usize)
        ensures
            count == self@.dom().len(),
    {
        self.answers.len()
    }

    pub fn is_empty(&self) -> (empty: bool)
        ensures
            empty == (self@.dom().len() == 0),
    {
        self.answers.len() == 0
    }

    /// The answer that is remembered.
    pub fn get(&self, question: &str) -> (answer: Option<&V>)
        ensures
            answer is Some <==> self@.contains_key(question@),
            answer matches Some(answer) ==> *answer == self@[question@],
    {
        self.answers.get(question)
    }

    /// Solves a question unless its answer is remembered, and remembers the answer.
    pub fn ask<F: Fn(String) -> V>(&mut self, question: &str, solve: &F)
        requires
            forall|text: String| text@ == question@ ==> #[trigger] call_requires(*solve, (text,)),
        ensures
            final(self)@.contains_key(question@),
            old(self)@.contains_key(question@) ==> final(self)@ == old(self)@,
            !old(self)@.contains_key(question@) ==> final(self)@ == old(self)@.insert(
                question@,
                final(self)@[question@],
            ) && is_answer(solve, question@, final(self)@[question@]),
    {
        if !self.answers.contains_key(question) {
            let text = question.to_owned();
            let ghost asked = text;
            let answer = solve(text);
            assert(call_ensures(*solve, (asked,), answer));
            self.answers.insert(question.to_owned(), answer);
        }
    }
}

/// Remembering changes no answer: what is remembered of a question, before or after any
/// other was asked, is what solving it gives.
pub proof fn lemma_memory_changes_no_answer<V, F: Fn(String) -> V>(
    solve: &F,
    before: Memo<V>,
    after: Memo<V>,
    asked: Seq<char>,
    question: Seq<char>,
    answer: V,
)
    requires
        is_function(solve),
        before.agrees(solve),
        before@.contains_key(asked) ==> after@ == before@,
        !before@.contains_key(asked) ==> after@ == before@.insert(asked, after@[asked])
            && is_answer(solve, asked, after@[asked]),
        is_answer(solve, question, answer),
    ensures
        after.agrees(solve),
        before@.contains_key(question) ==> before@[question] == answer,
        after@.contains_key(question) ==> after@[question] == answer,
{
    assert forall|text: Seq<char>| #[trigger] after@.contains_key(text) implies is_answer(
        solve,
        text,
        after@[text],
    ) by {
        if !before@.contains_key(asked) && text != asked {
            assert(before@.contains_key(text));
        }
    }
}

} // verus!
