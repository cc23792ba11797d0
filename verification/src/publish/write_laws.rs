//! What whole writes of a file leave behind, and when a generation starts again.

use crate::publish::{
    generation_next, target_fault, write_next, ExpectedView, GenerationActionView,
    GenerationReplyView, GenerationView, SourceIdentity, TargetKind, WriteAction, WriteOutcome,
    WritePhase, WriteReplyView,
};
use vstd::prelude::*;

verus! {

/// Exactly a regular file and a path where nothing is can be replaced.
pub proof fn lemma_replaceable_targets(kind: TargetKind, path: Seq<char>)
    ensures
        target_fault(kind, path) is None <==> kind == TargetKind::Missing || kind
            == TargetKind::Regular,
{
}

/// A file, and a new one beside it that may take its place.
pub struct WrittenView {
    pub content: Option<Seq<u8>>,
    pub beside: Option<Seq<u8>>,
}

/// What an action leaves, and what it gives.
pub open spec fn acted(
    file: WrittenView,
    kind: TargetKind,
    content: Seq<u8>,
    action: WriteAction,
) -> (WrittenView, WriteReplyView) {
    match action {
        WriteAction::Inspect => (file, WriteReplyView::Kind(kind)),
        WriteAction::Read => (file, WriteReplyView::Content(file.content)),
        WriteAction::WriteTemporary => (
            WrittenView { beside: Some(content), ..file },
            WriteReplyView::Done,
        ),
        WriteAction::Rename => (
            WrittenView { content: file.beside, beside: None },
            WriteReplyView::Done,
        ),
        WriteAction::Discard => (WrittenView { beside: None, ..file }, WriteReplyView::Done),
        WriteAction::Finish(_) => (file, WriteReplyView::Done),
    }
}

/// What the rest of a write leaves, and how it ends.
pub open spec fn write_outcome(
    file: WrittenView,
    kind: TargetKind,
    content: Seq<u8>,
    expected: ExpectedView,
    target: Seq<char>,
    phase: WritePhase,
    action: WriteAction,
) -> core::result::Result<(WrittenView, WriteAction), Seq<char>>
    decreases phase.steps_left(),
{
    let (file, reply) = acted(file, kind, content, action);
    if phase == WritePhase::Finished {
        Ok((file, action))
    } else {
        match write_next(phase, target, content, expected, reply) {
            Err(message) => Err(message),
            Ok(next) => if 0 <= next.0.steps_left() < phase.steps_left() {
                write_outcome(file, kind, content, expected, target, next.0, next.1)
            } else {
                Ok((file, action))
            },
        }
    }
}

/// What a write of the content leaves of a file that nobody else changes: the content, unless
/// the file is none that may be replaced, which is an error, or does not hold what it should,
/// which leaves it as it was. It is told whether anything was written, and nothing is left
/// beside the file.
pub proof fn lemma_write_leaves_the_content(
    held: Option<Seq<u8>>,
    kind: TargetKind,
    content: Seq<u8>,
    expected: ExpectedView,
    target: Seq<char>,
)
    ensures
        ({
            let file = WrittenView { content: held, beside: None };
            let outcome = write_outcome(
                file,
                kind,
                content,
                expected,
                target,
                WritePhase::Inspect,
                WriteAction::Inspect,
            );
            &&& kind == TargetKind::Symlink || kind == TargetKind::Other ==> outcome is Err
            &&& kind == TargetKind::Missing || kind == TargetKind::Regular ==> {
                let stale = expected matches ExpectedView::Exact(wanted) && wanted != held;
                outcome == Ok::<_, Seq<char>>(
                    if stale {
                        (file, WriteAction::Finish(WriteOutcome::Stale))
                    } else if held == Some(content) {
                        (file, WriteAction::Finish(WriteOutcome::Unchanged))
                    } else {
                        (
                            WrittenView { content: Some(content), beside: None },
                            WriteAction::Finish(WriteOutcome::Replaced),
                        )
                    },
                )
            }
        }),
{
    reveal_with_fuel(write_outcome, 8);
}

/// A palette counts as read only if its file is the same before and after; otherwise the
/// generation starts again, and gives up when the file was found changed for the fifth time.
pub proof fn lemma_changed_source_starts_again(
    attempt: u8,
    source: SourceIdentity,
    current: SourceIdentity,
    key: Seq<char>,
    theme: Seq<u8>,
    path: Seq<char>,
    target: Seq<char>,
)
    requires
        current != source,
        attempt < 5,
    ensures
        ({
            let read = generation_next(
                GenerationView::Recheck { attempt, source, key },
                path,
                target,
                GenerationReplyView::Identity(current),
            );
            let built = generation_next(
                GenerationView::Verify { attempt, source, key, theme },
                path,
                target,
                GenerationReplyView::Identity(current),
            );
            let again = if attempt < 4 {
                Ok(
                    (
                        GenerationView::Inspect { attempt: (attempt + 1) as u8 },
                        GenerationActionView::InspectSource,
                    ),
                )
            } else {
                Err("colors.toml did not remain stable after 5 attempts: "@ + path)
            };
            &&& read == again
            &&& built == again
        }),
{
}

/// A palette that stayed the same while it was read is looked up, and one that stayed the same
/// while its theme was built is published.
pub proof fn lemma_stable_source_goes_on(
    attempt: u8,
    source: SourceIdentity,
    key: Seq<char>,
    theme: Seq<u8>,
    path: Seq<char>,
    target: Seq<char>,
)
    ensures
        generation_next(
            GenerationView::Recheck { attempt, source, key },
            path,
            target,
            GenerationReplyView::Identity(source),
        ) == Ok::<_, Seq<char>>(
            (GenerationView::Record { attempt, source, key }, GenerationActionView::ReadRecord),
        ),
        generation_next(
            GenerationView::Verify { attempt, source, key, theme },
            path,
            target,
            GenerationReplyView::Identity(source),
        ) == Ok::<_, Seq<char>>(
            (GenerationView::Publish { key, theme }, GenerationActionView::WriteTarget(theme)),
        ),
{
}

} // verus!
