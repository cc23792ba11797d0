//! What whole generations leave behind.

use crate::publish::{
    cache_record_of, generation_next, is_cached_view, GenerationActionView, GenerationReplyView,
    GenerationView, SourceIdentity,
};
use vstd::prelude::*;
use vstd::utf8::encode_utf8;

verus! {

/// The published theme and the record beside it.
pub struct PublishedView {
    pub target: Option<Seq<u8>>,
    pub record: Option<Seq<u8>>,
}

/// A palette that stays as it is, and the theme that is built from it.
pub struct PaletteView {
    pub identity: SourceIdentity,
    pub key: Seq<char>,
    pub theme: Seq<u8>,
}

/// What a request leaves, and what it gives.
pub open spec fn performed(
    files: PublishedView,
    palette: PaletteView,
    action: GenerationActionView,
) -> (PublishedView, GenerationReplyView) {
    match action {
        GenerationActionView::InspectSource => (
            files,
            GenerationReplyView::Identity(palette.identity),
        ),
        GenerationActionView::ResolvePalette => (files, GenerationReplyView::Palette(palette.key)),
        GenerationActionView::ReadRecord => (files, GenerationReplyView::Content(files.record)),
        GenerationActionView::ReadTarget => (files, GenerationReplyView::Content(files.target)),
        GenerationActionView::BuildTheme => (files, GenerationReplyView::Theme(palette.theme)),
        GenerationActionView::WriteTarget(theme) => (
            PublishedView { target: Some(theme), ..files },
            GenerationReplyView::Written(files.target != Some(theme)),
        ),
        GenerationActionView::WriteRecord(record) => (
            PublishedView { record: Some(record), ..files },
            GenerationReplyView::Done,
        ),
        GenerationActionView::Finish { .. } => (files, GenerationReplyView::Done),
    }
}

/// What the rest of a generation leaves, and what it reports.
pub open spec fn generation_outcome(
    files: PublishedView,
    palette: PaletteView,
    phase: GenerationView,
    action: GenerationActionView,
    path: Seq<char>,
    target: Seq<char>,
) -> core::result::Result<(PublishedView, GenerationActionView), Seq<char>>
    decreases phase.steps_left(),
{
    let (files, reply) = performed(files, palette, action);
    if phase is Finished {
        Ok((files, action))
    } else {
        match generation_next(phase, path, target, reply) {
            Err(message) => Err(message),
            Ok(next) => if 0 <= next.0.steps_left() < phase.steps_left() {
                generation_outcome(files, palette, next.0, next.1, path, target)
            } else {
                Ok((files, action))
            },
        }
    }
}

/// What a generation leaves, and what it reports.
pub open spec fn generated(
    files: PublishedView,
    palette: PaletteView,
    path: Seq<char>,
    target: Seq<char>,
) -> core::result::Result<(PublishedView, GenerationActionView), Seq<char>> {
    generation_outcome(
        files,
        palette,
        GenerationView::Inspect { attempt: 0 },
        GenerationActionView::InspectSource,
        path,
        target,
    )
}

/// A generation leaves a recorded theme alone. Otherwise the theme that was built is
/// published, with a record, and it is reported whether that changed anything.
pub proof fn lemma_generation_publishes(
    files: PublishedView,
    palette: PaletteView,
    path: Seq<char>,
    target: Seq<char>,
)
    ensures
        generated(files, palette, path, target) == Ok::<_, Seq<char>>(
            if is_cached_view(files.record, palette.key, files.target) {
                (files, GenerationActionView::Finish { target, changed: false, cached: true })
            } else {
                (
                    PublishedView {
                        target: Some(palette.theme),
                        record: Some(cache_record_of(palette.key, palette.theme)),
                    },
                    GenerationActionView::Finish {
                        target,
                        changed: files.target != Some(palette.theme),
                        cached: false,
                    },
                )
            },
        ),
{
    reveal_with_fuel(generation_outcome, 10);
}

/// A theme that was published is recorded: generating it again changes nothing and says
/// so. A published theme that was overwritten, or removed, is published again.
pub proof fn lemma_generation_is_cached(
    files: PublishedView,
    edited: Option<Seq<u8>>,
    palette: PaletteView,
    path: Seq<char>,
    target: Seq<char>,
)
    requires
        !is_cached_view(files.record, palette.key, files.target),
    ensures
        ({
            let first = generated(files, palette, path, target)->Ok_0.0;
            &&& first.target == Some(palette.theme)
            &&& generated(first, palette, path, target) == Ok::<_, Seq<char>>(
                (first, GenerationActionView::Finish { target, changed: false, cached: true }),
            )
            &&& edited != first.target ==> generated(
                PublishedView { target: edited, ..first },
                palette,
                path,
                target,
            ) == Ok::<_, Seq<char>>(
                (first, GenerationActionView::Finish { target, changed: true, cached: false }),
            )
        }),
{
    lemma_generation_publishes(files, palette, path, target);
    let first = generated(files, palette, path, target)->Ok_0.0;
    lemma_generation_publishes(first, palette, path, target);
    let changed = PublishedView { target: edited, ..first };
    lemma_generation_publishes(changed, palette, path, target);
    if let Some(content) = edited {
        if is_cached_view(changed.record, palette.key, edited) {
            let head = encode_utf8(palette.key).len() as int;
            assert(cache_record_of(palette.key, content).skip(head) =~= content);
            assert(cache_record_of(palette.key, palette.theme).skip(head) =~= palette.theme);
        }
    }
}

} // verus!
