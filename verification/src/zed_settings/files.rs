//! Whole sessions, on files that are held in memory.

use crate::json_value::JsonView;
use crate::publish::{content_view, same_content};
use crate::zed_settings::document::{
    is_kept_in, managed_theme, other_settings, takes_effect, theme_of, theme_set,
};
use crate::zed_settings::session::{
    activation_next, activation_steps_left, claim_of, is_read_back, lemma_activation_ends,
    lemma_restoration_ends, restoration_next, restoration_steps_left, source_of, Action, ActionView,
    ActivationPhase, ActivationView, Failure, ReadingView, Reply, ReplyView, RestorationPhase,
    RestorationView,
};
use crate::zed_settings::state::{saved_state, StateView};
use crate::zed_settings::{activate, restore};
use crate::Result;
use vstd::prelude::*;
use vstd::utf8::{encode_utf8, encode_utf8_decode_utf8, encode_utf8_valid_utf8};

verus! {

/// The contents of the files that a session works on.
#[derive(Debug)]
pub struct Files {
    pub claim: Option<Vec<u8>>,
    pub state: Option<Vec<u8>>,
    pub settings: Option<Vec<u8>>,
}

/// What [`Files`] hold.
pub struct FilesView {
    pub claim: Option<Seq<u8>>,
    pub state: Option<Seq<u8>>,
    pub settings: Option<Seq<u8>>,
}

impl View for Files {
    type V = FilesView;

    open spec fn view(&self) -> FilesView {
        FilesView {
            claim: content_view(self.claim),
            state: content_view(self.state),
            settings: content_view(self.settings),
        }
    }
}

/// What an operation leaves, and what it gives.
pub open spec fn performed(files: FilesView, action: ActionView) -> (FilesView, ReplyView) {
    match action {
        ActionView::ReadClaim => (files, ReplyView::Content(files.claim)),
        ActionView::ReadState => (files, ReplyView::Content(files.state)),
        ActionView::ReadSettings => (files, ReplyView::Content(files.settings)),
        ActionView::WriteState(content) => (
            FilesView { state: Some(content), ..files },
            ReplyView::Done,
        ),
        ActionView::ReplaceSettings { expected, content } => if files.settings == expected {
            (FilesView { settings: Some(content), ..files }, ReplyView::Replaced(true))
        } else {
            (files, ReplyView::Replaced(false))
        },
        ActionView::RemoveState => (FilesView { state: None, ..files }, ReplyView::Done),
        ActionView::Finish => (files, ReplyView::Done),
    }
}

fn copy_content(content: &Option<Vec<u8>>) -> (copy: Option<Vec<u8>>)
    ensures
        content_view(copy) == content_view(*content),
{
    match content {
        Some(bytes) => {
            let copy = bytes.clone();
            assert(copy@ =~= bytes@);
            Some(copy)
        },
        None => None,
    }
}

impl Files {
    /// Performs an operation.
    pub fn perform(self, action: Action) -> (done: (Files, Reply))
        ensures
            (done.0@, done.1@) == performed(self@, action@),
    {
        match action {
            Action::ReadClaim => {
                let content = copy_content(&self.claim);
                (self, Reply::Content(content))
            },
            Action::ReadState => {
                let content = copy_content(&self.state);
                (self, Reply::Content(content))
            },
            Action::ReadSettings => {
                let content = copy_content(&self.settings);
                (self, Reply::Content(content))
            },
            Action::WriteState(content) => (
                Files { claim: self.claim, state: Some(content), settings: self.settings },
                Reply::Done,
            ),
            Action::ReplaceSettings { expected, content } => {
                if same_content(&self.settings, &expected) {
                    let settings = Some(content);
                    (
                        Files { claim: self.claim, state: self.state, settings },
                        Reply::Replaced(true),
                    )
                } else {
                    (self, Reply::Replaced(false))
                }
            },
            Action::RemoveState => (
                Files { claim: self.claim, state: None, settings: self.settings },
                Reply::Done,
            ),
            Action::Finish => (self, Reply::Done),
        }
    }
}

/// What the rest of an activation leaves.
pub open spec fn activation_outcome(
    files: FilesView,
    phase: ActivationView,
    action: ActionView,
    owner: Seq<char>,
    path: Seq<char>,
) -> core::result::Result<FilesView, Failure>
    decreases activation_steps_left(phase),
{
    let (files, reply) = performed(files, action);
    if phase is Finished {
        Ok(files)
    } else {
        match activation_next(phase, owner, path, reply) {
            Err(failure) => Err(failure),
            Ok(next) => if 0 <= activation_steps_left(next.0) < activation_steps_left(phase) {
                activation_outcome(files, next.0, next.1, owner, path)
            } else {
                Ok(files)
            },
        }
    }
}

/// What the rest of a restoration leaves.
pub open spec fn restoration_outcome(
    files: FilesView,
    phase: RestorationView,
    action: ActionView,
    owner: Seq<char>,
    path: Seq<char>,
) -> core::result::Result<FilesView, Failure>
    decreases restoration_steps_left(phase),
{
    let (files, reply) = performed(files, action);
    if phase is Finished {
        Ok(files)
    } else {
        match restoration_next(phase, owner, path, reply) {
            Err(failure) => Err(failure),
            Ok(next) => if 0 <= restoration_steps_left(next.0) < restoration_steps_left(phase) {
                restoration_outcome(files, next.0, next.1, owner, path)
            } else {
                Ok(files)
            },
        }
    }
}

/// Whether a session ends as expected.
pub open spec fn is_outcome(
    expected: core::result::Result<FilesView, Failure>,
    result: Result<Files>,
) -> bool {
    match (expected, result) {
        (Ok(expected), Ok(files)) => files@ == expected,
        (Err(failure), Err(error)) => failure.is_reported_by(error),
        _ => false,
    }
}

impl FilesView {
    /// Whether the claim names the owner, and the settings can be read.
    pub open spec fn are_ready(self, owner: Seq<char>) -> bool {
        &&& claim_of(self.claim, owner) == Ok::<_, Seq<char>>(true)
        &&& source_of(self.settings) matches Ok(source) && theme_of(source) is Ok
    }

    /// The text of settings that can be read.
    pub open spec fn source(self) -> Seq<char> {
        source_of(self.settings)->Ok_0
    }

    /// The theme setting of settings that can be read.
    pub open spec fn theme(self) -> Option<JsonView> {
        theme_of(self.source())->Ok_0
    }

    /// Whether the settings can be read, have this theme, and keep the other settings.
    pub open spec fn has_theme_beside(
        self,
        theme: Option<JsonView>,
        other: Seq<char>,
    ) -> bool {
        &&& source_of(self.settings) is Ok
        &&& theme_of(self.source()) == Ok::<_, Seq<char>>(theme)
        &&& other_settings(self.source()) == other_settings(other)
    }
}

/// Whether the first activation selected the managed theme, kept the other settings and
/// the claim, and saved the theme that it found.
pub open spec fn is_activated(before: FilesView, after: FilesView) -> bool {
    let state = StateView { active: true, previous_theme: before.theme() };
    &&& after.claim == before.claim
    &&& after.state == Some(state.content())
    &&& is_read_back(state)
    &&& after.has_theme_beside(Some(managed_theme()), before.source())
}

/// Whether a restoration put back the theme that was saved, kept the other settings and
/// the claim, and removed the state. A theme that was chosen by hand stays.
pub open spec fn is_restored(before: FilesView, state: StateView, after: FilesView) -> bool {
    &&& after.claim == before.claim
    &&& after.state is None
    &&& if before.theme() == Some(managed_theme()) {
        is_kept_in(before.source(), state.previous_theme) ==> after.has_theme_beside(
            state.previous_theme,
            before.source(),
        )
    } else {
        after.settings == before.settings
    }
}

/// How far the first activation has come.
spec fn has_come(before: FilesView, files: FilesView, phase: ActivationView, action: ActionView) -> bool {
    let found = StateView { active: false, previous_theme: before.theme() };
    let active = StateView { active: true, previous_theme: before.theme() };
    let reading = ReadingView { original: before.settings, source: before.source() };
    match phase {
        ActivationView::Claim => files == before && action is ReadClaim,
        ActivationView::State => files == before && action is ReadState,
        ActivationView::Settings { state, is_first, attempt } => {
            &&& files == before && action is ReadSettings
            &&& is_first && attempt == 0
        },
        ActivationView::Snapshot { state, attempt, reading: read } => {
            &&& files == before && action == ActionView::WriteState(found.content())
            &&& state == found && attempt == 0 && read == reading
        },
        ActivationView::Confirm { state, attempt, reading: read } => {
            &&& files.claim == before.claim && files.settings == before.settings
            &&& action is ReadClaim
            &&& state == found && attempt == 0 && read == reading
        },
        ActivationView::Replace { state, attempt } => {
            &&& files.claim == before.claim && files.settings == before.settings
            &&& state == found && attempt == 0
            &&& takes_effect(before.source(), Some(managed_theme()))
            &&& action == (ActionView::ReplaceSettings {
                expected: before.settings,
                content: encode_utf8(theme_set(before.source(), Some(managed_theme()))->Ok_0),
            })
        },
        ActivationView::Settle { state } => {
            &&& files.claim == before.claim && action is ReadClaim
            &&& state == found
            &&& files.has_theme_beside(Some(managed_theme()), before.source())
        },
        ActivationView::Save => {
            &&& files.claim == before.claim
            &&& files.has_theme_beside(Some(managed_theme()), before.source())
            &&& is_read_back(active)
            &&& action == ActionView::WriteState(active.content())
        },
        ActivationView::Finished => is_activated(before, files) && action is Finish,
    }
}

/// How far a restoration has come.
spec fn has_returned(
    before: FilesView,
    saved: StateView,
    files: FilesView,
    phase: RestorationView,
    action: ActionView,
) -> bool {
    let reading = ReadingView { original: before.settings, source: before.source() };
    let kept = is_kept_in(before.source(), saved.previous_theme);
    let settled = FilesView { state: None, ..files };
    match phase {
        RestorationView::Claim => files == before && action is ReadClaim,
        RestorationView::State => files == before && action is ReadState,
        RestorationView::Ready { state } => {
            &&& files == before && action is ReadClaim
            &&& state == saved
        },
        RestorationView::Settings { state, attempt } => {
            &&& files == before && action is ReadSettings
            &&& state == saved && attempt == 0
        },
        RestorationView::Confirm { state, attempt, reading: read } => {
            &&& files == before && action is ReadClaim
            &&& state == saved && attempt == 0 && read == reading
            &&& before.theme() == Some(managed_theme())
        },
        RestorationView::Replace { state, attempt } => {
            &&& files == before && state == saved && attempt == 0
            &&& before.theme() == Some(managed_theme())
            &&& kept ==> takes_effect(before.source(), saved.previous_theme)
            &&& action == (ActionView::ReplaceSettings {
                expected: before.settings,
                content: encode_utf8(theme_set(before.source(), saved.previous_theme)->Ok_0),
            })
        },
        RestorationView::Settle { state, restored } => {
            &&& action is ReadClaim && state == saved
            &&& is_restored(before, saved, settled)
        },
        RestorationView::Save => action is RemoveState && is_restored(before, saved, settled),
        RestorationView::Finished => action is Finish && is_restored(before, saved, files),
    }
}

/// Setting a theme can fail only where reading one fails.
proof fn lemma_readable_settings_can_be_set(source: Seq<char>, theme: Option<JsonView>)
    requires
        theme_of(source) is Ok,
    ensures
        theme_set(source, theme) is Ok,
{
}

/// Text that is written as a file is read as the same text.
proof fn lemma_written_text(text: Seq<char>)
    ensures
        source_of(Some(encode_utf8(text))) == Ok::<_, Seq<char>>(text),
{
    encode_utf8_valid_utf8(text);
    encode_utf8_decode_utf8(text);
}

/// The operation that is asked for gives the kind of reply that is waited for.
proof fn lemma_activation_asks(
    phase: ActivationView,
    owner: Seq<char>,
    path: Seq<char>,
    reply: ReplyView,
    files: FilesView,
)
    requires
        phase.awaits(reply),
    ensures
        activation_next(phase, owner, path, reply) matches Ok(next) ==> (next.0 is Finished
            || next.0.awaits(performed(files, next.1).1)),
{
}

proof fn lemma_restoration_asks(
    phase: RestorationView,
    owner: Seq<char>,
    path: Seq<char>,
    reply: ReplyView,
    files: FilesView,
)
    requires
        phase.awaits(reply),
    ensures
        restoration_next(phase, owner, path, reply) matches Ok(next) ==> (next.0 is Finished
            || next.0.awaits(performed(files, next.1).1)),
{
}

/// Activates the managed theme for `owner`. The first activation always succeeds on
/// settings that can be read.
pub fn activate_files(files: Files, owner: &str, settings_path: &str) -> (result: Result<Files>)
    ensures
        owner@.len() == 0 ==> (result matches Err(error) && error.is_invalid(
            "activation owner cannot be empty"@,
        )),
        owner@.len() > 0 ==> is_outcome(
            activation_outcome(
                files@,
                ActivationView::Claim,
                ActionView::ReadClaim,
                owner@,
                settings_path@,
            ),
            result,
        ),
        owner@.len() > 0 && files@.are_ready(owner@) && files@.state is None ==> (result matches Ok(
            after,
        ) && is_activated(files@, after@)),
{
    let ghost before = files@;
    let ghost first = before.are_ready(owner@) && before.state is None;
    let (mut activation, mut action) = activate(owner, settings_path)?;
    let mut held = files;
    loop
        invariant
            owner@.len() > 0,
            before == files@,
            first == (before.are_ready(owner@) && before.state is None),
            activation.owner@ == owner@,
            activation.settings_path@ == settings_path@,
            activation.wf(),
            activation.phase@ is Finished || activation.phase@.awaits(
                performed(held@, action@).1,
            ),
            activation_outcome(held@, activation.phase@, action@, owner@, settings_path@)
                == activation_outcome(
                before,
                ActivationView::Claim,
                ActionView::ReadClaim,
                owner@,
                settings_path@,
            ),
            first ==> has_come(before, held@, activation.phase@, action@),
        decreases activation_steps_left(activation.phase@),
    {
        let ghost phase = activation.phase@;
        let (left, reply) = held.perform(action);
        if let ActivationPhase::Finished = activation.phase {
            return Ok(left);
        }
        proof {
            lemma_activation_ends(phase, owner@, settings_path@, reply@);
            lemma_activation_asks(phase, owner@, settings_path@, reply@, left@);
            if first {
                lemma_readable_settings_can_be_set(before.source(), Some(managed_theme()));
                lemma_written_text(theme_set(before.source(), Some(managed_theme()))->Ok_0);
            }
        }
        let (after, asks) = activation.next(reply)?;
        held = left;
        activation = after;
        action = asks;
    }
}

/// Puts back the theme that `owner` replaced.
pub fn restore_files(files: Files, owner: &str, settings_path: &str) -> (result: Result<Files>)
    ensures
        owner@.len() == 0 ==> (result matches Err(error) && error.is_invalid(
            "activation owner cannot be empty"@,
        )),
        owner@.len() > 0 ==> is_outcome(
            restoration_outcome(
                files@,
                RestorationView::Claim,
                ActionView::ReadClaim,
                owner@,
                settings_path@,
            ),
            result,
        ),
        owner@.len() > 0 && files@.are_ready(owner@) ==> (files@.state matches Some(content)
            ==> (saved_state(content) matches Ok(state) ==> (result matches Ok(after)
            && is_restored(files@, state, after@)))),
{
    let ghost before = files@;
    let ghost saved = saved_state(before.state->0)->Ok_0;
    let ghost ready = before.are_ready(owner@) && before.state is Some && saved_state(
        before.state->0,
    ) is Ok;
    let (mut restoration, mut action) = restore(owner, settings_path)?;
    let mut held = files;
    loop
        invariant
            owner@.len() > 0,
            before == files@,
            saved == saved_state(before.state->0)->Ok_0,
            ready == (before.are_ready(owner@) && before.state is Some && saved_state(
                before.state->0,
            ) is Ok),
            restoration.owner@ == owner@,
            restoration.settings_path@ == settings_path@,
            restoration.wf(),
            restoration.phase@ is Finished || restoration.phase@.awaits(
                performed(held@, action@).1,
            ),
            restoration_outcome(held@, restoration.phase@, action@, owner@, settings_path@)
                == restoration_outcome(
                before,
                RestorationView::Claim,
                ActionView::ReadClaim,
                owner@,
                settings_path@,
            ),
            ready ==> has_returned(before, saved, held@, restoration.phase@, action@),
        decreases restoration_steps_left(restoration.phase@),
    {
        let ghost phase = restoration.phase@;
        let (left, reply) = held.perform(action);
        if let RestorationPhase::Finished = restoration.phase {
            return Ok(left);
        }
        proof {
            lemma_restoration_ends(phase, owner@, settings_path@, reply@);
            lemma_restoration_asks(phase, owner@, settings_path@, reply@, left@);
            if ready {
                lemma_readable_settings_can_be_set(before.source(), saved.previous_theme);
            }
            lemma_written_text(theme_set(before.source(), saved.previous_theme)->Ok_0);
        }
        let (after, asks) = restoration.next(reply)?;
        held = left;
        restoration = after;
        action = asks;
    }
}

/// A restoration undoes an activation: the theme is what it was, absent or managed as it
/// may have been. Whatever else was changed in between stays changed, the claim stays,
/// and no state is left.
pub proof fn lemma_restoration_undoes_activation(
    before: FilesView,
    activated: FilesView,
    edited: FilesView,
    restored: FilesView,
)
    requires
        is_activated(before, activated),
        edited.claim == activated.claim,
        edited.state == activated.state,
        edited.theme() == Some(managed_theme()),
        (StateView { active: true, previous_theme: before.theme() }).is_kept(),
        is_kept_in(edited.source(), before.theme()),
        is_restored(edited, saved_state(edited.state->0)->Ok_0, restored),
    ensures
        theme_of(restored.source()) == Ok::<_, Seq<char>>(before.theme()),
        other_settings(restored.source()) == other_settings(edited.source()),
        edited.settings == activated.settings ==> other_settings(restored.source())
            == other_settings(before.source()),
        restored.claim == before.claim,
        restored.state is None,
{
}

} // verus!
