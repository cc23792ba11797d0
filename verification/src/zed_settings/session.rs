//! Activation and restoration as sequences of file operations.
//!
//! A session decides and says which file operation comes next; the caller performs
//! it and replies. The claim file names the service that may change the settings:
//! it is read again before every change.

use crate::json_value::{lemma_nests_within_more, JsonView, READ_DEPTH};
use crate::publish::content_view;
use crate::text::{same_text, trim, trimmed};
use crate::zed_settings::document::{
    current_theme, is_kept_in, managed_theme, set_theme, takes_effect, theme_of, theme_set,
    theme_view, ThemeValue,
};
use crate::zed_settings::outside::decode;
use crate::zed_settings::state::{
    parse_state, saved_state, state_content, ActivationState, StateView,
};
use crate::{Error, Result};
use vstd::prelude::*;
use vstd::utf8::{decode_utf8, encode_utf8, valid_utf8};

verus! {

/// How often a changed settings file is tried again.
pub const ATTEMPTS: u8 = 5;

/// The file operation that a session asks for.
#[derive(Debug)]
pub enum Action {
    ReadClaim,
    ReadState,
    ReadSettings,
    WriteState(Vec<u8>),
    /// Replace the settings if they still hold `expected`.
    ReplaceSettings { expected: Option<Vec<u8>>, content: Vec<u8> },
    RemoveState,
    Finish,
}

/// What a file operation gave.
#[derive(Debug)]
pub enum Reply {
    /// The content that was read, if the file exists.
    Content(Option<Vec<u8>>),
    /// The state was written or removed.
    Done,
    /// Whether the settings were replaced.
    Replaced(bool),
}

/// What an [`Action`] says.
pub enum ActionView {
    ReadClaim,
    ReadState,
    ReadSettings,
    WriteState(Seq<u8>),
    ReplaceSettings { expected: Option<Seq<u8>>, content: Seq<u8> },
    RemoveState,
    Finish,
}

impl View for Action {
    type V = ActionView;

    open spec fn view(&self) -> ActionView {
        match *self {
            Action::ReadClaim => ActionView::ReadClaim,
            Action::ReadState => ActionView::ReadState,
            Action::ReadSettings => ActionView::ReadSettings,
            Action::WriteState(content) => ActionView::WriteState(content@),
            Action::ReplaceSettings { expected, content } => ActionView::ReplaceSettings {
                expected: content_view(expected),
                content: content@,
            },
            Action::RemoveState => ActionView::RemoveState,
            Action::Finish => ActionView::Finish,
        }
    }
}

/// What a [`Reply`] says.
pub enum ReplyView {
    Content(Option<Seq<u8>>),
    Done,
    Replaced(bool),
}

impl View for Reply {
    type V = ReplyView;

    open spec fn view(&self) -> ReplyView {
        match *self {
            Reply::Content(content) => ReplyView::Content(content_view(content)),
            Reply::Done => ReplyView::Done,
            Reply::Replaced(replaced) => ReplyView::Replaced(replaced),
        }
    }
}

/// Why a session fails.
pub struct Failure {
    pub external: bool,
    pub message: Seq<char>,
}

impl Failure {
    pub open spec fn is_reported_by(self, error: Error) -> bool {
        if self.external {
            error.is_external(self.message)
        } else {
            error.is_invalid(self.message)
        }
    }
}

pub open spec fn invalid_content(message: Seq<char>) -> Failure {
    Failure { external: false, message }
}

pub open spec fn unstable_settings(path: Seq<char>) -> Failure {
    Failure { external: true, message: "Zed settings did not remain stable: "@ + path }
}

/// The text of the settings; settings that do not exist are an empty object.
pub open spec fn source_of(content: Option<Seq<u8>>) -> core::result::Result<Seq<char>, Seq<char>> {
    match content {
        None => Ok("{}\n"@),
        Some(bytes) => if valid_utf8(bytes) {
            Ok(decode_utf8(bytes))
        } else {
            Err("Zed settings are not valid UTF-8"@)
        },
    }
}

/// The text of the settings.
pub fn settings_source(content: Option<&Vec<u8>>) -> (result: Result<String>)
    ensures
        result is Ok <==> source_of(bytes_of(content)) is Ok,
        result matches Ok(source) ==> source_of(bytes_of(content)) == Ok::<_, Seq<char>>(source@),
        result matches Err(error) ==> error.is_invalid(source_of(bytes_of(content))->Err_0),
{
    match content {
        None => Ok("{}\n".to_owned()),
        Some(bytes) => match decode(bytes.as_slice()) {
            Some(source) => Ok(source),
            None => Err(Error::invalid("Zed settings are not valid UTF-8".to_owned())),
        },
    }
}

/// The bytes of a file, if it exists.
pub open spec fn bytes_of(content: Option<&Vec<u8>>) -> Option<Seq<u8>> {
    match content {
        Some(content) => Some(content@),
        None => None,
    }
}

/// Whether the claim file names the owner.
pub open spec fn claim_of(content: Option<Seq<u8>>, owner: Seq<char>) -> core::result::Result<
    bool,
    Seq<char>,
> {
    match content {
        None => Ok(false),
        Some(bytes) => if valid_utf8(bytes) {
            Ok(trimmed(decode_utf8(bytes)) == owner)
        } else {
            Err("activation claim is not valid UTF-8"@)
        },
    }
}

/// Whether the claim file names the owner.
pub fn claim_matches(content: Option<&Vec<u8>>, owner: &str) -> (result: Result<bool>)
    ensures
        result is Ok <==> claim_of(bytes_of(content), owner@) is Ok,
        result matches Ok(matches) ==> claim_of(bytes_of(content), owner@) == Ok::<_, Seq<char>>(
            matches,
        ),
        result matches Err(error) ==> error.is_invalid(claim_of(bytes_of(content), owner@)->Err_0),
{
    match content {
        None => Ok(false),
        Some(bytes) => match decode(bytes.as_slice()) {
            Some(claim) => Ok(same_text(trim(claim.as_str()).as_str(), owner)),
            None => Err(Error::invalid("activation claim is not valid UTF-8".to_owned())),
        },
    }
}

/// A reading of the settings.
#[derive(Debug)]
pub struct Reading {
    pub original: Option<Vec<u8>>,
    pub source: String,
}

/// What a [`Reading`] says.
pub struct ReadingView {
    pub original: Option<Seq<u8>>,
    pub source: Seq<char>,
}

impl View for Reading {
    type V = ReadingView;

    open spec fn view(&self) -> ReadingView {
        ReadingView { original: content_view(self.original), source: self.source@ }
    }
}

/// How far an activation is.
#[derive(Debug)]
pub enum ActivationPhase {
    /// The claim is being read for the first time.
    Claim,
    /// The saved state is being read.
    State,
    /// The settings are being read.
    Settings { state: ActivationState, is_first: bool, attempt: u8 },
    /// The state with the setting to restore is being saved.
    Snapshot { state: ActivationState, attempt: u8, reading: Reading },
    /// The claim is being read before the settings are changed.
    Confirm { state: ActivationState, attempt: u8, reading: Reading },
    /// The settings are being replaced.
    Replace { state: ActivationState, attempt: u8 },
    /// The claim is being read after the settings were changed.
    Settle { state: ActivationState },
    /// The state is being saved as active.
    Save,
    Finished,
}

/// What an [`ActivationPhase`] says.
pub enum ActivationView {
    Claim,
    State,
    Settings { state: StateView, is_first: bool, attempt: u8 },
    Snapshot { state: StateView, attempt: u8, reading: ReadingView },
    Confirm { state: StateView, attempt: u8, reading: ReadingView },
    Replace { state: StateView, attempt: u8 },
    Settle { state: StateView },
    Save,
    Finished,
}

impl View for ActivationPhase {
    type V = ActivationView;

    open spec fn view(&self) -> ActivationView {
        match *self {
            ActivationPhase::Claim => ActivationView::Claim,
            ActivationPhase::State => ActivationView::State,
            ActivationPhase::Settings { state, is_first, attempt } => ActivationView::Settings {
                state: state@,
                is_first,
                attempt,
            },
            ActivationPhase::Snapshot { state, attempt, reading } => ActivationView::Snapshot {
                state: state@,
                attempt,
                reading: reading@,
            },
            ActivationPhase::Confirm { state, attempt, reading } => ActivationView::Confirm {
                state: state@,
                attempt,
                reading: reading@,
            },
            ActivationPhase::Replace { state, attempt } => ActivationView::Replace {
                state: state@,
                attempt,
            },
            ActivationPhase::Settle { state } => ActivationView::Settle { state: state@ },
            ActivationPhase::Save => ActivationView::Save,
            ActivationPhase::Finished => ActivationView::Finished,
        }
    }
}

impl ActivationView {
    /// Whether the phase waits for this kind of reply.
    pub open spec fn awaits(self, reply: ReplyView) -> bool {
        match self {
            ActivationView::Snapshot { .. } | ActivationView::Save => reply is Done,
            ActivationView::Replace { .. } => reply is Replaced,
            ActivationView::Finished => false,
            _ => reply is Content,
        }
    }
}

/// The setting to restore after an activation that finds `current`: the first
/// reading is always remembered, later ones unless they are the managed theme.
pub open spec fn remembered(
    state: StateView,
    is_first: bool,
    current: Option<JsonView>,
) -> StateView {
    StateView {
        active: false,
        previous_theme: if is_first || current != Some(managed_theme()) {
            current
        } else {
            state.previous_theme
        },
    }
}

/// What comes after a reading of the settings: the state to restore is saved.
pub open spec fn after_settings(
    state: StateView,
    is_first: bool,
    attempt: u8,
    content: Option<Seq<u8>>,
) -> core::result::Result<(ActivationView, ActionView), Failure> {
    match source_of(content) {
        Err(message) => Err(invalid_content(message)),
        Ok(source) => match theme_of(source) {
            Err(message) => Err(invalid_content(message)),
            Ok(current) => {
                let next = remembered(state, is_first, current);
                Ok(
                    (
                        ActivationView::Snapshot {
                            state: next,
                            attempt,
                            reading: ReadingView { original: content, source },
                        },
                        ActionView::WriteState(next.content()),
                    ),
                )
            },
        },
    }
}

/// What comes after a claim that names the owner: the settings are replaced unless
/// they already select the managed theme.
pub open spec fn after_confirmation(
    state: StateView,
    attempt: u8,
    reading: ReadingView,
) -> core::result::Result<(ActivationView, ActionView), Failure> {
    match theme_set(reading.source, Some(managed_theme())) {
        Err(message) => Err(invalid_content(message)),
        Ok(updated) => if updated == reading.source {
            Ok((ActivationView::Settle { state }, ActionView::ReadClaim))
        } else {
            Ok(
                (
                    ActivationView::Replace { state, attempt },
                    ActionView::ReplaceSettings {
                        expected: reading.original,
                        content: encode_utf8(updated),
                    },
                ),
            )
        },
    }
}

/// What comes next in an activation.
pub open spec fn activation_next(
    phase: ActivationView,
    owner: Seq<char>,
    path: Seq<char>,
    reply: ReplyView,
) -> core::result::Result<(ActivationView, ActionView), Failure> {
    let finished = (ActivationView::Finished, ActionView::Finish);
    match (phase, reply) {
        (ActivationView::Claim, ReplyView::Content(content)) => match claim_of(content, owner) {
            Err(message) => Err(invalid_content(message)),
            Ok(matches) => if matches {
                Ok((ActivationView::State, ActionView::ReadState))
            } else {
                Ok(finished)
            },
        },
        (ActivationView::State, ReplyView::Content(None)) => Ok(
            (
                ActivationView::Settings {
                    state: StateView { active: false, previous_theme: None },
                    is_first: true,
                    attempt: 0,
                },
                ActionView::ReadSettings,
            ),
        ),
        (ActivationView::State, ReplyView::Content(Some(content))) => match saved_state(content) {
            Err(message) => Err(invalid_content(message)),
            Ok(state) => if state.active {
                Ok(finished)
            } else {
                Ok(
                    (
                        ActivationView::Settings { state, is_first: false, attempt: 0 },
                        ActionView::ReadSettings,
                    ),
                )
            },
        },
        (
            ActivationView::Settings { state, is_first, attempt },
            ReplyView::Content(content),
        ) => after_settings(state, is_first, attempt, content),
        (ActivationView::Snapshot { state, attempt, reading }, ReplyView::Done) => Ok(
            (ActivationView::Confirm { state, attempt, reading }, ActionView::ReadClaim),
        ),
        (
            ActivationView::Confirm { state, attempt, reading },
            ReplyView::Content(content),
        ) => match claim_of(content, owner) {
            Err(message) => Err(invalid_content(message)),
            Ok(matches) => if matches {
                after_confirmation(state, attempt, reading)
            } else {
                Ok(finished)
            },
        },
        (ActivationView::Replace { state, attempt }, ReplyView::Replaced(replaced)) => if replaced {
            Ok((ActivationView::Settle { state }, ActionView::ReadClaim))
        } else if attempt + 1 < ATTEMPTS {
            Ok(
                (
                    ActivationView::Settings {
                        state,
                        is_first: false,
                        attempt: (attempt + 1) as u8,
                    },
                    ActionView::ReadSettings,
                ),
            )
        } else {
            Err(unstable_settings(path))
        },
        (ActivationView::Settle { state }, ReplyView::Content(content)) => match claim_of(
            content,
            owner,
        ) {
            Err(message) => Err(invalid_content(message)),
            Ok(matches) => {
                let active = StateView { active: true, ..state };
                if !matches {
                    Ok(finished)
                } else {
                    Ok((ActivationView::Save, ActionView::WriteState(active.content())))
                }
            },
        },
        (ActivationView::Save, ReplyView::Done) => Ok(finished),
        _ => Ok(finished),
    }
}

/// Whether a state that was saved is read back.
pub open spec fn is_read_back(state: StateView) -> bool {
    state.is_kept() ==> saved_state(state.content()) == Ok::<_, Seq<char>>(state)
}

/// Whether a confirmed activation selects the managed theme and keeps the other settings
/// that were read, and what it saves is read back.
pub open spec fn selects_managed(before: ActivationView, after: ActivationView) -> bool {
    &&& before matches ActivationView::Confirm { reading, .. } ==> after is Finished
        || takes_effect(reading.source, Some(managed_theme()))
    &&& after matches ActivationView::Snapshot { state, .. } ==> is_read_back(state)
    &&& after is Save ==> (before matches ActivationView::Settle { state } && is_read_back(
        StateView { active: true, ..state },
    ))
}

/// An activation in progress.
#[derive(Debug)]
pub struct Activation {
    pub owner: String,
    /// How the settings file is named in an error.
    pub settings_path: String,
    pub phase: ActivationPhase,
}

/// The outcome of a step of an activation.
pub open spec fn is_activation_step(
    before: Activation,
    reply: ReplyView,
    result: Result<(Activation, Action)>,
) -> bool {
    match (
        activation_next(before.phase@, before.owner@, before.settings_path@, reply),
        result,
    ) {
        (Ok((phase, action)), Ok(after)) => {
            &&& after.0.owner@ == before.owner@
            &&& after.0.settings_path@ == before.settings_path@
            &&& after.0.phase@ == phase
            &&& after.1@ == action
        },
        (Err(failure), Err(error)) => failure.is_reported_by(error),
        _ => false,
    }
}

fn unstable(path: &str) -> (error: Error)
    ensures
        unstable_settings(path@).is_reported_by(error),
{
    let mut message = "Zed settings did not remain stable: ".to_owned();
    message.append(path);
    Error::external(message)
}

/// What one phase leads to.
type ActivationStep = Result<(ActivationPhase, Action)>;

pub open spec fn is_activation_outcome(
    expected: core::result::Result<(ActivationView, ActionView), Failure>,
    outcome: Result<(ActivationPhase, Action)>,
) -> bool {
    match (expected, outcome) {
        (Ok((phase, action)), Ok(after)) => after.0@ == phase && after.1@ == action,
        (Err(failure), Err(error)) => failure.is_reported_by(error),
        _ => false,
    }
}

fn finish_activation() -> (step: (ActivationPhase, Action))
    ensures
        step.0@ == ActivationView::Finished,
        step.1@ == ActionView::Finish,
{
    (ActivationPhase::Finished, Action::Finish)
}

fn remember(state: ActivationState, is_first: bool, current: Option<ThemeValue>) -> (next:
    ActivationState)
    ensures
        next@ == remembered(state@, is_first, theme_view(current)),
{
    let is_managed = match &current {
        Some(theme) => theme.is_managed(),
        None => false,
    };
    if is_first || !is_managed {
        ActivationState { active: false, previous_theme: current }
    } else {
        ActivationState { active: false, previous_theme: state.previous_theme }
    }
}

fn snapshot(state: ActivationState, is_first: bool, attempt: u8, content: Option<Vec<u8>>) -> (
outcome: ActivationStep)
    ensures
        is_activation_outcome(
            after_settings(state@, is_first, attempt, content_view(content)),
            outcome,
        ),
        outcome matches Ok(after) ==> (after.0@ matches ActivationView::Snapshot { state, .. }
            && is_read_back(state)),
{
    let source = settings_source(content.as_ref())?;
    let current = current_theme(source.as_str())?;
    let next = remember(state, is_first, current);
    let written = state_content(&next)?;
    let reading = Reading { original: content, source };
    Ok((ActivationPhase::Snapshot { state: next, attempt, reading }, Action::WriteState(written)))
}

fn confirm(state: ActivationState, attempt: u8, reading: Reading) -> (outcome: ActivationStep)
    ensures
        is_activation_outcome(after_confirmation(state@, attempt, reading@), outcome),
        outcome is Ok ==> takes_effect(reading@.source, Some(managed_theme())),
{
    proof {
        reveal_strlit("Omarchy");
        assert(managed_theme().has_no_backslash());
    }
    let managed = ThemeValue::managed();
    let updated = set_theme(reading.source.as_str(), Some(&managed))?;
    if same_text(updated.as_str(), reading.source.as_str()) {
        Ok((ActivationPhase::Settle { state }, Action::ReadClaim))
    } else {
        let content = updated.as_str().as_bytes_vec();
        Ok(
            (
                ActivationPhase::Replace { state, attempt },
                Action::ReplaceSettings { expected: reading.original, content },
            ),
        )
    }
}

fn activation_step(phase: ActivationPhase, owner: &str, path: &str, reply: Reply) -> (outcome:
    ActivationStep)
    requires
        phase@.awaits(reply@),
        phase@ matches ActivationView::Replace { attempt, .. } ==> attempt < ATTEMPTS,
    ensures
        is_activation_outcome(activation_next(phase@, owner@, path@, reply@), outcome),
        outcome matches Ok(after) ==> selects_managed(phase@, after.0@),
{
    match (phase, reply) {
        (ActivationPhase::Claim, Reply::Content(content)) => {
            if claim_matches(content.as_ref(), owner)? {
                Ok((ActivationPhase::State, Action::ReadState))
            } else {
                Ok(finish_activation())
            }
        },
        (ActivationPhase::State, Reply::Content(None)) => {
            let state = ActivationState { active: false, previous_theme: None };
            Ok(
                (
                    ActivationPhase::Settings { state, is_first: true, attempt: 0 },
                    Action::ReadSettings,
                ),
            )
        },
        (ActivationPhase::State, Reply::Content(Some(content))) => {
            let state = parse_state(content.as_slice())?;
            if state.active {
                Ok(finish_activation())
            } else {
                Ok(
                    (
                        ActivationPhase::Settings { state, is_first: false, attempt: 0 },
                        Action::ReadSettings,
                    ),
                )
            }
        },
        (
            ActivationPhase::Settings { state, is_first, attempt },
            Reply::Content(content),
        ) => snapshot(state, is_first, attempt, content),
        (ActivationPhase::Snapshot { state, attempt, reading }, Reply::Done) => Ok(
            (ActivationPhase::Confirm { state, attempt, reading }, Action::ReadClaim),
        ),
        (ActivationPhase::Confirm { state, attempt, reading }, Reply::Content(content)) => {
            if claim_matches(content.as_ref(), owner)? {
                confirm(state, attempt, reading)
            } else {
                Ok(finish_activation())
            }
        },
        (ActivationPhase::Replace { state, attempt }, Reply::Replaced(replaced)) => {
            if replaced {
                Ok((ActivationPhase::Settle { state }, Action::ReadClaim))
            } else if attempt + 1 < ATTEMPTS {
                Ok(
                    (
                        ActivationPhase::Settings { state, is_first: false, attempt: attempt + 1 },
                        Action::ReadSettings,
                    ),
                )
            } else {
                Err(unstable(path))
            }
        },
        (ActivationPhase::Settle { state }, Reply::Content(content)) => {
            if claim_matches(content.as_ref(), owner)? {
                let active = ActivationState { active: true, previous_theme: state.previous_theme };
                let written = state_content(&active)?;
                Ok((ActivationPhase::Save, Action::WriteState(written)))
            } else {
                Ok(finish_activation())
            }
        },
        _ => Ok(finish_activation()),
    }
}

impl Activation {
    /// Whether another attempt is left.
    pub open spec fn wf(&self) -> bool {
        match self.phase@ {
            ActivationView::Settings { attempt, .. } => attempt < ATTEMPTS,
            ActivationView::Snapshot { attempt, .. } => attempt < ATTEMPTS,
            ActivationView::Confirm { attempt, .. } => attempt < ATTEMPTS,
            ActivationView::Replace { attempt, .. } => attempt < ATTEMPTS,
            _ => true,
        }
    }

    /// Takes the reply to the operation that was asked for and asks for the next.
    pub fn next(self, reply: Reply) -> (result: Result<(Activation, Action)>)
        requires
            self.wf(),
            self.phase@.awaits(reply@),
        ensures
            is_activation_step(self, reply@, result),
            result matches Ok(after) ==> selects_managed(self.phase@, after.0.phase@),
            result matches Ok(after) ==> after.0.wf(),
    {
        let (phase, action) = activation_step(
            self.phase,
            self.owner.as_str(),
            self.settings_path.as_str(),
            reply,
        )?;
        Ok((Activation { owner: self.owner, settings_path: self.settings_path, phase }, action))
    }
}

/// How far a restoration is.
#[derive(Debug)]
pub enum RestorationPhase {
    /// The claim is being read for the first time.
    Claim,
    /// The saved state is being read.
    State,
    /// The claim is being read again.
    Ready { state: ActivationState },
    /// The settings are being read.
    Settings { state: ActivationState, attempt: u8 },
    /// The claim is being read before the settings are changed.
    Confirm { state: ActivationState, attempt: u8, reading: Reading },
    /// The settings are being replaced.
    Replace { state: ActivationState, attempt: u8 },
    /// The claim is being read before the state is forgotten.
    Settle { state: ActivationState, restored: bool },
    /// The state is being saved or removed.
    Save,
    Finished,
}

/// What a [`RestorationPhase`] says.
pub enum RestorationView {
    Claim,
    State,
    Ready { state: StateView },
    Settings { state: StateView, attempt: u8 },
    Confirm { state: StateView, attempt: u8, reading: ReadingView },
    Replace { state: StateView, attempt: u8 },
    Settle { state: StateView, restored: bool },
    Save,
    Finished,
}

impl View for RestorationPhase {
    type V = RestorationView;

    open spec fn view(&self) -> RestorationView {
        match *self {
            RestorationPhase::Claim => RestorationView::Claim,
            RestorationPhase::State => RestorationView::State,
            RestorationPhase::Ready { state } => RestorationView::Ready { state: state@ },
            RestorationPhase::Settings { state, attempt } => RestorationView::Settings {
                state: state@,
                attempt,
            },
            RestorationPhase::Confirm { state, attempt, reading } => RestorationView::Confirm {
                state: state@,
                attempt,
                reading: reading@,
            },
            RestorationPhase::Replace { state, attempt } => RestorationView::Replace {
                state: state@,
                attempt,
            },
            RestorationPhase::Settle { state, restored } => RestorationView::Settle {
                state: state@,
                restored,
            },
            RestorationPhase::Save => RestorationView::Save,
            RestorationPhase::Finished => RestorationView::Finished,
        }
    }
}

impl RestorationView {
    /// Whether the phase waits for this kind of reply.
    pub open spec fn awaits(self, reply: ReplyView) -> bool {
        match self {
            RestorationView::Save => reply is Done,
            RestorationView::Replace { .. } => reply is Replaced,
            RestorationView::Finished => false,
            _ => reply is Content,
        }
    }

    /// Whether the theme to put back nests no deeper than one that was read, and another
    /// attempt is left.
    pub open spec fn wf(self) -> bool {
        match self {
            RestorationView::Ready { state } => state.is_shallow(),
            RestorationView::Settings { state, attempt } => state.is_shallow() && attempt
                < ATTEMPTS,
            RestorationView::Confirm { state, attempt, .. } => state.is_shallow() && attempt
                < ATTEMPTS,
            RestorationView::Replace { state, attempt } => state.is_shallow() && attempt < ATTEMPTS,
            _ => true,
        }
    }
}

/// What comes after a reading of the settings: a theme that is not the managed one
/// is left alone.
pub open spec fn after_current(
    state: StateView,
    attempt: u8,
    content: Option<Seq<u8>>,
) -> core::result::Result<(RestorationView, ActionView), Failure> {
    match source_of(content) {
        Err(message) => Err(invalid_content(message)),
        Ok(source) => match theme_of(source) {
            Err(message) => Err(invalid_content(message)),
            Ok(current) => if current != Some(managed_theme()) {
                Ok((RestorationView::Settle { state, restored: false }, ActionView::ReadClaim))
            } else {
                Ok(
                    (
                        RestorationView::Confirm {
                            state,
                            attempt,
                            reading: ReadingView { original: content, source },
                        },
                        ActionView::ReadClaim,
                    ),
                )
            },
        },
    }
}

/// What comes after a claim that names the owner: the remembered setting is put
/// back.
pub open spec fn after_restoration_claim(
    state: StateView,
    attempt: u8,
    reading: ReadingView,
) -> core::result::Result<(RestorationView, ActionView), Failure> {
    match theme_set(reading.source, state.previous_theme) {
        Err(message) => Err(invalid_content(message)),
        Ok(updated) => if updated == reading.source {
            Ok((RestorationView::Settle { state, restored: true }, ActionView::ReadClaim))
        } else {
            Ok(
                (
                    RestorationView::Replace { state, attempt },
                    ActionView::ReplaceSettings {
                        expected: reading.original,
                        content: encode_utf8(updated),
                    },
                ),
            )
        },
    }
}

/// What comes next in a restoration.
pub open spec fn restoration_next(
    phase: RestorationView,
    owner: Seq<char>,
    path: Seq<char>,
    reply: ReplyView,
) -> core::result::Result<(RestorationView, ActionView), Failure> {
    let finished = (RestorationView::Finished, ActionView::Finish);
    match (phase, reply) {
        (RestorationView::Claim, ReplyView::Content(content)) => match claim_of(content, owner) {
            Err(message) => Err(invalid_content(message)),
            Ok(matches) => if matches {
                Ok((RestorationView::State, ActionView::ReadState))
            } else {
                Ok(finished)
            },
        },
        (RestorationView::State, ReplyView::Content(None)) => Ok(finished),
        (RestorationView::State, ReplyView::Content(Some(content))) => match saved_state(content) {
            Err(message) => Err(invalid_content(message)),
            Ok(state) => Ok((RestorationView::Ready { state }, ActionView::ReadClaim)),
        },
        (RestorationView::Ready { state }, ReplyView::Content(content)) => match claim_of(
            content,
            owner,
        ) {
            Err(message) => Err(invalid_content(message)),
            Ok(matches) => if matches {
                Ok((RestorationView::Settings { state, attempt: 0 }, ActionView::ReadSettings))
            } else {
                Ok(finished)
            },
        },
        (
            RestorationView::Settings { state, attempt },
            ReplyView::Content(content),
        ) => after_current(state, attempt, content),
        (
            RestorationView::Confirm { state, attempt, reading },
            ReplyView::Content(content),
        ) => match claim_of(content, owner) {
            Err(message) => Err(invalid_content(message)),
            Ok(matches) => if matches {
                after_restoration_claim(state, attempt, reading)
            } else {
                Ok(finished)
            },
        },
        (RestorationView::Replace { state, attempt }, ReplyView::Replaced(replaced)) => if replaced {
            Ok((RestorationView::Settle { state, restored: true }, ActionView::ReadClaim))
        } else if attempt + 1 < ATTEMPTS {
            Ok(
                (
                    RestorationView::Settings { state, attempt: (attempt + 1) as u8 },
                    ActionView::ReadSettings,
                ),
            )
        } else {
            Err(unstable_settings(path))
        },
        (RestorationView::Settle { state, restored }, ReplyView::Content(content)) => match claim_of(
            content,
            owner,
        ) {
            Err(message) => Err(invalid_content(message)),
            Ok(matches) => {
                let inactive = StateView { active: false, ..state };
                if matches {
                    Ok((RestorationView::Save, ActionView::RemoveState))
                } else if !restored {
                    Ok(finished)
                } else {
                    Ok((RestorationView::Save, ActionView::WriteState(inactive.content())))
                }
            },
        },
        _ => Ok(finished),
    }
}

/// Whether a confirmed restoration gives the settings the remembered theme again and keeps
/// the other settings that were read, where the theme is read as it was written.
pub open spec fn puts_back(before: RestorationView, after: RestorationView) -> bool {
    before matches RestorationView::Confirm { state, reading, .. } ==> after is Finished || (
    is_kept_in(reading.source, state.previous_theme) ==> takes_effect(
        reading.source,
        state.previous_theme,
    ))
}

/// A restoration in progress.
#[derive(Debug)]
pub struct Restoration {
    pub owner: String,
    /// How the settings file is named in an error.
    pub settings_path: String,
    pub phase: RestorationPhase,
}

/// The outcome of a step of a restoration.
pub open spec fn is_restoration_step(
    before: Restoration,
    reply: ReplyView,
    result: Result<(Restoration, Action)>,
) -> bool {
    match (
        restoration_next(before.phase@, before.owner@, before.settings_path@, reply),
        result,
    ) {
        (Ok((phase, action)), Ok(after)) => {
            &&& after.0.owner@ == before.owner@
            &&& after.0.settings_path@ == before.settings_path@
            &&& after.0.phase@ == phase
            &&& after.1@ == action
        },
        (Err(failure), Err(error)) => failure.is_reported_by(error),
        _ => false,
    }
}

/// What one phase leads to.
type RestorationStep = Result<(RestorationPhase, Action)>;

pub open spec fn is_restoration_outcome(
    expected: core::result::Result<(RestorationView, ActionView), Failure>,
    outcome: Result<(RestorationPhase, Action)>,
) -> bool {
    match (expected, outcome) {
        (Ok((phase, action)), Ok(after)) => after.0@ == phase && after.1@ == action,
        (Err(failure), Err(error)) => failure.is_reported_by(error),
        _ => false,
    }
}

fn finish_restoration() -> (step: (RestorationPhase, Action))
    ensures
        step.0@ == RestorationView::Finished,
        step.1@ == ActionView::Finish,
{
    (RestorationPhase::Finished, Action::Finish)
}

fn compare_current(state: ActivationState, attempt: u8, content: Option<Vec<u8>>) -> (outcome:
    RestorationStep)
    ensures
        is_restoration_outcome(after_current(state@, attempt, content_view(content)), outcome),
{
    let source = settings_source(content.as_ref())?;
    let is_managed = match current_theme(source.as_str())? {
        Some(theme) => theme.is_managed(),
        None => false,
    };
    if !is_managed {
        return Ok((RestorationPhase::Settle { state, restored: false }, Action::ReadClaim));
    }
    let reading = Reading { original: content, source };
    Ok((RestorationPhase::Confirm { state, attempt, reading }, Action::ReadClaim))
}

fn put_back(state: ActivationState, attempt: u8, reading: Reading) -> (outcome: RestorationStep)
    requires
        state@.is_shallow(),
    ensures
        is_restoration_outcome(after_restoration_claim(state@, attempt, reading@), outcome),
        outcome is Ok ==> (is_kept_in(reading@.source, state@.previous_theme) ==> takes_effect(
            reading@.source,
            state@.previous_theme,
        )),
{
    proof {
        if let Some(theme) = state@.previous_theme {
            lemma_nests_within_more(theme, (READ_DEPTH - 1) as nat, READ_DEPTH as nat);
        }
    }
    let updated = set_theme(reading.source.as_str(), state.previous_theme.as_ref())?;
    if same_text(updated.as_str(), reading.source.as_str()) {
        Ok((RestorationPhase::Settle { state, restored: true }, Action::ReadClaim))
    } else {
        let content = updated.as_str().as_bytes_vec();
        Ok(
            (
                RestorationPhase::Replace { state, attempt },
                Action::ReplaceSettings { expected: reading.original, content },
            ),
        )
    }
}

fn forget(state: ActivationState, restored: bool, matches: bool) -> (outcome: RestorationStep)
    ensures
        is_restoration_outcome(
            if matches {
                Ok((RestorationView::Save, ActionView::RemoveState))
            } else if !restored {
                Ok((RestorationView::Finished, ActionView::Finish))
            } else {
                Ok(
                    (
                        RestorationView::Save,
                        ActionView::WriteState((StateView { active: false, ..state@ }).content()),
                    ),
                )
            },
            outcome,
        ),
{
    if matches {
        Ok((RestorationPhase::Save, Action::RemoveState))
    } else if restored {
        let inactive = ActivationState { active: false, previous_theme: state.previous_theme };
        let written = state_content(&inactive)?;
        Ok((RestorationPhase::Save, Action::WriteState(written)))
    } else {
        Ok(finish_restoration())
    }
}

fn restoration_step(phase: RestorationPhase, owner: &str, path: &str, reply: Reply) -> (outcome:
    RestorationStep)
    requires
        phase@.awaits(reply@),
        phase@.wf(),
    ensures
        is_restoration_outcome(restoration_next(phase@, owner@, path@, reply@), outcome),
        outcome matches Ok(after) ==> puts_back(phase@, after.0@),
        outcome matches Ok(after) ==> after.0@.wf(),
{
    match (phase, reply) {
        (RestorationPhase::Claim, Reply::Content(content)) => {
            if claim_matches(content.as_ref(), owner)? {
                Ok((RestorationPhase::State, Action::ReadState))
            } else {
                Ok(finish_restoration())
            }
        },
        (RestorationPhase::State, Reply::Content(None)) => Ok(finish_restoration()),
        (RestorationPhase::State, Reply::Content(Some(content))) => {
            let state = parse_state(content.as_slice())?;
            Ok((RestorationPhase::Ready { state }, Action::ReadClaim))
        },
        (RestorationPhase::Ready { state }, Reply::Content(content)) => {
            if claim_matches(content.as_ref(), owner)? {
                Ok((RestorationPhase::Settings { state, attempt: 0 }, Action::ReadSettings))
            } else {
                Ok(finish_restoration())
            }
        },
        (
            RestorationPhase::Settings { state, attempt },
            Reply::Content(content),
        ) => compare_current(state, attempt, content),
        (RestorationPhase::Confirm { state, attempt, reading }, Reply::Content(content)) => {
            if claim_matches(content.as_ref(), owner)? {
                put_back(state, attempt, reading)
            } else {
                Ok(finish_restoration())
            }
        },
        (RestorationPhase::Replace { state, attempt }, Reply::Replaced(replaced)) => {
            if replaced {
                Ok((RestorationPhase::Settle { state, restored: true }, Action::ReadClaim))
            } else if attempt + 1 < ATTEMPTS {
                Ok(
                    (
                        RestorationPhase::Settings { state, attempt: attempt + 1 },
                        Action::ReadSettings,
                    ),
                )
            } else {
                Err(unstable(path))
            }
        },
        (RestorationPhase::Settle { state, restored }, Reply::Content(content)) => {
            let matches = claim_matches(content.as_ref(), owner)?;
            forget(state, restored, matches)
        },
        _ => Ok(finish_restoration()),
    }
}

impl Restoration {
    /// Whether the theme to put back nests no deeper than one that was read, and another
    /// attempt is left.
    pub open spec fn wf(&self) -> bool {
        self.phase@.wf()
    }

    /// Takes the reply to the operation that was asked for and asks for the next.
    pub fn next(self, reply: Reply) -> (result: Result<(Restoration, Action)>)
        requires
            self.wf(),
            self.phase@.awaits(reply@),
        ensures
            is_restoration_step(self, reply@, result),
            result matches Ok(after) ==> puts_back(self.phase@, after.0.phase@),
            result matches Ok(after) ==> after.0.wf(),
    {
        let (phase, action) = restoration_step(
            self.phase,
            self.owner.as_str(),
            self.settings_path.as_str(),
            reply,
        )?;
        Ok((Restoration { owner: self.owner, settings_path: self.settings_path, phase }, action))
    }
}

/// An activation changes the settings only right after the claim was read and named
/// its owner, and only to the settings it read, with the managed theme set; the
/// setting it replaces was saved before.
pub proof fn lemma_activation_changes_only_its_own(
    phase: ActivationView,
    owner: Seq<char>,
    path: Seq<char>,
    reply: ReplyView,
    expected: Option<Seq<u8>>,
    content: Seq<u8>,
)
    requires
        activation_next(phase, owner, path, reply) matches Ok(next) && next.1
            == (ActionView::ReplaceSettings { expected, content }),
    ensures
        reply matches ReplyView::Content(claim) && claim_of(claim, owner) == Ok::<_, Seq<char>>(
            true,
        ),
        phase matches ActivationView::Confirm { reading, .. } && reading.original == expected && (
        theme_set(reading.source, Some(managed_theme())) matches Ok(updated) && content
            == encode_utf8(updated)),
{
}

/// A service whose claim was taken over changes neither the settings nor the saved
/// state, unless it had already put the settings back: then it only marks the state
/// as inactive.
pub proof fn lemma_other_owner_is_left_alone(
    phase: RestorationView,
    owner: Seq<char>,
    path: Seq<char>,
    claim: Option<Seq<u8>>,
)
    requires
        phase is Claim || phase is Ready || phase is Confirm || phase is Settle,
        claim_of(claim, owner) == Ok::<_, Seq<char>>(false),
    ensures
        match restoration_next(phase, owner, path, ReplyView::Content(claim)) {
            Ok(next) => {
                ||| next.1 is Finish
                ||| phase matches RestorationView::Settle { state, restored } && restored && next.1
                    == ActionView::WriteState((StateView { active: false, ..state }).content())
            },
            Err(_) => false,
        },
{
}

/// A restoration changes the settings only while they select the managed theme:
/// a theme that was chosen by hand stays. What it puts back is the remembered
/// setting.
pub proof fn lemma_manual_theme_is_kept(
    state: StateView,
    attempt: u8,
    owner: Seq<char>,
    path: Seq<char>,
    content: Option<Seq<u8>>,
)
    ensures
        restoration_next(
            RestorationView::Settings { state, attempt },
            owner,
            path,
            ReplyView::Content(content),
        ) matches Ok(next) ==> {
            &&& next.1 is ReadClaim
            &&& next.0 is Confirm ==> {
                let source = source_of(content)->Ok_0;
                &&& theme_of(source) == Ok::<_, Seq<char>>(Some(managed_theme()))
                &&& next.0 == (RestorationView::Confirm {
                    state,
                    attempt,
                    reading: ReadingView { original: content, source },
                })
            }
            &&& !(next.0 is Confirm) ==> next.0 == (RestorationView::Settle {
                state,
                restored: false,
            })
        },
{
}

/// The first activation remembers the setting it finds, even the managed theme; a
/// later one keeps what is remembered while the managed theme is set.
pub proof fn lemma_snapshots(state: StateView, current: Option<JsonView>)
    ensures
        remembered(state, true, current).previous_theme == current,
        current != Some(managed_theme()) ==> remembered(state, false, current).previous_theme
            == current,
        current == Some(managed_theme()) ==> remembered(state, false, current).previous_theme
            == state.previous_theme,
        !remembered(state, false, current).active && !remembered(state, true, current).active,
{
}

/// How many steps an activation can still take.
pub open spec fn activation_steps_left(phase: ActivationView) -> int {
    match phase {
        ActivationView::Claim => 26,
        ActivationView::State => 25,
        ActivationView::Settings { attempt, .. } => 4 * (ATTEMPTS - attempt) + 4,
        ActivationView::Snapshot { attempt, .. } => 4 * (ATTEMPTS - attempt) + 3,
        ActivationView::Confirm { attempt, .. } => 4 * (ATTEMPTS - attempt) + 2,
        ActivationView::Replace { attempt, .. } => 4 * (ATTEMPTS - attempt) + 1,
        ActivationView::Settle { .. } => 2,
        ActivationView::Save => 1,
        ActivationView::Finished => 0,
    }
}

/// Every activation comes to an end: each reply brings it closer.
pub proof fn lemma_activation_ends(
    phase: ActivationView,
    owner: Seq<char>,
    path: Seq<char>,
    reply: ReplyView,
)
    requires
        phase.awaits(reply),
        phase matches ActivationView::Settings { attempt, .. } ==> attempt < ATTEMPTS,
        phase matches ActivationView::Snapshot { attempt, .. } ==> attempt < ATTEMPTS,
        phase matches ActivationView::Confirm { attempt, .. } ==> attempt < ATTEMPTS,
        phase matches ActivationView::Replace { attempt, .. } ==> attempt < ATTEMPTS,
    ensures
        activation_next(phase, owner, path, reply) matches Ok(next) ==> 0 <= activation_steps_left(
            next.0,
        ) < activation_steps_left(phase),
{
}

/// How many steps a restoration can still take.
pub open spec fn restoration_steps_left(phase: RestorationView) -> int {
    match phase {
        RestorationView::Claim => 22,
        RestorationView::State => 21,
        RestorationView::Ready { .. } => 20,
        RestorationView::Settings { attempt, .. } => 3 * (ATTEMPTS - attempt) + 3,
        RestorationView::Confirm { attempt, .. } => 3 * (ATTEMPTS - attempt) + 2,
        RestorationView::Replace { attempt, .. } => 3 * (ATTEMPTS - attempt) + 1,
        RestorationView::Settle { .. } => 2,
        RestorationView::Save => 1,
        RestorationView::Finished => 0,
    }
}

/// Every restoration comes to an end: each reply brings it closer.
pub proof fn lemma_restoration_ends(
    phase: RestorationView,
    owner: Seq<char>,
    path: Seq<char>,
    reply: ReplyView,
)
    requires
        phase.awaits(reply),
        phase matches RestorationView::Settings { attempt, .. } ==> attempt < ATTEMPTS,
        phase matches RestorationView::Confirm { attempt, .. } ==> attempt < ATTEMPTS,
        phase matches RestorationView::Replace { attempt, .. } ==> attempt < ATTEMPTS,
    ensures
        restoration_next(phase, owner, path, reply) matches Ok(next) ==> 0
            <= restoration_steps_left(next.0) < restoration_steps_left(phase),
{
}

} // verus!
