//! Publishes a theme only from a stable source palette.
//!
//! Files are replaced as a whole, never through a symbolic link and never with what
//! they already hold. A theme is published only if its palette was the same before
//! and after it was read and still is the same when the theme is done; it is not
//! built again while the palette and the published theme are the ones recorded.

pub mod laws;
pub mod write_laws;

use crate::color::is_hex_digit;
use crate::constants::CANONICAL_COLOR_KEYS;
use crate::palette::{
    canonical_keys, is_mode, lemma_valid_palette, text_values, Provenance, ResolvedPalette,
};
use crate::{Error, Result};
use vstd::prelude::*;
use vstd::utf8::{encode_utf8, is_ascii_chars, is_ascii_chars_encode_utf8};

verus! {

/// What identifies one state of a file.
#[derive(Clone, Copy, Debug, PartialEq, Eq, Structural)]
pub struct SourceIdentity {
    pub device: u64,
    pub inode: u64,
    pub size: u64,
    pub modified_seconds: i64,
    pub modified_nanoseconds: i64,
    pub changed_seconds: i64,
    pub changed_nanoseconds: i64,
}

/// What is at a path.
#[derive(Clone, Copy, Debug, PartialEq, Eq, Structural)]
pub enum TargetKind {
    Missing,
    Regular,
    Symlink,
    Other,
}

/// Why what is at a path must not be replaced.
pub open spec fn target_fault(kind: TargetKind, path: Seq<char>) -> Option<Seq<char>> {
    match kind {
        TargetKind::Symlink => Some("refusing to replace symlink target: "@ + path),
        TargetKind::Other => Some("refusing non-regular target: "@ + path),
        _ => None,
    }
}

/// Accepts a regular file or a path where nothing is.
pub fn replaceable_target(kind: TargetKind, path: &str) -> (result: Result<()>)
    ensures
        result is Ok <==> target_fault(kind, path@) is None,
        result matches Err(error) ==> error.is_external(target_fault(kind, path@)->0),
{
    match kind {
        TargetKind::Symlink => {
            let mut message = "refusing to replace symlink target: ".to_owned();
            message.append(path);
            Err(Error::external(message))
        },
        TargetKind::Other => {
            let mut message = "refusing non-regular target: ".to_owned();
            message.append(path);
            Err(Error::external(message))
        },
        _ => Ok(()),
    }
}

/// What a file must hold to be replaced.
#[derive(Debug)]
pub enum ExpectedContent {
    Any,
    Exact(Option<Vec<u8>>),
}

/// What an [`ExpectedContent`] says.
pub enum ExpectedView {
    Any,
    Exact(Option<Seq<u8>>),
}

/// The bytes of a file, if it exists.
pub open spec fn content_view(content: Option<Vec<u8>>) -> Option<Seq<u8>> {
    match content {
        Some(content) => Some(content@),
        None => None,
    }
}

impl View for ExpectedContent {
    type V = ExpectedView;

    open spec fn view(&self) -> ExpectedView {
        match *self {
            ExpectedContent::Any => ExpectedView::Any,
            ExpectedContent::Exact(content) => ExpectedView::Exact(content_view(content)),
        }
    }
}

impl ExpectedView {
    /// Whether a file with this content may be replaced.
    pub open spec fn admits(self, content: Option<Seq<u8>>) -> bool {
        self matches ExpectedView::Exact(expected) ==> content == expected
    }
}

/// Whether two byte strings are the same.
pub fn same_bytes(left: &Vec<u8>, right: &Vec<u8>) -> (same: bool)
    ensures
        same == (left@ == right@),
{
    if left.len() != right.len() {
        return false;
    }
    let mut index: usize = 0;
    while index < left.len()
        invariant
            left@.len() == right@.len(),
            index <= left@.len(),
            forall|i: int| 0 <= i < index ==> left@[i] == right@[i],
        decreases left@.len() - index,
    {
        if left[index] != right[index] {
            assert(left@[index as int] != right@[index as int]);
            return false;
        }
        index += 1;
    }
    assert(left@ =~= right@);
    true
}

pub(crate) fn same_content(left: &Option<Vec<u8>>, right: &Option<Vec<u8>>) -> (same: bool)
    ensures
        same == (content_view(*left) == content_view(*right)),
{
    match (left, right) {
        (Some(left), Some(right)) => same_bytes(left, right),
        (None, None) => true,
        _ => false,
    }
}

fn is_admitted(expected: &ExpectedContent, content: &Option<Vec<u8>>) -> (admitted: bool)
    ensures
        admitted == expected@.admits(content_view(*content)),
{
    match expected {
        ExpectedContent::Any => true,
        ExpectedContent::Exact(expected) => same_content(content, expected),
    }
}

/// The file operation that a write asks for.
#[derive(Clone, Copy, Debug, PartialEq, Eq, Structural)]
pub enum WriteAction {
    /// Find out what is at the target.
    Inspect,
    /// Read the target without following a link.
    Read,
    /// Write the new content to a new file beside the target.
    WriteTemporary,
    /// Put the new file in the place of the target.
    Rename,
    /// Give up the new file.
    Discard,
    /// The target was replaced, was already what it should be, or has changed.
    Finish(WriteOutcome),
}

#[derive(Clone, Copy, Debug, PartialEq, Eq, Structural)]
pub enum WriteOutcome {
    Replaced,
    Unchanged,
    Stale,
}

/// What a file operation gave.
#[derive(Debug)]
pub enum WriteReply {
    Kind(TargetKind),
    Content(Option<Vec<u8>>),
    Done,
}

/// What a [`WriteReply`] says.
pub enum WriteReplyView {
    Kind(TargetKind),
    Content(Option<Seq<u8>>),
    Done,
}

impl View for WriteReply {
    type V = WriteReplyView;

    open spec fn view(&self) -> WriteReplyView {
        match *self {
            WriteReply::Kind(kind) => WriteReplyView::Kind(kind),
            WriteReply::Content(content) => WriteReplyView::Content(content_view(content)),
            WriteReply::Done => WriteReplyView::Done,
        }
    }
}

/// How far a write is.
#[derive(Clone, Copy, Debug, PartialEq, Eq, Structural)]
pub enum WritePhase {
    Inspect,
    Compare,
    Prepare,
    InspectAgain,
    CompareAgain,
    Rename,
    Discard,
    Finished,
}

impl WritePhase {
    /// Whether the phase waits for this kind of reply.
    pub open spec fn awaits(self, reply: WriteReplyView) -> bool {
        match self {
            WritePhase::Inspect | WritePhase::InspectAgain => reply is Kind,
            WritePhase::Compare | WritePhase::CompareAgain => reply is Content,
            WritePhase::Finished => false,
            _ => reply is Done,
        }
    }

    /// How many steps are left at most.
    pub open spec fn steps_left(self) -> int {
        match self {
            WritePhase::Inspect => 7,
            WritePhase::Compare => 6,
            WritePhase::Prepare => 5,
            WritePhase::InspectAgain => 4,
            WritePhase::CompareAgain => 3,
            WritePhase::Rename => 2,
            WritePhase::Discard => 1,
            WritePhase::Finished => 0,
        }
    }
}

/// A file being replaced.
#[derive(Debug)]
pub struct FileWrite {
    /// How the file is named in an error.
    pub target: String,
    pub content: Vec<u8>,
    pub expected: ExpectedContent,
    pub phase: WritePhase,
}

/// What comes next in a write.
pub open spec fn write_next(
    phase: WritePhase,
    target: Seq<char>,
    content: Seq<u8>,
    expected: ExpectedView,
    reply: WriteReplyView,
) -> core::result::Result<(WritePhase, WriteAction), Seq<char>> {
    match (phase, reply) {
        (WritePhase::Inspect, WriteReplyView::Kind(kind)) => match target_fault(kind, target) {
            Some(message) => Err(message),
            None => Ok((WritePhase::Compare, WriteAction::Read)),
        },
        (WritePhase::Compare, WriteReplyView::Content(current)) => if !expected.admits(current) {
            Ok((WritePhase::Finished, WriteAction::Finish(WriteOutcome::Stale)))
        } else if current == Some(content) {
            Ok((WritePhase::Finished, WriteAction::Finish(WriteOutcome::Unchanged)))
        } else {
            Ok((WritePhase::Prepare, WriteAction::WriteTemporary))
        },
        (WritePhase::Prepare, WriteReplyView::Done) => Ok(
            (WritePhase::InspectAgain, WriteAction::Inspect),
        ),
        (WritePhase::InspectAgain, WriteReplyView::Kind(kind)) => match target_fault(kind, target) {
            Some(message) => Err(message),
            None => if expected is Any {
                Ok((WritePhase::Rename, WriteAction::Rename))
            } else {
                Ok((WritePhase::CompareAgain, WriteAction::Read))
            },
        },
        (WritePhase::CompareAgain, WriteReplyView::Content(current)) => if expected.admits(
            current,
        ) {
            Ok((WritePhase::Rename, WriteAction::Rename))
        } else {
            Ok((WritePhase::Discard, WriteAction::Discard))
        },
        (WritePhase::Rename, WriteReplyView::Done) => Ok(
            (WritePhase::Finished, WriteAction::Finish(WriteOutcome::Replaced)),
        ),
        _ => Ok((WritePhase::Finished, WriteAction::Finish(WriteOutcome::Stale))),
    }
}

impl FileWrite {
    /// The content of the target is read again only if it matters.
    pub open spec fn wf(&self) -> bool {
        self.phase == WritePhase::CompareAgain ==> self.expected@ is Exact
    }

    /// Whether the same file is being written with the same content.
    pub open spec fn continues(self, before: Self) -> bool {
        &&& self.target@ == before.target@
        &&& self.content@ == before.content@
        &&& self.expected@ == before.expected@
    }

    /// Takes the reply to the operation that was asked for and asks for the next.
    /// After an error the caller gives up the new file.
    pub fn next(self, reply: WriteReply) -> (result: Result<(FileWrite, WriteAction)>)
        requires
            self.wf(),
            self.phase.awaits(reply@),
        ensures
            result matches Ok(after) ==> after.0.wf(),
            match (
                write_next(self.phase, self.target@, self.content@, self.expected@, reply@),
                result,
            ) {
                (Ok((phase, action)), Ok(after)) => after.0.continues(self) && after.0.phase
                    == phase && after.1 == action,
                (Err(message), Err(error)) => error.is_external(message),
                _ => false,
            },
    {
        let (phase, action) = match (self.phase, reply) {
            (WritePhase::Inspect, WriteReply::Kind(kind)) => {
                replaceable_target(kind, self.target.as_str())?;
                (WritePhase::Compare, WriteAction::Read)
            },
            (WritePhase::Compare, WriteReply::Content(current)) => {
                let is_current = match &current {
                    Some(current) => same_bytes(current, &self.content),
                    None => false,
                };
                if !is_admitted(&self.expected, &current) {
                    (WritePhase::Finished, WriteAction::Finish(WriteOutcome::Stale))
                } else if is_current {
                    (WritePhase::Finished, WriteAction::Finish(WriteOutcome::Unchanged))
                } else {
                    (WritePhase::Prepare, WriteAction::WriteTemporary)
                }
            },
            (WritePhase::Prepare, WriteReply::Done) => {
                (WritePhase::InspectAgain, WriteAction::Inspect)
            },
            (WritePhase::InspectAgain, WriteReply::Kind(kind)) => {
                replaceable_target(kind, self.target.as_str())?;
                match self.expected {
                    ExpectedContent::Any => (WritePhase::Rename, WriteAction::Rename),
                    ExpectedContent::Exact(_) => (WritePhase::CompareAgain, WriteAction::Read),
                }
            },
            (WritePhase::CompareAgain, WriteReply::Content(current)) => {
                if is_admitted(&self.expected, &current) {
                    (WritePhase::Rename, WriteAction::Rename)
                } else {
                    (WritePhase::Discard, WriteAction::Discard)
                }
            },
            (WritePhase::Rename, WriteReply::Done) => {
                (WritePhase::Finished, WriteAction::Finish(WriteOutcome::Replaced))
            },
            _ => (WritePhase::Finished, WriteAction::Finish(WriteOutcome::Stale)),
        };
        Ok(
            (
                FileWrite {
                    target: self.target,
                    content: self.content,
                    expected: self.expected,
                    phase,
                },
                action,
            ),
        )
    }
}

/// Starts to replace a file whatever it holds.
pub fn atomic_write_file(target: &str, content: Vec<u8>) -> (start: (FileWrite, WriteAction))
    ensures
        start.0.target@ == target@,
        start.0.content@ == content@,
        start.0.expected@ == ExpectedView::Any,
        start.0.phase == WritePhase::Inspect,
        start.0.wf(),
        start.1 == WriteAction::Inspect,
{
    let write = FileWrite {
        target: target.to_owned(),
        content,
        expected: ExpectedContent::Any,
        phase: WritePhase::Inspect,
    };
    (write, WriteAction::Inspect)
}

/// Starts to replace a file only if it holds `expected`.
pub fn atomic_write_file_if_unchanged(
    target: &str,
    expected: Option<Vec<u8>>,
    content: Vec<u8>,
) -> (start: (FileWrite, WriteAction))
    ensures
        start.0.target@ == target@,
        start.0.content@ == content@,
        start.0.expected@ == ExpectedView::Exact(content_view(expected)),
        start.0.phase == WritePhase::Inspect,
        start.0.wf(),
        start.1 == WriteAction::Inspect,
{
    let write = FileWrite {
        target: target.to_owned(),
        content,
        expected: ExpectedContent::Exact(expected),
        phase: WritePhase::Inspect,
    };
    (write, WriteAction::Inspect)
}

/// A file takes the place of the target only right after the target was found to be
/// no link and no special file and, if its content matters, to hold what it should.
pub proof fn lemma_rename_is_guarded(
    phase: WritePhase,
    target: Seq<char>,
    content: Seq<u8>,
    expected: ExpectedView,
    reply: WriteReplyView,
)
    requires
        phase == WritePhase::CompareAgain ==> expected is Exact,
        write_next(phase, target, content, expected, reply) matches Ok(next) && next.1
            == WriteAction::Rename,
    ensures
        expected is Any ==> phase == WritePhase::InspectAgain && (reply matches WriteReplyView::Kind(
            kind,
        ) && target_fault(kind, target) is None),
        expected matches ExpectedView::Exact(held) ==> phase == WritePhase::CompareAgain && reply
            == WriteReplyView::Content(held),
{
}

/// Content that is already in place is not written, and a file that changed is not
/// overwritten.
pub proof fn lemma_no_needless_write(
    target: Seq<char>,
    content: Seq<u8>,
    expected: ExpectedView,
    current: Option<Seq<u8>>,
)
    ensures
        expected.admits(current) && current == Some(content) ==> write_next(
            WritePhase::Compare,
            target,
            content,
            expected,
            WriteReplyView::Content(current),
        ) == Ok::<_, Seq<char>>(
            (WritePhase::Finished, WriteAction::Finish(WriteOutcome::Unchanged)),
        ),
        !expected.admits(current) ==> write_next(
            WritePhase::Compare,
            target,
            content,
            expected,
            WriteReplyView::Content(current),
        ) == Ok::<_, Seq<char>>(
            (WritePhase::Finished, WriteAction::Finish(WriteOutcome::Stale)),
        ),
{
}

/// A write that discards its new file reports that the target has changed.
pub proof fn lemma_discard_is_stale(
    target: Seq<char>,
    content: Seq<u8>,
    expected: ExpectedView,
)
    ensures
        write_next(WritePhase::Discard, target, content, expected, WriteReplyView::Done) == Ok::<
            _,
            Seq<char>,
        >((WritePhase::Finished, WriteAction::Finish(WriteOutcome::Stale))),
{
}

/// Every write comes to an end: each reply brings it closer.
pub proof fn lemma_write_ends(
    phase: WritePhase,
    target: Seq<char>,
    content: Seq<u8>,
    expected: ExpectedView,
    reply: WriteReplyView,
)
    requires
        phase.awaits(reply),
    ensures
        write_next(phase, target, content, expected, reply) matches Ok(next) ==> 0
            <= next.0.steps_left() < phase.steps_left(),
{
}

/// The mark of a provenance in a palette's key.
pub open spec fn provenance_mark(provenance: Provenance) -> char {
    match provenance {
        Provenance::Direct => 'd',
        Provenance::Alias => 'a',
        Provenance::Derived => 'v',
    }
}

/// How one color of a palette enters its key.
pub open spec fn key_entry(
    colors: Map<Seq<char>, Seq<char>>,
    provenance: Map<Seq<char>, Provenance>,
    key: Seq<char>,
) -> Seq<char> {
    let color = if colors.contains_key(key) {
        colors[key]
    } else {
        Seq::empty()
    };
    let mark = if provenance.contains_key(key) {
        seq![provenance_mark(provenance[key])]
    } else {
        Seq::empty()
    };
    color + mark + seq!['\n']
}

/// How the first `count` canonical colors enter the key.
pub open spec fn key_entries(
    colors: Map<Seq<char>, Seq<char>>,
    provenance: Map<Seq<char>, Provenance>,
    count: int,
) -> Seq<char>
    decreases count,
{
    if count <= 0 {
        Seq::empty()
    } else {
        key_entries(colors, provenance, count - 1) + key_entry(
            colors,
            provenance,
            canonical_keys()[count - 1],
        )
    }
}

impl ResolvedPalette {
    /// The text that identifies what a theme is built from: the mode and every
    /// canonical color with its provenance.
    pub open spec fn key(&self) -> Seq<char> {
        self.mode@ + seq!['\n'] + key_entries(
            text_values(self.colors@),
            self.provenance@,
            canonical_keys().len() as int,
        )
    }
}

/// The text that identifies what a theme is built from.
pub fn palette_key(palette: &ResolvedPalette) -> (key: String)
    ensures
        key@ == palette.key(),
{
    let mut key = palette.mode.clone();
    key.push('\n');
    let ghost head = key@;
    let mut index: usize = 0;
    while index < CANONICAL_COLOR_KEYS.len()
        invariant
            index <= CANONICAL_COLOR_KEYS@.len(),
            key@ == head + key_entries(
                text_values(palette.colors@),
                palette.provenance@,
                index as int,
            ),
        decreases CANONICAL_COLOR_KEYS@.len() - index,
    {
        let name = CANONICAL_COLOR_KEYS[index];
        let ghost before = key@;
        if let Some(color) = palette.colors.get(name) {
            key.append(color.as_str());
        }
        if let Some(provenance) = palette.provenance.get(name) {
            let mark = match provenance {
                Provenance::Direct => 'd',
                Provenance::Alias => 'a',
                Provenance::Derived => 'v',
            };
            key.push(mark);
        }
        key.push('\n');
        assert(key@ =~= before + key_entry(
            text_values(palette.colors@),
            palette.provenance@,
            canonical_keys()[index as int],
        ));
        index += 1;
        assert(key@ =~= head + key_entries(
            text_values(palette.colors@),
            palette.provenance@,
            index as int,
        ));
    }
    assert(key@ =~= palette.key());
    key
}

/// What is recorded beside a published theme: what it was built from and itself.
pub open spec fn cache_record_of(key: Seq<char>, theme: Seq<u8>) -> Seq<u8> {
    encode_utf8(key) + theme
}

/// What is recorded beside a published theme.
pub fn cache_record(key: &str, theme: &Vec<u8>) -> (record: Vec<u8>)
    ensures
        record@ == cache_record_of(key@, theme@),
{
    let mut record = key.as_bytes_vec();
    let mut index: usize = 0;
    while index < theme.len()
        invariant
            index <= theme@.len(),
            record@ == encode_utf8(key@) + theme@.take(index as int),
        decreases theme@.len() - index,
    {
        record.push(theme[index]);
        index += 1;
        assert(record@ =~= encode_utf8(key@) + theme@.take(index as int));
    }
    assert(theme@.take(index as int) =~= theme@);
    record
}

/// Whether the published theme is the one recorded for the key.
pub open spec fn is_cached_view(
    record: Option<Seq<u8>>,
    key: Seq<char>,
    target: Option<Seq<u8>>,
) -> bool {
    target matches Some(theme) && record == Some(cache_record_of(key, theme))
}

/// Whether the published theme is the one recorded for the key.
pub fn is_cached(record: &Option<Vec<u8>>, key: &str, target: &Option<Vec<u8>>) -> (cached: bool)
    ensures
        cached == is_cached_view(content_view(*record), key@, content_view(*target)),
{
    match (record, target) {
        (Some(record), Some(theme)) => same_bytes(record, &cache_record(key, theme)),
        _ => false,
    }
}

/// A valid palette's entry is the color, the mark and a line break.
proof fn lemma_key_entry(palette: ResolvedPalette, index: int)
    requires
        palette.fault() is None,
        0 <= index < canonical_keys().len(),
    ensures
        ({
            let key = canonical_keys()[index];
            let entry = key_entry(text_values(palette.colors@), palette.provenance@, key);
            &&& entry.len() == 9
            &&& entry.take(7) == text_values(palette.colors@)[key]
            &&& entry[7] == provenance_mark(palette.provenance@[key])
            &&& is_ascii_chars(entry)
        }),
{
    lemma_valid_palette(palette, index);
    let key = canonical_keys()[index];
    let color = text_values(palette.colors@)[key];
    let entry = key_entry(text_values(palette.colors@), palette.provenance@, key);
    assert(entry.take(7) =~= color);
    assert forall|i: int| 0 <= i < entry.len() implies (entry[i] as nat) < 128 by {
        if 1 <= i < 7 {
            assert(is_hex_digit(color[i]));
            assert(entry[i] == color[i]);
        }
    }
}

/// The entries of a valid palette have a fixed length and are ASCII.
proof fn lemma_key_entries(palette: ResolvedPalette, count: int)
    requires
        palette.fault() is None,
        0 <= count <= canonical_keys().len(),
    ensures
        key_entries(text_values(palette.colors@), palette.provenance@, count).len() == 9 * count,
        is_ascii_chars(key_entries(text_values(palette.colors@), palette.provenance@, count)),
    decreases count,
{
    if count > 0 {
        lemma_key_entries(palette, count - 1);
        lemma_key_entry(palette, count - 1);
    }
}

/// Palettes whose entries are the same have the same colors with the same
/// provenance.
proof fn lemma_same_entries(first: ResolvedPalette, second: ResolvedPalette, count: int, index: int)
    requires
        first.fault() is None,
        second.fault() is None,
        0 <= index < count <= canonical_keys().len(),
        key_entries(text_values(first.colors@), first.provenance@, count) == key_entries(
            text_values(second.colors@),
            second.provenance@,
            count,
        ),
    ensures
        text_values(first.colors@)[canonical_keys()[index]] == text_values(
            second.colors@,
        )[canonical_keys()[index]],
        first.provenance@[canonical_keys()[index]] == second.provenance@[canonical_keys()[index]],
    decreases count,
{
    let one = key_entries(text_values(first.colors@), first.provenance@, count);
    let other = key_entries(text_values(second.colors@), second.provenance@, count);
    let last = canonical_keys()[count - 1];
    lemma_key_entries(first, count - 1);
    lemma_key_entries(second, count - 1);
    lemma_key_entry(first, count - 1);
    lemma_key_entry(second, count - 1);
    let cut = 9 * (count - 1);
    assert(key_entries(text_values(first.colors@), first.provenance@, count - 1) =~= one.take(cut));
    assert(key_entries(text_values(second.colors@), second.provenance@, count - 1) =~= other.take(
        cut,
    ));
    assert(key_entry(text_values(first.colors@), first.provenance@, last) =~= one.skip(cut));
    assert(key_entry(text_values(second.colors@), second.provenance@, last) =~= other.skip(cut));
    if index < count - 1 {
        lemma_same_entries(first, second, count - 1, index);
    }
}

/// A record is accepted only for the palette and the theme it was made of: the same
/// mode, the same canonical colors with the same provenance, the same bytes.
pub proof fn lemma_cache_tells_inputs_apart(
    first: ResolvedPalette,
    theme: Seq<u8>,
    second: ResolvedPalette,
    target: Option<Seq<u8>>,
    index: int,
)
    requires
        first.fault() is None,
        second.fault() is None,
        is_cached_view(Some(cache_record_of(first.key(), theme)), second.key(), target),
        0 <= index < canonical_keys().len(),
    ensures
        target == Some(theme),
        first.mode@ == second.mode@,
        text_values(first.colors@)[canonical_keys()[index]] == text_values(
            second.colors@,
        )[canonical_keys()[index]],
        first.provenance@[canonical_keys()[index]] == second.provenance@[canonical_keys()[index]],
{
    let count = canonical_keys().len() as int;
    let held = target->0;
    lemma_valid_palette(first, index);
    lemma_valid_palette(second, index);
    lemma_key_entries(first, count);
    lemma_key_entries(second, count);
    reveal_strlit("dark");
    reveal_strlit("light");
    let one = first.key();
    let other = second.key();
    let entries = key_entries(text_values(first.colors@), first.provenance@, count);
    let others = key_entries(text_values(second.colors@), second.provenance@, count);
    lemma_ascii_head(first.mode@, entries);
    lemma_ascii_head(second.mode@, others);
    is_ascii_chars_encode_utf8(one);
    is_ascii_chars_encode_utf8(other);
    let record = cache_record_of(one, theme);
    let expected = cache_record_of(other, held);
    assert(record == expected);
    assert(record[0] == encode_utf8(one)[0] && expected[0] == encode_utf8(other)[0]);
    assert(one[0] == first.mode@[0] && other[0] == second.mode@[0]);
    assert(first.mode@ == second.mode@);
    let length = one.len() as int;
    assert(other.len() == length);
    assert(record.skip(length) =~= theme);
    assert(expected.skip(length) =~= held);
    assert forall|i: int| 0 <= i < length implies one[i] == other[i] by {
        assert(record[i] == encode_utf8(one)[i]);
        assert(expected[i] == encode_utf8(other)[i]);
    }
    assert(one =~= other);
    let head = first.mode@.len() + 1;
    assert(entries =~= one.skip(head as int));
    assert(others =~= other.skip(head as int));
    lemma_same_entries(first, second, count, index);
}

/// A mode, a line break and ASCII entries are ASCII.
proof fn lemma_ascii_head(mode: Seq<char>, entries: Seq<char>)
    requires
        is_mode(mode),
        is_ascii_chars(entries),
    ensures
        is_ascii_chars(mode + seq!['\n'] + entries),
{
    reveal_strlit("dark");
    reveal_strlit("light");
    let whole = mode + seq!['\n'] + entries;
    assert forall|i: int| 0 <= i < whole.len() implies (whole[i] as nat) < 128 by {
        if i < mode.len() {
            assert(whole[i] == mode[i]);
        } else if i > mode.len() {
            assert(whole[i] == entries[i - mode.len() - 1]);
        }
    }
}

/// How often a palette that changes while it is read is tried again.
pub const ATTEMPTS: u8 = 5;

/// What a generation did.
#[derive(Clone, Debug)]
pub struct ThemeUpdate {
    pub target: String,
    /// Whether the published theme was replaced.
    pub changed: bool,
    /// Whether the published theme was the one recorded.
    pub cached: bool,
}

/// What a generation asks for.
#[derive(Debug)]
pub enum GenerationAction {
    /// Find out the identity of the palette file.
    InspectSource,
    ResolvePalette,
    /// Read the record beside the published theme; an unreadable one is none.
    ReadRecord,
    ReadTarget,
    BuildTheme,
    WriteTarget(Vec<u8>),
    /// Keep a record beside the published theme, if that is possible.
    WriteRecord(Vec<u8>),
    Finish(ThemeUpdate),
}

/// What a request gave.
#[derive(Debug)]
pub enum GenerationReply {
    Identity(SourceIdentity),
    /// The key of the palette that was resolved.
    Palette(String),
    Content(Option<Vec<u8>>),
    /// The theme that was built.
    Theme(Vec<u8>),
    /// Whether the published theme was replaced.
    Written(bool),
    Done,
}

/// What a [`GenerationAction`] says.
pub enum GenerationActionView {
    InspectSource,
    ResolvePalette,
    ReadRecord,
    ReadTarget,
    BuildTheme,
    WriteTarget(Seq<u8>),
    WriteRecord(Seq<u8>),
    Finish { target: Seq<char>, changed: bool, cached: bool },
}

impl View for GenerationAction {
    type V = GenerationActionView;

    open spec fn view(&self) -> GenerationActionView {
        match *self {
            GenerationAction::InspectSource => GenerationActionView::InspectSource,
            GenerationAction::ResolvePalette => GenerationActionView::ResolvePalette,
            GenerationAction::ReadRecord => GenerationActionView::ReadRecord,
            GenerationAction::ReadTarget => GenerationActionView::ReadTarget,
            GenerationAction::BuildTheme => GenerationActionView::BuildTheme,
            GenerationAction::WriteTarget(theme) => GenerationActionView::WriteTarget(theme@),
            GenerationAction::WriteRecord(record) => GenerationActionView::WriteRecord(record@),
            GenerationAction::Finish(update) => GenerationActionView::Finish {
                target: update.target@,
                changed: update.changed,
                cached: update.cached,
            },
        }
    }
}

/// What a [`GenerationReply`] says.
pub enum GenerationReplyView {
    Identity(SourceIdentity),
    Palette(Seq<char>),
    Content(Option<Seq<u8>>),
    Theme(Seq<u8>),
    Written(bool),
    Done,
}

impl View for GenerationReply {
    type V = GenerationReplyView;

    open spec fn view(&self) -> GenerationReplyView {
        match *self {
            GenerationReply::Identity(identity) => GenerationReplyView::Identity(identity),
            GenerationReply::Palette(key) => GenerationReplyView::Palette(key@),
            GenerationReply::Content(content) => GenerationReplyView::Content(content_view(content)),
            GenerationReply::Theme(theme) => GenerationReplyView::Theme(theme@),
            GenerationReply::Written(changed) => GenerationReplyView::Written(changed),
            GenerationReply::Done => GenerationReplyView::Done,
        }
    }
}

/// How far a generation is.
#[derive(Debug)]
pub enum GenerationPhase {
    /// The palette file is being identified.
    Inspect { attempt: u8 },
    /// The palette is being resolved.
    Resolve { attempt: u8, source: SourceIdentity },
    /// The palette file is being identified again.
    Recheck { attempt: u8, source: SourceIdentity, key: String },
    /// The record is being read.
    Record { attempt: u8, source: SourceIdentity, key: String },
    /// The published theme is being read.
    Target { attempt: u8, source: SourceIdentity, key: String, record: Option<Vec<u8>> },
    /// The theme is being built.
    Build { attempt: u8, source: SourceIdentity, key: String },
    /// The palette file is being identified before the theme is published.
    Verify { attempt: u8, source: SourceIdentity, key: String, theme: Vec<u8> },
    /// The theme is being published.
    Publish { key: String, theme: Vec<u8> },
    /// The record is being kept.
    Keep { changed: bool },
    Finished,
}

/// What a [`GenerationPhase`] says.
pub enum GenerationView {
    Inspect { attempt: u8 },
    Resolve { attempt: u8, source: SourceIdentity },
    Recheck { attempt: u8, source: SourceIdentity, key: Seq<char> },
    Record { attempt: u8, source: SourceIdentity, key: Seq<char> },
    Target { attempt: u8, source: SourceIdentity, key: Seq<char>, record: Option<Seq<u8>> },
    Build { attempt: u8, source: SourceIdentity, key: Seq<char> },
    Verify { attempt: u8, source: SourceIdentity, key: Seq<char>, theme: Seq<u8> },
    Publish { key: Seq<char>, theme: Seq<u8> },
    Keep { changed: bool },
    Finished,
}

impl View for GenerationPhase {
    type V = GenerationView;

    open spec fn view(&self) -> GenerationView {
        match *self {
            GenerationPhase::Inspect { attempt } => GenerationView::Inspect { attempt },
            GenerationPhase::Resolve { attempt, source } => GenerationView::Resolve {
                attempt,
                source,
            },
            GenerationPhase::Recheck { attempt, source, key } => GenerationView::Recheck {
                attempt,
                source,
                key: key@,
            },
            GenerationPhase::Record { attempt, source, key } => GenerationView::Record {
                attempt,
                source,
                key: key@,
            },
            GenerationPhase::Target { attempt, source, key, record } => GenerationView::Target {
                attempt,
                source,
                key: key@,
                record: content_view(record),
            },
            GenerationPhase::Build { attempt, source, key } => GenerationView::Build {
                attempt,
                source,
                key: key@,
            },
            GenerationPhase::Verify { attempt, source, key, theme } => GenerationView::Verify {
                attempt,
                source,
                key: key@,
                theme: theme@,
            },
            GenerationPhase::Publish { key, theme } => GenerationView::Publish {
                key: key@,
                theme: theme@,
            },
            GenerationPhase::Keep { changed } => GenerationView::Keep { changed },
            GenerationPhase::Finished => GenerationView::Finished,
        }
    }
}

impl GenerationView {
    /// The attempt that the phase belongs to.
    pub open spec fn attempt(self) -> u8 {
        match self {
            GenerationView::Inspect { attempt } => attempt,
            GenerationView::Resolve { attempt, .. } => attempt,
            GenerationView::Recheck { attempt, .. } => attempt,
            GenerationView::Record { attempt, .. } => attempt,
            GenerationView::Target { attempt, .. } => attempt,
            GenerationView::Build { attempt, .. } => attempt,
            GenerationView::Verify { attempt, .. } => attempt,
            _ => 0,
        }
    }

    /// Whether the phase waits for this kind of reply.
    pub open spec fn awaits(self, reply: GenerationReplyView) -> bool {
        match self {
            GenerationView::Inspect { .. }
            | GenerationView::Recheck { .. }
            | GenerationView::Verify { .. } => reply is Identity,
            GenerationView::Resolve { .. } => reply is Palette,
            GenerationView::Record { .. } | GenerationView::Target { .. } => reply is Content,
            GenerationView::Build { .. } => reply is Theme,
            GenerationView::Publish { .. } => reply is Written,
            GenerationView::Keep { .. } => reply is Done,
            GenerationView::Finished => false,
        }
    }

    /// How many steps are left at most.
    pub open spec fn steps_left(self) -> int {
        let retries = 8 * (ATTEMPTS - self.attempt());
        match self {
            GenerationView::Inspect { .. } => retries + 8,
            GenerationView::Resolve { .. } => retries + 7,
            GenerationView::Recheck { .. } => retries + 6,
            GenerationView::Record { .. } => retries + 5,
            GenerationView::Target { .. } => retries + 4,
            GenerationView::Build { .. } => retries + 3,
            GenerationView::Verify { .. } => retries + 2,
            GenerationView::Publish { .. } => 2,
            GenerationView::Keep { .. } => 1,
            GenerationView::Finished => 0,
        }
    }
}

/// What is reported of a palette that keeps changing.
pub open spec fn unstable_source(source: Seq<char>) -> Seq<char> {
    "colors.toml did not remain stable after 5 attempts: "@ + source
}

/// The next attempt, if one is left.
pub open spec fn retried(attempt: u8, source: Seq<char>) -> core::result::Result<
    (GenerationView, GenerationActionView),
    Seq<char>,
> {
    if attempt + 1 < ATTEMPTS {
        Ok(
            (
                GenerationView::Inspect { attempt: (attempt + 1) as u8 },
                GenerationActionView::InspectSource,
            ),
        )
    } else {
        Err(unstable_source(source))
    }
}

/// What comes next in a generation of `target` from the palette file `path`.
pub open spec fn generation_next(
    phase: GenerationView,
    path: Seq<char>,
    target: Seq<char>,
    reply: GenerationReplyView,
) -> core::result::Result<(GenerationView, GenerationActionView), Seq<char>> {
    match (phase, reply) {
        (GenerationView::Inspect { attempt }, GenerationReplyView::Identity(source)) => Ok(
            (
                GenerationView::Resolve { attempt, source },
                GenerationActionView::ResolvePalette,
            ),
        ),
        (GenerationView::Resolve { attempt, source }, GenerationReplyView::Palette(key)) => Ok(
            (
                GenerationView::Recheck { attempt, source, key },
                GenerationActionView::InspectSource,
            ),
        ),
        (
            GenerationView::Recheck { attempt, source, key },
            GenerationReplyView::Identity(current),
        ) => if current == source {
            Ok((GenerationView::Record { attempt, source, key }, GenerationActionView::ReadRecord))
        } else {
            retried(attempt, path)
        },
        (
            GenerationView::Record { attempt, source, key },
            GenerationReplyView::Content(record),
        ) => Ok(
            (
                GenerationView::Target { attempt, source, key, record },
                GenerationActionView::ReadTarget,
            ),
        ),
        (
            GenerationView::Target { attempt, source, key, record },
            GenerationReplyView::Content(current),
        ) => if is_cached_view(record, key, current) {
            Ok(
                (
                    GenerationView::Finished,
                    GenerationActionView::Finish { target, changed: false, cached: true },
                ),
            )
        } else {
            Ok((GenerationView::Build { attempt, source, key }, GenerationActionView::BuildTheme))
        },
        (GenerationView::Build { attempt, source, key }, GenerationReplyView::Theme(theme)) => Ok(
            (
                GenerationView::Verify { attempt, source, key, theme },
                GenerationActionView::InspectSource,
            ),
        ),
        (
            GenerationView::Verify { attempt, source, key, theme },
            GenerationReplyView::Identity(current),
        ) => if current == source {
            Ok((GenerationView::Publish { key, theme }, GenerationActionView::WriteTarget(theme)))
        } else {
            retried(attempt, path)
        },
        (GenerationView::Publish { key, theme }, GenerationReplyView::Written(changed)) => Ok(
            (
                GenerationView::Keep { changed },
                GenerationActionView::WriteRecord(cache_record_of(key, theme)),
            ),
        ),
        (GenerationView::Keep { changed }, GenerationReplyView::Done) => Ok(
            (
                GenerationView::Finished,
                GenerationActionView::Finish { target, changed, cached: false },
            ),
        ),
        _ => Ok(
            (
                GenerationView::Finished,
                GenerationActionView::Finish { target, changed: false, cached: false },
            ),
        ),
    }
}

/// A generation in progress.
#[derive(Debug)]
pub struct Generation {
    /// How the palette file is named in an error.
    pub path: String,
    pub target: String,
    pub phase: GenerationPhase,
}

fn unstable(path: &str) -> (error: Error)
    ensures
        error.is_external(unstable_source(path@)),
{
    let mut message = "colors.toml did not remain stable after 5 attempts: ".to_owned();
    message.append(path);
    Error::external(message)
}

fn retry(attempt: u8, path: &str) -> (result: Result<(GenerationPhase, GenerationAction)>)
    requires
        attempt < ATTEMPTS,
    ensures
        match (retried(attempt, path@), result) {
            (Ok((phase, action)), Ok(after)) => after.0@ == phase && after.1@ == action,
            (Err(message), Err(error)) => error.is_external(message),
            _ => false,
        },
{
    if attempt + 1 < ATTEMPTS {
        Ok((GenerationPhase::Inspect { attempt: attempt + 1 }, GenerationAction::InspectSource))
    } else {
        Err(unstable(path))
    }
}

fn finish(target: &str, changed: bool, cached: bool) -> (step: (GenerationPhase, GenerationAction))
    ensures
        step.0@ == GenerationView::Finished,
        step.1@ == (GenerationActionView::Finish { target: target@, changed, cached }),
{
    (
        GenerationPhase::Finished,
        GenerationAction::Finish(ThemeUpdate { target: target.to_owned(), changed, cached }),
    )
}

fn generation_step(phase: GenerationPhase, path: &str, target: &str, reply: GenerationReply) -> (
result: Result<(GenerationPhase, GenerationAction)>)
    requires
        phase@.attempt() < ATTEMPTS,
        phase@.awaits(reply@),
    ensures
        match (generation_next(phase@, path@, target@, reply@), result) {
            (Ok((phase, action)), Ok(after)) => after.0@ == phase && after.1@ == action,
            (Err(message), Err(error)) => error.is_external(message),
            _ => false,
        },
{
    match (phase, reply) {
        (GenerationPhase::Inspect { attempt }, GenerationReply::Identity(source)) => Ok(
            (GenerationPhase::Resolve { attempt, source }, GenerationAction::ResolvePalette),
        ),
        (GenerationPhase::Resolve { attempt, source }, GenerationReply::Palette(key)) => Ok(
            (GenerationPhase::Recheck { attempt, source, key }, GenerationAction::InspectSource),
        ),
        (
            GenerationPhase::Recheck { attempt, source, key },
            GenerationReply::Identity(current),
        ) => {
            if current == source {
                Ok((GenerationPhase::Record { attempt, source, key }, GenerationAction::ReadRecord))
            } else {
                retry(attempt, path)
            }
        },
        (GenerationPhase::Record { attempt, source, key }, GenerationReply::Content(record)) => Ok(
            (
                GenerationPhase::Target { attempt, source, key, record },
                GenerationAction::ReadTarget,
            ),
        ),
        (
            GenerationPhase::Target { attempt, source, key, record },
            GenerationReply::Content(current),
        ) => {
            if is_cached(&record, key.as_str(), &current) {
                Ok(finish(target, false, true))
            } else {
                Ok((GenerationPhase::Build { attempt, source, key }, GenerationAction::BuildTheme))
            }
        },
        (GenerationPhase::Build { attempt, source, key }, GenerationReply::Theme(theme)) => Ok(
            (
                GenerationPhase::Verify { attempt, source, key, theme },
                GenerationAction::InspectSource,
            ),
        ),
        (
            GenerationPhase::Verify { attempt, source, key, theme },
            GenerationReply::Identity(current),
        ) => {
            if current == source {
                let content = copy_bytes(&theme);
                Ok((GenerationPhase::Publish { key, theme }, GenerationAction::WriteTarget(content)))
            } else {
                retry(attempt, path)
            }
        },
        (GenerationPhase::Publish { key, theme }, GenerationReply::Written(changed)) => {
            let record = cache_record(key.as_str(), &theme);
            Ok((GenerationPhase::Keep { changed }, GenerationAction::WriteRecord(record)))
        },
        (GenerationPhase::Keep { changed }, GenerationReply::Done) => Ok(
            finish(target, changed, false),
        ),
        _ => Ok(finish(target, false, false)),
    }
}

fn copy_bytes(bytes: &Vec<u8>) -> (copy: Vec<u8>)
    ensures
        copy@ == bytes@,
{
    vstd::slice::slice_to_vec(bytes.as_slice())
}

impl Generation {
    /// Whether the attempt is one of those allowed.
    pub open spec fn wf(&self) -> bool {
        self.phase@.attempt() < ATTEMPTS
    }

    /// Takes the reply to what was asked for and asks for the next thing.
    pub fn next(self, reply: GenerationReply) -> (result: Result<(Generation, GenerationAction)>)
        requires
            self.wf(),
            self.phase@.awaits(reply@),
        ensures
            match (
                generation_next(self.phase@, self.path@, self.target@, reply@),
                result,
            ) {
                (Ok((phase, action)), Ok(after)) => {
                    &&& after.0.wf()
                    &&& after.0.path@ == self.path@
                    &&& after.0.target@ == self.target@
                    &&& after.0.phase@ == phase
                    &&& after.1@ == action
                },
                (Err(message), Err(error)) => error.is_external(message),
                _ => false,
            },
    {
        let (phase, action) = generation_step(
            self.phase,
            self.path.as_str(),
            self.target.as_str(),
            reply,
        )?;
        Ok((Generation { path: self.path, target: self.target, phase }, action))
    }
}

/// Starts to generate the theme `target` from the palette file `path`.
pub fn generate_and_publish(path: &str, target: &str) -> (start: (Generation, GenerationAction))
    ensures
        start.0.path@ == path@,
        start.0.target@ == target@,
        start.0.phase@ == (GenerationView::Inspect { attempt: 0 }),
        start.0.wf(),
        start.1@ == GenerationActionView::InspectSource,
{
    let generation = Generation {
        path: path.to_owned(),
        target: target.to_owned(),
        phase: GenerationPhase::Inspect { attempt: 0 },
    };
    (generation, GenerationAction::InspectSource)
}

/// A theme is published only if the palette file still is what it was before the
/// palette was resolved.
pub proof fn lemma_changed_source_is_not_published(
    phase: GenerationView,
    path: Seq<char>,
    target: Seq<char>,
    reply: GenerationReplyView,
    content: Seq<u8>,
)
    requires
        generation_next(phase, path, target, reply) matches Ok(next) && next.1
            == GenerationActionView::WriteTarget(content),
    ensures
        phase matches GenerationView::Verify { source, theme, .. } && reply
            == GenerationReplyView::Identity(source) && theme == content,
{
}

/// What is recorded after a publication is accepted as long as neither the palette
/// nor the published theme changes.
pub proof fn lemma_published_theme_is_cached(
    key: Seq<char>,
    theme: Seq<u8>,
    changed: bool,
    path: Seq<char>,
    target: Seq<char>,
    attempt: u8,
    source: SourceIdentity,
)
    ensures
        generation_next(
            GenerationView::Publish { key, theme },
            path,
            target,
            GenerationReplyView::Written(changed),
        ) matches Ok(next) && (next.1 matches GenerationActionView::WriteRecord(record)
            && generation_next(
            GenerationView::Target { attempt, source, key, record: Some(record) },
            path,
            target,
            GenerationReplyView::Content(Some(theme)),
        ) == Ok::<_, Seq<char>>(
            (
                GenerationView::Finished,
                GenerationActionView::Finish { target, changed: false, cached: true },
            ),
        )),
{
}

/// Every generation comes to an end: each reply brings it closer.
pub proof fn lemma_generation_ends(
    phase: GenerationView,
    path: Seq<char>,
    target: Seq<char>,
    reply: GenerationReplyView,
)
    requires
        phase.attempt() < ATTEMPTS,
        phase.awaits(reply),
    ensures
        generation_next(phase, path, target, reply) matches Ok(next) ==> 0 <= next.0.steps_left()
            < phase.steps_left(),
{
}

} // verus!
