//! Replacing files and publishing themes, with files in memory.

use omarchy_zed_theme::map::TextMap;
use omarchy_zed_theme::palette::{Provenance, ResolvedPalette};
use omarchy_zed_theme::publish::{
    atomic_write_file, atomic_write_file_if_unchanged, cache_record, generate_and_publish,
    is_cached, palette_key, replaceable_target, FileWrite, GenerationAction, GenerationReply,
    SourceIdentity, TargetKind, ThemeUpdate, WriteAction, WriteOutcome, WriteReply,
};
use omarchy_zed_theme::{ErrorKind, Result};

/// A file that can be replaced, with what happens to it.
struct Disk {
    kind: TargetKind,
    content: Option<Vec<u8>>,
    temporary: Option<Vec<u8>>,
    renames: usize,
    /// What another process writes while the temporary file is written.
    intruder: Option<Vec<u8>>,
}

impl Disk {
    fn new(content: Option<&[u8]>) -> Self {
        Self {
            kind: if content.is_some() {
                TargetKind::Regular
            } else {
                TargetKind::Missing
            },
            content: content.map(<[u8]>::to_vec),
            temporary: None,
            renames: 0,
            intruder: None,
        }
    }

    fn run(&mut self, start: (FileWrite, WriteAction)) -> Result<WriteOutcome> {
        let (mut write, mut action) = start;
        let content = write.content.clone();
        loop {
            let reply = match action {
                WriteAction::Inspect => WriteReply::Kind(self.kind),
                WriteAction::Read => WriteReply::Content(self.content.clone()),
                WriteAction::WriteTemporary => {
                    self.temporary = Some(content.clone());
                    if let Some(other) = self.intruder.take() {
                        self.content = Some(other);
                    }
                    WriteReply::Done
                }
                WriteAction::Rename => {
                    self.content = self.temporary.take();
                    self.renames += 1;
                    WriteReply::Done
                }
                WriteAction::Discard => {
                    self.temporary = None;
                    WriteReply::Done
                }
                WriteAction::Finish(outcome) => return Ok(outcome),
            };
            (write, action) = write.next(reply)?;
        }
    }

    fn write(&mut self, content: &[u8]) -> Result<WriteOutcome> {
        self.run(atomic_write_file("omarchy.json", content.to_vec()))
    }

    fn write_if(&mut self, expected: Option<&[u8]>, content: &[u8]) -> Result<WriteOutcome> {
        self.run(atomic_write_file_if_unchanged(
            "settings.json",
            expected.map(<[u8]>::to_vec),
            content.to_vec(),
        ))
    }
}

#[test]
fn identical_atomic_output_is_not_rewritten() {
    let mut disk = Disk::new(None);
    assert_eq!(disk.write(b"same").unwrap(), WriteOutcome::Replaced);
    disk.kind = TargetKind::Regular;
    assert_eq!(disk.write(b"same").unwrap(), WriteOutcome::Unchanged);
    assert_eq!(disk.renames, 1);
    assert_eq!(disk.content, Some(b"same".to_vec()));
}

#[test]
fn conditional_atomic_output_rejects_a_stale_snapshot() {
    let mut disk = Disk::new(Some(b"newer"));
    let result = disk.write_if(Some(b"older"), b"managed").unwrap();
    assert_eq!(result, WriteOutcome::Stale);
    assert_eq!(disk.content, Some(b"newer".to_vec()));
    assert_eq!(disk.renames, 0);
}

#[test]
fn a_change_during_the_write_is_not_overwritten() {
    let mut disk = Disk::new(Some(b"old"));
    disk.intruder = Some(b"newer".to_vec());
    assert_eq!(
        disk.write_if(Some(b"old"), b"managed").unwrap(),
        WriteOutcome::Stale
    );
    assert_eq!(disk.content, Some(b"newer".to_vec()));
    assert_eq!(disk.temporary, None);
}

#[test]
fn a_file_that_should_be_missing_may_not_exist() {
    let mut disk = Disk::new(None);
    assert_eq!(
        disk.write_if(None, b"managed").unwrap(),
        WriteOutcome::Replaced
    );
    let mut disk = Disk::new(Some(b""));
    assert_eq!(disk.write_if(None, b"managed").unwrap(), WriteOutcome::Stale);
}

#[test]
fn atomic_writer_rejects_final_symlink() {
    let mut disk = Disk::new(Some(b"victim"));
    disk.kind = TargetKind::Symlink;
    let error = disk.write(b"theme").unwrap_err();
    assert_eq!(error.kind(), ErrorKind::External);
    assert_eq!(
        error.message(),
        "refusing to replace symlink target: omarchy.json"
    );
    assert_eq!(disk.content, Some(b"victim".to_vec()));
    assert_eq!(
        replaceable_target(TargetKind::Other, "a").unwrap_err().message(),
        "refusing non-regular target: a"
    );
    assert!(replaceable_target(TargetKind::Missing, "a").is_ok());
    assert!(replaceable_target(TargetKind::Regular, "a").is_ok());
}

fn identity(size: u64) -> SourceIdentity {
    SourceIdentity {
        device: 1,
        inode: 2,
        size,
        modified_seconds: 3,
        modified_nanoseconds: 4,
        changed_seconds: 5,
        changed_nanoseconds: 6,
    }
}

fn palette(colors: &[(&str, &str)]) -> ResolvedPalette {
    let mut palette = ResolvedPalette {
        mode: "dark".to_owned(),
        colors: TextMap::new(),
        provenance: TextMap::new(),
    };
    for (key, value) in colors {
        palette.colors.insert((*key).to_owned(), (*value).to_owned());
        palette
            .provenance
            .insert((*key).to_owned(), Provenance::Direct);
    }
    palette
}

/// What a generation works on.
struct Desk {
    /// The size of the source file at each look; the last one stays.
    sizes: Vec<u64>,
    key: String,
    theme: Vec<u8>,
    target: Option<Vec<u8>>,
    record: Option<Vec<u8>>,
    built: usize,
    /// Whether the record cannot be written or read.
    blocked: bool,
}

impl Desk {
    fn new(key: &str, theme: &[u8]) -> Self {
        Self {
            sizes: vec![1],
            key: key.to_owned(),
            theme: theme.to_vec(),
            target: None,
            record: None,
            built: 0,
            blocked: false,
        }
    }

    fn publish(&mut self) -> Result<ThemeUpdate> {
        let (mut generation, mut action) = generate_and_publish("colors.toml", "omarchy.json");
        loop {
            let reply = match action {
                GenerationAction::InspectSource => {
                    let size = if self.sizes.len() > 1 {
                        self.sizes.remove(0)
                    } else {
                        self.sizes[0]
                    };
                    GenerationReply::Identity(identity(size))
                }
                GenerationAction::ResolvePalette => GenerationReply::Palette(self.key.clone()),
                GenerationAction::ReadRecord => GenerationReply::Content(self.record.clone()),
                GenerationAction::ReadTarget => GenerationReply::Content(self.target.clone()),
                GenerationAction::BuildTheme => {
                    self.built += 1;
                    GenerationReply::Theme(self.theme.clone())
                }
                GenerationAction::WriteTarget(content) => {
                    let changed = self.target.as_ref() != Some(&content);
                    self.target = Some(content);
                    GenerationReply::Written(changed)
                }
                GenerationAction::WriteRecord(content) => {
                    if !self.blocked {
                        self.record = Some(content);
                    }
                    GenerationReply::Done
                }
                GenerationAction::Finish(update) => return Ok(update),
            };
            (generation, action) = generation.next(reply)?;
        }
    }
}

#[test]
fn changed_source_prevents_theme_publication() {
    let mut desk = Desk::new("key", b"stale theme");
    // Before and after resolving the source is the same, before publishing it is not.
    desk.sizes = vec![1, 1, 2, 3, 4, 5, 6, 7, 8, 9, 10, 11, 12];
    let error = desk.publish().err().unwrap();
    assert_eq!(error.kind(), ErrorKind::External);
    assert_eq!(
        error.message(),
        "colors.toml did not remain stable after 5 attempts: colors.toml"
    );
    assert_eq!(desk.target, None);
}

#[test]
fn a_source_that_settles_is_published() {
    let mut desk = Desk::new("key", b"theme");
    desk.sizes = vec![1, 2, 3, 4, 5];
    let update = desk.publish().unwrap();
    assert!(update.changed && !update.cached);
    assert_eq!(update.target, "omarchy.json");
    assert_eq!(desk.target, Some(b"theme".to_vec()));
    assert_eq!(desk.built, 1);
}

#[test]
fn generation_cache_uses_effective_inputs() {
    let base = [("red", "#e67e80"), ("green", "#a7c080")];
    let mut desk = Desk::new(&palette_key(&palette(&base)), b"first");
    let first = desk.publish().unwrap();
    let second = desk.publish().unwrap();
    assert!(!first.cached);
    assert!(second.cached);
    assert!(!second.changed);
    assert_eq!(desk.built, 1);

    desk.key = palette_key(&palette(&[("red", "#ff5555"), ("green", "#a7c080")]));
    desk.theme = b"second".to_vec();
    let invalidated = desk.publish().unwrap();
    assert!(!invalidated.cached);
    let generated = desk.target.clone();

    desk.target = Some(b"tampered theme\n".to_vec());
    let repaired = desk.publish().unwrap();
    assert!(!repaired.cached);
    assert_eq!(desk.target, generated);

    desk.record = None;
    desk.blocked = true;
    desk.key = palette_key(&palette(&[("red", "#ff5555"), ("green", "#55ff55")]));
    desk.theme = b"third".to_vec();
    let changed = desk.publish().unwrap();
    assert!(!changed.cached);
    assert_eq!(desk.record, None);
}

#[test]
fn a_rebuilt_theme_can_be_unchanged() {
    let mut desk = Desk::new("key", b"theme");
    desk.target = Some(b"theme".to_vec());
    let update = desk.publish().unwrap();
    assert!(!update.changed && !update.cached);
}

#[test]
fn palettes_have_different_keys() {
    let base = palette(&[("red", "#e67e80"), ("green", "#a7c080")]);
    let swapped = palette(&[("red", "#a7c080"), ("green", "#e67e80")]);
    let mut light = palette(&[("red", "#e67e80"), ("green", "#a7c080")]);
    light.mode = "light".to_owned();
    let mut derived = palette(&[("red", "#e67e80"), ("green", "#a7c080")]);
    derived
        .provenance
        .insert("red".to_owned(), Provenance::Derived);
    let keys = [&base, &swapped, &light, &derived].map(palette_key);
    for (index, key) in keys.iter().enumerate() {
        for other in &keys[index + 1..] {
            assert_ne!(key, other);
        }
    }
    assert_eq!(
        keys[0],
        palette_key(&palette(&[("green", "#a7c080"), ("red", "#e67e80")]))
    );
}

#[test]
fn a_record_stands_for_one_key_and_one_theme() {
    let record = cache_record("key", &b"theme".to_vec());
    let cached = |record: &[u8], key: &str, theme: Option<&[u8]>| {
        is_cached(
            &Some(record.to_vec()),
            key,
            &theme.map(<[u8]>::to_vec),
        )
    };
    assert!(cached(&record, "key", Some(b"theme")));
    assert!(!cached(&record, "other", Some(b"theme")));
    assert!(!cached(&record, "key", Some(b"other")));
    assert!(!cached(&record, "key", None));
    assert!(!is_cached(&None, "key", &Some(b"theme".to_vec())));
}
