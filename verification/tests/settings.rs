//! The editor's settings document, the saved state and the sessions that change them.

use jsonc_parser::cst::CstRootNode;
use jsonc_parser::ParseOptions;
use omarchy_zed_theme::json_value::READ_DEPTH;
use omarchy_zed_theme::zed_settings::document::{current_theme, set_theme, ThemeValue};
use omarchy_zed_theme::zed_settings::files::{activate_files, restore_files, Files as HeldFiles};
use omarchy_zed_theme::zed_settings::nesting::{nests_shallow, MAXIMUM_NESTING};
use omarchy_zed_theme::zed_settings::session::{claim_matches, settings_source, Action, Reply};
use omarchy_zed_theme::zed_settings::state::{parse_state, state_content, ActivationState};
use omarchy_zed_theme::zed_settings::{activate, restore};
use omarchy_zed_theme::{ErrorKind, Result};
use serde_json::Value;

fn theme(text: &str) -> ThemeValue {
    ThemeValue::parse(text).unwrap()
}

fn with_managed(source: &str) -> String {
    set_theme(source, Some(&ThemeValue::managed())).unwrap()
}

fn theme_text(source: &str) -> Option<String> {
    current_theme(source)
        .unwrap()
        .map(|value| value.to_text())
}

#[test]
fn replaces_only_theme_in_jsonc() {
    let source = "{\n  // keep this\n  \"theme\": { \"mode\": \"system\", },\n  \"buffer_font_size\": 15,\n}\n";
    assert_eq!(
        with_managed(source),
        "{\n  // keep this\n  \"theme\": \"Omarchy\",\n  \"buffer_font_size\": 15,\n}\n"
    );
}

#[test]
fn adds_and_removes_theme_without_rewriting_other_settings() {
    let source = "{\n  // font\n  \"buffer_font_size\": 15\n}\n";
    let added = with_managed(source);
    assert_eq!(
        added,
        "{\n  // font\n  \"buffer_font_size\": 15,\n  \"theme\": \"Omarchy\"\n}\n"
    );
    assert_eq!(set_theme(&added, None).unwrap(), source);
}

#[test]
fn adds_theme_after_an_existing_trailing_comma() {
    let source = "{\n  \"buffer_font_size\": 15, // keep\n}\n";
    assert_eq!(
        with_managed(source),
        "{\n  \"buffer_font_size\": 15, // keep\n  \"theme\": \"Omarchy\",\n}\n"
    );
}

#[test]
fn inserted_theme_uses_the_existing_line_endings() {
    let source = "{\r\n  \"buffer_font_size\": 15\r\n}\r\n";
    assert_eq!(
        with_managed(source),
        "{\r\n  \"buffer_font_size\": 15,\r\n  \"theme\": \"Omarchy\"\r\n}\r\n"
    );
}

#[test]
fn single_line_insertion_and_removal_preserve_spacing() {
    let source = "{\"buffer_font_size\":14}";
    let added = with_managed(source);
    assert_eq!(set_theme(&added, None).unwrap(), source);
}

#[test]
fn compact_comments_and_trailing_commas_survive_a_round_trip() {
    for source in [
        "{\"buffer_font_size\":14 /* keep */}",
        "{\"buffer_font_size\":14, /* keep */}",
        "{\"buffer_font_size\":14,   /* keep */   }",
        "{ /* empty */ }",
        "// root\n{\"buffer_font_size\":14} // tail\n",
        "{\"nested\":{\n  \"value\":true\n}}",
        "{\"value\":true /* first\nsecond */}",
    ] {
        let added = with_managed(source);
        assert_eq!(set_theme(&added, None).unwrap(), source);
    }
}

#[test]
fn rejects_non_jsonc_extensions_and_duplicate_themes() {
    for source in [
        "{\"theme\": \"A\" \"other\": true}",
        "{'theme': 'A'}",
        "{theme: \"A\"}",
        "{\"theme\": \"A\", \"theme\": \"B\"}",
    ] {
        assert!(current_theme(source).is_err(), "accepted {source}");
    }
}

#[test]
fn activation_state_contains_a_json_value() {
    let state = ActivationState {
        active: true,
        previous_theme: Some(theme(
            "{\"mode\":\"system\",\"light\":\"One Light\",\"dark\":\"One Dark\"}",
        )),
    };
    let value: Value = serde_json::from_slice(&state_content(&state).unwrap()).unwrap();
    assert!(value["previous_theme"].is_object());
}

#[test]
fn missing_and_null_themes_remain_distinct() {
    let missing = ActivationState {
        active: true,
        previous_theme: None,
    };
    let missing_value: Value = serde_json::from_slice(&state_content(&missing).unwrap()).unwrap();
    assert!(!missing_value
        .as_object()
        .unwrap()
        .contains_key("previous_theme"));

    let null = ActivationState {
        active: true,
        previous_theme: Some(theme("null")),
    };
    let null_value: Value = serde_json::from_slice(&state_content(&null).unwrap()).unwrap();
    assert!(null_value
        .as_object()
        .unwrap()
        .contains_key("previous_theme"));
    assert!(null_value["previous_theme"].is_null());
}

#[test]
fn removal_handles_a_file_without_a_final_newline() {
    let source = "{\"theme\":\"Omarchy\"}";
    assert_eq!(set_theme(source, None).unwrap(), "{}");
}

#[test]
fn compact_removal_uses_the_structural_trailing_comma() {
    let source = "{\"a\":1, \"theme\":\"Omarchy\" /* comment, with comma */,}";
    assert_eq!(set_theme(source, None).unwrap(), "{\"a\":1,}");
}

#[test]
fn replacing_a_theme_writes_nested_values() {
    let value = theme("{\"mode\":\"system\",\"sizes\":[1,2.5,true,null]}");
    let changed = set_theme("{\"theme\": \"A\", \"b\": 1}", Some(&value)).unwrap();
    let parsed: Value = serde_json::from_str(&changed).unwrap();
    assert_eq!(parsed["theme"]["mode"], Value::from("system"));
    assert_eq!(parsed["theme"]["sizes"][1], Value::from(2.5));
    assert!(parsed["theme"]["sizes"][3].is_null());
    assert_eq!(parsed["b"], Value::from(1));
}

#[test]
fn removing_a_missing_theme_changes_nothing() {
    for source in ["{}", "{\n  \"a\": 1\n}\n", "// only\n{\"a\":1,}"] {
        assert_eq!(set_theme(source, None).unwrap(), source);
        assert_eq!(theme_text(source), None);
    }
}

#[test]
fn settings_that_are_no_object_are_refused() {
    for source in ["[]", "\"theme\"", "1"] {
        let error = current_theme(source).unwrap_err();
        assert_eq!(error.kind(), ErrorKind::InvalidInput);
        assert_eq!(error.message(), "Zed settings must contain a JSON object");
    }
    let error = current_theme("{").unwrap_err();
    assert!(error.message().starts_with("invalid Zed settings: "));
    let error = current_theme("{\"theme\": 1, \"theme\": 2}").unwrap_err();
    assert_eq!(
        error.message(),
        "Zed settings contain duplicate theme keys"
    );
}

#[test]
fn the_theme_is_read_as_compact_text() {
    assert_eq!(
        theme_text("{\"theme\": { \"dark\": \"B\", \"mode\": \"system\", } }"),
        Some("{\"dark\":\"B\",\"mode\":\"system\"}".to_owned())
    );
    assert_eq!(
        theme_text("{\"\\u0074heme\": \"A\"}"),
        Some("\"A\"".to_owned())
    );
}

#[test]
fn only_one_text_is_the_managed_theme() {
    assert!(theme("\"Omarchy\"").is_managed());
    assert!(!theme("\"omarchy\"").is_managed());
    assert!(!theme("{\"dark\":\"Omarchy\"}").is_managed());
    assert_eq!(ThemeValue::managed().to_text(), "\"Omarchy\"");
    assert!(ThemeValue::parse("{").is_none());
}

#[test]
fn saved_state_is_read_back() {
    for (active, previous) in [
        (true, Some("{\"mode\":\"dark\"}")),
        (false, Some("null")),
        (true, None),
    ] {
        let state = ActivationState {
            active,
            previous_theme: previous.map(theme),
        };
        let read = parse_state(&state_content(&state).unwrap()).unwrap();
        assert_eq!(read.active, active);
        assert_eq!(
            read.previous_theme.map(|value| value.to_text()),
            previous.map(str::to_owned)
        );
    }
}

#[test]
fn saved_state_is_pretty_printed() {
    let state = ActivationState {
        active: false,
        previous_theme: Some(theme("\"One Dark\"")),
    };
    assert_eq!(
        String::from_utf8(state_content(&state).unwrap()).unwrap(),
        "{\n  \"active\": false,\n  \"previous_theme\": \"One Dark\",\n  \"version\": 1\n}\n"
    );
}

#[test]
fn unreadable_states_are_refused() {
    for (content, message) in [
        ("[]", "saved Zed theme state must be an object"),
        (
            "{\"version\":2,\"active\":true}",
            "unsupported saved Zed theme state version",
        ),
        (
            "{\"active\":true}",
            "unsupported saved Zed theme state version",
        ),
        (
            "{\"version\":1}",
            "saved Zed theme state has no active flag",
        ),
        (
            "{\"version\":1,\"active\":1}",
            "saved Zed theme state has no active flag",
        ),
    ] {
        let error = parse_state(content.as_bytes()).err().unwrap();
        assert_eq!(error.message(), message);
    }
    let error = parse_state(b"{").err().unwrap();
    assert!(error
        .message()
        .starts_with("invalid saved Zed theme state: "));
}

#[test]
fn missing_settings_count_as_an_empty_object() {
    assert_eq!(settings_source(None).unwrap(), "{}\n");
    assert_eq!(settings_source(Some(&b"{}".to_vec())).unwrap(), "{}");
    assert_eq!(
        settings_source(Some(&vec![0xff])).unwrap_err().message(),
        "Zed settings are not valid UTF-8"
    );
}

#[test]
fn claims_are_trimmed() {
    assert!(!claim_matches(None, "service").unwrap());
    assert!(claim_matches(Some(&b" service\n".to_vec()), "service").unwrap());
    assert!(!claim_matches(Some(&b"services".to_vec()), "service").unwrap());
    assert_eq!(
        claim_matches(Some(&vec![0xff]), "service")
            .unwrap_err()
            .message(),
        "activation claim is not valid UTF-8"
    );
}

/// The files of a session, in memory.
#[derive(Clone, Default)]
struct Files {
    settings: Option<Vec<u8>>,
    state: Option<Vec<u8>>,
    claim: Option<Vec<u8>>,
    /// Whether a replacement finds other settings than it expects, and how often.
    races: usize,
    writes: usize,
}

impl Files {
    fn new(settings: &str) -> Self {
        Self {
            settings: Some(settings.as_bytes().to_vec()),
            ..Self::default()
        }
    }

    fn claim(&mut self, owner: &str) {
        self.claim = Some(format!("{owner}\n").into_bytes());
    }

    fn save(&mut self, active: bool, previous: &str) {
        let state = ActivationState {
            active,
            previous_theme: Some(theme(previous)),
        };
        self.state = Some(state_content(&state).unwrap());
    }

    fn settings(&self) -> String {
        String::from_utf8(self.settings.clone().unwrap()).unwrap()
    }

    fn perform(&mut self, action: Action) -> Reply {
        match action {
            Action::ReadClaim => Reply::Content(self.claim.clone()),
            Action::ReadState => Reply::Content(self.state.clone()),
            Action::ReadSettings => Reply::Content(self.settings.clone()),
            Action::WriteState(content) => {
                self.state = Some(content);
                Reply::Done
            }
            Action::ReplaceSettings { expected, content } => {
                if self.races > 0 {
                    self.races -= 1;
                    return Reply::Replaced(false);
                }
                assert_eq!(self.settings, expected);
                self.settings = Some(content);
                self.writes += 1;
                Reply::Replaced(true)
            }
            Action::RemoveState => {
                assert!(self.state.take().is_some());
                Reply::Done
            }
            Action::Finish => unreachable!("a finished session performs nothing"),
        }
    }

    fn activate(&mut self, owner: &str) -> Result<()> {
        let (mut session, mut action) = activate(owner, "settings.json")?;
        while !matches!(action, Action::Finish) {
            (session, action) = session.next(self.perform(action))?;
        }
        Ok(())
    }

    fn restore(&mut self, owner: &str) -> Result<()> {
        let (mut session, mut action) = restore(owner, "settings.json")?;
        while !matches!(action, Action::Finish) {
            (session, action) = session.next(self.perform(action))?;
        }
        Ok(())
    }

    fn claim_and_activate(&mut self, owner: &str) {
        self.claim(owner);
        self.activate(owner).unwrap();
    }
}

#[test]
fn absent_theme_is_removed_again_on_restore() {
    let mut files = Files::new("{\n  // keep\n  \"buffer_font_size\": 14\n}\n");
    files.claim_and_activate("test-owner");
    assert_eq!(theme_text(&files.settings()), Some("\"Omarchy\"".to_owned()));
    files.restore("test-owner").unwrap();
    assert_eq!(
        files.settings(),
        "{\n  // keep\n  \"buffer_font_size\": 14\n}\n"
    );
    assert_eq!(files.state, None);
}

#[test]
fn preexisting_managed_theme_is_preserved_on_first_restore() {
    let mut files = Files::new("{\"theme\":\"Omarchy\"}\n");
    files.claim_and_activate("test-owner");
    files.restore("test-owner").unwrap();
    assert_eq!(
        theme_text(&files.settings()),
        Some("\"Omarchy\"".to_owned())
    );
}

#[test]
fn restore_preserves_changes_to_unrelated_settings() {
    let mut files = Files::new("{\n  \"theme\": \"One Dark\",\n  \"buffer_font_size\": 14\n}\n");
    files.claim_and_activate("test-owner");
    files.settings = Some(files.settings().replace("14", "18").into_bytes());
    files.restore("test-owner").unwrap();
    assert_eq!(
        files.settings(),
        "{\n  \"theme\": \"One Dark\",\n  \"buffer_font_size\": 18\n}\n"
    );
}

#[test]
fn restore_does_not_override_a_manual_theme_change() {
    let mut files = Files::new("{ \"theme\": \"One Dark\" }\n");
    files.claim_and_activate("test-owner");
    files.settings = Some(b"{ \"theme\": \"Ayu\" }\n".to_vec());
    files.restore("test-owner").unwrap();
    assert_eq!(files.settings(), "{ \"theme\": \"Ayu\" }\n");
}

#[test]
fn delayed_restore_cannot_undo_a_new_owner() {
    let mut files = Files::new("{\"theme\":\"One Dark\"}\n");
    files.claim_and_activate("old-service");
    files.claim_and_activate("new-service");
    files.restore("old-service").unwrap();
    assert_eq!(
        theme_text(&files.settings()),
        Some("\"Omarchy\"".to_owned())
    );
    assert!(parse_state(files.state.as_ref().unwrap()).unwrap().active);

    files.restore("new-service").unwrap();
    assert_eq!(
        theme_text(&files.settings()),
        Some("\"One Dark\"".to_owned())
    );
}

#[test]
fn a_new_service_can_restore_before_it_activates() {
    let mut files = Files::new("{\"theme\":\"One Dark\"}\n");
    files.claim_and_activate("old-service");
    files.claim("new-service");
    files.restore("new-service").unwrap();
    assert_eq!(
        theme_text(&files.settings()),
        Some("\"One Dark\"".to_owned())
    );
    assert_eq!(files.state, None);
    assert_eq!(files.claim, Some(b"new-service\n".to_vec()));
}

#[test]
fn interrupted_activation_is_still_restorable() {
    let mut files = Files::new("{\"theme\":\"Omarchy\"}\n");
    files.save(false, "\"One Dark\"");
    files.claim("service");
    files.restore("service").unwrap();
    assert_eq!(
        theme_text(&files.settings()),
        Some("\"One Dark\"".to_owned())
    );
}

#[test]
fn retry_preserves_a_theme_changed_after_interruption() {
    let mut files = Files::new("{\"theme\":\"Ayu\"}\n");
    files.save(false, "\"One Dark\"");
    files.claim("service");
    files.activate("service").unwrap();
    files.restore("service").unwrap();
    assert_eq!(theme_text(&files.settings()), Some("\"Ayu\"".to_owned()));
}

#[test]
fn a_session_without_the_claim_changes_nothing() {
    for claim in [None, Some("other")] {
        let mut files = Files::new("{\"theme\":\"One Dark\"}\n");
        if let Some(owner) = claim {
            files.claim(owner);
        }
        let before = files.clone();
        files.activate("service").unwrap();
        files.restore("service").unwrap();
        assert_eq!(files.settings, before.settings);
        assert_eq!(files.state, before.state);
        assert_eq!(files.writes, 0);
    }
}

#[test]
fn an_empty_owner_is_refused() {
    let mut files = Files::new("{}");
    for error in [
        files.activate("").unwrap_err(),
        files.restore("").unwrap_err(),
    ] {
        assert_eq!(error.kind(), ErrorKind::InvalidInput);
        assert_eq!(error.message(), "activation owner cannot be empty");
    }
}

#[test]
fn settings_that_keep_changing_are_given_up() {
    let mut files = Files::new("{\"theme\":\"One Dark\"}\n");
    files.claim("service");
    files.races = 4;
    files.activate("service").unwrap();
    assert_eq!(files.writes, 1);

    let mut files = Files::new("{\"theme\":\"One Dark\"}\n");
    files.claim("service");
    files.races = 5;
    let error = files.activate("service").unwrap_err();
    assert_eq!(error.kind(), ErrorKind::External);
    assert_eq!(
        error.message(),
        "Zed settings did not remain stable: settings.json"
    );
    assert_eq!(files.writes, 0);
}

#[test]
fn activating_twice_writes_once() {
    let mut files = Files::new("{}");
    files.claim_and_activate("service");
    files.claim_and_activate("service");
    assert_eq!(files.writes, 1);
}

fn other_values(source: &str) -> Vec<(String, Option<Value>)> {
    CstRootNode::parse(source, &ParseOptions::default())
        .unwrap()
        .object_value()
        .unwrap()
        .properties()
        .iter()
        .map(|property| {
            (
                property.name().unwrap().decoded_value().unwrap(),
                property.value().and_then(|value| value.to_serde_value()),
            )
        })
        .filter(|(name, _)| name != "theme")
        .collect()
}

#[test]
fn a_theme_that_is_set_is_read_back() {
    let sources = [
        "{}",
        "{ }",
        "{/* c */}",
        "{\n}",
        "{\n  // c\n}",
        "{\n\n\n}",
        "{\"a\":1}",
        "{\"a\":1,}",
        "{\"a\":1 /* c, */ }",
        "{\"a\":1,  \"theme\": 2}",
        "{\"theme\": 2}",
        "{\"a\":1,\"theme\": 2,}",
        "{\"a\":1,\"theme\": 2 , /* c */}",
        "{\"theme\": 2, \"a\": {\n  \"b\": [1, 2,],\n}}",
        "{\r\n  \"a\": 1\r\n}\r\n",
        "{\n  \"a\": 1 // c\n}",
        "{\n  \"a\": 1, // c\n}",
        "{\n  \"a\": 1 // c\n  ,\n}",
        "{\n  \"a\": 1\n  // c\n}",
        "{\n  \"a\": 1, // c\n  \"theme\": \"x\" // d\n}",
        "{\n  \"a\": 1, \"theme\": \"x\" // d\n}",
        "{ // c\n  \"theme\": \"x\", \"a\": 1 }",
        "{\n  \"theme\": // c\n    {\"mode\": \"dark\",},\n  \"a\": [ ]\n}",
        "// head\n{\"a\": \"}\"} // tail",
    ];
    let themes = [
        "\"Omarchy\"",
        "\"one \\\"two\\\" \u{e9}\"",
        "null",
        "true",
        "-12",
        "[]",
        "{}",
        "[1,[\"a\",{\"b\":null}]]",
        "{\"dark\":\"A\",\"light\":\"B\",\"mode\":\"system\"}",
    ];
    for source in sources {
        for text in themes {
            let updated = set_theme(source, Some(&theme(text))).unwrap();
            assert_eq!(
                theme_text(&updated).as_deref(),
                Some(text),
                "{source:?} became {updated:?}"
            );
            assert_eq!(other_values(&updated), other_values(source), "{updated:?}");
            let removed = set_theme(&updated, None).unwrap();
            assert_eq!(theme_text(&removed), None, "{removed:?}");
            assert_eq!(other_values(&removed), other_values(source), "{removed:?}");
        }
        let removed = set_theme(source, None).unwrap();
        assert_eq!(theme_text(&removed), None);
        assert_eq!(other_values(&removed), other_values(source));
    }
}

#[test]
fn backslashes_are_kept_in_an_object_on_one_line() {
    let text = "\"a\\\\b\\n\\u0001\"";
    let updated = set_theme("{\"a\":1}", Some(&theme(text))).unwrap();
    assert_eq!(theme_text(&updated).as_deref(), Some(text));
}

fn nested_lists(levels: usize) -> String {
    format!("{}{}", "[".repeat(levels), "]".repeat(levels))
}

fn nested_objects(levels: usize) -> String {
    format!("{}1{}", "{\"a\":".repeat(levels), "}".repeat(levels))
}

#[test]
fn settings_may_nest_up_to_a_limit() {
    for value in [
        nested_lists(MAXIMUM_NESTING - 1),
        nested_objects(MAXIMUM_NESTING - 1),
    ] {
        let source = format!("{{\"a\": {value}, \"theme\": {value}}}");
        assert_eq!(theme_text(&source), Some(value.clone()));
        let changed = with_managed(&source);
        assert_eq!(theme_text(&changed), Some("\"Omarchy\"".to_owned()));
        let deep = current_theme(&source).unwrap().unwrap();
        assert_eq!(deep.to_text(), value);
        assert!(!deep.can_be_set());
    }
}

#[test]
fn a_theme_may_nest_as_deep_as_it_is_read() {
    for value in [nested_lists(READ_DEPTH), nested_objects(READ_DEPTH)] {
        assert!(theme(&value).can_be_set());
        for source in ["{}", "{\n}\n", "{\"theme\": 1}"] {
            assert_eq!(
                theme_text(&set_theme(source, Some(&theme(&value))).unwrap()),
                Some(value.clone())
            );
        }
    }
    assert!(ThemeValue::parse(&nested_lists(READ_DEPTH + 1)).is_none());
}

#[test]
fn settings_beyond_the_limit_are_refused() {
    for value in [
        nested_lists(MAXIMUM_NESTING),
        nested_objects(MAXIMUM_NESTING),
        nested_lists(100_000),
    ] {
        let source = format!("{{\"a\": {value}}}");
        for error in [
            current_theme(&source).map(|_| ()).unwrap_err(),
            set_theme(&source, None).map(|_| ()).unwrap_err(),
            set_theme(&source, Some(&ThemeValue::managed()))
                .map(|_| ())
                .unwrap_err(),
        ] {
            assert_eq!(error.kind(), ErrorKind::InvalidInput);
            assert_eq!(error.message(), "Zed settings are nested too deep");
        }
    }
}

#[test]
fn brackets_in_texts_and_comments_do_not_nest() {
    let many = "[{".repeat(MAXIMUM_NESTING);
    for source in [
        format!("{{\"a\": \"{many}\"}}"),
        format!("{{\"a\": \"\\\"{many}\"}}"),
        format!("// {many}\n{{}}"),
        format!("/* {many} */ {{}}"),
        format!("/* / {many} * */ {{}}"),
        format!("{{\"a\": [{}]}}", "[],".repeat(MAXIMUM_NESTING)),
    ] {
        assert!(nests_shallow(&source));
        assert_eq!(theme_text(&source), None);
    }
    assert!(!nests_shallow(&format!("/* */ {many}")));
    assert!(!nests_shallow(&format!("// a\n{many}")));
    assert!(!nests_shallow(&format!("\"\\\\\"{many}")));
}

#[test]
fn a_theme_that_nests_deep_is_activated() {
    let value = nested_lists(200);
    let mut files = Files::new(&format!("{{\"theme\": {value}}}"));
    files.claim_and_activate("service");
    assert_eq!(theme_text(&files.settings()), Some("\"Omarchy\"".to_owned()));
    let error = files.restore("service").unwrap_err();
    assert!(error
        .message()
        .starts_with("invalid saved Zed theme state: "));
}

#[test]
fn restoration_undoes_activation() {
    for (settings, edited) in [
        ("{\"a\":1}", "{\"a\":2"),
        ("{\n  \"a\": 1,\n  \"theme\": \"One\"\n}\n", "{\n  \"a\": 2"),
        ("{\"a\":1, \"theme\": null}", "{\"a\":2"),
        ("{\"a\":1, \"theme\": [1.5, -0.1, 18446744073709551615]}", "{\"a\":2"),
        ("{\"a\":1, \"theme\": \"Omarchy\"}", "{\"a\":2"),
        ("{\"a\":1, \"theme\": {\"b\": [1, {}]}}", "{\"a\":2"),
    ] {
        let files = HeldFiles {
            claim: Some(b"service\n".to_vec()),
            state: None,
            settings: Some(settings.as_bytes().to_vec()),
        };
        let mut activated = activate_files(files, "service", "settings.json").unwrap();
        let text = String::from_utf8(activated.settings.unwrap()).unwrap();
        assert_eq!(theme_text(&text), Some("\"Omarchy\"".to_owned()));
        assert_eq!(other_values(&text), other_values(settings));
        assert!(parse_state(activated.state.as_ref().unwrap()).unwrap().active);
        let first = &settings[..edited.len()];
        let changed = text.replacen(first, edited, 1);
        activated.settings = Some(changed.clone().into_bytes());
        let restored = restore_files(activated, "service", "settings.json").unwrap();
        let text = String::from_utf8(restored.settings.unwrap()).unwrap();
        assert_eq!(theme_text(&text), theme_text(settings));
        assert_eq!(other_values(&text), other_values(&changed));
        assert_eq!(restored.state, None);
        assert_eq!(restored.claim, Some(b"service\n".to_vec()));
    }
}

#[test]
fn missing_settings_are_made_and_emptied_again() {
    let files = HeldFiles {
        claim: Some(b"service".to_vec()),
        state: None,
        settings: None,
    };
    let activated = activate_files(files, "service", "settings.json").unwrap();
    assert_eq!(
        activated.settings,
        Some(b"{\"theme\": \"Omarchy\"}\n".to_vec())
    );
    let restored = restore_files(activated, "service", "settings.json").unwrap();
    assert_eq!(restored.settings, Some(b"{}\n".to_vec()));
    let error = activate_files(restored, "", "settings.json").unwrap_err();
    assert_eq!(error.message(), "activation owner cannot be empty");
}
