use ratatui_kit_contrib::keymap::overrides::{KeyList, KeymapOverrides};
use ratatui_kit_contrib::keymap::{Keymap, KeymapWarning};
use ratatui_kit_contrib::keymap::key::{from_parts, parse_key, KeyCombo, Code, SHIFT, CONTROL};

use crokey::crossterm::event::{KeyCode, KeyEvent, KeyModifiers};

#[derive(Debug, Clone, Copy, PartialEq, Eq)]
enum Action {
    ScrollUp,
    ScrollDown,
    PageDown,
    Quit,
}

fn keymap() -> Keymap<Action> {
    Keymap::builder()
        .bind(Action::ScrollUp, "scroll_up", &["k", "up"])
        .desc(Action::ScrollUp, "向上滚动")
        .bind(Action::ScrollDown, "scroll_down", &["j", "down"])
        .bind(Action::PageDown, "page_down", &["pagedown"])
        .desc(Action::PageDown, "向下翻页")
        .bind(Action::Quit, "quit", &["q"])
        .build()
}

fn key(s: &str) -> crokey::KeyCombination {
    crokey::parse(s).unwrap()
}

fn overrides(pairs: &[(&str, &[&str])]) -> KeymapOverrides {
    let v: Vec<(String, Vec<String>)> = pairs
        .iter()
        .map(|(name, keys)| (name.to_string(), keys.iter().map(|k| k.to_string()).collect()))
        .collect();
    KeymapOverrides::from_pairs(v)
}

#[test]
fn defaults_lookup_and_describe() {
    let km = keymap();
    assert_eq!(km.action_for(key("k")), Some(Action::ScrollUp));
    assert_eq!(km.action_for(key("up")), Some(Action::ScrollUp));
    assert_eq!(km.action_for(key("pagedown")), Some(Action::PageDown));
    assert_eq!(km.action_for(key("x")), None);
    assert_eq!(km.describe(Action::ScrollUp), vec!["k", "Up"]);
    assert_eq!(km.desc(Action::PageDown), Some("向下翻页"));
    let names: Vec<String> = km.entries().iter().map(|e| e.name.to_string()).collect();
    assert_eq!(names, ["scroll_up", "scroll_down", "page_down", "quit"]);
}

#[test]
fn partial_override_replaces_whole_action() {
    let mut km = keymap();
    let warnings = km.merge(overrides(&[("page_down", &["ctrl-d", "space"])]));
    assert!(warnings.is_empty());
    assert_eq!(km.action_for(key("ctrl-d")), Some(Action::PageDown));
    assert_eq!(km.action_for(key("space")), Some(Action::PageDown));
    assert_eq!(km.action_for(key("pagedown")), None);
    assert_eq!(km.action_for(key("j")), Some(Action::ScrollDown));
    assert_eq!(km.describe(Action::PageDown), vec!["Ctrl-d", "Space"]);
}

#[test]
fn parse_error_falls_back_to_default() {
    let mut km = keymap();
    let warnings = km.merge(overrides(&[("page_down", &["ctrl-"])]));
    assert_eq!(warnings.len(), 1);
    assert!(matches!(
        &warnings[0],
        KeymapWarning::ParseError { action, input, .. }
            if action == "page_down" && input == "ctrl-"
    ));
    assert_eq!(km.action_for(key("pagedown")), Some(Action::PageDown));
}

#[test]
fn unknown_action_is_ignored() {
    let mut km = keymap();
    let warnings = km.merge(overrides(&[("page_dwon", &["ctrl-d"])]));
    assert_eq!(warnings, vec![KeymapWarning::UnknownAction { name: "page_dwon".into() }]);
    assert_eq!(km.action_for(key("pagedown")), Some(Action::PageDown));
}

#[test]
fn conflicting_overrides_revert_to_defaults() {
    let mut km = keymap();
    let warnings = km.merge(overrides(&[("page_down", &["ctrl-d"]), ("quit", &["ctrl-d"])]));
    assert!(matches!(&warnings[..], [KeymapWarning::Conflict { actions, .. }]
        if actions.contains(&"page_down".to_string()) && actions.contains(&"quit".to_string())));
    assert_eq!(km.action_for(key("pagedown")), Some(Action::PageDown));
    assert_eq!(km.action_for(key("q")), Some(Action::Quit));
    assert_eq!(km.action_for(key("ctrl-d")), None);
}

#[test]
fn override_conflicting_with_default_reverts_override_only() {
    let mut km = keymap();
    let warnings = km.merge(overrides(&[("quit", &["j"])]));
    assert_eq!(warnings.len(), 1);
    assert_eq!(km.action_for(key("j")), Some(Action::ScrollDown));
    assert_eq!(km.action_for(key("q")), Some(Action::Quit));
}

#[test]
fn chained_revert_converges() {
    let mut km = keymap();
    let warnings = km.merge(overrides(&[("quit", &["j"]), ("page_down", &["q"])]));
    assert_eq!(warnings.len(), 2);
    assert_eq!(km.action_for(key("j")), Some(Action::ScrollDown));
    assert_eq!(km.action_for(key("q")), Some(Action::Quit));
    assert_eq!(km.action_for(key("pagedown")), Some(Action::PageDown));
}

#[test]
fn empty_override_unbinds_action() {
    let mut km = keymap();
    let warnings = km.merge(overrides(&[("quit", &[])]));
    assert!(warnings.is_empty());
    assert_eq!(km.action_for(key("q")), None);
    assert!(km.keys(Action::Quit).is_empty());
}

#[test]
fn duplicate_keys_in_override_are_deduplicated() {
    let mut km = keymap();
    let warnings = km.merge(overrides(&[("page_down", &["ctrl-d", "ctrl-d"])]));
    assert!(warnings.is_empty(), "got: {warnings:?}");
    assert_eq!(km.action_for(key("ctrl-d")), Some(Action::PageDown));
    assert_eq!(km.keys(Action::PageDown).len(), 1);
}

#[test]
fn parse_error_reverts_to_defaults_across_layered_merges() {
    let mut km = keymap();
    assert!(km.merge(overrides(&[("quit", &["x"])])).is_empty());
    let warnings = km.merge(overrides(&[("quit", &["ctrl-"])]));
    assert_eq!(warnings.len(), 1);
    assert_eq!(km.action_for(key("q")), Some(Action::Quit));
    assert_eq!(km.action_for(key("x")), None);
}

#[test]
fn uppercase_letter_implies_shift() {
    let mut km = keymap();
    let warnings = km.merge(overrides(&[("page_down", &["G"])]));
    assert!(warnings.is_empty());
    let shift_g = KeyEvent::new(KeyCode::Char('G'), KeyModifiers::SHIFT);
    assert_eq!(km.action_for(shift_g.into()), Some(Action::PageDown));
    assert_eq!(km.action_for(key("g")), None);
}

#[test]
fn chord_override_is_rejected_with_warning() {
    let mut km = keymap();
    let warnings = km.merge(overrides(&[("page_down", &["g-g"])]));
    assert!(matches!(&warnings[..], [KeymapWarning::ParseError { message, .. }]
        if message.contains("multi-key")));
    assert_eq!(km.action_for(key("pagedown")), Some(Action::PageDown));
}

#[test]
fn shifted_punctuation_matches_windows_events() {
    let mut km = keymap();
    let warnings = km.merge(overrides(&[("quit", &["?"])]));
    assert!(warnings.is_empty());
    let win_question = KeyEvent::new(KeyCode::Char('?'), KeyModifiers::SHIFT);
    assert_eq!(km.action_for(win_question.into()), Some(Action::Quit));
    let plain_question = KeyEvent::new(KeyCode::Char('?'), KeyModifiers::NONE);
    assert_eq!(km.action_for(plain_question.into()), Some(Action::Quit));
}

#[test]
fn shift_letters_are_normalized() {
    let mut km = keymap();
    let warnings = km.merge(overrides(&[("page_down", &["shift-g"])]));
    assert!(warnings.is_empty());
    let event = KeyEvent::new(KeyCode::Char('G'), KeyModifiers::SHIFT);
    assert_eq!(km.action_for(event.into()), Some(Action::PageDown));
}

#[test]
fn try_bind_refuses_invalid_declarations() {
    let b = Keymap::<Action>::builder().bind(Action::Quit, "quit", &["q"]);
    let b = match b.try_bind(Action::Quit, "quit", &["x"]) {
        Ok(_) => panic!("an action bound twice must be refused"),
        Err(b) => b,
    };
    let b = match b.try_bind(Action::PageDown, "page_down", &["ctrl-"]) {
        Ok(_) => panic!("an unparsable key must be refused"),
        Err(b) => b,
    };
    let b = match b.try_bind(Action::PageDown, "page_down", &["g-g"]) {
        Ok(_) => panic!("a chord must be refused"),
        Err(b) => b,
    };
    let b = match b.try_bind(Action::PageDown, "page_down", &[]) {
        Ok(_) => panic!("an empty key list must be refused"),
        Err(b) => b,
    };
    let km = b.build();
    assert_eq!(km.entries().len(), 1);
    assert_eq!(km.action_for(key("q")), Some(Action::Quit));
}

#[test]
fn repeated_default_keys_are_kept_once() {
    let km = Keymap::<Action>::builder().bind(Action::Quit, "quit", &["q", "q"]).build();
    assert_eq!(km.keys(Action::Quit).len(), 1);
}

#[test]
fn invalid_entry_falls_back_to_defaults() {
    let mut km = keymap();
    km.merge(overrides(&[("quit", &["x"])]));
    let mut ov = KeymapOverrides::new();
    ov.insert("quit".to_string(), KeyList::Invalid);
    let warnings = km.merge(ov);
    assert_eq!(warnings, vec![KeymapWarning::InvalidEntry { action: "quit".into() }]);
    assert_eq!(km.action_for(key("q")), Some(Action::Quit));
    assert_eq!(km.action_for(key("x")), None);
}

#[test]
fn overrides_are_merged_in_name_order() {
    let mut km = keymap();
    let warnings = km.merge(overrides(&[("zeta", &["a"]), ("alpha", &["b"])]));
    assert_eq!(
        warnings,
        vec![
            KeymapWarning::UnknownAction { name: "alpha".into() },
            KeymapWarning::UnknownAction { name: "zeta".into() },
        ]
    );
}

#[test]
fn later_insert_of_the_same_name_replaces_the_value() {
    let mut ov = KeymapOverrides::new();
    ov.insert("quit".to_string(), KeyList::One("x".to_string()));
    ov.insert("quit".to_string(), KeyList::One("y".to_string()));
    assert_eq!(ov.len(), 1);
    let mut km = keymap();
    assert!(km.merge(ov).is_empty());
    assert_eq!(km.action_for(key("y")), Some(Action::Quit));
    assert_eq!(km.action_for(key("x")), None);
}

#[test]
fn parse_key_normalizes_letters_and_punctuation() {
    let upper = parse_key("G").unwrap();
    assert_eq!(upper, KeyCombo { code: Code::Char('G'), modifiers: SHIFT });
    let ctrl_d = parse_key("ctrl-d").unwrap();
    assert_eq!(ctrl_d, KeyCombo { code: Code::Char('d'), modifiers: CONTROL });
    let question = parse_key("shift-?").unwrap();
    assert_eq!(question, KeyCombo { code: Code::Char('?'), modifiers: 0 });
    assert!(parse_key("ctrl-").is_err());
    assert!(parse_key("g-g").unwrap_err().contains("multi-key"));
}

#[test]
fn action_for_key_looks_up_canonical_keys() {
    let km = keymap();
    let k = KeyCombo { code: Code::Char('k'), modifiers: 0 };
    assert_eq!(km.action_for_key(&k), Some(Action::ScrollUp));
    let shifted_j = KeyCombo { code: Code::Char('j'), modifiers: SHIFT };
    assert_eq!(km.action_for_key(&shifted_j), None);
}

#[test]
fn try_build_reports_a_default_key_bound_twice() {
    let b = Keymap::<Action>::builder()
        .bind(Action::ScrollUp, "scroll_up", &["k"])
        .bind(Action::ScrollDown, "scroll_down", &["j", "k"]);
    match b.try_build() {
        Ok(_) => panic!("conflicting defaults must be refused"),
        Err((key, first, second)) => {
            assert_eq!(key, KeyCombo { code: Code::Char('k'), modifiers: 0 });
            assert_eq!(first, "scroll_up");
            assert_eq!(second, "scroll_down");
        }
    }
    assert!(keymap_builder_ok().try_build().is_ok());
}

fn keymap_builder_ok() -> ratatui_kit_contrib::keymap::KeymapBuilder<Action> {
    Keymap::builder().bind(Action::Quit, "quit", &["q"]).bind(Action::PageDown, "page_down", &["pagedown"])
}

#[test]
fn try_desc_needs_a_bound_action() {
    assert!(keymap_builder_ok().try_desc(Action::ScrollUp, "up").is_err());
    let km = match keymap_builder_ok().try_desc(Action::Quit, "leave") {
        Ok(b) => b.build(),
        Err(_) => panic!("quit is bound"),
    };
    assert_eq!(km.desc(Action::Quit), Some("leave"));
    assert_eq!(km.desc(Action::PageDown), None);
}

#[test]
fn warning_messages_name_the_problem() {
    let mut km = keymap();
    let warnings = km.merge(overrides(&[("page_down", &["ctrl-d"]), ("quit", &["ctrl-d"]), ("typo", &["x"])]));
    let messages: Vec<String> = warnings.iter().map(|w| w.message()).collect();
    assert_eq!(
        messages,
        vec![
            "unknown action \"typo\"; entry ignored".to_string(),
            "key \"Ctrl-d\" bound to several actions (page_down, quit); overridden ones reverted to defaults".to_string(),
        ]
    );
    let parse = KeymapWarning::ParseError {
        action: "quit".to_string(),
        input: "ctrl-".to_string(),
        message: "bad".to_string(),
    };
    assert_eq!(parse.message(), "invalid key \"ctrl-\" for action \"quit\" (bad); using default keys");
    let invalid = KeymapWarning::InvalidEntry { action: "quit".to_string() };
    assert_eq!(
        invalid.message(),
        "invalid value for action \"quit\": expected a key string or a list of key strings; using default keys"
    );
}

#[test]
fn only_key_presses_dispatch() {
    let km = keymap();
    assert_eq!(km.action_for_event(true, key("q")), Some(Action::Quit));
    assert_eq!(km.action_for_event(false, key("q")), None);
    assert_eq!(km.action_for_event(true, key("x")), None);
}

#[test]
fn key_names_use_crokeys_standard_format() {
    assert_eq!(parse_key("ctrl-d").unwrap().name(), "Ctrl-d");
    assert_eq!(parse_key("pagedown").unwrap().name(), "PageDown");
    assert_eq!(parse_key("up").unwrap().name(), "Up");
}

#[test]
fn crokey_parts_make_canonical_single_keys() {
    assert_eq!(from_parts(Code::Char('g'), 1, SHIFT), Some(KeyCombo { code: Code::Char('G'), modifiers: SHIFT }));
    assert_eq!(from_parts(Code::Char('?'), 1, SHIFT), Some(KeyCombo { code: Code::Char('?'), modifiers: 0 }));
    assert_eq!(from_parts(Code::Char('g'), 2, 0), None);
}

#[test]
fn describe_with_uses_the_given_format() {
    let mut km = keymap();
    km.merge(overrides(&[("page_down", &["ctrl-d", "space"])]));
    let lower = crokey::KeyCombinationFormat::default().with_lowercase_modifiers();
    assert_eq!(km.describe_with(&lower, Action::PageDown), vec!["ctrl-d", "Space"]);
    let custom = crokey::KeyCombinationFormat::default().with_control("^");
    assert_eq!(km.describe_with(&custom, Action::PageDown), vec!["^d", "Space"]);
    assert_eq!(km.describe_with(&custom, Action::PageDown).len(), km.keys(Action::PageDown).len());
    assert!(km.describe_with(&custom, Action::ScrollUp) != Vec::<String>::new());
}

#[test]
fn chord_combinations_dispatch_to_nothing() {
    let km = keymap();
    let chord = crokey::parse("k-j").unwrap();
    assert_eq!(km.action_for(chord), None);
    assert_eq!(km.action_for_event(true, chord), None);
    assert_eq!(km.action_for(key("k")), Some(Action::ScrollUp));
}

#[test]
fn dispatch_after_merge_follows_the_key_lists() {
    let mut km = keymap();
    km.merge(overrides(&[("quit", &["x", "ctrl-c"]), ("scroll_up", &["j"])]));
    // scroll_up's override clashes with scroll_down's default `j` and reverts.
    assert_eq!(km.keys(Action::ScrollUp), &[parse_key("k").unwrap(), parse_key("up").unwrap()][..]);
    for action in [Action::ScrollUp, Action::ScrollDown, Action::PageDown, Action::Quit] {
        for k in km.keys(action).to_vec() {
            assert_eq!(km.action_for_key(&k), Some(action));
        }
    }
    assert_eq!(km.action_for(key("x")), Some(Action::Quit));
    assert_eq!(km.action_for(key("q")), None);
    let names: Vec<String> = km.entries().iter().map(|e| e.name.to_string()).collect();
    assert_eq!(names, ["scroll_up", "scroll_down", "page_down", "quit"]);
}

#[test]
fn builder_knows_which_actions_are_bound() {
    let b = keymap_builder_ok();
    assert!(b.has_action(Action::Quit));
    assert!(b.has_action(Action::PageDown));
    assert!(!b.has_action(Action::ScrollUp));
}
