use ratatui_kit_contrib::keymap::overrides::{KeyList, KeymapOverrides};
use ratatui_kit_contrib::keymap::{Keymap, KeymapWarning};

#[derive(Debug, Clone, Copy, PartialEq, Eq)]
enum Action {
    PageDown,
    Quit,
}

fn keymap() -> Keymap<Action> {
    Keymap::builder()
        .bind(Action::PageDown, "page_down", &["pagedown"])
        .desc(Action::PageDown, "scroll one page down")
        .bind(Action::Quit, "quit", &["q"])
        .build()
}

fn key(s: &str) -> crokey::KeyCombination {
    crokey::parse(s).unwrap()
}

/// Overrides from a TOML table: a string is one key, an array of strings
/// a key list, anything else an invalid entry.
fn overrides_from_table(table: toml::Table) -> KeymapOverrides {
    let mut ov = KeymapOverrides::new();
    for (name, value) in table {
        let keys = match value {
            toml::Value::String(s) => KeyList::One(s),
            toml::Value::Array(items) => {
                let strings: Option<Vec<String>> =
                    items.into_iter().map(|v| v.as_str().map(|s| s.to_string())).collect();
                match strings {
                    Some(v) => KeyList::Many(v),
                    None => KeyList::Invalid,
                }
            }
            _ => KeyList::Invalid,
        };
        ov.insert(name, keys);
    }
    ov
}

fn merge_toml_str(km: &mut Keymap<Action>, input: &str) -> Result<Vec<KeymapWarning>, toml::de::Error> {
    let table: toml::Table = toml::from_str(input)?;
    Ok(km.merge(overrides_from_table(table)))
}

#[test]
fn merges_list_and_single_string_forms() {
    let mut km = keymap();
    let warnings = merge_toml_str(&mut km, "page_down = [\"ctrl-d\", \"space\"]\nquit = \"esc\"\n").unwrap();
    assert!(warnings.is_empty());
    assert_eq!(km.action_for(key("ctrl-d")), Some(Action::PageDown));
    assert_eq!(km.action_for(key("esc")), Some(Action::Quit));
    assert_eq!(km.action_for(key("q")), None);
}

#[test]
fn broken_toml_is_an_error() {
    assert!(merge_toml_str(&mut keymap(), "page_down = [").is_err());
}

#[test]
fn wrong_typed_entry_is_entry_level_warning() {
    let mut km = keymap();
    let warnings = merge_toml_str(&mut km, "page_down = \"ctrl-d\"\nquit = 5\n").unwrap();
    assert!(matches!(&warnings[..], [KeymapWarning::InvalidEntry { action }] if action == "quit"));
    assert_eq!(km.action_for(key("ctrl-d")), Some(Action::PageDown));
    assert_eq!(km.action_for(key("q")), Some(Action::Quit));
}

#[test]
fn wrong_typed_entry_in_table_form() {
    let mut km = keymap();
    let table: toml::Table = toml::from_str("page_down = \"ctrl-d\"\nquit = 5\n").unwrap();
    let warnings = km.merge(overrides_from_table(table));
    assert_eq!(warnings.len(), 1);
    assert_eq!(km.action_for(key("ctrl-d")), Some(Action::PageDown));
}

#[test]
fn entry_level_problems_become_warnings() {
    let mut km = keymap();
    let warnings = merge_toml_str(&mut km, "page_down = [\"ctrl-\"]\ntypo_action = \"x\"\n").unwrap();
    assert_eq!(warnings.len(), 2);
    assert!(warnings.iter().any(|w| matches!(w, KeymapWarning::ParseError { .. })));
    assert!(warnings.iter().any(|w| matches!(w, KeymapWarning::UnknownAction { .. })));
    assert_eq!(km.action_for(key("pagedown")), Some(Action::PageDown));
}

#[test]
fn example_lists_all_actions_with_desc() {
    let example = keymap().to_toml_example();
    for name in ["page_down", "quit"] {
        assert!(example.contains(&format!("{name} = [")), "missing {name} in:\n{example}");
    }
    assert!(example.contains("# scroll one page down"));
    assert!(example.contains("\"PageDown\"") || example.contains("\"pagedown\""));
}

#[test]
fn example_escapes_toml_special_keys() {
    let km = Keymap::<Action>::builder()
        .bind(Action::Quit, "quit", &["\""])
        .bind(Action::PageDown, "page_down", &["pagedown"])
        .build();
    let example = km.to_toml_example();
    let mut km2 = keymap();
    assert!(merge_toml_str(&mut km2, &example).unwrap().is_empty(), "{example}");
}

#[test]
fn example_round_trips_without_warnings() {
    let example = keymap().to_toml_example();
    let mut km = keymap();
    let warnings = merge_toml_str(&mut km, &example).unwrap();
    assert!(warnings.is_empty(), "example must round-trip cleanly, got: {warnings:?}\n{example}");
    assert_eq!(km.action_for(key("pagedown")), Some(Action::PageDown));
    assert_eq!(km.action_for(key("q")), Some(Action::Quit));
}

#[test]
fn example_is_exactly_the_commented_defaults() {
    let example = keymap().to_toml_example();
    assert_eq!(example, "# scroll one page down\npage_down = [\"PageDown\"]\n\nquit = [\"q\"]\n\n");
}

#[test]
fn example_quotes_names_that_are_not_bare_keys() {
    let km = Keymap::<Action>::builder().bind(Action::Quit, "quit now", &["q"]).build();
    assert_eq!(km.to_toml_example(), "\"quit now\" = [\"q\"]\n\n");
}

#[test]
fn multi_line_descriptions_become_comment_lines() {
    let km = Keymap::<Action>::builder()
        .bind(Action::Quit, "quit", &["q"])
        .desc(Action::Quit, "leave\r\nthe app")
        .build();
    assert_eq!(km.to_toml_example(), "# leave\n# the app\nquit = [\"q\"]\n\n");
}
