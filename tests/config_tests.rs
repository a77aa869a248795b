use bg_rotator::{append_query, folders_from_listing, folders_from_search, initial_selection, parse_command};
use bg_rotator::{selection_from_json, selection_to_json, ConfigError, InputAction};

fn strings(v: &[&str]) -> Vec<String> {
    v.iter().map(|s| s.to_string()).collect()
}

#[test]
fn selection_encodes_as_json_array() {
    assert_eq!(selection_to_json(&strings(&["/root/a", "/root/b"])).unwrap(), "[\"/root/a\",\"/root/b\"]");
}

#[test]
fn selection_decodes_from_json() {
    let sel = selection_from_json("[\"/root/a\", \"/root/b\"]", "/root".to_string()).unwrap();
    assert_eq!(sel.query_selection(), strings(&["/root/a", "/root/b"]));
    let sel = selection_from_json("[]", "/root".to_string()).unwrap();
    assert_eq!(sel.query_selection(), strings(&["/root"]));
}

#[test]
fn bad_json_is_a_decode_error() {
    assert_eq!(selection_from_json("nope", "/root".to_string()).err(), Some(ConfigError::Decode));
    assert_eq!(selection_from_json("[1, 2]", "/root".to_string()).err(), Some(ConfigError::Decode));
}

#[test]
fn missing_store_starts_at_root() {
    let sel = initial_selection(None, "/root".to_string()).unwrap();
    assert_eq!(sel.query_selection(), strings(&["/root"]));
    let sel = initial_selection(Some("[\"/root/x\"]"), "/root".to_string()).unwrap();
    assert_eq!(sel.query_selection(), strings(&["/root/x"]));
}

#[test]
fn commands_are_read_from_trimmed_line() {
    assert!(matches!(parse_command(".\n"), InputAction::SetRoot));
    assert!(matches!(parse_command(" / "), InputAction::SetRoot));
    assert!(matches!(parse_command("c"), InputAction::PrintCurrent));
    assert!(matches!(parse_command("p\r\n"), InputAction::PrintCurrent));
    assert!(matches!(parse_command("r"), InputAction::ReloadWallpapers));
    assert!(matches!(parse_command("e"), InputAction::EditCurrent));
    assert!(matches!(parse_command("  \n"), InputAction::Nop));
    match parse_command("a   nature \n") {
        InputAction::AppendSelection(q) => {
            assert_eq!(q, "a   nature");
            assert_eq!(append_query(&q), "nature");
        }
        _ => panic!("expected append"),
    }
    match parse_command(" city lights\n") {
        InputAction::ChooseFolders(q) => assert_eq!(q, "city lights"),
        _ => panic!("expected choose"),
    }
    match parse_command("ab") {
        InputAction::ChooseFolders(q) => assert_eq!(q, "ab"),
        _ => panic!("expected choose"),
    }
}

#[test]
fn append_query_trims_text_after_command() {
    assert_eq!(append_query("a  city \t"), "city");
    assert_eq!(append_query("a "), "");
}

#[test]
fn listing_gives_sorted_folders_with_root() {
    let folders = folders_from_listing("S:\\bg\\b\nS:/bg/a\n \n", "S:/bg");
    assert_eq!(folders, strings(&["S:/bg", "S:/bg/a", "S:/bg/b"]));
    assert_eq!(folders_from_listing("", "S:/bg"), strings(&["S:/bg"]));
}

#[test]
fn search_output_is_split_and_normalized() {
    assert_eq!(folders_from_search("  S:\\bg\\a\nS:/bg/b\n"), strings(&["S:/bg/a", "S:/bg/b"]));
    assert_eq!(folders_from_search("S:\\bg\\only\n"), strings(&["S:/bg/only"]));
}
