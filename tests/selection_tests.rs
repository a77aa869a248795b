use bg_rotator::{FolderSelection, LineSplitter};
use bg_rotator::{is_blank, normalize_path, split_lines, starts_with, trim};

fn strings(v: &[&str]) -> Vec<String> {
    v.iter().map(|s| s.to_string()).collect()
}

fn selection(folders: &[&str]) -> FolderSelection {
    FolderSelection::from_folders("/root".to_string(), strings(folders))
}

#[test]
fn normalize_turns_backslashes_into_slashes() {
    assert_eq!(normalize_path("/root/c\\3.jpg"), "/root/c/3.jpg");
    assert_eq!(normalize_path("S:\\a\\b"), "S:/a/b");
    assert_eq!(normalize_path("/plain/path"), "/plain/path");
}

#[test]
fn starts_with_compares_prefixes() {
    assert!(starts_with("/root/a/1.jpg", "/root/a"));
    assert!(starts_with("/root/a/1.jpg", ""));
    assert!(!starts_with("/root/b/2.png", "/root/a"));
    assert!(!starts_with("/root", "/root/a"));
}

#[test]
fn blank_means_only_white_space() {
    assert!(is_blank(""));
    assert!(is_blank(" \t\n"));
    assert!(is_blank("\u{3000}"));
    assert!(!is_blank(" a "));
}

#[test]
fn trim_drops_outer_white_space() {
    assert_eq!(trim("  a b \n"), "a b");
    assert_eq!(trim("   "), "");
    assert_eq!(trim("x"), "x");
}

#[test]
fn split_lines_keeps_every_piece() {
    assert_eq!(split_lines("a\nb\n"), strings(&["a", "b", ""]));
    assert_eq!(split_lines(""), strings(&[""]));
    assert_eq!("one\ntwo".split_lines(), strings(&["one", "two"]));
}

#[test]
fn blank_submission_selects_root() {
    let mut sel = selection(&["/root/a", "/root/b"]);
    sel.replace_selection(strings(&["", ""]));
    assert_eq!(sel.query_selection(), strings(&["/root"]));
}

#[test]
fn empty_or_white_submission_selects_root() {
    let mut sel = selection(&["/root/a"]);
    sel.replace_selection(Vec::new());
    assert_eq!(sel.query_selection(), strings(&["/root"]));
    let mut sel = selection(&["/root/a"]);
    sel.replace_selection(strings(&[" ", "\t"]));
    assert_eq!(sel.query_selection(), strings(&["/root"]));
}

#[test]
fn replace_keeps_submission_as_given() {
    let mut sel = selection(&["/root/a"]);
    sel.replace_selection(strings(&["/root/c", "", "/root/b"]));
    assert_eq!(sel.query_selection(), strings(&["/root/c", "", "/root/b"]));
    assert_eq!(sel.root(), "/root");
}

#[test]
fn append_unions_without_duplicates() {
    let mut sel = selection(&["/root/b", "/root/a", "/root/b"]);
    sel.append_selection(strings(&["/root/c", "/root/a"]));
    assert_eq!(sel.query_selection(), strings(&["/root/a", "/root/b", "/root/c"]));
}

#[test]
fn append_result_is_sorted() {
    let mut sel = selection(&["/root/b"]);
    sel.append_selection(strings(&["/root/a"]));
    assert_eq!(sel.query_selection(), strings(&["/root/a", "/root/b"]));
    let mut sel = selection(&["/root/b"]);
    sel.append_selection(strings(&["/root/a", "/root/b"]));
    assert_eq!(sel.query_selection(), strings(&["/root/a", "/root/b"]));
}

#[test]
fn append_twice_equals_append_once() {
    let mut once = selection(&["/root/a"]);
    once.append_selection(strings(&["/root/b", "/root/c", "/root/b"]));
    let mut twice = selection(&["/root/a"]);
    twice.append_selection(strings(&["/root/b", "/root/c", "/root/b"]));
    twice.append_selection(strings(&["/root/b", "/root/c", "/root/b"]));
    assert_eq!(once.query_selection(), twice.query_selection());
    assert_eq!(once.query_selection(), strings(&["/root/a", "/root/b", "/root/c"]));
}

#[test]
fn append_blank_adds_root() {
    let mut sel = selection(&["/root/a"]);
    sel.append_selection(strings(&[""]));
    assert_eq!(sel.query_selection(), strings(&["/root", "/root/a"]));
}

#[test]
fn plans_leave_selection_untouched() {
    let sel = selection(&["/root/a"]);
    assert_eq!(sel.plan_append(strings(&["/root/b"])), strings(&["/root/a", "/root/b"]));
    assert_eq!(sel.plan_replace(strings(&["/root/b"])), strings(&["/root/b"]));
    assert_eq!(sel.query_selection(), strings(&["/root/a"]));
    let mut sel = sel;
    sel.commit(strings(&["/root/z"]));
    assert_eq!(sel.query_selection(), strings(&["/root/z"]));
}

#[test]
fn covers_checks_every_prefix() {
    let sel = selection(&["/root/a", "/root/b"]);
    assert!(sel.covers("/root/b/2.png"));
    assert!(!sel.covers("/root/c/3.jpg"));
    let root = FolderSelection::new("/root".to_string());
    assert!(root.covers("/root/c/3.jpg"));
}
