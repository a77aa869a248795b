use bg_rotator::{begin_tick, handle_event, settle_candidate, FolderSelection, ImageIndex, TickAction, WatchEvent};
use bg_rotator::{looks_like_image, INTERVAL_SECS};

fn strings(v: &[&str]) -> Vec<String> {
    v.iter().map(|s| s.to_string()).collect()
}

fn index_of(paths: &[&str]) -> ImageIndex {
    let mut idx = ImageIndex::new();
    for p in paths {
        idx.insert(p.to_string());
    }
    idx
}

fn selection(folders: &[&str]) -> FolderSelection {
    FolderSelection::from_folders("/root".to_string(), strings(folders))
}

#[test]
fn insert_reports_new_paths_once() {
    let mut idx = ImageIndex::new();
    assert!(idx.insert("/root/a/1.jpg".to_string()));
    assert!(!idx.insert("/root/a/1.jpg".to_string()));
    assert_eq!(idx.len(), 1);
    assert!(idx.contains("/root/a/1.jpg"));
}

#[test]
fn remove_is_idempotent() {
    let mut idx = index_of(&["/root/a/1.jpg", "/root/b/2.png"]);
    idx.remove("/root/a/1.jpg");
    assert_eq!(idx.len(), 1);
    assert!(!idx.contains("/root/a/1.jpg"));
    idx.remove("/root/a/1.jpg");
    assert_eq!(idx.len(), 1);
    assert!(idx.contains("/root/b/2.png"));
}

#[test]
fn sample_only_returns_paths_under_selection() {
    let idx = index_of(&["/root/a/1.jpg", "/root/b/2.png"]);
    let sel = selection(&["/root/a"]);
    for _ in 0..50 {
        assert_eq!(idx.sample_matching(&sel), Some("/root/a/1.jpg".to_string()));
    }
}

#[test]
fn sample_returns_some_matching_member() {
    let idx = index_of(&["/root/a/1.jpg", "/root/b/2.png", "/root/c/3.jpg"]);
    let sel = selection(&["/root/a", "/root/c"]);
    for _ in 0..50 {
        let p = idx.sample_matching(&sel).unwrap();
        assert!(p == "/root/a/1.jpg" || p == "/root/c/3.jpg");
    }
}

#[test]
fn sample_none_when_nothing_matches() {
    let idx = index_of(&["/root/a/1.jpg"]);
    assert_eq!(idx.sample_matching(&selection(&["/root/z"])), None);
    assert_eq!(ImageIndex::new().sample_matching(&selection(&["/root"])), None);
}

#[test]
fn pick_matching_wraps_position() {
    let idx = index_of(&["/root/a/1.jpg", "/root/b/2.png", "/root/a/3.jpg"]);
    let sel = selection(&["/root/a"]);
    assert_eq!(idx.candidates(&sel), strings(&["/root/a/1.jpg", "/root/a/3.jpg"]));
    assert_eq!(idx.pick_matching(&sel, 0), Some("/root/a/1.jpg".to_string()));
    assert_eq!(idx.pick_matching(&sel, 1), Some("/root/a/3.jpg".to_string()));
    assert_eq!(idx.pick_matching(&sel, 4), Some("/root/a/1.jpg".to_string()));
    assert_eq!(idx.pick_matching(&selection(&["/x"]), 4), None);
}

#[test]
fn inserting_matching_path_adds_one_candidate() {
    let mut idx = index_of(&["/root/a/1.jpg", "/root/b/2.png"]);
    let sel = selection(&["/root/a"]);
    let before = idx.candidates(&sel).len();
    assert!(idx.insert("/root/a/5.jpg".to_string()));
    assert_eq!(idx.candidates(&sel).len(), before + 1);
    assert!(!idx.insert("/root/a/5.jpg".to_string()));
    assert_eq!(idx.candidates(&sel).len(), before + 1);
}

#[test]
fn listing_builds_normalized_index() {
    let idx = ImageIndex::from_listing("S:\\bg\\a.jpg\nS:/bg/b.png\n\nS:/bg/a.jpg\nS:/bg/jpg_notes.txt\n");
    assert_eq!(idx.len(), 2);
    assert!(!idx.contains("S:/bg/jpg_notes.txt"));
    assert!(idx.contains("S:/bg/a.jpg"));
    assert!(idx.contains("S:/bg/b.png"));
    assert_eq!(ImageIndex::from_listing("").len(), 0);
}

#[test]
fn created_event_inserts_normalized_path() {
    let mut idx = ImageIndex::new();
    let added = handle_event(&mut idx, WatchEvent::Created(strings(&["/root/c\\3.jpg"])));
    assert!(idx.contains("/root/c/3.jpg"));
    assert_eq!(added, strings(&["/root/c/3.jpg"]));
    let again = handle_event(&mut idx, WatchEvent::Created(strings(&["/root/c\\3.jpg"])));
    assert!(again.is_empty());
    assert_eq!(idx.len(), 1);
}

#[test]
fn created_event_skips_non_images() {
    let mut idx = ImageIndex::new();
    let added = handle_event(&mut idx, WatchEvent::Created(strings(&["/root/new_folder", "/root/x.PNG"])));
    assert_eq!(added, strings(&["/root/x.PNG"]));
    assert_eq!(idx.len(), 1);
}

#[test]
fn other_events_change_nothing() {
    let mut idx = index_of(&["/root/a/1.jpg"]);
    assert!(handle_event(&mut idx, WatchEvent::Other).is_empty());
    assert!(handle_event(&mut idx, WatchEvent::Failed).is_empty());
    assert_eq!(idx.len(), 1);
}

#[test]
fn image_names_by_extension() {
    assert!(looks_like_image("/a/b.jpg"));
    assert!(looks_like_image("/a/b.JPG"));
    assert!(looks_like_image("b.png"));
    assert!(!looks_like_image("/a/b.gif"));
    assert!(!looks_like_image("jpg"));
}

#[test]
fn stale_candidate_is_evicted_and_next_sample_succeeds() {
    let mut idx = index_of(&["/root/a/1.jpg", "/root/a/2.jpg"]);
    let sel = selection(&["/root/a"]);
    let action = settle_candidate(&mut idx, "/root/a/1.jpg".to_string(), false);
    assert!(matches!(action, TickAction::Retry));
    assert_eq!(idx.len(), 1);
    assert!(!idx.contains("/root/a/1.jpg"));
    for _ in 0..20 {
        match begin_tick(&idx, &sel) {
            TickAction::Check(p) => assert_eq!(p, "/root/a/2.jpg"),
            _ => panic!("expected a candidate"),
        }
    }
}

#[test]
fn existing_candidate_is_applied() {
    let mut idx = index_of(&["/root/a/1.jpg"]);
    match settle_candidate(&mut idx, "/root/a/1.jpg".to_string(), true) {
        TickAction::Apply(p) => assert_eq!(p, "/root/a/1.jpg"),
        _ => panic!("expected apply"),
    }
    assert_eq!(idx.len(), 1);
}

#[test]
fn empty_candidate_set_backs_off() {
    let idx = index_of(&["/root/b/2.png"]);
    assert!(matches!(begin_tick(&idx, &selection(&["/root/a"])), TickAction::Backoff));
    assert_eq!(INTERVAL_SECS, 10);
}
