use watchdiff::engine::{CaptureError, Engine};
use watchdiff::events::{ChangeKind, Cmd, RequestEvent, ResponseEvent};
use watchdiff::events::{command_to_event, BusEvent};

fn sorted(mut v: Vec<String>) -> Vec<String> {
    v.sort();
    v
}

fn watched_list(engine: &Engine) -> Vec<String> {
    match engine.handle_request(&RequestEvent::WatchedFileList()) {
        ResponseEvent::WatchedFileList(paths) => paths,
        _ => panic!("expected a watched-file-list response"),
    }
}

fn diffs_for(engine: &Engine, path: &str) -> Vec<watchdiff::models::FileDiff> {
    match engine.handle_request(&RequestEvent::SelectFile(path.to_string())) {
        ResponseEvent::SelectFile(diffs) => diffs,
        _ => panic!("expected a select-file response"),
    }
}

#[test]
fn watch_set_follows_last_command() {
    let mut engine = Engine::new();
    engine.handle_update_watched(&vec!["/a".to_string(), "/b".to_string()]);
    assert_eq!(sorted(watched_list(&engine)), vec!["/a".to_string(), "/b".to_string()]);

    engine.handle_update_watched(&vec!["/b".to_string(), "/c".to_string()]);
    assert_eq!(sorted(watched_list(&engine)), vec!["/b".to_string(), "/c".to_string()]);

    // Re-sending the same list is a no-op in effect.
    let (to_add, to_remove) =
        engine.handle_update_watched(&vec!["/b".to_string(), "/c".to_string()]);
    assert!(to_add.is_empty());
    assert!(to_remove.is_empty());
    assert_eq!(sorted(watched_list(&engine)), vec!["/b".to_string(), "/c".to_string()]);

    // Duplicates in a command collapse: the watch set holds each path once.
    engine.handle_update_watched(&vec!["/d".to_string(), "/d".to_string()]);
    assert_eq!(watched_list(&engine), vec!["/d".to_string()]);
}

#[test]
fn snapshot_exists_after_add() {
    let mut engine = Engine::new();
    engine.handle_update_watched(&vec!["/a.txt".to_string()]);
    let id = engine
        .handle_added_to_watch(&"/a.txt".to_string(), &b"hello".to_vec(), 1_000)
        .unwrap();
    let (snap_id, content) = engine.latest_snapshot(&"/a.txt".to_string()).unwrap();
    assert_eq!(snap_id, id);
    assert_eq!(content, b"hello".to_vec());
}

#[test]
fn re_adding_a_path_replaces_the_stale_snapshot() {
    let mut engine = Engine::new();
    let path = "/a.txt".to_string();
    let first = engine.handle_added_to_watch(&path, &b"v1".to_vec(), 1).unwrap();
    let second = engine.handle_added_to_watch(&path, &b"v2".to_vec(), 2).unwrap();
    assert_ne!(first, second);
    let (snap_id, content) = engine.latest_snapshot(&path).unwrap();
    assert_eq!(snap_id, second);
    assert_eq!(content, b"v2".to_vec());
}

#[test]
fn capture_without_snapshot_fails_with_missing_source() {
    let mut engine = Engine::new();
    let r = engine.capture(&"/nowhere".to_string(), &b"data".to_vec(), ChangeKind::Modified, 1);
    assert_eq!(r, Err(CaptureError::MissingSource));
    // The failed capture left nothing behind.
    assert!(diffs_for(&engine, "/nowhere").is_empty());
}

#[test]
fn capture_after_removal_fails_with_missing_source() {
    let mut engine = Engine::new();
    let path = "/a.txt".to_string();
    engine.handle_added_to_watch(&path, &b"hello".to_vec(), 1).unwrap();
    engine.handle_removed_from_watch(&path);
    let r = engine.capture(&path, &b"hello!".to_vec(), ChangeKind::Modified, 2);
    assert_eq!(r, Err(CaptureError::MissingSource));
}

#[test]
fn recent_diffs_capped_at_five_and_newest_first() {
    let mut engine = Engine::new();
    let path = "/a.txt".to_string();
    engine.handle_added_to_watch(&path, &b"base".to_vec(), 0).unwrap();
    for (i, ts) in [10i64, 30, 20, 70, 50, 60, 40].iter().enumerate() {
        let contents = format!("content {i}").into_bytes();
        engine.capture(&path, &contents, ChangeKind::Modified, *ts).unwrap();
    }
    let diffs = diffs_for(&engine, "/a.txt");
    assert_eq!(diffs.len(), 5);
    let timestamps: Vec<i64> = diffs.iter().map(|d| d.timestamp).collect();
    assert_eq!(timestamps, vec![70, 60, 50, 40, 30]);
    for d in &diffs {
        assert_eq!(d.file_path, "/a.txt");
        assert!(d.id.is_some());
    }
}

#[test]
fn scenario_add_then_modify_round_trips() {
    // Watch set {} -> AddWatchedFiles(["/a.txt"]) with "/a.txt" holding "hello".
    let mut engine = Engine::new();
    let cmd = Cmd::AddWatchedFiles {
        watched_files: vec!["/a.txt".to_string()],
        callback: String::new(),
        error: String::new(),
    };
    let event = command_to_event(cmd);
    let desired = match event {
        BusEvent::UpdateWatched(paths) => paths,
        _ => panic!("expected an update-watched event"),
    };
    let (to_add, to_remove) = engine.handle_update_watched(&desired);
    assert_eq!(to_add, vec!["/a.txt".to_string()]);
    assert!(to_remove.is_empty());

    let path = "/a.txt".to_string();
    engine.handle_added_to_watch(&path, &b"hello".to_vec(), 1).unwrap();
    let (_, snapshot) = engine.latest_snapshot(&path).unwrap();
    assert_eq!(snapshot, b"hello".to_vec());

    // A modification to "hello world" creates one diff referencing the snapshot.
    engine.capture(&path, &b"hello world".to_vec(), ChangeKind::Modified, 2).unwrap();
    let diffs = diffs_for(&engine, "/a.txt");
    assert_eq!(diffs.len(), 1);
    let diff = &diffs[0];
    let (snap_id, _) = engine.latest_snapshot(&path).unwrap();
    assert_eq!(diff.original_file_id, Some(snap_id));
    assert_eq!(diff.change_event, "modified");
    assert_eq!(diff.timestamp, 2);

    // Applying the diff to "hello" yields "hello world", byte for byte.
    let rebuilt = engine.reconstruct_change(diff).unwrap();
    assert_eq!(rebuilt, b"hello world".to_vec());
}

#[test]
fn diff_round_trip_on_binary_content() {
    let mut engine = Engine::new();
    let path = "/blob".to_string();
    let before: Vec<u8> = vec![0, 159, 146, 150, b'\n', 0xff, 0xfe, b'\n'];
    let after: Vec<u8> = vec![0, 159, 146, 150, b'\n', 1, 2, 3, b'\n', 0xff];
    engine.handle_added_to_watch(&path, &before, 1).unwrap();
    engine.capture(&path, &after, ChangeKind::Modified, 2).unwrap();
    let diffs = diffs_for(&engine, "/blob");
    assert_eq!(diffs.len(), 1);
    let rebuilt = engine.reconstruct_change(&diffs[0]).unwrap();
    assert_eq!(rebuilt, after);
}

#[test]
fn capture_leaves_the_snapshot_unchanged() {
    let mut engine = Engine::new();
    let path = "/a.txt".to_string();
    let id = engine.handle_added_to_watch(&path, &b"base".to_vec(), 1).unwrap();
    engine.capture(&path, &b"changed".to_vec(), ChangeKind::Modified, 2).unwrap();
    let (snap_id, content) = engine.latest_snapshot(&path).unwrap();
    assert_eq!(snap_id, id);
    assert_eq!(content, b"base".to_vec());
}

#[test]
fn scenario_removal_clears_all_records() {
    // Watch set {"/a.txt", "/b.txt"} -> AddWatchedFiles(["/b.txt"]).
    let mut engine = Engine::new();
    engine.handle_update_watched(&vec!["/a.txt".to_string(), "/b.txt".to_string()]);
    engine.handle_added_to_watch(&"/a.txt".to_string(), &b"aaa".to_vec(), 1).unwrap();
    engine.handle_added_to_watch(&"/b.txt".to_string(), &b"bbb".to_vec(), 1).unwrap();
    engine.capture(&"/a.txt".to_string(), &b"aaaa".to_vec(), ChangeKind::Modified, 2).unwrap();
    engine.capture(&"/a.txt".to_string(), &b"aaaaa".to_vec(), ChangeKind::Modified, 3).unwrap();

    let (to_add, to_remove) = engine.handle_update_watched(&vec!["/b.txt".to_string()]);
    assert!(to_add.is_empty());
    assert_eq!(to_remove, vec!["/a.txt".to_string()]);

    let (diffs_deleted, snapshots_deleted) =
        engine.handle_removed_from_watch(&"/a.txt".to_string());
    assert_eq!(diffs_deleted, 2);
    assert_eq!(snapshots_deleted, 1);

    // The store no longer has snapshots or diffs for "/a.txt".
    assert!(engine.latest_snapshot(&"/a.txt".to_string()).is_none());
    assert!(diffs_for(&engine, "/a.txt").is_empty());
    // "/b.txt" is untouched.
    let (_, content) = engine.latest_snapshot(&"/b.txt".to_string()).unwrap();
    assert_eq!(content, b"bbb".to_vec());
}

#[test]
fn removal_of_unknown_path_deletes_nothing() {
    let mut engine = Engine::new();
    let counts = engine.handle_removed_from_watch(&"/ghost".to_string());
    assert_eq!(counts, (0, 0));
}
