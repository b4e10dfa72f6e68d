use watchdiff::correlator::{resolve_query, CHANNEL_CAPACITY, REQUEST_TIMEOUT_MS};
use watchdiff::events::{
    command_to_event, emission_for_response, BusEvent, ChangeKind, Cmd, Emission, RequestEvent,
    ResponseEvent,
};
use watchdiff::models::{FileDiff, FileDiffResult};
use watchdiff::reconcile::reconcile;

fn sorted(mut v: Vec<String>) -> Vec<String> {
    v.sort();
    v
}

fn strings(items: &[&str]) -> Vec<String> {
    items.iter().map(|s| s.to_string()).collect()
}

#[test]
fn reconcile_is_symmetric_difference() {
    let desired = strings(&["/a", "/b", "/c"]);
    let current = strings(&["/b", "/d"]);
    let (to_add, to_remove) = reconcile(&desired, &current);
    assert_eq!(sorted(to_add.clone()), strings(&["/a", "/c"]));
    assert_eq!(to_remove, strings(&["/d"]));
    for p in &to_add {
        assert!(!to_remove.contains(p));
    }
}

#[test]
fn reconcile_of_equal_sets_is_empty() {
    let desired = strings(&["/x", "/y"]);
    let current = strings(&["/y", "/x"]);
    let (to_add, to_remove) = reconcile(&desired, &current);
    assert!(to_add.is_empty());
    assert!(to_remove.is_empty());
}

#[test]
fn reconcile_drops_duplicates() {
    let desired = strings(&["/a", "/a", "/b"]);
    let current = strings(&[]);
    let (to_add, to_remove) = reconcile(&desired, &current);
    assert_eq!(sorted(to_add), strings(&["/a", "/b"]));
    assert!(to_remove.is_empty());
}

#[test]
fn timed_out_query_resolves_to_exactly_one_timeout_error() {
    let resolved = resolve_query(None);
    match resolved {
        ResponseEvent::Error(message) => assert_eq!(message, "TIMEOUT"),
        _ => panic!("a timed-out query must resolve to an error response"),
    }
}

#[test]
fn arrived_response_is_returned_unwrapped() {
    let resolved = resolve_query(Some(ResponseEvent::WatchedFileList(strings(&["/a"]))));
    match resolved {
        ResponseEvent::WatchedFileList(paths) => assert_eq!(paths, strings(&["/a"])),
        _ => panic!("an arrived response must be passed through unchanged"),
    }
}

#[test]
fn correlator_constants_match_the_protocol() {
    assert_eq!(REQUEST_TIMEOUT_MS, 100);
    assert_eq!(CHANNEL_CAPACITY, 5);
}

#[test]
fn add_watched_files_command_becomes_update_event() {
    let cmd = Cmd::AddWatchedFiles {
        watched_files: strings(&["/a", "/b"]),
        callback: "cb".to_string(),
        error: "err".to_string(),
    };
    match command_to_event(cmd) {
        BusEvent::UpdateWatched(paths) => assert_eq!(paths, strings(&["/a", "/b"])),
        _ => panic!("expected an update-watched event"),
    }
}

#[test]
fn select_file_command_becomes_request_event() {
    let cmd = Cmd::SelectFile {
        select_file: "/a".to_string(),
        callback: "cb".to_string(),
        error: "err".to_string(),
    };
    match command_to_event(cmd) {
        BusEvent::Request(RequestEvent::SelectFile(path)) => assert_eq!(path, "/a"),
        _ => panic!("expected a select-file request event"),
    }
}

#[test]
fn matching_responses_are_emitted_and_mismatches_dropped() {
    let list = ResponseEvent::WatchedFileList(strings(&["/a"]));
    match emission_for_response(&RequestEvent::WatchedFileList(), list) {
        Some(Emission::WatchedFileListResponse(paths)) => assert_eq!(paths, strings(&["/a"])),
        _ => panic!("a list response to a list request must be emitted"),
    }

    let list = ResponseEvent::WatchedFileList(strings(&["/a"]));
    assert!(emission_for_response(&RequestEvent::SelectFile("/a".to_string()), list).is_none());

    let select = ResponseEvent::SelectFile(Vec::new());
    match emission_for_response(&RequestEvent::SelectFile("/a".to_string()), select) {
        Some(Emission::SelectFileResponse(diffs)) => assert!(diffs.is_empty()),
        _ => panic!("a select response to a select request must be emitted"),
    }

    let select = ResponseEvent::SelectFile(Vec::new());
    assert!(emission_for_response(&RequestEvent::WatchedFileList(), select).is_none());

    let error = ResponseEvent::Error("TIMEOUT".to_string());
    match emission_for_response(&RequestEvent::WatchedFileList(), error) {
        Some(Emission::ErrorMessage(message)) => assert_eq!(message, "TIMEOUT"),
        _ => panic!("an error response must be emitted as an error message"),
    }
}

#[test]
fn change_kind_labels() {
    assert_eq!(ChangeKind::Created.label(), "created");
    assert_eq!(ChangeKind::Modified.label(), "modified");
    assert_eq!(ChangeKind::Removed.label(), "removed");
    assert_eq!(ChangeKind::Accessed.label(), "accessed");
    assert_eq!(ChangeKind::Other.label(), "other");
}

fn diff_with(path: &str, data: Vec<u8>) -> FileDiff {
    FileDiff {
        id: Some(1),
        original_file_id: Some(7),
        change_event: "modified".to_string(),
        file_path: path.to_string(),
        data,
        timestamp: 42,
    }
}

#[test]
fn diff_result_splits_path_into_components() {
    let diff = diff_with("/test/file/file1", b"abc".to_vec());
    let result = FileDiffResult::from_diff(&diff).unwrap();
    assert_eq!(result.file_path, strings(&["test", "file", "file1"]));
    assert_eq!(result.data, "abc");
    assert_eq!(result.id, Some(1));
    assert_eq!(result.original_file_id, Some(7));
    assert_eq!(result.change_event, "modified");
    assert_eq!(result.timestamp, 42);
}

#[test]
fn diff_result_drops_empty_and_dot_components() {
    let diff = diff_with("./a/../b//c/", Vec::new());
    let result = FileDiffResult::from_diff(&diff).unwrap();
    assert_eq!(result.file_path, strings(&["a", "b", "c"]));
    assert_eq!(result.data, "");
}

#[test]
fn diff_result_decodes_multibyte_text() {
    let diff = diff_with("x", "héllo".as_bytes().to_vec());
    let result = FileDiffResult::from_diff(&diff).unwrap();
    assert_eq!(result.data, "héllo");
}

#[test]
fn diff_result_rejects_invalid_utf8() {
    let diff = diff_with("x", vec![0xff, 0xfe]);
    assert!(FileDiffResult::from_diff(&diff).is_none());
}
