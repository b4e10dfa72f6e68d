//! The closed taxonomy of commands, bus events, requests and responses, and
//! the decisions that turn one into another.

use vstd::prelude::*;

use crate::models::FileDiff;

verus! {

/// The kinds of raw file-system change notification.
#[derive(Clone, Copy, Debug, PartialEq, Eq, Structural)]
pub enum ChangeKind {
    Created,
    Modified,
    Removed,
    Accessed,
    Other,
}

impl ChangeKind {
    /// The label recorded on diffs captured for this kind of change.
    pub open spec fn label_spec(&self) -> Seq<char> {
        match self {
            ChangeKind::Created => "created"@,
            ChangeKind::Modified => "modified"@,
            ChangeKind::Removed => "removed"@,
            ChangeKind::Accessed => "accessed"@,
            ChangeKind::Other => "other"@,
        }
    }

    /// The label as an owned string.
    pub fn label(&self) -> (r: String)
        ensures
            r@ == self.label_spec(),
    {
        match self {
            ChangeKind::Created => "created".to_owned(),
            ChangeKind::Modified => "modified".to_owned(),
            ChangeKind::Removed => "removed".to_owned(),
            ChangeKind::Accessed => "accessed".to_owned(),
            ChangeKind::Other => "other".to_owned(),
        }
    }
}

/// A raw change notification from the OS file watcher.
pub struct FsChange {
    /// The paths the notification concerns.
    pub paths: Vec<String>,
    pub kind: ChangeKind,
}

/// A command from the host's command intake. A malformed payload is rejected
/// at the intake boundary and never becomes a command value.
pub enum Cmd {
    /// Ask for the recorded diff history of one path.
    SelectFile { select_file: String, callback: String, error: String },
    /// Replace the desired watch set wholesale with the given path list.
    AddWatchedFiles { watched_files: Vec<String>, callback: String, error: String },
}

/// A query carried over the bus to the consumer.
pub enum RequestEvent {
    WatchedFileList(),
    SelectFile(String),
}

/// An answer delivered back on the response channel.
pub enum ResponseEvent {
    WatchedFileList(Vec<String>),
    SelectFile(Vec<FileDiff>),
    Error(String),
}

/// The closed union of events that flow through the single bus.
pub enum BusEvent {
    /// A raw file-system notification.
    Base(FsChange),
    /// A path entered the watch set: capture its snapshot, register the OS
    /// watch.
    AddedToWatch(String),
    /// A path left the watch set: unregister the OS watch, drop its records.
    RemovedFromWatch(String),
    /// The desired watch set was replaced wholesale.
    UpdateWatched(Vec<String>),
    Request(RequestEvent),
    Response(ResponseEvent),
}

/// The bus event a command turns into: a watch-set replacement becomes an
/// update event carrying the full desired list; a file selection becomes a
/// request event carrying the path.
pub fn command_to_event(cmd: Cmd) -> (e: BusEvent)
    ensures
        cmd matches Cmd::AddWatchedFiles { watched_files, .. } ==> e matches
            BusEvent::UpdateWatched(p) && p == watched_files,
        cmd matches Cmd::SelectFile { select_file, .. } ==> e matches BusEvent::Request(
            RequestEvent::SelectFile(p),
        ) && p == select_file,
{
    match cmd {
        Cmd::AddWatchedFiles { watched_files, .. } => BusEvent::UpdateWatched(watched_files),
        Cmd::SelectFile { select_file, .. } => BusEvent::Request(
            RequestEvent::SelectFile(select_file),
        ),
    }
}

/// What the engine hands outward to the UI host.
pub enum Emission {
    /// The current watched-path list, answering a list query.
    WatchedFileListResponse(Vec<String>),
    /// The recorded diff history of a selected path.
    SelectFileResponse(Vec<FileDiff>),
    /// A protocol failure, such as a timed-out query.
    ErrorMessage(String),
}

/// The outward emission a resolved response calls for, given the request it
/// answers: a matching answer is forwarded, an error is reported, and an
/// answer of the wrong kind is dropped.
pub fn emission_for_response(req: &RequestEvent, resp: ResponseEvent) -> (r: Option<Emission>)
    ensures
        resp matches ResponseEvent::Error(m) ==> r matches Some(Emission::ErrorMessage(m2)) && m2
            == m,
        resp matches ResponseEvent::WatchedFileList(l) ==> (if req is WatchedFileList {
            r matches Some(Emission::WatchedFileListResponse(l2)) && l2 == l
        } else {
            r is None
        }),
        resp matches ResponseEvent::SelectFile(d) ==> (if req is SelectFile {
            r matches Some(Emission::SelectFileResponse(d2)) && d2 == d
        } else {
            r is None
        }),
{
    match resp {
        ResponseEvent::Error(m) => Some(Emission::ErrorMessage(m)),
        ResponseEvent::WatchedFileList(l) => match req {
            RequestEvent::WatchedFileList() => Some(Emission::WatchedFileListResponse(l)),
            RequestEvent::SelectFile(_) => None,
        },
        ResponseEvent::SelectFile(d) => match req {
            RequestEvent::SelectFile(_) => Some(Emission::SelectFileResponse(d)),
            RequestEvent::WatchedFileList() => None,
        },
    }
}

} // verus!
