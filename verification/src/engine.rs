//! The watch-and-diff engine: the authoritative watch set and the capture
//! pipeline over the store. Exactly one consumer drives an engine value, so
//! every transition here happens serially; the host performs the OS watch
//! registrations and file reads and hands the engine plain values.

use vstd::prelude::*;

use crate::events::{ChangeKind, RequestEvent, ResponseEvent};
use crate::models::{DiffModel, FileDiff, SnapshotModel};
use crate::patch::{apply_patch, create_patch, patch_of};
use crate::reconcile::{
    clone_paths, contains_path, dedup_paths, distinct_paths, find_path_idx, lemma_paths_remove,
    lemma_push_has_path, path_set, reconcile,
};
use crate::store::{diff_models, recent_diffs_post, Store};

verus! {

/// Why a capture failed.
#[derive(Clone, Copy, Debug, PartialEq, Eq, Structural)]
pub enum CaptureError {
    /// A change was captured for a path that has no prior snapshot.
    MissingSource,
    /// The store refused the write.
    PersistenceFailed,
}

/// The engine's state: the watch set it exclusively owns, and the store it
/// drives.
pub struct Engine {
    watch_set: Vec<String>,
    store: Store,
}

impl Engine {
    /// The set of watched paths.
    pub closed spec fn watched(&self) -> Set<Seq<char>> {
        path_set(self.watch_set@)
    }

    /// The store's state.
    pub closed spec fn store_state(&self) -> Store {
        self.store
    }

    /// Internal consistency: the watch set names each path once, and the
    /// store is consistent.
    pub closed spec fn wf(&self) -> bool {
        distinct_paths(self.watch_set@) && self.store.wf()
    }

    /// A fresh engine: nothing watched, nothing stored.
    pub fn new() -> (e: Engine)
        ensures
            e.wf(),
            e.watched() == Set::<Seq<char>>::empty(),
            e.store_state().snapshots_seq() == Seq::<SnapshotModel>::empty(),
            e.store_state().diffs_seq() == Seq::<DiffModel>::empty(),
            e.store_state().snapshot_id_room() == i32::MAX as int,
            e.store_state().diff_id_room() == i32::MAX as int,
    {
        let e = Engine { watch_set: Vec::new(), store: Store::new() };
        proof {
            assert(e.watched() =~= Set::<Seq<char>>::empty());
        }
        e
    }

    /// Replaces the watch set wholesale with `desired` and returns the adds
    /// and removals that move the old set there. After the call the watch
    /// set is exactly the commanded paths, whatever it held before; the add
    /// and remove lists are the two directed differences and never overlap.
    pub fn handle_update_watched(&mut self, desired: &Vec<String>) -> (r: (Vec<String>, Vec<
        String,
    >))
        requires
            old(self).wf(),
        ensures
            final(self).wf(),
            final(self).watched() == path_set(desired@),
            final(self).store_state() == old(self).store_state(),
            path_set(r.0@) == path_set(desired@).difference(old(self).watched()),
            path_set(r.1@) == old(self).watched().difference(path_set(desired@)),
            distinct_paths(r.0@),
            distinct_paths(r.1@),
            path_set(r.0@).disjoint(path_set(r.1@)),
    {
        let r = reconcile(desired, &self.watch_set);
        self.watch_set = dedup_paths(desired);
        r
    }

    /// Brings `path` under watch: the current on-disk content, as read by
    /// the host, becomes the one current snapshot for `path` under a fresh
    /// identity — also when a stale snapshot existed — and `path` joins the
    /// watch set. Fails only when the store has no identity left, and then
    /// changes nothing.
    pub fn handle_added_to_watch(&mut self, path: &String, contents: &Vec<u8>, now_ms: i64) -> (r:
        Result<i32, CaptureError>)
        requires
            old(self).wf(),
        ensures
            final(self).wf(),
            r is Err <==> old(self).store_state().snapshot_id_room() == 0,
            r is Err ==> *final(self) == *old(self) && (r matches Err(e) && e
                == CaptureError::PersistenceFailed),
            r matches Ok(id) ==> ({
                let st = final(self).store_state();
                &&& final(self).watched() == old(self).watched().insert(path@)
                &&& st.has_snapshot(path@)
                &&& st.snapshot_at(path@) == (SnapshotModel {
                    id: Some(id),
                    file_path: path@,
                    data: contents@,
                    timestamp: now_ms,
                })
                &&& st.diffs_seq() == old(self).store_state().diffs_seq()
                &&& st.diff_id_room() == old(self).store_state().diff_id_room()
                &&& forall|q: Seq<char>|
                    q != path@ ==> (st.has_snapshot(q) <==> old(self).store_state().has_snapshot(
                        q,
                    ))
                &&& forall|q: Seq<char>|
                    q != path@ && old(self).store_state().has_snapshot(q) ==> st.snapshot_at(q)
                        == old(self).store_state().snapshot_at(q)
            }),
    {
        match self.store.put_snapshot(path, contents, now_ms) {
            Err(_) => Err(CaptureError::PersistenceFailed),
            Ok(id) => {
                if !contains_path(&self.watch_set, path) {
                    let ghost prev = self.watch_set@;
                    self.watch_set.push(path.clone());
                    proof {
                        assert(self.watch_set@ =~= prev.push(self.watch_set@[prev.len() as int]));
                        lemma_push_has_path(prev, self.watch_set@[prev.len() as int]);
                        assert(path_set(self.watch_set@) =~= path_set(prev).insert(path@));
                    }
                } else {
                    proof {
                        assert(path_set(self.watch_set@) =~= path_set(self.watch_set@).insert(
                            path@,
                        ));
                    }
                }
                Ok(id)
            },
        }
    }

    /// Takes `path` out of the watch set and deletes its snapshot and every
    /// diff recorded for it; other paths' records are untouched. Returns how
    /// many diffs and snapshots were deleted.
    pub fn handle_removed_from_watch(&mut self, path: &String) -> (r: (usize, usize))
        requires
            old(self).wf(),
        ensures
            final(self).wf(),
            final(self).watched() == old(self).watched().remove(path@),
            !final(self).store_state().has_snapshot(path@),
            final(self).store_state().diffs_for(path@) == Seq::<DiffModel>::empty(),
            forall|q: Seq<char>|
                q != path@ ==> (final(self).store_state().has_snapshot(q)
                    <==> old(self).store_state().has_snapshot(q)),
            forall|q: Seq<char>|
                q != path@ && old(self).store_state().has_snapshot(q)
                    ==> final(self).store_state().snapshot_at(q)
                    == old(self).store_state().snapshot_at(q),
            forall|q: Seq<char>|
                q != path@ ==> final(self).store_state().diffs_for(q)
                    == old(self).store_state().diffs_for(q),
            r.0 == old(self).store_state().diffs_for(path@).len(),
            r.1 as int == (if old(self).store_state().has_snapshot(path@) {
                1int
            } else {
                0int
            }),
    {
        let counts = self.store.delete_all_for_path(path);
        match find_path_idx(&self.watch_set, path) {
            Some(i) => {
                let ghost prev = self.watch_set@;
                self.watch_set.remove(i);
                proof {
                    lemma_paths_remove(prev, i as int, path@);
                }
            },
            None => {
                proof {
                    assert(path_set(self.watch_set@) =~= path_set(self.watch_set@).remove(path@));
                }
            },
        }
        counts
    }

    /// Captures an observed change of a watched path: computes the binary
    /// patch from the current snapshot's content to `new_contents` and
    /// appends it as a diff referencing that snapshot. With no prior
    /// snapshot the capture fails with `MissingSource`; a store failure is
    /// reported as `PersistenceFailed`; a failed capture changes nothing.
    pub fn capture(
        &mut self,
        path: &String,
        new_contents: &Vec<u8>,
        kind: ChangeKind,
        now_ms: i64,
    ) -> (r: Result<(), CaptureError>)
        requires
            old(self).wf(),
        ensures
            final(self).wf(),
            final(self).watched() == old(self).watched(),
            final(self).store_state().snapshots_seq() == old(self).store_state().snapshots_seq(),
            r is Err ==> *final(self) == *old(self),
            (r matches Err(e) && e == CaptureError::MissingSource)
                <==> !old(self).store_state().has_snapshot(path@),
            (r matches Err(e) && e == CaptureError::PersistenceFailed)
                <==> (old(self).store_state().has_snapshot(path@)
                && old(self).store_state().diff_id_room() == 0),
            r is Ok ==> ({
                let od = old(self).store_state().diffs_seq();
                let fd = final(self).store_state().diffs_seq();
                let snap = old(self).store_state().snapshot_at(path@);
                &&& fd.len() == od.len() + 1
                &&& fd.subrange(0, od.len() as int) == od
                &&& fd.last().id is Some
                &&& fd.last().original_file_id == snap.id
                &&& fd.last().change_event == kind.label_spec()
                &&& fd.last().file_path == path@
                &&& fd.last().data == patch_of(snap.data, new_contents@)
                &&& fd.last().timestamp == now_ms
            }),
            r is Ok ==> final(self).store_state().diffs_for(path@)
                == old(self).store_state().diffs_for(path@).push(
                final(self).store_state().diffs_seq().last(),
            ),
            r is Ok ==> forall|q: Seq<char>|
                q != path@ ==> final(self).store_state().diffs_for(q)
                    == old(self).store_state().diffs_for(q),
    {
        match self.store.get_latest_snapshot(path) {
            None => Err(CaptureError::MissingSource),
            Some(found) => {
                let (source_id, original) = found;
                let patch = create_patch(&original, new_contents);
                match self.store.put_diff(source_id, path, kind.label(), patch, now_ms) {
                    Err(_) => Err(CaptureError::PersistenceFailed),
                    Ok(_) => {
                        proof {
                            let od = old(self).store_state().diffs_seq();
                            let fd = self.store.diffs_seq();
                            assert(fd.subrange(0, od.len() as int) =~= od);
                        }
                        Ok(())
                    },
                }
            },
        }
    }

    /// The current snapshot for `path`, as its identity and a copy of its
    /// content; `None` exactly when no snapshot is current for `path`.
    pub fn latest_snapshot(&self, path: &String) -> (r: Option<(i32, Vec<u8>)>)
        requires
            self.wf(),
        ensures
            r is Some <==> self.store_state().has_snapshot(path@),
            r matches Some(f) ==> Some(f.0) == self.store_state().snapshot_at(path@).id && f.1@
                == self.store_state().snapshot_at(path@).data,
    {
        self.store.get_latest_snapshot(path)
    }

    /// Answers a query from the engine's state: the watched-path list, or
    /// the recent diff history of the selected path.
    pub fn handle_request(&self, req: &RequestEvent) -> (r: ResponseEvent)
        requires
            self.wf(),
        ensures
            req is WatchedFileList ==> (r matches ResponseEvent::WatchedFileList(l) && path_set(l@)
                == self.watched() && distinct_paths(l@)),
            req matches RequestEvent::SelectFile(p) ==> (r matches ResponseEvent::SelectFile(ds)
                && recent_diffs_post(self.store_state(), p@, diff_models(ds@))),
    {
        match req {
            RequestEvent::WatchedFileList() => ResponseEvent::WatchedFileList(
                clone_paths(&self.watch_set),
            ),
            RequestEvent::SelectFile(p) => ResponseEvent::SelectFile(
                self.store.list_recent_diffs(p),
            ),
        }
    }

    /// Rebuilds the content a recorded diff captured, by applying its patch
    /// to the current snapshot of its path: whenever that snapshot is the
    /// diff's source and the diff records the change to some content, the
    /// result is exactly that content, byte for byte.
    pub fn reconstruct_change(&self, diff: &FileDiff) -> (r: Option<Vec<u8>>)
        requires
            self.wf(),
        ensures
            forall|m: Seq<u8>|
                (self.store_state().has_snapshot(diff@.file_path) && self.store_state().snapshot_at(
                    diff@.file_path,
                ).id == diff@.original_file_id && diff@.data == #[trigger] patch_of(
                    self.store_state().snapshot_at(diff@.file_path).data,
                    m,
                )) ==> r is Some && r->0@ == m,
    {
        match self.store.get_latest_snapshot(&diff.file_path) {
            None => None,
            Some(found) => {
                let (source_id, base) = found;
                match diff.original_file_id {
                    Some(oid) => {
                        if oid == source_id {
                            apply_patch(&base, &diff.data)
                        } else {
                            None
                        }
                    },
                    None => None,
                }
            },
        }
    }
}

} // verus!
