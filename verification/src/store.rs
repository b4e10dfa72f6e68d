//! The engine's store: keyed storage for snapshots and diffs. Snapshots are
//! upserted by path (at most one current snapshot per path); diffs are
//! append-only. Record identities are assigned by the store and never reused.

use vstd::prelude::*;

use crate::models::{DiffModel, FileDetail, FileDiff, SnapshotModel};

verus! {

broadcast use vstd::seq_lib::group_filter_ensures, vstd::seq_lib::group_to_multiset_ensures;

/// Failure of a store write.
#[derive(Clone, Copy, Debug, PartialEq, Eq, Structural)]
pub enum StoreError {
    /// Every identity the store can assign has been used.
    IdsExhausted,
}

/// True when some record of `s` is keyed by the path `p`.
pub open spec fn snaps_has(s: Seq<SnapshotModel>, p: Seq<char>) -> bool {
    exists|i: int| 0 <= i < s.len() && s[i].file_path == p
}

/// The index of the record of `s` keyed by `p`.
pub open spec fn snaps_idx(s: Seq<SnapshotModel>, p: Seq<char>) -> int {
    choose|i: int| 0 <= i < s.len() && s[i].file_path == p
}

/// The record of `s` keyed by `p`.
pub open spec fn snaps_at(s: Seq<SnapshotModel>, p: Seq<char>) -> SnapshotModel {
    s[snaps_idx(s, p)]
}

/// True when no two records of `s` are keyed by the same path.
pub open spec fn snaps_distinct(s: Seq<SnapshotModel>) -> bool {
    forall|i: int, j: int| 0 <= i < j < s.len() ==> s[i].file_path != s[j].file_path
}

/// Removing the record keyed by `p` from a distinctly keyed sequence leaves
/// every other key mapped as before, and `p` unmapped.
pub proof fn lemma_snaps_remove(pre: Seq<SnapshotModel>, idx: int, p: Seq<char>)
    requires
        snaps_distinct(pre),
        0 <= idx < pre.len(),
        pre[idx].file_path == p,
    ensures
        snaps_distinct(pre.remove(idx)),
        !snaps_has(pre.remove(idx), p),
        forall|q: Seq<char>| q != p ==> (snaps_has(pre.remove(idx), q) <==> snaps_has(pre, q)),
        forall|q: Seq<char>|
            q != p && snaps_has(pre, q) ==> snaps_at(pre.remove(idx), q) == snaps_at(pre, q),
{
    let mid = pre.remove(idx);
    assert(forall|k: int|
        0 <= k < mid.len() ==> #[trigger] mid[k] == (if k < idx {
            pre[k]
        } else {
            pre[k + 1]
        }));
    assert forall|k: int| 0 <= k < mid.len() implies (#[trigger] mid[k]).file_path != p by {
        if k < idx {
            assert(pre[k].file_path != pre[idx].file_path);
        } else {
            assert(pre[idx].file_path != pre[k + 1].file_path);
        }
    }
    assert(snaps_distinct(mid));
    assert forall|q: Seq<char>| q != p implies (snaps_has(mid, q) <==> snaps_has(pre, q)) by {
        if snaps_has(mid, q) {
            let k = choose|k: int| 0 <= k < mid.len() && mid[k].file_path == q;
            if k < idx {
                assert(pre[k].file_path == q);
            } else {
                assert(pre[k + 1].file_path == q);
            }
        }
        if snaps_has(pre, q) {
            let k = choose|k: int| 0 <= k < pre.len() && pre[k].file_path == q;
            assert(k != idx);
            if k < idx {
                assert(mid[k].file_path == q);
            } else {
                assert(mid[k - 1].file_path == q);
            }
        }
    }
    assert forall|q: Seq<char>| q != p && snaps_has(pre, q) implies snaps_at(mid, q) == snaps_at(
        pre,
        q,
    ) by {
        let k = snaps_idx(pre, q);
        assert(0 <= k < pre.len() && pre[k].file_path == q);
        lemma_snaps_at(pre, q, k);
        assert(k != idx);
        if k < idx {
            lemma_snaps_at(mid, q, k);
        } else {
            assert(mid[k - 1] == pre[k]);
            lemma_snaps_at(mid, q, k - 1);
        }
    }
}

/// With distinct keys, the record keyed by `p` is the one at any index
/// holding `p`.
pub proof fn lemma_snaps_at(s: Seq<SnapshotModel>, p: Seq<char>, i: int)
    requires
        snaps_distinct(s),
        0 <= i < s.len(),
        s[i].file_path == p,
    ensures
        snaps_has(s, p),
        snaps_idx(s, p) == i,
        snaps_at(s, p) == s[i],
{
    assert(snaps_has(s, p));
    let j = snaps_idx(s, p);
    assert(0 <= j < s.len() && s[j].file_path == p);
    if i < j {
        assert(s[i].file_path != s[j].file_path);
    } else if j < i {
        assert(s[j].file_path != s[i].file_path);
    }
}

/// Filtering a sequence extended by one element keeps the old selection and
/// appends the new element exactly when it satisfies the predicate.
pub proof fn lemma_filter_push<A>(s: Seq<A>, x: A, pred: spec_fn(A) -> bool)
    ensures
        pred(x) ==> s.push(x).filter(pred) == s.filter(pred).push(x),
        !pred(x) ==> s.push(x).filter(pred) == s.filter(pred),
{
    reveal(Seq::filter);
    assert(s.push(x).drop_last() =~= s);
    assert(s.push(x).last() == x);
}

/// A filter that no element satisfies selects nothing.
proof fn lemma_filter_none<A>(s: Seq<A>, pred: spec_fn(A) -> bool)
    requires
        forall|i: int| 0 <= i < s.len() ==> !pred(#[trigger] s[i]),
    ensures
        s.filter(pred) == Seq::<A>::empty(),
    decreases s.len(),
{
    reveal(Seq::filter);
    if s.len() > 0 {
        lemma_filter_none(s.drop_last(), pred);
    }
}

/// Every element of a filtered sequence occurs in the sequence it was
/// selected from.
proof fn lemma_filter_mem<A>(s: Seq<A>, pred: spec_fn(A) -> bool, i: int)
    requires
        0 <= i < s.filter(pred).len(),
    ensures
        s.contains(s.filter(pred)[i]),
    decreases s.len(),
{
    reveal(Seq::filter);
    if s.len() > 0 {
        let s1 = s.drop_last();
        if i < s1.filter(pred).len() {
            lemma_filter_mem(s1, pred, i);
            let k = choose|k: int| 0 <= k < s1.len() && s1[k] == s1.filter(pred)[i];
            assert(s[k] == s.filter(pred)[i]);
        } else {
            assert(s.filter(pred)[i] == s.last());
        }
    }
}

/// Keeping only the records off one path, then selecting another path's
/// records, selects the same records as from the unfiltered sequence.
proof fn lemma_filter_other_path(s: Seq<DiffModel>, p: Seq<char>, q: Seq<char>)
    requires
        q != p,
    ensures
        s.filter(|d: DiffModel| d.file_path != p).filter(|d: DiffModel| d.file_path == q)
            == s.filter(|d: DiffModel| d.file_path == q),
    decreases s.len(),
{
    let ne = |d: DiffModel| d.file_path != p;
    let eq = |d: DiffModel| d.file_path == q;
    if s.len() == 0 {
        reveal(Seq::filter);
    } else {
        let s1 = s.drop_last();
        let x = s.last();
        lemma_filter_other_path(s1, p, q);
        assert(s =~= s1.push(x));
        lemma_filter_push(s1, x, ne);
        lemma_filter_push(s1, x, eq);
        if ne(x) {
            lemma_filter_push(s1.filter(ne), x, eq);
        } else {
            assert(!eq(x));
        }
    }
}

/// The mathematical images of a sequence of diff records.
pub open spec fn diff_models(s: Seq<FileDiff>) -> Seq<DiffModel> {
    s.map_values(|d: FileDiff| d@)
}

/// True when `s` is ordered newest-first.
pub open spec fn sorted_desc(s: Seq<DiffModel>) -> bool {
    forall|i: int, j: int| 0 <= i <= j < s.len() ==> s[i].timestamp >= s[j].timestamp
}

/// True when no two records of `s` carry the same identity.
pub open spec fn diff_ids_distinct(s: Seq<DiffModel>) -> bool {
    forall|i: int, j: int| 0 <= i < j < s.len() ==> s[i].id != s[j].id
}

/// True when some record of `s` carries the identity `x`.
pub open spec fn has_diff_id(s: Seq<DiffModel>, x: Option<i32>) -> bool {
    exists|i: int| 0 <= i < s.len() && s[i].id == x
}

/// Filtering keeps identities pairwise distinct and introduces none.
proof fn lemma_filter_ids(s: Seq<DiffModel>, pred: spec_fn(DiffModel) -> bool)
    requires
        diff_ids_distinct(s),
    ensures
        diff_ids_distinct(s.filter(pred)),
        forall|x: Option<i32>| #[trigger] has_diff_id(s.filter(pred), x) ==> has_diff_id(s, x),
    decreases s.len(),
{
    if s.len() == 0 {
        reveal(Seq::filter);
    } else {
        let s1 = s.drop_last();
        let x = s.last();
        assert(forall|i: int, j: int| 0 <= i < j < s1.len() ==> s1[i].id != s1[j].id);
        lemma_filter_ids(s1, pred);
        assert(s =~= s1.push(x));
        lemma_filter_push(s1, x, pred);
        let f1 = s1.filter(pred);
        assert forall|y: Option<i32>| #[trigger] has_diff_id(f1, y) implies has_diff_id(s, y) by {
            assert(has_diff_id(s1, y));
            let k = choose|k: int| 0 <= k < s1.len() && s1[k].id == y;
            assert(s[k].id == y);
        }
        if pred(x) {
            assert forall|i: int, j: int|
                0 <= i < j < s.filter(pred).len() implies s.filter(pred)[i].id != s.filter(
                pred,
            )[j].id by {
                if j == s.filter(pred).len() - 1 {
                    assert(s.filter(pred)[j] == x);
                    assert(has_diff_id(f1, f1[i].id));
                    let k = choose|k: int| 0 <= k < s1.len() && s1[k].id == f1[i].id;
                    assert(s[k].id == f1[i].id);
                    assert(s[s.len() - 1] == x);
                }
            }
            assert forall|y: Option<i32>| #[trigger] has_diff_id(s.filter(pred), y) implies
                has_diff_id(s, y) by {
                let k = choose|k: int|
                    0 <= k < s.filter(pred).len() && s.filter(pred)[k].id == y;
                if k < f1.len() {
                    assert(has_diff_id(f1, y));
                } else {
                    assert(s[s.len() - 1].id == y);
                }
            }
        }
    }
}

/// What a listing of recent diffs promises: `rs` holds at most five records,
/// exactly five when at least five are recorded for `p`; it is ordered
/// newest-first; each entry is a recorded diff for `p`, no entry twice; and
/// every recorded diff for `p` that was left out is no newer than any entry.
pub open spec fn recent_diffs_post(s: Store, p: Seq<char>, rs: Seq<DiffModel>) -> bool {
    let fs = s.diffs_for(p);
    &&& rs.len() == (if fs.len() < 5 {
        fs.len()
    } else {
        5nat
    })
    &&& sorted_desc(rs)
    &&& forall|i: int| 0 <= i < rs.len() ==> fs.contains(#[trigger] rs[i])
    &&& diff_ids_distinct(rs)
    &&& forall|k: int, i: int|
        0 <= k < fs.len() && 0 <= i < rs.len() && !has_diff_id(rs, (#[trigger] fs[k]).id)
            ==> fs[k].timestamp <= (#[trigger] rs[i]).timestamp
}

/// A multiset-preserving rearrangement of a distinctly identified sequence
/// keeps identities pairwise distinct.
proof fn lemma_perm_keeps_distinct_ids(fs: Seq<DiffModel>, sv: Seq<DiffModel>)
    requires
        diff_ids_distinct(fs),
        sv.to_multiset() == fs.to_multiset(),
    ensures
        diff_ids_distinct(sv),
{
    assert forall|i: int, j: int| 0 <= i < j < sv.len() implies sv[i].id != sv[j].id by {
        if sv[i].id == sv[j].id {
            if sv[i] == sv[j] {
                let v = sv[i];
                assert(sv.remove(i).to_multiset() == sv.to_multiset().remove(v));
                assert(sv.remove(i)[j - 1] == v);
                assert(sv.remove(i).contains(v));
                assert(sv.remove(i).to_multiset().count(v) > 0);
                assert(sv.to_multiset().count(v) >= 2);
                assert(fs.no_duplicates()) by {
                    assert forall|a: int, b: int|
                        0 <= a < fs.len() && 0 <= b < fs.len() && a != b implies fs[a]
                        != fs[b] by {
                        if a < b {
                            assert(fs[a].id != fs[b].id);
                        } else {
                            assert(fs[b].id != fs[a].id);
                        }
                    }
                }
                fs.lemma_multiset_has_no_duplicates();
                assert(fs.to_multiset().count(v) <= 1);
                assert(false);
            } else {
                assert(sv.contains(sv[i]) && sv.contains(sv[j]));
                assert(fs.to_multiset().count(sv[i]) > 0 && fs.to_multiset().count(sv[j]) > 0);
                assert(fs.contains(sv[i]) && fs.contains(sv[j]));
                let k1 = choose|k: int| 0 <= k < fs.len() && fs[k] == sv[i];
                let k2 = choose|k: int| 0 <= k < fs.len() && fs[k] == sv[j];
                assert(k1 != k2);
                if k1 < k2 {
                    assert(fs[k1].id != fs[k2].id);
                } else {
                    assert(fs[k2].id != fs[k1].id);
                }
                assert(false);
            }
        }
    }
}

/// Durable keyed storage for snapshots and diffs, held in memory.
pub struct Store {
    snapshots: Vec<FileDetail>,
    diffs: Vec<FileDiff>,
    next_snapshot_id: i32,
    next_diff_id: i32,
}

impl Store {
    /// The current snapshots, one record per watched path.
    pub closed spec fn snapshots_seq(&self) -> Seq<SnapshotModel> {
        self.snapshots@.map_values(|d: FileDetail| d@)
    }

    /// The recorded diffs, in insertion order.
    pub closed spec fn diffs_seq(&self) -> Seq<DiffModel> {
        self.diffs@.map_values(|d: FileDiff| d@)
    }

    /// True when a snapshot is current for `p`.
    pub open spec fn has_snapshot(&self, p: Seq<char>) -> bool {
        snaps_has(self.snapshots_seq(), p)
    }

    /// The current snapshot for `p`.
    pub open spec fn snapshot_at(&self, p: Seq<char>) -> SnapshotModel {
        snaps_at(self.snapshots_seq(), p)
    }

    /// The recorded diffs for `p`, oldest first.
    pub open spec fn diffs_for(&self, p: Seq<char>) -> Seq<DiffModel> {
        self.diffs_seq().filter(|d: DiffModel| d.file_path == p)
    }

    /// How many snapshot identities are still unassigned.
    pub closed spec fn snapshot_id_room(&self) -> int {
        i32::MAX - self.next_snapshot_id
    }

    /// How many diff identities are still unassigned.
    pub closed spec fn diff_id_room(&self) -> int {
        i32::MAX - self.next_diff_id
    }

    /// Internal consistency: paths key at most one snapshot, every stored
    /// record carries an identity, and identities are unique and below the
    /// next ones to be assigned.
    pub closed spec fn wf(&self) -> bool {
        &&& snaps_distinct(self.snapshots_seq())
        &&& forall|i: int|
            0 <= i < self.snapshots_seq().len() ==> (#[trigger] self.snapshots_seq()[i].id)
                is Some && 0 <= self.snapshots_seq()[i].id->0 < self.next_snapshot_id
        &&& forall|i: int|
            0 <= i < self.diffs_seq().len() ==> (#[trigger] self.diffs_seq()[i].id) is Some && 0
                <= self.diffs_seq()[i].id->0 < self.next_diff_id
                && self.diffs_seq()[i].original_file_id is Some
        &&& forall|i: int, j: int|
            0 <= i < j < self.diffs_seq().len() ==> (#[trigger] self.diffs_seq()[i].id) != (
            #[trigger] self.diffs_seq()[j].id)
        &&& 0 <= self.next_snapshot_id
        &&& 0 <= self.next_diff_id
    }

    /// An empty store, with its full range of identities to assign.
    pub fn new() -> (s: Store)
        ensures
            s.wf(),
            s.snapshots_seq() == Seq::<SnapshotModel>::empty(),
            s.diffs_seq() == Seq::<DiffModel>::empty(),
            s.snapshot_id_room() == i32::MAX as int,
            s.diff_id_room() == i32::MAX as int,
    {
        let s = Store { snapshots: Vec::new(), diffs: Vec::new(), next_snapshot_id: 0, next_diff_id: 0 };
        proof {
            assert(s.snapshots_seq() =~= Seq::<SnapshotModel>::empty());
            assert(s.diffs_seq() =~= Seq::<DiffModel>::empty());
        }
        s
    }

    /// Upserts the snapshot for `path`: after the call the one current
    /// snapshot for `path` holds exactly `data`, under a fresh identity,
    /// whether or not an older snapshot existed. Fails only when the store
    /// has no identity left to assign, and then changes nothing.
    pub fn put_snapshot(&mut self, path: &String, data: &Vec<u8>, now_ms: i64) -> (r: Result<
        i32,
        StoreError,
    >)
        requires
            old(self).wf(),
        ensures
            final(self).wf(),
            final(self).diffs_seq() == old(self).diffs_seq(),
            final(self).diff_id_room() == old(self).diff_id_room(),
            r is Err <==> old(self).snapshot_id_room() == 0,
            r is Err ==> *final(self) == *old(self) && r->Err_0 == StoreError::IdsExhausted,
            r is Ok ==> final(self).has_snapshot(path@),
            r is Ok ==> final(self).snapshot_at(path@) == (SnapshotModel {
                id: Some(r->Ok_0),
                file_path: path@,
                data: data@,
                timestamp: now_ms,
            }),
            r is Ok ==> forall|q: Seq<char>|
                q != path@ ==> (final(self).has_snapshot(q) <==> old(self).has_snapshot(q)),
            r is Ok ==> forall|q: Seq<char>|
                q != path@ && old(self).has_snapshot(q) ==> final(self).snapshot_at(q) == old(
                    self,
                ).snapshot_at(q),
            r is Ok ==> final(self).snapshot_id_room() == old(self).snapshot_id_room() - 1,
    {
        if self.next_snapshot_id == i32::MAX {
            return Err(StoreError::IdsExhausted);
        }
        let id = self.next_snapshot_id;
        self.next_snapshot_id = id + 1;
        let rec = FileDetail {
            id: Some(id),
            file_path: path.clone(),
            data: crate::models::clone_bytes(data),
            timestamp: now_ms,
        };
        let ghost pre = self.snapshots_seq();
        match self.find_snapshot_idx(path) {
            Some(i) => {
                let ghost old_idx = i as int;
                self.snapshots.remove(i);
                self.snapshots.push(rec);
                proof {
                    assert(self.snapshots_seq() =~= pre.remove(old_idx).push((SnapshotModel {
                        id: Some(id),
                        file_path: path@,
                        data: data@,
                        timestamp: now_ms,
                    })));
                    self.lemma_upsert_post(pre, old_idx, path@, data@, now_ms, id);
                }
                Ok(id)
            },
            None => {
                self.snapshots.push(rec);
                proof {
                    let post = self.snapshots_seq();
                    assert(post =~= pre.push((SnapshotModel {
                        id: Some(id),
                        file_path: path@,
                        data: data@,
                        timestamp: now_ms,
                    })));
                    assert(snaps_distinct(post));
                    lemma_snaps_at(post, path@, pre.len() as int);
                    assert forall|q: Seq<char>| q != path@ implies (snaps_has(post, q)
                        <==> snaps_has(pre, q)) by {
                        if snaps_has(post, q) {
                            let k = choose|k: int| 0 <= k < post.len() && post[k].file_path == q;
                            assert(0 <= k < pre.len() && pre[k].file_path == q);
                        }
                        if snaps_has(pre, q) {
                            let k = choose|k: int| 0 <= k < pre.len() && pre[k].file_path == q;
                            assert(post[k].file_path == q);
                        }
                    }
                    assert forall|q: Seq<char>| q != path@ && snaps_has(pre, q) implies snaps_at(
                        post,
                        q,
                    ) == snaps_at(pre, q) by {
                        let k = snaps_idx(pre, q);
                        assert(0 <= k < pre.len() && pre[k].file_path == q);
                        assert(post[k].file_path == q);
                        lemma_snaps_at(post, q, k);
                    }
                }
                Ok(id)
            },
        }
    }

    /// The most recent diffs recorded for `path`: never more than five
    /// records, ordered newest-first by timestamp, each a recorded diff for
    /// `path`, and every recorded diff for `path` that was left out is no
    /// newer than any returned one.
    #[verifier::loop_isolation(false)]
    pub fn list_recent_diffs(&self, path: &String) -> (r: Vec<FileDiff>)
        requires
            self.wf(),
        ensures
            recent_diffs_post(*self, path@, diff_models(r@)),
    {
        let ghost eqp = |d: DiffModel| d.file_path == path@;
        let ghost pre = self.diffs_seq();
        let ghost fs = self.diffs_for(path@);
        let mut found: Vec<FileDiff> = Vec::new();
        let mut i: usize = 0;
        while i < self.diffs.len()
            invariant
                i <= self.diffs@.len(),
                diff_models(found@) == pre.subrange(0, i as int).filter(eqp),
            decreases self.diffs@.len() - i,
        {
            proof {
                assert(pre.subrange(0, i + 1) =~= pre.subrange(0, i as int).push(pre[i as int]));
                lemma_filter_push(pre.subrange(0, i as int), pre[i as int], eqp);
            }
            if self.diffs[i].file_path.eq(path) {
                let ghost prev = diff_models(found@);
                found.push(self.diffs[i].clone());
                proof {
                    assert(diff_models(found@) =~= prev.push(pre[i as int]));
                }
            }
            i = i + 1;
        }
        proof {
            assert(pre.subrange(0, pre.len() as int) =~= pre);
            assert(diff_models(found@) == fs);
        }
        let mut sorted: Vec<FileDiff> = Vec::new();
        let mut j: usize = 0;
        while j < found.len()
            invariant
                j <= found@.len(),
                diff_models(sorted@).to_multiset() == diff_models(found@).subrange(
                    0,
                    j as int,
                ).to_multiset(),
                sorted_desc(diff_models(sorted@)),
            decreases found@.len() - j,
        {
            let x = found[j].clone();
            let ghost xm = x@;
            proof {
                assert(xm == diff_models(found@)[j as int]);
            }
            let mut pos: usize = 0;
            while pos < sorted.len() && sorted[pos].timestamp >= x.timestamp
                invariant
                    pos <= sorted@.len(),
                    forall|k: int|
                        0 <= k < pos ==> (#[trigger] diff_models(sorted@)[k]).timestamp
                            >= xm.timestamp,
                decreases sorted@.len() - pos,
            {
                proof {
                    assert(diff_models(sorted@)[pos as int].timestamp >= xm.timestamp);
                }
                pos = pos + 1;
            }
            let ghost prev = diff_models(sorted@);
            proof {
                if pos < sorted@.len() {
                    assert(prev[pos as int].timestamp < xm.timestamp);
                }
            }
            sorted.insert(pos, x);
            proof {
                let now = diff_models(sorted@);
                assert(now =~= prev.insert(pos as int, xm));
                assert(diff_models(found@).subrange(0, j + 1) =~= diff_models(found@).subrange(
                    0,
                    j as int,
                ).push(xm));
                assert(now.to_multiset() == diff_models(found@).subrange(0, j + 1).to_multiset());
                assert(forall|k: int| 0 <= k < pos ==> now[k] == prev[k]);
                assert(now[pos as int] == xm);
                assert(forall|k: int| pos < k < now.len() ==> now[k] == prev[k - 1]);
                assert forall|a: int, b: int| 0 <= a <= b < now.len() implies now[a].timestamp
                    >= now[b].timestamp by {
                    if a < pos && b == pos {
                        assert(prev[a].timestamp >= xm.timestamp);
                    } else if a == pos && b > pos {
                        assert(prev[pos as int].timestamp < xm.timestamp);
                        assert(prev[pos as int].timestamp >= prev[b - 1].timestamp);
                    } else if a < pos && b > pos {
                        assert(prev[a].timestamp >= prev[b - 1].timestamp);
                    } else if a == pos && b == pos {
                    } else if a > pos {
                        assert(prev[a - 1].timestamp >= prev[b - 1].timestamp);
                    } else {
                        assert(prev[a].timestamp >= prev[b].timestamp);
                    }
                }
            }
            j = j + 1;
        }
        proof {
            assert(diff_models(found@).subrange(0, found@.len() as int) =~= diff_models(found@));
            assert(diff_models(sorted@).to_multiset() == fs.to_multiset());
        }
        let ghost sv = diff_models(sorted@);
        if sorted.len() > 5 {
            sorted.truncate(5);
            proof {
                assert(diff_models(sorted@) =~= sv.subrange(0, 5));
            }
        }
        proof {
            let rs = diff_models(sorted@);
            assert(sv.to_multiset().len() == sv.len());
            assert(fs.to_multiset().len() == fs.len());
            assert(sv.len() == fs.len());
            assert(diff_ids_distinct(fs)) by {
                assert(diff_ids_distinct(pre));
                lemma_filter_ids(pre, eqp);
            }
            lemma_perm_keeps_distinct_ids(fs, sv);
            if fs.len() < 5 {
                assert(rs =~= sv);
            }
            assert(forall|i2: int| 0 <= i2 < rs.len() ==> rs[i2] == sv[i2]);
            assert forall|i2: int| 0 <= i2 < rs.len() implies fs.contains(#[trigger] rs[i2]) by {
                assert(sv.contains(sv[i2]));
                assert(fs.to_multiset().count(sv[i2]) > 0);
            }
            assert forall|k: int, i2: int|
                0 <= k < fs.len() && 0 <= i2 < rs.len() && !has_diff_id(
                    rs,
                    (#[trigger] fs[k]).id,
                ) implies fs[k].timestamp <= (#[trigger] rs[i2]).timestamp by {
                assert(fs.contains(fs[k]));
                assert(sv.to_multiset().count(fs[k]) > 0);
                assert(sv.contains(fs[k]));
                let m = choose|m: int| 0 <= m < sv.len() && sv[m] == fs[k];
                if m < rs.len() {
                    assert(rs[m].id == fs[k].id);
                    assert(has_diff_id(rs, fs[k].id));
                    assert(false);
                } else {
                    assert(sv[i2].timestamp >= sv[m].timestamp);
                }
            }
        }
        sorted
    }

    /// The index of the snapshot record keyed by `path`, if one is stored.
    fn find_snapshot_idx(&self, path: &String) -> (r: Option<usize>)
        ensures
            r is Some <==> snaps_has(self.snapshots_seq(), path@),
            r matches Some(i) ==> i < self.snapshots_seq().len()
                && self.snapshots_seq()[i as int].file_path == path@,
    {
        let mut i: usize = 0;
        while i < self.snapshots.len()
            invariant
                i <= self.snapshots@.len(),
                forall|j: int| 0 <= j < i ==> self.snapshots_seq()[j].file_path != path@,
            decreases self.snapshots@.len() - i,
        {
            if self.snapshots[i].file_path.eq(path) {
                proof {
                    assert(self.snapshots_seq()[i as int].file_path == path@);
                }
                return Some(i);
            }
            i = i + 1;
        }
        None
    }

    /// After removing the record at `old_idx` (keyed by `p`) and appending a
    /// fresh record for `p`, the store maps `p` to the fresh record and every
    /// other path as before.
    proof fn lemma_upsert_post(
        &self,
        pre: Seq<SnapshotModel>,
        old_idx: int,
        p: Seq<char>,
        data: Seq<u8>,
        now_ms: i64,
        id: i32,
    )
        requires
            snaps_distinct(pre),
            forall|i: int|
                0 <= i < pre.len() ==> (#[trigger] pre[i].id) is Some && 0 <= pre[i].id->0 < id,
            0 <= old_idx < pre.len(),
            pre[old_idx].file_path == p,
            self.snapshots_seq() == pre.remove(old_idx).push((SnapshotModel {
                id: Some(id),
                file_path: p,
                data: data,
                timestamp: now_ms,
            })),
            id < i32::MAX,
        ensures
            snaps_distinct(self.snapshots_seq()),
            forall|i: int|
                0 <= i < self.snapshots_seq().len() ==> (#[trigger] self.snapshots_seq()[i].id)
                    is Some && 0 <= self.snapshots_seq()[i].id->0 <= id,
            self.has_snapshot(p),
            self.snapshot_at(p) == (SnapshotModel {
                id: Some(id),
                file_path: p,
                data: data,
                timestamp: now_ms,
            }),
            forall|q: Seq<char>| q != p ==> (self.has_snapshot(q) <==> snaps_has(pre, q)),
            forall|q: Seq<char>|
                q != p && snaps_has(pre, q) ==> self.snapshot_at(q) == snaps_at(pre, q),
    {
        let mid = pre.remove(old_idx);
        let post = self.snapshots_seq();
        assert(forall|k: int|
            0 <= k < mid.len() ==> mid[k] == (if k < old_idx {
                pre[k]
            } else {
                pre[k + 1]
            }));
        assert(forall|k: int| 0 <= k < mid.len() ==> #[trigger] mid[k].file_path != p);
        assert(snaps_distinct(mid));
        assert(snaps_distinct(post));
        lemma_snaps_at(post, p, mid.len() as int);
        assert forall|q: Seq<char>| q != p implies (snaps_has(post, q) <==> snaps_has(pre, q)) by {
            if snaps_has(post, q) {
                let k = choose|k: int| 0 <= k < post.len() && post[k].file_path == q;
                assert(0 <= k < mid.len());
                if k < old_idx {
                    assert(pre[k].file_path == q);
                } else {
                    assert(pre[k + 1].file_path == q);
                }
            }
            if snaps_has(pre, q) {
                let k = choose|k: int| 0 <= k < pre.len() && pre[k].file_path == q;
                if k < old_idx {
                    assert(post[k].file_path == q);
                } else {
                    assert(k != old_idx);
                    assert(post[k - 1] == pre[k]);
                }
            }
        }
        assert forall|q: Seq<char>| q != p && snaps_has(pre, q) implies snaps_at(post, q)
            == snaps_at(pre, q) by {
            let k = snaps_idx(pre, q);
            assert(0 <= k < pre.len() && pre[k].file_path == q);
            lemma_snaps_at(pre, q, k);
            if k < old_idx {
                assert(post[k] == pre[k]);
                lemma_snaps_at(post, q, k);
            } else {
                assert(k != old_idx);
                assert(post[k - 1] == pre[k]);
                lemma_snaps_at(post, q, k - 1);
            }
        }
    }

    /// Appends a diff record for `path` whose patch rewrites the content of
    /// the snapshot identified by `source_id` into the content observed at
    /// capture time. Fails only when the store has no identity left to
    /// assign, and then changes nothing.
    pub fn put_diff(
        &mut self,
        source_id: i32,
        path: &String,
        change_event: String,
        patch: Vec<u8>,
        now_ms: i64,
    ) -> (r: Result<i32, StoreError>)
        requires
            old(self).wf(),
        ensures
            final(self).wf(),
            final(self).snapshots_seq() == old(self).snapshots_seq(),
            final(self).snapshot_id_room() == old(self).snapshot_id_room(),
            r is Err <==> old(self).diff_id_room() == 0,
            r is Err ==> *final(self) == *old(self) && r->Err_0 == StoreError::IdsExhausted,
            r matches Ok(id) ==> final(self).diffs_seq() == old(self).diffs_seq().push((DiffModel {
                id: Some(id),
                original_file_id: Some(source_id),
                change_event: change_event@,
                file_path: path@,
                data: patch@,
                timestamp: now_ms,
            })),
            r matches Ok(id) ==> final(self).diffs_for(path@) == old(self).diffs_for(path@).push(
                (DiffModel {
                    id: Some(id),
                    original_file_id: Some(source_id),
                    change_event: change_event@,
                    file_path: path@,
                    data: patch@,
                    timestamp: now_ms,
                }),
            ),
            r is Ok ==> forall|q: Seq<char>|
                q != path@ ==> final(self).diffs_for(q) == old(self).diffs_for(q),
            r is Ok ==> final(self).diff_id_room() == old(self).diff_id_room() - 1,
    {
        if self.next_diff_id == i32::MAX {
            return Err(StoreError::IdsExhausted);
        }
        let id = self.next_diff_id;
        self.next_diff_id = id + 1;
        let ghost pre = self.diffs_seq();
        let rec = FileDiff {
            id: Some(id),
            original_file_id: Some(source_id),
            change_event: change_event,
            file_path: path.clone(),
            data: patch,
            timestamp: now_ms,
        };
        let ghost model = rec@;
        self.diffs.push(rec);
        proof {
            assert(self.diffs_seq() =~= pre.push(model));
            lemma_filter_push(pre, model, |d: DiffModel| d.file_path == path@);
            assert forall|q: Seq<char>| q != path@ implies self.diffs_for(q) == old(
                self,
            ).diffs_for(q) by {
                lemma_filter_push(pre, model, |d: DiffModel| d.file_path == q);
            }
            assert forall|i: int, j: int|
                0 <= i < j < self.diffs_seq().len() implies (#[trigger] self.diffs_seq()[i].id) != (
            #[trigger] self.diffs_seq()[j].id) by {
                if j == self.diffs_seq().len() - 1 {
                    assert(pre[i].id is Some && pre[i].id->0 < id);
                }
            }
        }
        Ok(id)
    }

    /// Deletes the snapshot and every diff recorded for `path`, and reports
    /// how many diffs and snapshots were removed. Records for other paths
    /// are untouched.
    #[verifier::loop_isolation(false)]
    pub fn delete_all_for_path(&mut self, path: &String) -> (r: (usize, usize))
        requires
            old(self).wf(),
        ensures
            final(self).wf(),
            final(self).diffs_seq() == old(self).diffs_seq().filter(
                |d: DiffModel| d.file_path != path@,
            ),
            final(self).diffs_for(path@) == Seq::<DiffModel>::empty(),
            forall|q: Seq<char>| q != path@ ==> final(self).diffs_for(q) == old(self).diffs_for(q),
            !final(self).has_snapshot(path@),
            forall|q: Seq<char>|
                q != path@ ==> (final(self).has_snapshot(q) <==> old(self).has_snapshot(q)),
            forall|q: Seq<char>|
                q != path@ && old(self).has_snapshot(q) ==> final(self).snapshot_at(q) == old(
                    self,
                ).snapshot_at(q),
            r.0 == old(self).diffs_for(path@).len(),
            r.1 as int == (if old(self).has_snapshot(path@) {
                1int
            } else {
                0int
            }),
            final(self).snapshot_id_room() == old(self).snapshot_id_room(),
            final(self).diff_id_room() == old(self).diff_id_room(),
    {
        let ghost pre = self.diffs_seq();
        let ghost ne = |d: DiffModel| d.file_path != path@;
        let ghost eq = |d: DiffModel| d.file_path == path@;
        let mut kept: Vec<FileDiff> = Vec::new();
        let mut removed: usize = 0;
        let mut i: usize = 0;
        while i < self.diffs.len()
            invariant
                i <= self.diffs@.len(),
                removed <= i,
                self.diffs_seq() == pre,
                kept@.map_values(|d: FileDiff| d@) == pre.subrange(0, i as int).filter(ne),
                removed as int == pre.subrange(0, i as int).filter(eq).len(),
            decreases self.diffs@.len() - i,
        {
            let ghost prefix = pre.subrange(0, i as int);
            proof {
                assert(pre.subrange(0, i + 1) =~= prefix.push(pre[i as int]));
                lemma_filter_push(prefix, pre[i as int], ne);
                lemma_filter_push(prefix, pre[i as int], eq);
                prefix.lemma_filter_len(eq);
            }
            if self.diffs[i].file_path.eq(path) {
                proof {
                    assert(eq(pre[i as int]));
                }
                removed = removed + 1;
            } else {
                let ghost pre_kept = kept@.map_values(|d: FileDiff| d@);
                proof {
                    assert(ne(pre[i as int]));
                }
                kept.push(self.diffs[i].clone());
                proof {
                    assert(kept@.map_values(|d: FileDiff| d@) =~= pre_kept.push(pre[i as int]));
                }
            }
            i = i + 1;
        }
        proof {
            assert(pre.subrange(0, pre.len() as int) =~= pre);
        }
        self.diffs = kept;
        let snapshots_removed: usize = match self.find_snapshot_idx(path) {
            Some(idx) => {
                let ghost snaps_pre = self.snapshots_seq();
                self.snapshots.remove(idx);
                proof {
                    assert(self.snapshots_seq() =~= snaps_pre.remove(idx as int));
                    lemma_snaps_remove(snaps_pre, idx as int, path@);
                    assert forall|k: int| 0 <= k < self.snapshots_seq().len() implies (
                    #[trigger] self.snapshots_seq()[k].id) is Some && 0
                        <= self.snapshots_seq()[k].id->0 < self.next_snapshot_id by {
                        if k < idx {
                            assert(self.snapshots_seq()[k] == snaps_pre[k]);
                        } else {
                            assert(self.snapshots_seq()[k] == snaps_pre[k + 1]);
                        }
                    }
                }
                1
            },
            None => 0,
        };
        proof {
            lemma_filter_ids(pre, ne);
            assert forall|q: Seq<char>| q != path@ implies self.diffs_for(q) == pre.filter(
                |d: DiffModel| d.file_path == q,
            ) by {
                lemma_filter_other_path(pre, path@, q);
            }
            assert(forall|k: int| 0 <= k < pre.filter(ne).len() ==> !eq(#[trigger] pre.filter(
                ne,
            )[k]));
            lemma_filter_none(pre.filter(ne), eq);
            assert(self.diffs_for(path@) == Seq::<DiffModel>::empty());
            assert forall|i2: int|
                0 <= i2 < self.diffs_seq().len() implies (#[trigger] self.diffs_seq()[i2].id)
                is Some && 0 <= self.diffs_seq()[i2].id->0 < self.next_diff_id
                && self.diffs_seq()[i2].original_file_id is Some by {
                lemma_filter_mem(pre, ne, i2);
                let k = choose|k: int| 0 <= k < pre.len() && pre[k] == pre.filter(ne)[i2];
                assert(pre[k].id is Some);
            }
        }
        (removed, snapshots_removed)
    }

    /// The current snapshot for `path`, as its identity and a copy of its
    /// content; `None` exactly when no snapshot is current for `path`.
    pub fn get_latest_snapshot(&self, path: &String) -> (r: Option<(i32, Vec<u8>)>)
        requires
            self.wf(),
        ensures
            r is Some <==> self.has_snapshot(path@),
            r matches Some(f) ==> Some(f.0) == self.snapshot_at(path@).id && f.1@
                == self.snapshot_at(path@).data,
    {
        let mut i: usize = 0;
        while i < self.snapshots.len()
            invariant
                self.wf(),
                i <= self.snapshots@.len(),
                forall|j: int| 0 <= j < i ==> self.snapshots_seq()[j].file_path != path@,
            decreases self.snapshots@.len() - i,
        {
            if self.snapshots[i].file_path.eq(path) {
                proof {
                    lemma_snaps_at(self.snapshots_seq(), path@, i as int);
                }
                let found = &self.snapshots[i];
                let id = match found.id {
                    Some(id) => id,
                    None => {
                        proof {
                            assert(self.snapshots_seq()[i as int].id is Some);
                        }
                        unreached()
                    },
                };
                return Some((id, crate::models::clone_bytes(&found.data)));
            }
            i = i + 1;
        }
        None
    }
}

} // verus!
