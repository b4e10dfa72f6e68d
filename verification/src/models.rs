//! The records the engine persists: full content snapshots of a watched
//! path and binary diffs chained onto the snapshot they were computed from.

use vstd::prelude::*;

verus! {

broadcast use vstd::seq_lib::group_filter_ensures;

/// Full captured content of a path at a point in time. At most one snapshot
/// is current per path; a later capture for the same path supersedes it.
#[derive(Debug)]
pub struct FileDetail {
    /// Identity assigned by the store; `None` only before the record is put.
    pub id: Option<i32>,
    pub file_path: String,
    pub data: Vec<u8>,
    /// Capture time, in milliseconds.
    pub timestamp: i64,
}

/// An incremental change record: a binary patch from the content of the
/// snapshot identified by `original_file_id` to the content observed when
/// the change was captured. Diff records are append-only.
#[derive(Debug)]
pub struct FileDiff {
    /// Identity assigned by the store; `None` only before the record is put.
    pub id: Option<i32>,
    /// The snapshot the patch applies to; `None` only before the record is put.
    pub original_file_id: Option<i32>,
    /// Label of the file-system change that triggered the capture.
    pub change_event: String,
    pub file_path: String,
    /// The binary patch, applicable to the source snapshot's content.
    pub data: Vec<u8>,
    /// Capture time, in milliseconds.
    pub timestamp: i64,
}

/// Mathematical image of a `FileDetail`.
pub ghost struct SnapshotModel {
    pub id: Option<i32>,
    pub file_path: Seq<char>,
    pub data: Seq<u8>,
    pub timestamp: i64,
}

/// Mathematical image of a `FileDiff`.
pub ghost struct DiffModel {
    pub id: Option<i32>,
    pub original_file_id: Option<i32>,
    pub change_event: Seq<char>,
    pub file_path: Seq<char>,
    pub data: Seq<u8>,
    pub timestamp: i64,
}

impl View for FileDetail {
    type V = SnapshotModel;

    open spec fn view(&self) -> SnapshotModel {
        SnapshotModel {
            id: self.id,
            file_path: self.file_path@,
            data: self.data@,
            timestamp: self.timestamp,
        }
    }
}

impl View for FileDiff {
    type V = DiffModel;

    open spec fn view(&self) -> DiffModel {
        DiffModel {
            id: self.id,
            original_file_id: self.original_file_id,
            change_event: self.change_event@,
            file_path: self.file_path@,
            data: self.data@,
            timestamp: self.timestamp,
        }
    }
}

impl Clone for FileDetail {
    fn clone(&self) -> (res: Self)
        ensures
            res@ == self@,
    {
        FileDetail {
            id: self.id,
            file_path: self.file_path.clone(),
            data: clone_bytes(&self.data),
            timestamp: self.timestamp,
        }
    }
}

impl Clone for FileDiff {
    fn clone(&self) -> (res: Self)
        ensures
            res@ == self@,
    {
        FileDiff {
            id: self.id,
            original_file_id: self.original_file_id,
            change_event: self.change_event.clone(),
            file_path: self.file_path.clone(),
            data: clone_bytes(&self.data),
            timestamp: self.timestamp,
        }
    }
}

/// A diff record prepared for a presentation layer: the path split into its
/// components and the patch decoded as text.
#[derive(Debug)]
pub struct FileDiffResult {
    pub id: Option<i32>,
    pub original_file_id: Option<i32>,
    pub change_event: String,
    /// The components of `file_path`, in order.
    pub file_path: Vec<String>,
    /// The patch, as text.
    pub data: String,
    pub timestamp: i64,
}

/// The chunks of `s` between occurrences of `'/'`, `cur` being the partial
/// chunk already read; adjacent separators yield empty chunks.
pub open spec fn split_acc(s: Seq<char>, cur: Seq<char>) -> Seq<Seq<char>>
    decreases s.len(),
{
    if s.len() == 0 {
        seq![cur]
    } else if s[0] == '/' {
        seq![cur] + split_acc(s.drop_first(), Seq::empty())
    } else {
        split_acc(s.drop_first(), cur.push(s[0]))
    }
}

/// True for the chunks that name a real path component: not empty, not the
/// current-directory marker, not the parent-directory marker.
pub open spec fn keeps_segment(c: Seq<char>) -> bool {
    c.len() > 0 && c != seq!['.'] && c != seq!['.', '.']
}

/// The component filter, as one function value shared by specification and
/// proof.
pub open spec fn keep_pred() -> spec_fn(Seq<char>) -> bool {
    |c: Seq<char>| keeps_segment(c)
}

/// The components of the path `s`: the chunks between `'/'` separators,
/// dropping empty chunks and the current- and parent-directory markers.
pub open spec fn segments_of(s: Seq<char>) -> Seq<Seq<char>> {
    split_acc(s, Seq::empty()).filter(keep_pred())
}

/// The views of a list of strings.
pub open spec fn string_views(s: Seq<String>) -> Seq<Seq<char>> {
    s.map_values(|x: String| x@)
}

/// Splits a path into its components: the runs of characters between `'/'`
/// separators, dropping empty runs and the `.` and `..` markers.
#[verifier::loop_isolation(false)]
pub fn split_components(path: &String) -> (r: Vec<String>)
    ensures
        string_views(r@) == segments_of(path@),
{
    let pstr = path.as_str();
    let n = pstr.unicode_len();
    let mut out: Vec<String> = Vec::new();
    let ghost mut flushed: Seq<Seq<char>> = Seq::empty();
    let mut seg_start: usize = 0;
    let mut i: usize = 0;
    proof {
        assert(path@.skip(0) =~= path@);
        assert(path@.subrange(0, 0) =~= Seq::<char>::empty());
        assert(Seq::<Seq<char>>::empty() + split_acc(path@, Seq::empty()) =~= split_acc(
            path@,
            Seq::empty(),
        ));
    }
    while i < n
        invariant
            seg_start <= i <= n,
            split_acc(path@, Seq::empty()) == flushed + split_acc(
                path@.skip(i as int),
                path@.subrange(seg_start as int, i as int),
            ),
            string_views(out@) == flushed.filter(keep_pred()),
        decreases n - i,
    {
        let ghost cur = path@.subrange(seg_start as int, i as int);
        let c = pstr.get_char(i);
        if c == '/' {
            let kept = keep_segment(pstr, seg_start, i);
            if kept {
                let seg = pstr.substring_char(seg_start, i).to_owned();
                let ghost prev_out = string_views(out@);
                out.push(seg);
                proof {
                    assert(string_views(out@) =~= prev_out.push(cur));
                }
            }
            proof {
                let rest = path@.skip(i as int);
                assert(rest[0] == '/');
                assert(rest.drop_first() =~= path@.skip(i + 1));
                assert(split_acc(rest, cur) == seq![cur] + split_acc(
                    path@.skip(i + 1),
                    Seq::empty(),
                ));
                crate::store::lemma_filter_push(flushed, cur, keep_pred());
                let prev_flushed = flushed;
                flushed = flushed.push(cur);
                assert(prev_flushed + (seq![cur] + split_acc(path@.skip(i + 1), Seq::empty()))
                    =~= flushed + split_acc(path@.skip(i + 1), Seq::empty()));
                assert(path@.subrange(i + 1, i + 1) =~= Seq::<char>::empty());
            }
            seg_start = i + 1;
        } else {
            proof {
                let rest = path@.skip(i as int);
                assert(rest[0] == path@[i as int]);
                assert(rest.drop_first() =~= path@.skip(i + 1));
                assert(split_acc(rest, cur) == split_acc(
                    path@.skip(i + 1),
                    cur.push(path@[i as int]),
                ));
                assert(path@.subrange(seg_start as int, i + 1) =~= cur.push(path@[i as int]));
            }
        }
        i = i + 1;
    }
    let ghost cur = path@.subrange(seg_start as int, i as int);
    let kept = keep_segment(pstr, seg_start, n);
    if kept {
        let seg = pstr.substring_char(seg_start, n).to_owned();
        let ghost prev_out = string_views(out@);
        out.push(seg);
        proof {
            assert(string_views(out@) =~= prev_out.push(cur));
        }
    }
    proof {
        assert(path@.skip(n as int) =~= Seq::<char>::empty());
        assert(split_acc(path@.skip(n as int), cur) == seq![cur]);
        assert(flushed + seq![cur] =~= flushed.push(cur));
        crate::store::lemma_filter_push(flushed, cur, keep_pred());
        assert(string_views(out@) == flushed.push(cur).filter(keep_pred()));
        assert(string_views(out@) =~= segments_of(path@));
    }
    out
}

/// Whether the run of characters `[from, to)` of `s` is a path component
/// worth keeping: not empty and not a `.` or `..` marker.
fn keep_segment(s: &str, from: usize, to: usize) -> (r: bool)
    requires
        from <= to <= s@.len(),
    ensures
        r == keeps_segment(s@.subrange(from as int, to as int)),
{
    let ghost cur = s@.subrange(from as int, to as int);
    if to == from {
        proof {
            assert(!keeps_segment(cur));
        }
        false
    } else if to == from + 1 {
        let c0 = s.get_char(from);
        proof {
            assert(cur.len() == 1 && cur[0] == s@[from as int]);
            if c0 == '.' {
                assert(cur =~= seq!['.']);
            } else {
                assert(cur != seq!['.'] && cur != seq!['.', '.']);
            }
        }
        c0 != '.'
    } else if to == from + 2 {
        let c0 = s.get_char(from);
        let c1 = s.get_char(from + 1);
        proof {
            assert(cur.len() == 2 && cur[0] == s@[from as int] && cur[1] == s@[from + 1]);
            if c0 == '.' && c1 == '.' {
                assert(cur =~= seq!['.', '.']);
            } else {
                assert(cur != seq!['.', '.']);
            }
            assert(cur != seq!['.']);
        }
        !(c0 == '.' && c1 == '.')
    } else {
        proof {
            assert(cur.len() >= 3);
            assert(cur != seq!['.'] && cur != seq!['.', '.']);
        }
        true
    }
}

/// Relies on String::from_utf8: it succeeds exactly on valid UTF-8 input,
/// and then returns the string those bytes encode.
#[verifier::external_body]
fn bytes_to_string(b: &Vec<u8>) -> (r: Option<String>)
    ensures
        r is Some <==> vstd::utf8::valid_utf8(b@),
        r matches Some(s) ==> s@ == vstd::utf8::decode_utf8(b@),
{
    String::from_utf8(b.clone()).ok()
}

impl FileDiffResult {
    /// Prepares a recorded diff for presentation: the path split into
    /// components and the patch decoded as text. `None` exactly when the
    /// patch bytes are not valid UTF-8.
    pub fn from_diff(d: &FileDiff) -> (r: Option<FileDiffResult>)
        ensures
            r is Some <==> vstd::utf8::valid_utf8(d.data@),
            r matches Some(res) ==> ({
                &&& res.id == d.id
                &&& res.original_file_id == d.original_file_id
                &&& res.change_event@ == d.change_event@
                &&& string_views(res.file_path@) == segments_of(d.file_path@)
                &&& res.data@ == vstd::utf8::decode_utf8(d.data@)
                &&& res.timestamp == d.timestamp
            }),
    {
        match bytes_to_string(&d.data) {
            None => None,
            Some(text) => Some(
                FileDiffResult {
                    id: d.id,
                    original_file_id: d.original_file_id,
                    change_event: d.change_event.clone(),
                    file_path: split_components(&d.file_path),
                    data: text,
                    timestamp: d.timestamp,
                },
            ),
        }
    }
}

/// Byte-for-byte copy of a byte vector.
pub fn clone_bytes(v: &Vec<u8>) -> (r: Vec<u8>)
    ensures
        r@ == v@,
{
    let mut r: Vec<u8> = Vec::new();
    let mut i: usize = 0;
    while i < v.len()
        invariant
            i <= v@.len(),
            r@ == v@.subrange(0, i as int),
        decreases v@.len() - i,
    {
        r.push(v[i]);
        i = i + 1;
        proof {
            assert(r@ =~= v@.subrange(0, i as int));
        }
    }
    proof {
        assert(r@ =~= v@);
    }
    r
}

} // verus!
