//! The watch-set reconciler: path lists as sets, and the pure set-difference
//! computation that turns a desired watch set and the current watch set into
//! the add and remove lists.

use vstd::prelude::*;

verus! {

/// True when some entry of `s` has exactly the characters `p`.
pub open spec fn has_path(s: Seq<String>, p: Seq<char>) -> bool {
    exists|i: int| 0 <= i < s.len() && s[i]@ == p
}

/// The set of paths (as character sequences) named by the entries of `s`.
pub open spec fn path_set(s: Seq<String>) -> Set<Seq<char>> {
    Set::new(|p: Seq<char>| has_path(s, p))
}

/// True when no two entries of `s` name the same path.
pub open spec fn distinct_paths(s: Seq<String>) -> bool {
    forall|i: int, j: int| 0 <= i < j < s.len() ==> s[i]@ != s[j]@
}

/// Appending an entry adds exactly its path to the paths a list names.
pub proof fn lemma_push_has_path(s: Seq<String>, x: String)
    ensures
        forall|p: Seq<char>| #[trigger] has_path(s.push(x), p) <==> (has_path(s, p) || p == x@),
{
    assert forall|p: Seq<char>| has_path(s, p) implies #[trigger] has_path(s.push(x), p) by {
        let i = choose|i: int| 0 <= i < s.len() && s[i]@ == p;
        assert(s.push(x)[i]@ == p);
    }
    assert(s.push(x)[s.len() as int]@ == x@);
    assert forall|p: Seq<char>| #[trigger] has_path(s.push(x), p) implies (has_path(s, p) || p
        == x@) by {
        let i = choose|i: int| 0 <= i < s.push(x).len() && s.push(x)[i]@ == p;
        if i < s.len() {
            assert(s[i]@ == p);
        }
    }
}

/// Extending a prefix of `v` by one entry adds exactly that entry's path.
proof fn lemma_prefix_extend(v: Seq<String>, i: int)
    requires
        0 <= i < v.len(),
    ensures
        forall|p: Seq<char>| #[trigger] has_path(v.subrange(0, i + 1), p) <==> (has_path(
            v.subrange(0, i),
            p,
        ) || p == v[i]@),
{
    assert(v.subrange(0, i + 1) =~= v.subrange(0, i).push(v[i]));
    lemma_push_has_path(v.subrange(0, i), v[i]);
}

/// True when `p` names the same path as some entry of `v`.
pub fn contains_path(v: &Vec<String>, p: &String) -> (b: bool)
    ensures
        b == has_path(v@, p@),
{
    find_path_idx(v, p).is_some()
}

/// The index of the first entry of `v` naming the path `p`, if any.
pub fn find_path_idx(v: &Vec<String>, p: &String) -> (r: Option<usize>)
    ensures
        r is Some <==> has_path(v@, p@),
        r matches Some(i) ==> i < v@.len() && v@[i as int]@ == p@,
{
    let mut i: usize = 0;
    while i < v.len()
        invariant
            i <= v@.len(),
            forall|j: int| 0 <= j < i ==> v@[j]@ != p@,
        decreases v@.len() - i,
    {
        if v[i].eq(p) {
            return Some(i);
        }
        i = i + 1;
    }
    None
}

/// Removing the one entry naming `p` from a duplicate-free list takes
/// exactly `p` out of the paths the list names.
pub proof fn lemma_paths_remove(s: Seq<String>, idx: int, p: Seq<char>)
    requires
        distinct_paths(s),
        0 <= idx < s.len(),
        s[idx]@ == p,
    ensures
        distinct_paths(s.remove(idx)),
        path_set(s.remove(idx)) == path_set(s).remove(p),
{
    let mid = s.remove(idx);
    assert(forall|k: int|
        0 <= k < mid.len() ==> #[trigger] mid[k] == (if k < idx {
            s[k]
        } else {
            s[k + 1]
        }));
    assert forall|k: int| 0 <= k < mid.len() implies (#[trigger] mid[k])@ != p by {
        if k < idx {
            assert(s[k]@ != s[idx]@);
        } else {
            assert(s[idx]@ != s[k + 1]@);
        }
    }
    assert(distinct_paths(mid));
    assert forall|q: Seq<char>| q != p implies (has_path(mid, q) <==> has_path(s, q)) by {
        if has_path(mid, q) {
            let k = choose|k: int| 0 <= k < mid.len() && mid[k]@ == q;
            if k < idx {
                assert(s[k]@ == q);
            } else {
                assert(s[k + 1]@ == q);
            }
        }
        if has_path(s, q) {
            let k = choose|k: int| 0 <= k < s.len() && s[k]@ == q;
            assert(k != idx);
            if k < idx {
                assert(mid[k]@ == q);
            } else {
                assert(mid[k - 1]@ == q);
            }
        }
    }
    assert(path_set(mid) =~= path_set(s).remove(p));
}

/// A copy of a path list, entry for entry.
pub fn clone_paths(v: &Vec<String>) -> (r: Vec<String>)
    ensures
        r@ == v@,
{
    let mut r: Vec<String> = Vec::new();
    let mut i: usize = 0;
    while i < v.len()
        invariant
            i <= v@.len(),
            r@ == v@.subrange(0, i as int),
        decreases v@.len() - i,
    {
        r.push(v[i].clone());
        proof {
            assert(r@ =~= v@.subrange(0, i + 1));
        }
        i = i + 1;
    }
    proof {
        assert(r@ =~= v@);
    }
    r
}

/// The entries of `v` with later repetitions of a path dropped: the result
/// names exactly the paths of `v`, each once.
pub fn dedup_paths(v: &Vec<String>) -> (r: Vec<String>)
    ensures
        distinct_paths(r@),
        path_set(r@) == path_set(v@),
{
    let mut r: Vec<String> = Vec::new();
    let mut i: usize = 0;
    while i < v.len()
        invariant
            i <= v@.len(),
            distinct_paths(r@),
            forall|p: Seq<char>| #[trigger] has_path(r@, p) <==> has_path(
                v@.subrange(0, i as int),
                p,
            ),
        decreases v@.len() - i,
    {
        let ghost old_r = r@;
        if !contains_path(&r, &v[i]) {
            r.push(v[i].clone());
            proof {
                lemma_push_has_path(old_r, r@[old_r.len() as int]);
                assert(r@ =~= old_r.push(r@[old_r.len() as int]));
            }
        }
        proof {
            lemma_prefix_extend(v@, i as int);
        }
        i = i + 1;
    }
    proof {
        assert(v@.subrange(0, v@.len() as int) =~= v@);
        assert(path_set(r@) =~= path_set(v@));
    }
    r
}

/// The entries of `base` that name no path of `except`, each path once.
fn paths_not_in(base: &Vec<String>, except: &Vec<String>) -> (r: Vec<String>)
    ensures
        distinct_paths(r@),
        path_set(r@) == path_set(base@).difference(path_set(except@)),
{
    let mut r: Vec<String> = Vec::new();
    let mut i: usize = 0;
    while i < base.len()
        invariant
            i <= base@.len(),
            distinct_paths(r@),
            forall|p: Seq<char>| #[trigger] has_path(r@, p) <==> (has_path(
                base@.subrange(0, i as int),
                p,
            ) && !has_path(except@, p)),
        decreases base@.len() - i,
    {
        let ghost old_r = r@;
        if !contains_path(except, &base[i]) && !contains_path(&r, &base[i]) {
            r.push(base[i].clone());
            proof {
                lemma_push_has_path(old_r, r@[old_r.len() as int]);
                assert(r@ =~= old_r.push(r@[old_r.len() as int]));
            }
        }
        proof {
            lemma_prefix_extend(base@, i as int);
        }
        i = i + 1;
    }
    proof {
        assert(base@.subrange(0, base@.len() as int) =~= base@);
        assert(path_set(r@) =~= path_set(base@).difference(path_set(except@)));
    }
    r
}

/// Computes the minimal add and remove lists that move the watch set from
/// `current` to `desired`: `to_add` names exactly the desired paths not yet
/// watched, `to_remove` exactly the watched paths no longer desired, and the
/// two are disjoint.
pub fn reconcile(desired: &Vec<String>, current: &Vec<String>) -> (r: (Vec<String>, Vec<String>))
    ensures
        path_set(r.0@) == path_set(desired@).difference(path_set(current@)),
        path_set(r.1@) == path_set(current@).difference(path_set(desired@)),
        distinct_paths(r.0@),
        distinct_paths(r.1@),
        path_set(r.0@).disjoint(path_set(r.1@)),
{
    let to_add = paths_not_in(desired, current);
    let to_remove = paths_not_in(current, desired);
    proof {
        lemma_differences_disjoint(path_set(desired@), path_set(current@));
    }
    (to_add, to_remove)
}

/// The two directed differences of any two sets share no element.
pub proof fn lemma_differences_disjoint<A>(d: Set<A>, c: Set<A>)
    ensures
        d.difference(c).disjoint(c.difference(d)),
{
}

/// Convergence of a reconciled update: removing the stale paths from the
/// current set and then adding the missing ones yields exactly the desired
/// set, so dispatching the remove events before the add events moves the
/// watch set to the commanded one.
pub proof fn lemma_reconcile_converges<A>(d: Set<A>, c: Set<A>)
    ensures
        c.difference(c.difference(d)).union(d.difference(c)) == d,
{
    assert(c.difference(c.difference(d)).union(d.difference(c)) =~= d);
}

} // verus!
