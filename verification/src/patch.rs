//! Binary patch creation and application. The diff algorithm itself is the
//! diffy crate's; this module gives its results a name that the capture
//! pipeline's contracts are stated over.

use vstd::prelude::*;

verus! {

/// The serialized patch that the diff algorithm produces for the change from
/// `original` to `modified`: a function of the two byte sequences alone.
pub uninterp spec fn patch_of(original: Seq<u8>, modified: Seq<u8>) -> Seq<u8>;

/// Relies on diffy::create_patch_bytes and diffy::Patch::to_bytes: the patch
/// is computed from the two byte sequences alone (a deterministic line-based
/// diff of arbitrary, not necessarily UTF-8, content) and serialized.
#[verifier::external_body]
pub(crate) fn create_patch(original: &Vec<u8>, modified: &Vec<u8>) -> (r: Vec<u8>)
    ensures
        r@ == patch_of(original@, modified@),
{
    diffy::create_patch_bytes(original.as_slice(), modified.as_slice()).to_bytes()
}

/// Relies on diffy::Patch::from_bytes and diffy::apply_bytes: a patch
/// serialized from the diff of `base` against some content parses back, and
/// applying it to `base` rebuilds that content byte for byte.
#[verifier::external_body]
pub(crate) fn apply_patch(base: &Vec<u8>, patch: &Vec<u8>) -> (r: Option<Vec<u8>>)
    ensures
        forall|m: Seq<u8>| patch@ == #[trigger] patch_of(base@, m) ==> r is Some && r->0@ == m,
{
    match diffy::Patch::from_bytes(patch.as_slice()) {
        Ok(p) => diffy::apply_bytes(base.as_slice(), &p).ok(),
        Err(_) => None,
    }
}

} // verus!
