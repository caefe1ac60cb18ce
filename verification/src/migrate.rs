//! The order in which catalog schema migrations are applied: strictly
//! ascending, one version at a time, from the version on record up to the
//! latest.

use vstd::prelude::*;

verus! {

/// The migration versions still to apply, in strictly ascending order:
/// `current + 1` through `latest`, and nothing when the record is already
/// at or past the latest.
pub fn pending_migrations(current: u32, latest: u32) -> (r: Vec<u32>)
    ensures
        current < latest ==> r@.len() == latest - current,
        current >= latest ==> r@.len() == 0,
        forall|i: int| 0 <= i < r@.len() ==> r@[i] == current + 1 + i,
{
    let mut r: Vec<u32> = Vec::new();
    if current >= latest {
        return r;
    }
    let mut v = current;
    while v < latest
        invariant
            current <= v <= latest,
            r@.len() == v - current,
            forall|i: int| 0 <= i < r@.len() ==> r@[i] == current + 1 + i,
        decreases latest - v,
    {
        v = v + 1;
        r.push(v);
    }
    r
}

} // verus!
