//! The versions of the store's schema. A store remembers the version it was
//! brought to, and each step of the schema is taken once.

use vstd::prelude::*;

verus! {

/// The latest version of the schema.
pub const LATEST_VERSION: i64 = 2;

/// The steps that bring a store at version `current` to the latest version:
/// every version above `current` up to the latest, in rising order.
pub open spec fn steps_due(current: i64) -> Seq<i64> {
    if current < 1 {
        seq![1i64, 2i64]
    } else if current < 2 {
        seq![2i64]
    } else {
        Seq::empty()
    }
}

/// The steps of the schema that a store at version `current` has yet to take.
/// A store at the latest version, or beyond it, takes none.
pub fn migrations_due(current: i64) -> (out: Vec<i64>)
    ensures
        out@ == steps_due(current),
        forall|i: int| 0 <= i < out@.len() ==> current < #[trigger] out@[i] <= LATEST_VERSION,
{
    let mut out: Vec<i64> = Vec::new();
    if current < 1 {
        out.push(1);
    }
    if current < 2 {
        out.push(2);
    }
    assert(out@ =~= steps_due(current));
    out
}

} // verus!
