//! Models for implementations that give none.

use vstd::prelude::*;

verus! {

/// Holds of every value. A model that is chosen under this condition is one of which
/// nothing is known.
pub open spec fn unconstrained<T>(x: T) -> bool {
    true
}

} // verus!
