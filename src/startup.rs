use vstd::prelude::*;

verus! {

/// Whether an initial-state file seeds the store at start: only when one is
/// given, and only into an empty store, one that the clean flag wiped or
/// that does not exist yet. An existing store keeps its state.
pub fn uses_initial_state(state_given: bool, clean: bool, store_exists: bool) -> (r: bool)
    ensures
        r == (state_given && (clean || !store_exists)),
{
    if clean {
        state_given
    } else if store_exists {
        false
    } else {
        state_given
    }
}

} // verus!
