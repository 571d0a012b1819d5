//! Small helpers on sequences of cells.
use vstd::prelude::*;
use crate::cell::Cell;
use crate::pattern::cell_states;

verus! {

/// Each state equals the one `period` positions later, as far as both exist.
pub open spec fn is_periodic_states(s: Seq<u8>, period: nat) -> bool {
    forall|i: int| 0 <= i && i + period < s.len() ==> #[trigger] s[i + period] == s[i]
}

/// Whether the cells repeat with period `period`: each cell equals the one
/// `period` positions later, as far as both exist.
pub fn is_periodic(diagonal: &Vec<Cell>, period: usize) -> (r: bool)
    ensures
        r == is_periodic_states(cell_states(diagonal@), period as nat),
{
    let length = diagonal.len();
    let mut i: usize = 0;
    while i < length && period < length - i
        invariant
            length == diagonal@.len(),
            i <= length,
            forall|k: int|
                0 <= k < i && k + period < length ==> #[trigger] cell_states(diagonal@)[k
                    + period] == cell_states(diagonal@)[k],
        decreases length - i,
    {
        let pos_period = i + period;
        assert(cell_states(diagonal@)[pos_period as int] == diagonal@[pos_period as int]@);
        assert(cell_states(diagonal@)[i as int] == diagonal@[i as int]@);
        if diagonal[pos_period].state() != diagonal[i].state() {
            return false;
        }
        i += 1;
    }
    true
}

} // verus!
