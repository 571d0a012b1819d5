//! One row of a one-dimensional cellular automaton.
use vstd::prelude::*;
use crate::cell::{state_char, Cell};
use crate::rules::Rule;
use crate::text::push_char;

verus! {

/// Every state is 0 or 1.
pub open spec fn is_binary(s: Seq<u8>) -> bool {
    forall|i: int| 0 <= i < s.len() ==> #[trigger] s[i] <= 1
}

/// The index of the left neighbour of cell `i`: the first cell is its own
/// left neighbour.
pub open spec fn left_index(i: int) -> int {
    if i == 0 {
        0
    } else {
        i - 1
    }
}

/// The index of the right neighbour of cell `i` in a row of `n` cells: the
/// last cell has the first one as right neighbour.
pub open spec fn right_index(i: int, n: int) -> int {
    if i == n - 1 {
        0
    } else {
        i + 1
    }
}

/// The states of the row that follows `s` under `rule`.
pub open spec fn next_states<R: Rule>(rule: &R, s: Seq<u8>) -> Seq<u8> {
    Seq::new(
        s.len(),
        |i: int| rule.spec_apply(s[left_index(i)], s[i], s[right_index(i, s.len() as int)]),
    )
}

/// The characters that draw the states.
pub open spec fn states_chars(s: Seq<u8>) -> Seq<char> {
    Seq::new(s.len(), |i: int| state_char(s[i]))
}

/// A row of cells.
pub struct Row {
    configuration: Vec<Cell>,
    iteration: usize,
}

impl View for Row {
    type V = Seq<u8>;

    closed spec fn view(&self) -> Seq<u8> {
        self.configuration@.map_values(|c: Cell| c@)
    }
}

impl Clone for Row {
    /// A copy with the same cells.
    fn clone(&self) -> (r: Row)
        ensures
            r@ == self@,
    {
        let configuration = self.configuration.clone();
        assert(configuration@ =~= self.configuration@);
        Self { configuration, iteration: self.iteration }
    }
}

impl Row {
    /// The number of cells.
    pub fn len(&self) -> (r: usize)
        ensures
            r == self@.len(),
    {
        self.configuration.len()
    }

    /// The cell at `index`, if there is one.
    pub fn get(&self, index: usize) -> (r: Option<&Cell>)
        ensures
            r.is_some() == (index < self@.len()),
            r.is_some() ==> r.unwrap()@ == self@[index as int],
    {
        if index < self.configuration.len() {
            Some(&self.configuration[index])
        } else {
            None
        }
    }

    /// A row holding the given cells.
    pub fn new(configuration: Vec<Cell>) -> (r: Row)
        ensures
            r@ == configuration@.map_values(|c: Cell| c@),
    {
        Self { configuration, iteration: 0 }
    }

    /// The row that follows under `rule`: each cell is updated from its left
    /// neighbour, itself and its right neighbour, the first cell being its
    /// own left neighbour and the first cell the right neighbour of the last.
    pub fn next<R: Rule>(&self, rule: &R) -> (r: Row)
        requires
            is_binary(self@),
        ensures
            r@ == next_states(rule, self@),
            is_binary(r@),
    {
        let n = self.configuration.len();
        let mut next_configuration: Vec<Cell> = Vec::with_capacity(n);
        let mut i: usize = 0;
        while i < n
            invariant
                n == self@.len(),
                i <= n,
                is_binary(self@),
                next_configuration@.map_values(|c: Cell| c@) =~= next_states(rule, self@).subrange(
                    0,
                    i as int,
                ),
                forall|k: int| 0 <= k < i ==> #[trigger] next_configuration@[k]@ <= 1,
                next_configuration@.len() == i,
            decreases n - i,
        {
            let left = if i == 0 {
                0
            } else {
                i - 1
            };
            let center = i;
            let right = if i == n - 1 {
                0
            } else {
                i + 1
            };
            assert(self@[left as int] == self.configuration@[left as int]@);
            assert(self@[center as int] == self.configuration@[center as int]@);
            assert(self@[right as int] == self.configuration@[right as int]@);
            let new_state = rule.apply(
                self.configuration[left].state(),
                self.configuration[center].state(),
                self.configuration[right].state(),
            );
            next_configuration.push(Cell::new(new_state));
            i += 1;
        }
        let r = Self::new(next_configuration);
        assert(r@ =~= next_states(rule, self@));
        assert forall|k: int| 0 <= k < r@.len() implies #[trigger] r@[k] <= 1 by {
            assert(r@[k] == next_configuration@[k]@);
        }
        r
    }

    /// The row drawn with one character per cell: `.` for 0, `#` for 1,
    /// `?` otherwise.
    pub fn to_string(&self) -> (r: String)
        ensures
            r@ == states_chars(self@),
    {
        let mut result = String::new();
        let mut i: usize = 0;
        while i < self.configuration.len()
            invariant
                i <= self@.len(),
                result@ =~= states_chars(self@).subrange(0, i as int),
            decreases self@.len() - i,
        {
            push_char(&mut result, self.configuration[i].display());
            i += 1;
        }
        result
    }
}

} // verus!
