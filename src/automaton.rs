//! The naive simulator: the space-time diagram built row by row.
use vstd::prelude::*;
use crate::row::{is_binary, next_states, states_chars, Row};
use crate::rules::Rule;

verus! {

/// The states of row `k` of the diagram that starts with `first` under
/// `rule`.
pub open spec fn generation<R: Rule>(rule: &R, first: Seq<u8>, k: nat) -> Seq<u8>
    decreases k,
{
    if k == 0 {
        first
    } else {
        next_states(rule, generation(rule, first, (k - 1) as nat))
    }
}

/// The text of a diagram: each row drawn on a line of its own.
pub open spec fn grid_text(rows: Seq<Seq<u8>>) -> Seq<char>
    decreases rows.len(),
{
    if rows.len() == 0 {
        Seq::empty()
    } else {
        grid_text(rows.drop_last()) + states_chars(rows.last()) + seq!['\n']
    }
}

/// The space-time diagram of an automaton, built row by row.
pub struct Automaton<R: Rule> {
    grid: Vec<Row>,
    iteration: usize,
    rule: R,
    col: usize,
}

impl<R: Rule> Automaton<R> {
    /// The states of each row, first row first.
    pub closed spec fn rows(&self) -> Seq<Seq<u8>> {
        self.grid@.map_values(|r: Row| r@)
    }

    /// The rule.
    pub closed spec fn spec_rule(&self) -> &R {
        &self.rule
    }

    /// The width of the first row.
    pub closed spec fn spec_col(&self) -> nat {
        self.col as nat
    }

    /// Every row follows from the first under the rule, and the counter of
    /// iterations is the number of rows.
    pub closed spec fn wf(&self) -> bool {
        &&& self.grid@.len() >= 1
        &&& self.iteration == self.grid@.len()
        &&& forall|k: int| 0 <= k < self.grid@.len() ==> (#[trigger] self.grid@[k]@).len() == self.col
        &&& forall|k: int|
            0 <= k < self.grid@.len() ==> #[trigger] self.grid@[k]@ == generation(
                &self.rule,
                self.grid@[0]@,
                k as nat,
            )
        &&& is_binary(self.grid@[0]@) ==> forall|k: int|
            0 <= k < self.grid@.len() ==> is_binary(#[trigger] self.grid@[k]@)
    }

    /// Every row of a well-formed diagram is as wide as the first, and is
    /// the generation of the first row under the rule.
    pub proof fn lemma_rows_shape(&self)
        requires
            self.wf(),
        ensures
            self.rows().len() >= 1,
            forall|k: int|
                0 <= k < self.rows().len() ==> (#[trigger] self.rows()[k]).len() == self.spec_col(),
            forall|k: int|
                0 <= k < self.rows().len() ==> #[trigger] self.rows()[k] == generation(
                    self.spec_rule(),
                    self.rows()[0],
                    k as nat,
                ),
    {
        assert forall|k: int| 0 <= k < self.rows().len() implies (#[trigger] self.rows()[k]).len()
            == self.spec_col() && self.rows()[k] == generation(
            self.spec_rule(),
            self.rows()[0],
            k as nat,
        ) by {
            assert(self.rows()[k] == self.grid@[k]@);
            assert(self.rows()[0] == self.grid@[0]@);
        }
    }

    /// A diagram made of `first_row` alone, at iteration 1.
    pub fn new(first_row: Row, rule: R) -> (r: Self)
        ensures
            r.wf(),
            r.rows() == seq![first_row@],
            r.spec_rule() == &rule,
            r.spec_col() == first_row@.len(),
    {
        let col = first_row.len();
        let r = Self { grid: vec![first_row], iteration: 1, rule, col };
        assert(r.rows() =~= seq![first_row@]);
        r
    }

    /// Appends the row that follows the last one.
    pub fn next(&mut self)
        requires
            old(self).wf(),
            is_binary(old(self).rows()[0]),
            old(self).rows().len() < usize::MAX,
        ensures
            final(self).wf(),
            final(self).rows() == old(self).rows().push(
                next_states(old(self).spec_rule(), old(self).rows().last()),
            ),
            final(self).spec_rule() == old(self).spec_rule(),
            final(self).spec_col() == old(self).spec_col(),
    {
        let n = self.grid.len();
        assert(is_binary(self.grid@[n - 1]@));
        let new_line = self.grid[n - 1].next(&self.rule);
        self.grid.push(new_line);
        self.iteration += 1;
        assert(self.rows() =~= old(self).rows().push(
            next_states(old(self).spec_rule(), old(self).rows().last()),
        ));
        assert(self.grid@[0] == old(self).grid@[0]);
        assert forall|k: int| 0 <= k < self.grid@.len() implies #[trigger] self.grid@[k]@
            == generation(&self.rule, self.grid@[0]@, k as nat) by {
            if k < n {
                assert(self.grid@[k] == old(self).grid@[k]);
            }
        }
    }

    /// Appends `steps` rows, each following the one before.
    pub fn evolve(&mut self, steps: u64)
        requires
            old(self).wf(),
            is_binary(old(self).rows()[0]),
            old(self).rows().len() + steps < usize::MAX,
        ensures
            final(self).wf(),
            final(self).rows().len() == old(self).rows().len() + steps,
            final(self).rows().subrange(0, old(self).rows().len() as int) == old(self).rows(),
            final(self).rows()[0] == old(self).rows()[0],
            forall|k: int|
                0 <= k < final(self).rows().len() ==> #[trigger] final(self).rows()[k]
                    == generation(old(self).spec_rule(), old(self).rows()[0], k as nat),
            final(self).spec_rule() == old(self).spec_rule(),
            final(self).spec_col() == old(self).spec_col(),
    {
        let mut k: u64 = 0;
        while k < steps
            invariant
                k <= steps,
                self.wf(),
                self.rows().len() == old(self).rows().len() + k,
                self.rows().subrange(0, old(self).rows().len() as int) == old(self).rows(),
                self.rows()[0] == old(self).rows()[0],
                is_binary(old(self).rows()[0]),
                old(self).rows().len() + steps < usize::MAX,
                self.spec_rule() == old(self).spec_rule(),
                self.spec_col() == old(self).spec_col(),
            decreases steps - k,
        {
            let ghost before = self.rows();
            self.next();
            assert(self.rows().subrange(0, before.len() as int) == before);
            assert(self.rows().subrange(0, old(self).rows().len() as int) =~= before.subrange(
                0,
                old(self).rows().len() as int,
            ));
            k += 1;
        }
        proof {
            self.lemma_rows_shape();
        }
    }

    /// The rows of the diagram.
    pub fn grid(&self) -> (r: &Vec<Row>)
        ensures
            r@.map_values(|row: Row| row@) == self.rows(),
    {
        &self.grid
    }

    /// The number of rows.
    pub fn iteration(&self) -> (r: usize)
        requires
            self.wf(),
        ensures
            r == self.rows().len(),
    {
        self.iteration
    }

    /// The width of the first row.
    pub fn col(&self) -> (r: usize)
        ensures
            r == self.spec_col(),
    {
        self.col
    }

    /// The larger of the width and the number of rows.
    pub fn max_iteration(&self) -> (r: usize)
        requires
            self.wf(),
        ensures
            r == if self.spec_col() >= self.rows().len() {
                self.spec_col()
            } else {
                self.rows().len()
            },
    {
        if self.col >= self.iteration {
            self.col
        } else {
            self.iteration
        }
    }

    /// The diagram drawn row by row, each row on a line of its own.
    pub fn to_string(&self) -> (r: String)
        ensures
            r@ == grid_text(self.rows()),
    {
        let mut result = String::new();
        let mut i: usize = 0;
        while i < self.grid.len()
            invariant
                i <= self.grid@.len(),
                result@ == grid_text(self.rows().subrange(0, i as int)),
            decreases self.grid@.len() - i,
        {
            let line = self.grid[i].to_string();
            result.append(line.as_str());
            result.append("\n");
            proof {
                reveal_strlit("\n");
                assert(self.rows().subrange(0, i + 1).drop_last() =~= self.rows().subrange(
                    0,
                    i as int,
                ));
            }
            i += 1;
        }
        assert(self.rows().subrange(0, i as int) =~= self.rows());
        result
    }
}

} // verus!
