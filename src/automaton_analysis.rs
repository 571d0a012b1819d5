//! Reading the diagonals of a space-time diagram and finding where they
//! become periodic.
use vstd::prelude::*;
use crate::automaton::Automaton;
use crate::cell::Cell;
use crate::pattern::cell_states;
use crate::rules::Rule;
use crate::utils::{is_periodic, is_periodic_states};
use std::collections::BTreeMap;

verus! {

/// Which diagonals to read from the centre column: towards the left or
/// towards the right.
#[allow(non_camel_case_types)]
#[derive(Clone, Copy, Debug, PartialEq, Eq, Structural)]
pub enum DIAGONAL {
    LEFT,
    RIGHT,
}

/// The centre column of a diagram `col` cells wide.
pub open spec fn middle_of(col: nat) -> int {
    (col - 1) / 2
}

/// The column `offset` steps away from the centre column.
pub open spec fn column_of(middle: int, offset: int, dir: DIAGONAL) -> int {
    match dir {
        DIAGONAL::LEFT => middle - offset,
        DIAGONAL::RIGHT => middle + offset,
    }
}

/// How many cells the diagonal that starts at row `n` has: it stops at the
/// last row and after `middle - n + 1` cells.
pub open spec fn diagonal_len(rows: int, middle: int, n: int) -> int {
    if n >= rows {
        0
    } else if rows - n <= middle - n + 1 {
        rows - n
    } else {
        middle - n + 1
    }
}

/// The states of the diagonal that starts at row `n` in the centre column
/// and moves one column away from it at each row.
pub open spec fn extracted(rows: Seq<Seq<u8>>, middle: int, n: int, dir: DIAGONAL) -> Seq<u8> {
    Seq::new(
        diagonal_len(rows.len() as int, middle, n) as nat,
        |o: int| rows[n + o][column_of(middle, o, dir)],
    )
}

/// The diagonals that start at rows `1, 2, ...`, as many as there are rows
/// after the first and columns left of the centre.
pub open spec fn all_extracted(rows: Seq<Seq<u8>>, middle: int, dir: DIAGONAL) -> Seq<Seq<u8>> {
    let c = if rows.len() - 1 <= middle {
        rows.len() - 1
    } else {
        middle
    };
    Seq::new(if c < 0 { 0 } else { c as nat }, |j: int| extracted(rows, middle, j + 1, dir))
}

/// The first shift from `k` on after which `s` repeats with `period`, while
/// more than two periods remain.
pub open spec fn first_periodic_shift(s: Seq<u8>, period: nat, k: int) -> Option<nat>
    decreases s.len() - k,
{
    if k < 0 || s.len() - k <= 2 * period {
        None
    } else if is_periodic_states(s.subrange(k, s.len() as int), period) {
        Some(k as nat)
    } else {
        first_periodic_shift(s, period, k + 1)
    }
}

/// The pattern found in `d` from `offset` with `period`: its states, the
/// period and the position where it starts.
pub open spec fn found_pattern(d: Seq<u8>, offset: nat, period: nat) -> Option<(Seq<u8>, nat, nat)> {
    if d.len() <= offset {
        None
    } else {
        let s = d.subrange(offset as int, d.len() as int);
        match first_periodic_shift(s, period, 0) {
            Some(k) => Some((s.subrange(k as int, (k + period) as int), period, offset + k)),
            None => None,
        }
    }
}

/// The pattern found in `d` from `offset`, trying `period`, then its
/// doubles while two of them fit after `offset`.
pub open spec fn pattern_search(d: Seq<u8>, offset: nat, period: nat) -> Option<(Seq<u8>, nat, nat)>
    decreases d.len() + 1 - period,
{
    if period == 0 {
        None
    } else {
        match found_pattern(d, offset, period) {
            Some(t) => Some(t),
            None => if offset + 2 * period > d.len() {
                None
            } else {
                pattern_search(d, offset, 2 * period)
            },
        }
    }
}

/// How many cells in state `state` follow one another leftwards from
/// column `top` of `row`, stopping at the first other state or at a column
/// outside the row.
pub open spec fn run_length(row: Seq<u8>, top: int, state: u8) -> nat
    decreases top + 1,
{
    if top < 0 || top >= row.len() || row[top] != state {
        0
    } else {
        1 + run_length(row, top - 1, state)
    }
}

/// For row `i`, one more than the run of `state` leftwards from the column
/// just left of the row's right edge, `middle + i - 1`.
pub open spec fn run_counter(rows: Seq<Seq<u8>>, middle: int, state: u8, i: int) -> nat {
    run_length(rows[i], middle + i - 1, state) + 1
}

/// Each counter of the first `n` rows, mapped to the first row where it
/// occurs.
pub open spec fn first_rows(rows: Seq<Seq<u8>>, middle: int, state: u8, n: nat) -> Map<u16, u16>
    decreases n,
{
    if n == 0 {
        Map::empty()
    } else {
        let m = first_rows(rows, middle, state, (n - 1) as nat);
        let c = run_counter(rows, middle, state, n - 1) as u16;
        if m.contains_key(c) {
            m
        } else {
            m.insert(c, (n - 1) as u16)
        }
    }
}

/// Where the search for patterns stands after some diagonals: the patterns
/// found, the period reached, and whether a search has failed.
pub struct ScanState {
    pub results: Seq<(Seq<u8>, nat, nat)>,
    pub period: nat,
    pub stopped: bool,
}

/// The search over the first `n` diagonals, each searched from its offset
/// and from the period the previous search ended with; the first search
/// that fails stops it.
pub open spec fn scan(diags: Seq<Seq<u8>>, offsets: Seq<usize>, period: nat, n: nat) -> ScanState
    decreases n,
{
    if n == 0 {
        ScanState { results: Seq::empty(), period, stopped: false }
    } else {
        let s = scan(diags, offsets, period, (n - 1) as nat);
        if s.stopped {
            s
        } else {
            match pattern_search(diags[n - 1], offsets[n - 1] as nat, s.period) {
                Some(t) => ScanState { results: s.results.push(t), period: t.1, stopped: false },
                None => ScanState { stopped: true, ..s },
            }
        }
    }
}

/// Appending an offset does not change the search over diagonals whose
/// offsets were already known.
proof fn lemma_scan_prefix(diags: Seq<Seq<u8>>, offsets: Seq<usize>, o: usize, period: nat, n: nat)
    requires
        n <= offsets.len(),
    ensures
        scan(diags, offsets.push(o), period, n) == scan(diags, offsets, period, n),
    decreases n,
{
    if n > 0 {
        lemma_scan_prefix(diags, offsets, o, period, (n - 1) as nat);
    }
}

/// The states, period and start of each pattern found.
pub open spec fn patterns_view(r: Seq<(Vec<Cell>, usize, usize)>) -> Seq<(Seq<u8>, nat, nat)> {
    r.map_values(|t: (Vec<Cell>, usize, usize)| (cell_states(t.0@), t.1 as nat, t.2 as nat))
}

/// The diagonals read from a diagram, and the state of the search for their
/// patterns.
pub struct AutomatonAnalysis<'a, R: Rule> {
    automaton: &'a Automaton<R>,
    diagonals_left: Vec<Vec<Cell>>,
    diagonals_right: Vec<Vec<Cell>>,
    current_period_left: usize,
    current_period_right: usize,
    multiplier_left: usize,
    multiplier_right: usize,
}

impl<'a, R: Rule> AutomatonAnalysis<'a, R> {
    /// The diagram analysed.
    pub closed spec fn spec_automaton(&self) -> &'a Automaton<R> {
        self.automaton
    }

    /// The diagonals read so far in direction `dir`.
    pub closed spec fn diagonals(&self, dir: DIAGONAL) -> Seq<Seq<u8>> {
        match dir {
            DIAGONAL::LEFT => self.diagonals_left@.map_values(|d: Vec<Cell>| cell_states(d@)),
            DIAGONAL::RIGHT => self.diagonals_right@.map_values(|d: Vec<Cell>| cell_states(d@)),
        }
    }

    /// The period the search starts from in direction `dir`.
    pub closed spec fn start_period(&self, dir: DIAGONAL) -> nat {
        match dir {
            DIAGONAL::LEFT => self.current_period_left as nat,
            DIAGONAL::RIGHT => self.current_period_right as nat,
        }
    }

    /// The diagram is well formed, one diagonal cell is read per row, and
    /// the periods are positive.
    pub closed spec fn wf(&self) -> bool {
        &&& self.automaton.wf()
        &&& self.multiplier_left == 1
        &&& self.multiplier_right == 1
        &&& self.current_period_left >= 1
        &&& self.current_period_right >= 1
    }

    /// An analysis of `automaton` with no diagonal read yet and periods 1.
    pub fn new(automaton: &'a Automaton<R>) -> (r: Self)
        requires
            automaton.wf(),
        ensures
            r.wf(),
            r.spec_automaton() == automaton,
            r.diagonals(DIAGONAL::LEFT) == Seq::<Seq<u8>>::empty(),
            r.diagonals(DIAGONAL::RIGHT) == Seq::<Seq<u8>>::empty(),
            r.start_period(DIAGONAL::LEFT) == 1,
            r.start_period(DIAGONAL::RIGHT) == 1,
    {
        let r = Self {
            automaton,
            diagonals_left: Vec::new(),
            diagonals_right: Vec::new(),
            current_period_left: 1,
            current_period_right: 1,
            multiplier_left: 1,
            multiplier_right: 1,
        };
        assert(r.diagonals(DIAGONAL::LEFT) =~= Seq::<Seq<u8>>::empty());
        assert(r.diagonals(DIAGONAL::RIGHT) =~= Seq::<Seq<u8>>::empty());
        r
    }

    /// The diagonal that starts at row `n` in the centre column, or `None`
    /// when `n` is past the centre column.
    fn extract_diagonal(&self, n: usize, diagonal: &DIAGONAL) -> (r: Option<Vec<Cell>>)
        requires
            self.wf(),
            self.automaton.spec_col() >= 1,
        ensures
            r.is_some() == (n <= middle_of(self.automaton.spec_col())),
            r.is_some() ==> cell_states(r.unwrap()@) == extracted(
                self.automaton.rows(),
                middle_of(self.automaton.spec_col()),
                n as int,
                *diagonal,
            ),
    {
        let grid = self.automaton.grid();
        let iteration = self.automaton.iteration();
        let col = self.automaton.col();
        let middle = (col - 1) / 2;
        let ghost rows = self.automaton.rows();
        proof {
            self.automaton.lemma_rows_shape();
        }

        if n > middle {
            return None;
        }
        let multiplier = match diagonal {
            DIAGONAL::LEFT => self.multiplier_left,
            DIAGONAL::RIGHT => self.multiplier_right,
        };
        let mut result: Vec<Cell> = Vec::new();
        let mut offset: usize = 0;
        let mut i: usize = n;
        while i < iteration && n + offset <= middle && middle + offset <= col
            invariant
                multiplier == 1,
                rows == self.automaton.rows(),
                grid@.map_values(|row: crate::row::Row| row@) == rows,
                iteration == rows.len(),
                col == self.automaton.spec_col(),
                col >= 1,
                middle == middle_of(col as nat),
                n <= middle,
                i == n + offset,
                offset <= diagonal_len(iteration as int, middle as int, n as int),
                forall|k: int| 0 <= k < rows.len() ==> (#[trigger] rows[k]).len() == col,
                cell_states(result@) =~= extracted(rows, middle as int, n as int, *diagonal).subrange(
                    0,
                    offset as int,
                ),
            decreases iteration - i,
        {
            let column = match diagonal {
                DIAGONAL::LEFT => middle - offset,
                DIAGONAL::RIGHT => middle + offset,
            };
            assert(grid@[i as int]@ == rows[i as int]);
            let row = &grid[i];
            assert(column < row@.len());
            let cell = row.get(column).unwrap();
            let ghost before = result@;
            result.push(*cell);
            assert(cell_states(result@) =~= cell_states(before).push(cell@));
            offset += 1;
            i += multiplier;
        }
        Some(result)
    }

    /// Reads the diagonals that start at rows `1, 2, ...` in direction
    /// `diagonal` and appends them to those already read.
    pub fn extract_diagonals(&mut self, diagonal: DIAGONAL)
        requires
            old(self).wf(),
            old(self).spec_automaton().spec_col() >= 1,
        ensures
            final(self).wf(),
            final(self).spec_automaton() == old(self).spec_automaton(),
            final(self).diagonals(diagonal) == old(self).diagonals(diagonal) + all_extracted(
                old(self).spec_automaton().rows(),
                middle_of(old(self).spec_automaton().spec_col()),
                diagonal,
            ),
            final(self).diagonals(other_direction(diagonal)) == old(self).diagonals(
                other_direction(diagonal),
            ),
            final(self).start_period(DIAGONAL::LEFT) == old(self).start_period(DIAGONAL::LEFT),
            final(self).start_period(DIAGONAL::RIGHT) == old(self).start_period(DIAGONAL::RIGHT),
    {
        let iteration = self.automaton.iteration();
        let ghost rows = self.automaton.rows();
        let ghost middle = middle_of(self.automaton.spec_col());
        let ghost added = all_extracted(rows, middle, diagonal);
        proof {
            self.automaton.lemma_rows_shape();
        }
        let mut i: usize = 1;
        while i < iteration
            invariant_except_break
                1 <= i <= iteration,
                i - 1 <= middle,
            invariant
                self.wf(),
                self.automaton == old(self).automaton,
                self.automaton.spec_col() >= 1,
                rows == self.automaton.rows(),
                middle == middle_of(self.automaton.spec_col()),
                iteration == rows.len(),
                added == all_extracted(rows, middle, diagonal),
                self.diagonals(diagonal) =~= old(self).diagonals(diagonal) + added.subrange(
                    0,
                    i - 1,
                ),
                self.diagonals(other_direction(diagonal)) == old(self).diagonals(
                    other_direction(diagonal),
                ),
                self.current_period_left == old(self).current_period_left,
                self.current_period_right == old(self).current_period_right,
            ensures
                added.len() == i - 1,
                self.diagonals(diagonal) =~= old(self).diagonals(diagonal) + added.subrange(
                    0,
                    i - 1,
                ),
            decreases iteration - i,
        {
            let diag = self.extract_diagonal(i, &diagonal);
            match diag {
                None => {
                    break;
                },
                Some(d) => {
                    let ghost before = self.diagonals(diagonal);
                    let ghost dv = cell_states(d@);
                    assert(added[i - 1] == dv);
                    match diagonal {
                        DIAGONAL::LEFT => {
                            self.diagonals_left.push(d);
                        },
                        DIAGONAL::RIGHT => {
                            self.diagonals_right.push(d);
                        },
                    }
                    assert(self.diagonals(diagonal) =~= before.push(dv));
                },
            }
            i += 1;
        }
        assert(added.subrange(0, i - 1) =~= added);
    }

    /// The pattern of `diagonal` after `start_offset`: the first shift after
    /// which the cells repeat with `period`, while more than two periods
    /// remain. Gives the pattern's cells, the period and where it starts.
    fn find_pattern(&self, diagonal: Vec<Cell>, start_offset: usize, period: usize) -> (r: (
        Option<Vec<Cell>>,
        Option<usize>,
        Option<usize>,
    ))
        requires
            period > 0,
        ensures
            match found_pattern(cell_states(diagonal@), start_offset as nat, period as nat) {
                Some(t) => r.0.is_some() && cell_states(r.0.unwrap()@) == t.0 && r.1 == Some(period)
                    && r.2.is_some() && r.2.unwrap() as nat == t.2,
                None => r.0.is_none() && r.1.is_none() && r.2.is_none(),
            },
    {
        let mut offset = start_offset;
        if diagonal.len() <= start_offset {
            return (None, None, None);
        }
        let ghost d = cell_states(diagonal@);
        let ghost s = d.subrange(start_offset as int, d.len() as int);
        assert(d.len() == diagonal@.len());
        let mut whole = diagonal;
        let mut rest = whole.split_off(start_offset);
        assert(cell_states(rest@) =~= s.subrange(0, s.len() as int));
        let ghost mut k: int = 0;

        while period < rest.len() && rest.len() - period > period
            invariant
                0 <= k <= s.len(),
                offset == start_offset + k,
                start_offset + s.len() == d.len(),
                d.len() <= usize::MAX,
                s == d.subrange(start_offset as int, d.len() as int),
                d.len() > start_offset,
                d == cell_states(diagonal@),
                period > 0,
                cell_states(rest@) =~= s.subrange(k, s.len() as int),
                first_periodic_shift(s, period as nat, 0) == first_periodic_shift(
                    s,
                    period as nat,
                    k,
                ),
            decreases rest@.len(),
        {
            assert(cell_states(rest@).len() == rest@.len());
            assert(rest@.len() == s.len() - k);
            if is_periodic(&rest, period) {
                let ghost before = rest@;
                rest.truncate(period);
                assert(cell_states(rest@) =~= cell_states(before).subrange(0, period as int));
                assert(cell_states(rest@) =~= s.subrange(k, k + period));
                assert(first_periodic_shift(s, period as nat, k) == Some(k as nat));
                let ghost t = (s.subrange(k, k + period), period as nat, offset as nat);
                assert(found_pattern(d, start_offset as nat, period as nat) == Some(t));
                assert(cell_states(rest@) == t.0);
                return (Some(rest), Some(period), Some(offset));
            }
            let ghost before = rest@;
            rest.remove(0);
            assert(rest@ =~= before.subrange(1, before.len() as int));
            assert(cell_states(rest@) =~= cell_states(before).subrange(1, before.len() as int));
            assert(cell_states(rest@) =~= s.subrange(k + 1, s.len() as int));
            offset += 1;
            proof {
                k = k + 1;
            }
        }
        (None, None, None)
    }

    /// Searches a pattern in each diagonal read in direction
    /// `type_diagonal`, in order, from the offset `offset_f` gives for its
    /// index. Each search starts from the period the previous one ended
    /// with and doubles it while two periods fit after the offset; the first
    /// search that fails ends the list.
    pub fn extract_patterns<F: Fn(usize) -> usize>(
        &mut self,
        type_diagonal: DIAGONAL,
        offset_f: F,
    ) -> (r: Vec<(Vec<Cell>, usize, usize)>)
        requires
            old(self).wf(),
            forall|i: usize| offset_f.requires((i,)),
        ensures
            *final(self) == *old(self),
            exists|offsets: Seq<usize>|
                #![trigger scan(old(self).diagonals(type_diagonal), offsets, old(self).start_period(type_diagonal), offsets.len())]
                offsets.len() <= old(self).diagonals(type_diagonal).len() && (forall|i: int|
                    0 <= i < offsets.len() ==> offset_f.ensures((i as usize,), #[trigger] offsets[i]))
                    && (offsets.len() == old(self).diagonals(type_diagonal).len() || scan(
                    old(self).diagonals(type_diagonal),
                    offsets,
                    old(self).start_period(type_diagonal),
                    offsets.len(),
                ).stopped) && patterns_view(r@) == scan(
                    old(self).diagonals(type_diagonal),
                    offsets,
                    old(self).start_period(type_diagonal),
                    offsets.len(),
                ).results,
    {
        let mut result: Vec<(Vec<Cell>, usize, usize)> = Vec::new();
        let diagonals = match type_diagonal {
            DIAGONAL::LEFT => &self.diagonals_left,
            DIAGONAL::RIGHT => &self.diagonals_right,
        };
        let mut period = match type_diagonal {
            DIAGONAL::LEFT => self.current_period_left,
            DIAGONAL::RIGHT => self.current_period_right,
        };
        let ghost diags = self.diagonals(type_diagonal);
        let ghost first_period = period as nat;
        assert(diagonals@.map_values(|d: Vec<Cell>| cell_states(d@)) == diags);
        let mut breaked = false;
        let ghost mut offs: Seq<usize> = Seq::empty();
        assert(patterns_view(result@) =~= Seq::empty());

        let mut i: usize = 0;
        while i < diagonals.len() && !breaked
            invariant
                diagonals@.map_values(|d: Vec<Cell>| cell_states(d@)) == diags,
                i <= diagonals@.len(),
                offs.len() == i,
                forall|j: int| 0 <= j < i ==> offset_f.ensures((j as usize,), #[trigger] offs[j]),
                forall|j: usize| offset_f.requires((j,)),
                diags == old(self).diagonals(type_diagonal),
                first_period == old(self).start_period(type_diagonal),
                *self == *old(self),
                scan(diags, offs, first_period, i as nat).results == patterns_view(result@),
                scan(diags, offs, first_period, i as nat).stopped == breaked,
                !breaked ==> scan(diags, offs, first_period, i as nat).period == period,
                period >= 1,
            decreases diagonals@.len() - i,
        {
            let current_diagonal = &diagonals[i];
            assert(cell_states(current_diagonal@) == diags[i as int]);
            let offset = offset_f(i);
            proof {
                lemma_scan_prefix(diags, offs, offset, first_period, i as nat);
                offs = offs.push(offset);
            }
            let ghost p_start = period as nat;
            let ghost d = diags[i as int];
            let len = current_diagonal.len();
            loop
                invariant_except_break
                    period >= 1,
                    pattern_search(d, offset as nat, p_start) == pattern_search(
                        d,
                        offset as nat,
                        period as nat,
                    ),
                    !breaked,
                    patterns_view(result@) == scan(diags, offs, first_period, i as nat).results,
                invariant
                    len == d.len(),
                    cell_states(current_diagonal@) == d,
                    d == diags[i as int],
                    offs.len() == i + 1,
                    offs[i as int] == offset,
                    scan(diags, offs, first_period, i as nat).period == p_start,
                    !scan(diags, offs, first_period, i as nat).stopped,
                    p_start >= 1,
                ensures
                    period >= 1,
                    scan(diags, offs, first_period, (i + 1) as nat).results == patterns_view(result@),
                    scan(diags, offs, first_period, (i + 1) as nat).stopped == breaked,
                    !breaked ==> scan(diags, offs, first_period, (i + 1) as nat).period == period,
                decreases if period <= len {
                    len + 1 - period
                } else {
                    0
                },
            {
                let copy = current_diagonal.clone();
                assert(copy@ =~= current_diagonal@);
                let pattern = self.find_pattern(copy, offset, period);
                match pattern {
                    (Some(p), Some(o), Some(t)) => {
                        let ghost found = (cell_states(p@), o as nat, t as nat);
                        assert(found_pattern(d, offset as nat, period as nat) == Some(found));
                        assert(pattern_search(d, offset as nat, period as nat) == Some(found));
                        let ghost before = result@;
                        result.push((p, o, t));
                        assert(patterns_view(result@) =~= patterns_view(before).push(
                            (cell_states(p@), o as nat, t as nat),
                        ));
                        break;
                    },
                    (None, None, None) => {
                        assert((offset > len || period > (len - offset) / 2) == (offset + 2
                            * period > len));
                        if offset > len || period > (len - offset) / 2 {
                            breaked = true;
                            break;
                        }
                        period = period * 2;
                    },
                    (_, _, _) => {
                        break;
                    },
                }
            }
            i += 1;
        }
        assert(offs.len() == diags.len() || scan(diags, offs, first_period, offs.len()).stopped);
        result
    }

    /// For each row, counts the run of cells in the state of `cell_type`
    /// leftwards from the column just left of the row's right edge, and maps
    /// each count (plus one) to the first row where it occurs.
    pub fn rightmost_same_state(&self, cell_type: Cell) -> (r: BTreeMap<u16, u16>)
        requires
            self.wf(),
            self.spec_automaton().spec_col() >= 1,
            self.spec_automaton().rows().len() >= self.spec_automaton().spec_col(),
            middle_of(self.spec_automaton().spec_col()) + self.spec_automaton().rows().len()
                <= usize::MAX,
            forall|i: int|
                0 <= i < self.spec_automaton().rows().len() ==> {
                    let n = #[trigger] run_length(
                        self.spec_automaton().rows()[i],
                        middle_of(self.spec_automaton().spec_col()) + i - 1,
                        cell_type@,
                    );
                    n < middle_of(self.spec_automaton().spec_col()) + i && n < u16::MAX
                },
        ensures
            r@ == first_rows(
                self.spec_automaton().rows(),
                middle_of(self.spec_automaton().spec_col()),
                cell_type@,
                self.spec_automaton().rows().len(),
            ),
    {
        let grid = self.automaton.grid();
        let middle = (self.automaton.col() - 1) / 2;
        let ghost rows = self.automaton.rows();
        let ghost state = cell_type@;
        let mut result: BTreeMap<u16, u16> = BTreeMap::new();
        let max_iteration = self.automaton.max_iteration();
        proof {
            self.automaton.lemma_rows_shape();
        }
        assert(middle == middle_of(self.automaton.spec_col()));
        assert forall|k: int| 0 <= k < rows.len() implies {
            let n = #[trigger] run_length(rows[k], middle + k - 1, state);
            n < middle + k && n < u16::MAX
        } by {
            assert(run_length(rows[k], middle_of(self.automaton.spec_col()) + k - 1, state)
                == run_length(rows[k], middle + k - 1, state));
        }
        let mut i: usize = 0;
        while i < max_iteration
            invariant
                max_iteration == rows.len(),
                i <= max_iteration,
                rows == self.automaton.rows(),
                grid@.map_values(|row: crate::row::Row| row@) == rows,
                middle == middle_of(self.automaton.spec_col()),
                middle + rows.len() <= usize::MAX,
                state == cell_type@,
                forall|k: int|
                    0 <= k < rows.len() ==> {
                        let n = #[trigger] run_length(rows[k], middle + k - 1, state);
                        n < middle + k && n < u16::MAX
                    },
                result@ == first_rows(rows, middle as int, state, i as nat),
            decreases max_iteration - i,
        {
            let ghost top = middle + i - 1;
            let ghost run = run_length(rows[i as int], top, state);
            assert(grid@[i as int]@ == rows[i as int]);
            let row = &grid[i];
            let mut counter: u16 = 1;
            loop
                invariant_except_break
                    1 <= counter,
                    counter - 1 <= run,
                    run == (counter - 1) + run_length(rows[i as int], top - (counter - 1), state),
                invariant
                    row@ == rows[i as int],
                    run < middle + i,
                    run < u16::MAX,
                    run == run_length(rows[i as int], top, state),
                    top == middle + i - 1,
                    i < rows.len(),
                    middle + rows.len() <= usize::MAX,
                    state == cell_type@,
                ensures
                    counter == run + 1,
                decreases run + 1 - counter,
            {
                assert(top - (counter - 1) >= 0);
                let index = middle + i - counter as usize;
                assert(index == top - (counter - 1));
                match row.get(index) {
                    None => {
                        break;
                    },
                    Some(p) => {
                        if p.state() == cell_type.state() {
                            assert(run_length(rows[i as int], index as int, state) == 1 + run_length(
                                rows[i as int],
                                index - 1,
                                state,
                            ));
                            counter += 1;
                        } else {
                            assert(p@ == rows[i as int][index as int]);
                            assert(run_length(rows[i as int], index as int, state) == 0);
                            break;
                        }
                    },
                }
            }
            if !result.contains_key(&counter) {
                result.insert(counter, #[verifier::truncate] (i as u16));
            }
            i += 1;
        }
        result
    }
}

/// An offset that halves indices above 100.
pub fn over_two(x: usize) -> (r: usize)
    ensures
        r == if x > 100 { x / 2 } else { x },
{
    if x > 100 {
        x / 2
    } else {
        x
    }
}

/// The offset equal to the index.
pub fn identite(x: usize) -> (r: usize)
    ensures
        r == x,
{
    x
}

/// The offset zero, whatever the index.
pub fn zero(_x: usize) -> (r: usize)
    ensures
        r == 0,
{
    0
}

/// The other direction.
pub open spec fn other_direction(dir: DIAGONAL) -> DIAGONAL {
    match dir {
        DIAGONAL::LEFT => DIAGONAL::RIGHT,
        DIAGONAL::RIGHT => DIAGONAL::LEFT,
    }
}

} // verus!
