//! The algebraic view of a pair of diagonals: a "left" pattern and a
//! "centre" pattern, and the step from one pair to the next.
use vstd::prelude::*;
use crate::cell::{negated_state, Cell};
use crate::fast_30::diagonal::{count_of, is_digit, states_of, states_text};
use std::ops::Not;

verus! {

/// What a pattern pair holds: the states of the left pattern and of the
/// centre pattern.
pub struct PatternView {
    pub left: Seq<u8>,
    pub center: Seq<u8>,
}

/// The states of the cells.
pub open spec fn cell_states(s: Seq<Cell>) -> Seq<u8> {
    s.map_values(|c: Cell| c@)
}

/// The last index of `v` in `s`, or -1 when `v` does not occur.
pub open spec fn last_index_of(s: Seq<u8>, v: u8) -> int
    decreases s.len(),
{
    if s.len() == 0 {
        -1
    } else if s.last() == v {
        s.len() - 1
    } else {
        last_index_of(s.drop_last(), v)
    }
}

/// The index read at step `m` of the turn that starts after position `sp`
/// in a pattern of length `n`: `sp`, then backwards around the pattern.
pub open spec fn turn_read(sp: int, n: int, m: int) -> int {
    if m <= sp {
        sp - m
    } else {
        sp + n - m
    }
}

/// The index written at step `m`: the one just before the index read. The
/// map is its own inverse on `0..n`.
pub open spec fn turn_write(sp: int, n: int, m: int) -> int {
    if m < sp {
        sp - 1 - m
    } else {
        sp + n - 1 - m
    }
}

/// The state written at step `m` when the centre holds a 1 at `sp`: a 1 of
/// the centre restarts from the negated left state, any other state adds
/// the left state to the one written before (1 before the first step).
pub open spec fn turn_state(left: Seq<u8>, center: Seq<u8>, sp: int, m: nat) -> u8
    decreases m,
{
    let n = center.len() as int;
    let index = turn_read(sp, n, m as int);
    let l = left[index % (left.len() as int)];
    let before = if m == 0 {
        1u8
    } else {
        turn_state(left, center, sp, (m - 1) as nat)
    };
    if center[index] == 1 {
        negated_state(l)
    } else {
        before ^ l
    }
}

/// The next centre when the centre holds a 1.
pub open spec fn turned_center(left: Seq<u8>, center: Seq<u8>) -> Seq<u8> {
    let n = center.len() as int;
    let sp = last_index_of(center, 1);
    Seq::new(center.len(), |k: int| turn_state(left, center, sp, turn_write(sp, n, k) as nat))
}

/// `first` followed by the exclusive or of the first `i` left states.
pub open spec fn prefix_xor(first: u8, left: Seq<u8>, i: nat) -> u8
    decreases i,
{
    if i == 0 {
        first
    } else {
        prefix_xor(first, left, (i - 1) as nat) ^ left[i - 1]
    }
}

/// The next centre when the centre holds no 1, before any doubling.
pub open spec fn xored_center(first: u8, left: Seq<u8>, n: nat) -> Seq<u8> {
    Seq::new(n, |i: int| prefix_xor(first, left, i as nat))
}

/// The state each position starts from when the centre holds no 1: 1 when
/// the left pattern holds an odd number of 1, else the default state.
pub open spec fn xor_start(left: Seq<u8>, default_state: u8) -> u8 {
    if count_of(left, 1) % 2 == 1 {
        1
    } else {
        default_state
    }
}

/// The pair that follows `p`.
pub open spec fn next_pattern(p: PatternView, default_state: u8) -> PatternView {
    if p.center.contains(1) {
        PatternView { left: p.center, center: turned_center(p.left, p.center) }
    } else {
        let base = xored_center(xor_start(p.left, default_state), p.left, p.center.len());
        if count_of(p.left, 1) % 2 == 1 {
            PatternView {
                left: p.center + p.center,
                center: base + base.map_values(|s: u8| negated_state(s)),
            }
        } else {
            PatternView { left: p.center, center: base }
        }
    }
}

/// The state of the default cell, 0 when there is none.
pub open spec fn default_state(default_cell: Option<&Cell>) -> u8 {
    if default_cell.is_some() {
        default_cell.unwrap()@
    } else {
        0
    }
}

/// A pair of patterns: the left one and the centre one.
#[derive(Debug)]
pub struct Pattern {
    left_pattern: Vec<Cell>,
    center_pattern: Vec<Cell>,
}

impl View for Pattern {
    type V = PatternView;

    closed spec fn view(&self) -> PatternView {
        PatternView {
            left: cell_states(self.left_pattern@),
            center: cell_states(self.center_pattern@),
        }
    }
}

impl Clone for Pattern {
    /// A copy with the same cells.
    fn clone(&self) -> (r: Self)
        ensures
            r@ == self@,
    {
        let left_pattern = self.left_pattern.clone();
        let center_pattern = self.center_pattern.clone();
        assert(left_pattern@ =~= self.left_pattern@);
        assert(center_pattern@ =~= self.center_pattern@);
        Self { left_pattern, center_pattern }
    }
}

/// The cells written by the decimal digits of `s`.
fn cells_from_digits(s: &str) -> (r: Vec<Cell>)
    requires
        forall|k: int| 0 <= k < s@.len() ==> is_digit(#[trigger] s@[k]),
    ensures
        cell_states(r@) == states_of(s@),
{
    let n = s.unicode_len();
    let mut r: Vec<Cell> = Vec::new();
    let mut i: usize = 0;
    while i < n
        invariant
            n == s@.len(),
            i <= n,
            cell_states(r@) =~= states_of(s@.subrange(0, i as int)),
            forall|k: int| 0 <= k < s@.len() ==> is_digit(#[trigger] s@[k]),
        decreases n - i,
    {
        let c = s.get_char(i);
        assert(is_digit(s@[i as int]));
        let ghost before = r@;
        let cell = Cell::new((c as u32 - '0' as u32) as u8);
        r.push(cell);
        assert(cell_states(r@) =~= cell_states(before).push(cell@));
        i += 1;
    }
    assert(s@.subrange(0, i as int) =~= s@);
    r
}

/// The number of cells of `s` in state `state`.
fn count_cells(s: &Vec<Cell>, state: u8) -> (r: usize)
    ensures
        r == count_of(cell_states(s@), state),
{
    let mut count: usize = 0;
    let mut i: usize = 0;
    while i < s.len()
        invariant
            i <= s@.len(),
            count == count_of(cell_states(s@).subrange(0, i as int), state),
            count <= i,
        decreases s@.len() - i,
    {
        assert(cell_states(s@).subrange(0, i + 1).drop_last() =~= cell_states(s@).subrange(
            0,
            i as int,
        ));
        if s[i].state() == state {
            count += 1;
        }
        i += 1;
    }
    assert(cell_states(s@).subrange(0, i as int) =~= cell_states(s@));
    count
}

/// The decimal notation of each state, one after the other.
fn cells_text(s: &Vec<Cell>) -> (r: String)
    ensures
        r@ == states_text(cell_states(s@)),
{
    let mut result = String::new();
    let mut i: usize = 0;
    while i < s.len()
        invariant
            i <= s@.len(),
            result@ == states_text(cell_states(s@).subrange(0, i as int)),
        decreases s@.len() - i,
    {
        result.append(s[i].to_string().as_str());
        assert(cell_states(s@).subrange(0, i + 1).drop_last() =~= cell_states(s@).subrange(
            0,
            i as int,
        ));
        i += 1;
    }
    assert(cell_states(s@).subrange(0, i as int) =~= cell_states(s@));
    result
}

/// The last index of a cell in state `state`, when there is one.
fn last_index_of_state(s: &Vec<Cell>, state: u8) -> (r: usize)
    requires
        cell_states(s@).contains(state),
    ensures
        r as int == last_index_of(cell_states(s@), state),
        r < s@.len(),
        cell_states(s@)[r as int] == state,
{
    let mut i: usize = s.len();
    assert(cell_states(s@).subrange(0, i as int) =~= cell_states(s@));
    while i > 0
        invariant
            i <= s@.len(),
            cell_states(s@).contains(state),
            last_index_of(cell_states(s@).subrange(0, i as int), state) == last_index_of(
                cell_states(s@),
                state,
            ),
            forall|k: int| i <= k < s@.len() ==> cell_states(s@)[k] != state,
        decreases i,
    {
        assert(cell_states(s@).subrange(0, i as int).drop_last() =~= cell_states(s@).subrange(
            0,
            i - 1,
        ));
        if s[i - 1].state() == state {
            return i - 1;
        }
        i -= 1;
    }
    proof {
        let k = choose|k: int| 0 <= k < cell_states(s@).len() && cell_states(s@)[k] == state;
        assert(cell_states(s@)[k] != state);
    }
    0
}

/// Each cell negated.
fn negated_cells(s: &Vec<Cell>) -> (r: Vec<Cell>)
    ensures
        cell_states(r@) == cell_states(s@).map_values(|x: u8| negated_state(x)),
{
    let mut r: Vec<Cell> = Vec::with_capacity(s.len());
    let mut i: usize = 0;
    while i < s.len()
        invariant
            i <= s@.len(),
            cell_states(r@) =~= cell_states(s@).map_values(|x: u8| negated_state(x)).subrange(
                0,
                i as int,
            ),
        decreases s@.len() - i,
    {
        let ghost before = r@;
        let cell = s[i].not();
        r.push(cell);
        assert(cell_states(r@) =~= cell_states(before).push(cell@));
        i += 1;
    }
    r
}

impl Pattern {
    /// A pair made of the given left and centre cells.
    pub fn new(left_pattern: Vec<Cell>, center_pattern: Vec<Cell>) -> (r: Pattern)
        ensures
            r@.left == cell_states(left_pattern@),
            r@.center == cell_states(center_pattern@),
    {
        Self { left_pattern, center_pattern }
    }

    /// A pair whose left and centre cells are written as strings of decimal
    /// digits, one digit per cell.
    pub fn new_from_binary(left_pattern: &str, center_pattern: &str) -> (r: Pattern)
        requires
            forall|k: int| 0 <= k < left_pattern@.len() ==> is_digit(#[trigger] left_pattern@[k]),
            forall|k: int|
                0 <= k < center_pattern@.len() ==> is_digit(#[trigger] center_pattern@[k]),
        ensures
            r@.left == states_of(left_pattern@),
            r@.center == states_of(center_pattern@),
    {
        let left_cells = cells_from_digits(left_pattern);
        let center_cells = cells_from_digits(center_pattern);
        Self::new(left_cells, center_cells)
    }

    /// The number of cells of the left pattern in state `state`.
    pub fn count_state_in_left(&self, state: u8) -> (r: usize)
        ensures
            r == count_of(self@.left, state),
    {
        count_cells(&self.left_pattern, state)
    }

    /// Whether a cell in the state of `x` occurs in the centre pattern.
    pub fn contains(&self, x: &Cell) -> (r: bool)
        ensures
            r == self@.center.contains(x@),
    {
        let mut i: usize = 0;
        while i < self.center_pattern.len()
            invariant
                i <= self@.center.len(),
                forall|k: int| 0 <= k < i ==> self@.center[k] != x@,
            decreases self@.center.len() - i,
        {
            if self.center_pattern[i].state() == x.state() {
                assert(self@.center[i as int] == x@);
                return true;
            }
            i += 1;
        }
        false
    }

    /// The length of the centre pattern.
    pub fn len(&self) -> (r: usize)
        ensures
            r == self@.center.len(),
    {
        self.center_pattern.len()
    }

    /// The centre pattern in decimal notation, one digit group per cell.
    pub fn to_string_center(&self) -> (r: String)
        ensures
            r@ == states_text(self@.center),
    {
        cells_text(&self.center_pattern)
    }

    /// The left pattern in decimal notation, one digit group per cell.
    pub fn to_string_left(&self) -> (r: String)
        ensures
            r@ == states_text(self@.left),
    {
        cells_text(&self.left_pattern)
    }

    /// A copy of the centre cells.
    pub fn get_center(&self) -> (r: Vec<Cell>)
        ensures
            cell_states(r@) == self@.center,
    {
        let r = self.center_pattern.clone();
        assert(r@ =~= self.center_pattern@);
        r
    }

    /// The pair that follows: the centre becomes the left pattern and a new
    /// centre is computed.
    ///
    /// When the centre holds a 1, the new centre is built by one turn around
    /// it, backwards from its last 1. Otherwise it is the running exclusive
    /// or of the left pattern, started from 1 when the left pattern holds an
    /// odd number of 1 and from `default_cell` otherwise; an odd count also
    /// doubles both patterns, the second half of the centre negated.
    pub fn next(&self, default_cell: Option<&Cell>) -> (r: Pattern)
        requires
            self@.center.len() > 0,
            self@.center.contains(1) ==> self@.left.len() > 0,
            !self@.center.contains(1) ==> self@.left.len() + 1 >= self@.center.len(),
            !self@.center.contains(1) && count_of(self@.left, 1) % 2 == 0
                ==> default_cell.is_some(),
        ensures
            r@ == next_pattern(self@, default_state(default_cell)),
    {
        let len = self.center_pattern.len();
        let cell_type = Cell::new(1);
        let ghost left = self@.left;
        let ghost center = self@.center;
        let ghost n = len as int;

        if self.contains(&cell_type) {
            let mut result: Vec<Cell> = vec![cell_type; len];
            let start_position = last_index_of_state(&self.center_pattern, 1);
            let ghost sp = start_position as int;
            let mut last_cell = Cell::new(1);
            let mut i: usize = len;
            while i > 0
                invariant
                    n == len,
                    len == self@.center.len(),
                    left == self@.left,
                    center == self@.center,
                    left.len() > 0,
                    sp == start_position,
                    0 <= sp < n,
                    i <= len,
                    result@.len() == len,
                    forall|k: int|
                        0 <= k < n ==> #[trigger] result@[k]@ == (if turn_write(sp, n, k) < n - i {
                            turn_state(left, center, sp, turn_write(sp, n, k) as nat)
                        } else {
                            1u8
                        }),
                    last_cell@ == (if i == len {
                        1u8
                    } else {
                        turn_state(left, center, sp, (n - i - 1) as nat)
                    }),
                decreases i,
            {
                let ghost m = n - i;
                let index = if i >= len - start_position {
                    i - (len - start_position)
                } else {
                    i + start_position
                };
                let index_to = if i - 1 >= len - start_position {
                    i - 1 - (len - start_position)
                } else {
                    i - 1 + start_position
                };
                assert(index == turn_read(sp, n, m));
                assert(index_to == turn_write(sp, n, m));
                let idx = index % self.left_pattern.len();
                assert(self@.center[index as int] == self.center_pattern@[index as int]@);
                assert(self@.left[idx as int] == self.left_pattern@[idx as int]@);
                if self.center_pattern[index].state() == 1 {
                    last_cell = self.left_pattern[idx].not();
                } else {
                    last_cell.set_state(last_cell.state() ^ self.left_pattern[idx].state());
                }
                assert(last_cell@ == turn_state(left, center, sp, m as nat));
                result[index_to] = last_cell;
                i -= 1;
            }
            let r = Self::new(self.center_pattern.clone(), result);
            assert(r@.center =~= turned_center(left, center));
            assert(r@.left =~= center);
            r
        } else {
            let number_one = count_cells(&self.left_pattern, 1);
            let mut result: Vec<Cell> = vec![cell_type; len];
            let mut last_cell = if number_one % 2 == 1 {
                cell_type
            } else {
                *default_cell.unwrap()
            };
            let ghost first = last_cell@;
            result[0] = last_cell;
            let mut i: usize = 1;
            while i < len
                invariant
                    len == self@.center.len(),
                    left == self@.left,
                    left.len() + 1 >= len,
                    1 <= i <= len,
                    result@.len() == len,
                    forall|k: int|
                        0 <= k < len ==> #[trigger] result@[k]@ == (if k < i {
                            prefix_xor(first, left, k as nat)
                        } else {
                            1u8
                        }),
                    last_cell@ == prefix_xor(first, left, (i - 1) as nat),
                decreases len - i,
            {
                assert(self@.left[i - 1] == self.left_pattern@[i - 1]@);
                last_cell.set_state(last_cell.state() ^ self.left_pattern[i - 1].state());
                result[i] = last_cell;
                i += 1;
            }
            let ghost base = xored_center(first, left, len as nat);
            assert(cell_states(result@) =~= base);
            let mut left_pattern = self.center_pattern.clone();
            assert(cell_states(left_pattern@) =~= center);
            if number_one % 2 == 1 {
                let mut conjugate = negated_cells(&result);
                result.append(&mut conjugate);
                let mut second = self.center_pattern.clone();
                left_pattern.append(&mut second);
                assert(cell_states(left_pattern@) =~= center + center);
                assert(cell_states(result@) =~= base + base.map_values(|s: u8| negated_state(s)));
            }
            Pattern::new(left_pattern, result)
        }
    }
}

} // verus!
