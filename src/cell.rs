//! A single cell of a one-dimensional cellular automaton.
use vstd::prelude::*;
use crate::text::{decimal_digits, decimal_string};

verus! {

/// A cell of a cellular automaton, holding an 8-bit state.
///
/// Two cells are equal when their states are equal.
#[derive(Clone, Copy, Debug, PartialEq, Eq, Structural)]
pub struct Cell {
    state: u8,
}

impl View for Cell {
    type V = u8;

    closed spec fn view(&self) -> u8 {
        self.state
    }
}

/// The state of the negation of a cell in state `s`.
pub open spec fn negated_state(s: u8) -> u8 {
    if s == 0 {
        1
    } else {
        0
    }
}

impl std::ops::Not for Cell {
    type Output = Cell;

    /// Logical negation: a zero state becomes 1, any other state becomes 0.
    fn not(self) -> (r: Cell)
        ensures
            r@ == negated_state(self@),
    {
        if self.state == 0 {
            Cell::new(1)
        } else {
            Cell::new(0)
        }
    }
}

impl vstd::std_specs::ops::NotSpecImpl for Cell {
    open spec fn obeys_not_spec() -> bool {
        false
    }

    open spec fn not_req(self) -> bool {
        true
    }

    closed spec fn not_spec(self) -> Cell {
        Cell { state: negated_state(self.state) }
    }
}

impl std::ops::BitOr for Cell {
    type Output = Cell;

    /// Bitwise or of the two states.
    fn bitor(self, rhs: Cell) -> (r: Cell)
        ensures
            r@ == self@ | rhs@,
    {
        let new_state = self.state | rhs.state;
        Cell::new(new_state)
    }
}

impl vstd::std_specs::ops::BitOrSpecImpl for Cell {
    open spec fn obeys_bitor_spec() -> bool {
        false
    }

    open spec fn bitor_req(self, rhs: Cell) -> bool {
        true
    }

    closed spec fn bitor_spec(self, rhs: Cell) -> Cell {
        Cell { state: self.state | rhs.state }
    }
}

impl std::ops::BitXor for Cell {
    type Output = Cell;

    /// Bitwise exclusive or of the two states.
    fn bitxor(self, rhs: Cell) -> (r: Cell)
        ensures
            r@ == self@ ^ rhs@,
    {
        let new_state = self.state ^ rhs.state;
        Cell::new(new_state)
    }
}

impl vstd::std_specs::ops::BitXorSpecImpl for Cell {
    open spec fn obeys_bitxor_spec() -> bool {
        false
    }

    open spec fn bitxor_req(self, rhs: Cell) -> bool {
        true
    }

    closed spec fn bitxor_spec(self, rhs: Cell) -> Cell {
        Cell { state: self.state ^ rhs.state }
    }
}

impl std::ops::BitAnd for Cell {
    type Output = Cell;

    /// Bitwise and of the two states.
    fn bitand(self, rhs: Cell) -> (r: Cell)
        ensures
            r@ == self@ & rhs@,
    {
        let state = self.state & rhs.state;
        Cell::new(state)
    }
}

impl vstd::std_specs::ops::BitAndSpecImpl for Cell {
    open spec fn obeys_bitand_spec() -> bool {
        false
    }

    open spec fn bitand_req(self, rhs: Cell) -> bool {
        true
    }

    closed spec fn bitand_spec(self, rhs: Cell) -> Cell {
        Cell { state: self.state & rhs.state }
    }
}

impl Cell {
    /// Creates a cell in the given state.
    pub fn new(state: u8) -> (r: Cell)
        ensures
            r@ == state,
    {
        Cell { state }
    }

    /// The state of the cell.
    pub fn state(&self) -> (r: u8)
        ensures
            r == self@,
    {
        self.state
    }

    /// Replaces the state of the cell.
    pub fn set_state(&mut self, state: u8)
        ensures
            final(self)@ == state,
    {
        self.state = state;
    }

    /// The character that draws the cell: `.` for 0, `#` for 1, `?` otherwise.
    pub fn display(&self) -> (r: char)
        ensures
            r == state_char(self@),
    {
        match self.state {
            0 => '.',
            1 => '#',
            _ => '?',
        }
    }

    /// The state in decimal notation.
    pub fn to_string(&self) -> (r: String)
        ensures
            r@ == decimal_digits(self@ as nat),
    {
        decimal_string(self.state as usize)
    }
}

/// The character that draws a cell in state `s`.
pub open spec fn state_char(s: u8) -> char {
    if s == 0 {
        '.'
    } else if s == 1 {
        '#'
    } else {
        '?'
    }
}

} // verus!
