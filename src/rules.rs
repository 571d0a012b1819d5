//! Local update rules of elementary cellular automata.
use vstd::prelude::*;

verus! {

/// The rule-30 update of a cell from its left neighbour, itself and its
/// right neighbour: `left XOR (center OR right)`.
pub open spec fn rule30_state(left: u8, center: u8, right: u8) -> u8 {
    left ^ (center | right)
}

/// The update of Wolfram's rule `rule_number`: the bit of the rule number
/// selected by the neighbourhood read as a 3-bit number.
pub open spec fn wolfram_state(rule_number: u8, left: u8, center: u8, right: u8) -> u8 {
    (rule_number >> (((left << 2u8) | (center << 1u8)) | right)) & 1u8
}

/// On binary states, Wolfram's rule 30 is `left XOR (center OR right)`, and
/// every Wolfram rule gives a binary state.
pub proof fn lemma_wolfram_30(left: u8, center: u8, right: u8, rule_number: u8)
    requires
        left <= 1,
        center <= 1,
        right <= 1,
    ensures
        wolfram_state(30, left, center, right) == rule30_state(left, center, right),
        wolfram_state(rule_number, left, center, right) <= 1,
{
    assert(((30u8 >> (((left << 2u8) | (center << 1u8)) | right)) & 1u8) == left ^ (center | right))
        by (bit_vector)
        requires
            left <= 1,
            center <= 1,
            right <= 1,
    ;
    assert(((rule_number >> (((left << 2u8) | (center << 1u8)) | right)) & 1u8) <= 1)
        by (bit_vector);
}

/// A local update rule of an elementary (binary, radius one) automaton.
pub trait Rule {
    /// The new state of a cell, given the states of its neighbourhood.
    spec fn spec_apply(&self, left: u8, center: u8, right: u8) -> u8;

    /// The Wolfram number of the rule.
    spec fn spec_states(&self) -> u64;

    /// The new state of a cell whose left neighbour, own state and right
    /// neighbour are given; binary states give a binary state.
    fn apply(&self, left: u8, center: u8, right: u8) -> (r: u8)
        requires
            left <= 1,
            center <= 1,
            right <= 1,
        ensures
            r == self.spec_apply(left, center, right),
            r <= 1,
    ;

    /// The Wolfram number of the rule.
    fn states(&self) -> (r: u64)
        ensures
            r == self.spec_states(),
    ;
}

/// Rule 30, written directly as `left XOR (center OR right)`.
pub struct Rule30;

impl Rule for Rule30 {
    open spec fn spec_apply(&self, left: u8, center: u8, right: u8) -> u8 {
        rule30_state(left, center, right)
    }

    open spec fn spec_states(&self) -> u64 {
        30
    }

    fn apply(&self, left: u8, center: u8, right: u8) -> (r: u8) {
        let r = left ^ (center | right);
        assert(r <= 1) by (bit_vector)
            requires
                r == left ^ (center | right),
                left <= 1,
                center <= 1,
                right <= 1,
        ;
        r
    }

    fn states(&self) -> (r: u64) {
        30
    }
}

/// Any elementary rule, given by its Wolfram number.
pub struct WolframRule {
    rule_number: u8,
}

impl WolframRule {
    /// The rule with Wolfram number `rule_number`.
    pub fn new(rule_number: u8) -> (r: Self)
        ensures
            r.spec_states() == rule_number as u64,
            forall|left: u8, center: u8, right: u8|
                #[trigger] r.spec_apply(left, center, right) == wolfram_state(
                    rule_number,
                    left,
                    center,
                    right,
                ),
    {
        Self { rule_number }
    }
}

impl Rule for WolframRule {
    closed spec fn spec_apply(&self, left: u8, center: u8, right: u8) -> u8 {
        wolfram_state(self.rule_number, left, center, right)
    }

    closed spec fn spec_states(&self) -> u64 {
        self.rule_number as u64
    }

    fn apply(&self, left: u8, center: u8, right: u8) -> (r: u8) {
        let index = (left << 2u8) | (center << 1u8) | right;
        assert(index < 8) by (bit_vector)
            requires
                index == ((left << 2u8) | (center << 1u8)) | right,
                left <= 1,
                center <= 1,
                right <= 1,
        ;
        let number = self.rule_number;
        let bit = (number >> index) & 1;
        assert(bit <= 1) by (bit_vector)
            requires
                bit == (number >> index) & 1u8,
        ;
        bit
    }

    fn states(&self) -> (r: u64) {
        self.rule_number as u64
    }
}

} // verus!
