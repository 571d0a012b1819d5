//! One left diagonal of the rule-30 triangle, stored compressed.
use vstd::prelude::*;
use vstd::arithmetic::div_mod::lemma_fundamental_div_mod_converse_mod;
use crate::text::{decimal_digits, decimal_string};

verus! {

/// What a diagonal holds: `leading_zeros` positions that are zero, then the
/// `transit`, then the `pattern` repeated forever.
pub struct DiagonalView {
    pub leading_zeros: nat,
    pub transit: Seq<u8>,
    pub pattern: Seq<u8>,
}

impl DiagonalView {
    /// The last position covered by the leading zeros and the transit.
    pub open spec fn transit_end(self) -> int {
        (self.leading_zeros + self.transit.len()) as int
    }

    /// The state at the 1-based position `i`: zero up to `leading_zeros`,
    /// then the transit, then the pattern repeated.
    pub open spec fn value(self, i: int) -> u8 {
        if i <= self.leading_zeros {
            0
        } else if i <= self.transit_end() {
            self.transit[i - self.leading_zeros - 1]
        } else {
            self.pattern[(i - self.transit_end() - 1) % (self.pattern.len() as int)]
        }
    }

    /// Every position can be read: the pattern is not empty.
    pub open spec fn readable(self) -> bool {
        self.pattern.len() > 0
    }
}

/// Past the transit, the states repeat with the length of the pattern.
pub proof fn lemma_value_cycles(d: DiagonalView, i: int)
    requires
        d.readable(),
        i > d.transit_end(),
    ensures
        d.value(i + d.pattern.len()) == d.value(i),
        d.value(i) == d.pattern[(i - d.transit_end() - 1) % (d.pattern.len() as int)],
{
    let n = d.pattern.len() as int;
    let a = i - d.transit_end() - 1;
    let q = a / n;
    let r = a % n;
    assert(a == q * n + r && 0 <= r < n) by (nonlinear_arith)
        requires
            q == a / n,
            r == a % n,
            n > 0,
    ;
    assert(a + n == (q + 1) * n + r) by (nonlinear_arith)
        requires
            a == q * n + r,
    ;
    lemma_fundamental_div_mod_converse_mod(a + n, n, q + 1, r);
}

/// The pattern turned one place to the right: its last state comes first.
pub open spec fn rotated_right(p: Seq<u8>) -> Seq<u8> {
    if p.len() == 0 {
        p
    } else {
        seq![p.last()] + p.drop_last()
    }
}

/// The trimming loop of the compression: while the transit has more than one
/// state, the pattern more than one, and both end with the same state, the
/// transit drops its last state and the pattern turns right.
pub open spec fn trimmed(transit: Seq<u8>, pattern: Seq<u8>) -> (Seq<u8>, Seq<u8>)
    decreases transit.len(),
{
    if transit.len() > 1 && pattern.len() > 1 && transit.last() == pattern.last() {
        trimmed(transit.drop_last(), rotated_right(pattern))
    } else {
        (transit, pattern)
    }
}

/// The compressed form of a diagonal: the trimmed transit followed by one
/// copy of the turned pattern, and that pattern.
pub open spec fn compressed(d: DiagonalView) -> DiagonalView {
    let (t, p) = trimmed(d.transit, d.pattern);
    DiagonalView { leading_zeros: d.leading_zeros, transit: t + p, pattern: p }
}

/// The number of occurrences of `v` in `s`.
pub open spec fn count_of(s: Seq<u8>, v: u8) -> nat
    decreases s.len(),
{
    if s.len() == 0 {
        0
    } else {
        count_of(s.drop_last(), v) + (if s.last() == v { 1nat } else { 0nat })
    }
}

/// Whether `c` is a decimal digit.
pub open spec fn is_digit(c: char) -> bool {
    '0' as u32 <= c as u32 && c as u32 <= '9' as u32
}

/// The value of the decimal digit `c`.
pub open spec fn digit_value(c: char) -> u8 {
    (c as u32 - '0' as u32) as u8
}

/// The states written by a string of decimal digits.
pub open spec fn states_of(s: Seq<char>) -> Seq<u8> {
    Seq::new(s.len(), |i: int| digit_value(s[i]))
}

/// Turning the pattern one place to the right, after dropping the matching
/// last state of the transit, reads the same at every position.
proof fn lemma_trim_step_same_values(d: DiagonalView)
    requires
        d.transit.len() > 1,
        d.pattern.len() > 1,
        d.transit.last() == d.pattern.last(),
    ensures
        forall|i: int|
            #[trigger] d.value(i) == (DiagonalView {
                leading_zeros: d.leading_zeros,
                transit: d.transit.drop_last(),
                pattern: rotated_right(d.pattern),
            }).value(i),
{
    let e = DiagonalView {
        leading_zeros: d.leading_zeros,
        transit: d.transit.drop_last(),
        pattern: rotated_right(d.pattern),
    };
    let n = d.pattern.len() as int;
    assert forall|i: int| #[trigger] d.value(i) == e.value(i) by {
        if i > d.transit_end() {
            let a = i - d.transit_end() - 1;
            let q = a / n;
            let r = a % n;
            assert(a == q * n + r && 0 <= r < n) by (nonlinear_arith)
                requires
                    q == a / n,
                    r == a % n,
                    n > 0,
            ;
            if r == n - 1 {
                assert(a + 1 == (q + 1) * n + 0) by (nonlinear_arith)
                    requires
                        a == q * n + r,
                        r == n - 1,
                ;
                lemma_fundamental_div_mod_converse_mod(a + 1, n, q + 1, 0);
            } else {
                lemma_fundamental_div_mod_converse_mod(a + 1, n, q, r + 1);
            }
        } else if i == d.transit_end() {
            assert(0int % n == 0);
        }
    }
}

/// Appending one copy of the pattern to the transit reads the same at every
/// position.
proof fn lemma_unrolled_same_values(d: DiagonalView)
    requires
        d.readable(),
    ensures
        forall|i: int|
            #[trigger] d.value(i) == (DiagonalView {
                leading_zeros: d.leading_zeros,
                transit: d.transit + d.pattern,
                pattern: d.pattern,
            }).value(i),
{
    let e = DiagonalView {
        leading_zeros: d.leading_zeros,
        transit: d.transit + d.pattern,
        pattern: d.pattern,
    };
    let n = d.pattern.len() as int;
    assert forall|i: int| #[trigger] d.value(i) == e.value(i) by {
        if i > d.transit_end() {
            let a = i - d.transit_end() - 1;
            if a < n {
                lemma_fundamental_div_mod_converse_mod(a, n, 0, a);
            } else {
                let q = a / n;
                let r = a % n;
                assert(a == q * n + r && 0 <= r < n) by (nonlinear_arith)
                    requires
                        q == a / n,
                        r == a % n,
                        n > 0,
                ;
                assert(a - n == (q - 1) * n + r) by (nonlinear_arith)
                    requires
                        a == q * n + r,
                ;
                lemma_fundamental_div_mod_converse_mod(a - n, n, q - 1, r);
            }
        }
    }
}

/// The decimal notation of each state, one after the other.
pub open spec fn states_text(s: Seq<u8>) -> Seq<char>
    decreases s.len(),
{
    if s.len() == 0 {
        Seq::empty()
    } else {
        states_text(s.drop_last()) + decimal_digits(s.last() as nat)
    }
}

/// The text of a diagonal: a tab-indented line with the transit and one with
/// the pattern.
pub open spec fn diagonal_text(d: DiagonalView) -> Seq<char> {
    "\tTransit: "@ + states_text(d.transit) + "\n"@ + "\tPattern: "@ + states_text(d.pattern)
        + "\n"@
}

/// Appends the decimal notation of each state to `result`.
fn append_states(result: &mut String, states: &Vec<u8>)
    ensures
        final(result)@ == old(result)@ + states_text(states@),
{
    let mut i: usize = 0;
    while i < states.len()
        invariant
            i <= states@.len(),
            result@ == old(result)@ + states_text(states@.subrange(0, i as int)),
        decreases states@.len() - i,
    {
        let digits = decimal_string(states[i] as usize);
        result.append(digits.as_str());
        assert(states@.subrange(0, i + 1).drop_last() =~= states@.subrange(0, i as int));
        i += 1;
    }
    assert(states@.subrange(0, i as int) =~= states@);
}

/// The states written by the decimal digits of `s`.
fn states_from_digits(s: &str) -> (r: Vec<u8>)
    requires
        forall|k: int| 0 <= k < s@.len() ==> is_digit(#[trigger] s@[k]),
    ensures
        r@ == states_of(s@),
{
    let n = s.unicode_len();
    let mut r: Vec<u8> = Vec::new();
    let mut i: usize = 0;
    while i < n
        invariant
            n == s@.len(),
            i <= n,
            r@ =~= states_of(s@.subrange(0, i as int)),
            forall|k: int| 0 <= k < s@.len() ==> is_digit(#[trigger] s@[k]),
        decreases n - i,
    {
        let c = s.get_char(i);
        assert(is_digit(s@[i as int]));
        r.push((c as u32 - '0' as u32) as u8);
        i += 1;
    }
    assert(s@.subrange(0, i as int) =~= s@);
    r
}

/// The trimming loop keeps the state at every position.
proof fn lemma_trimmed_same_values(d: DiagonalView)
    requires
        d.readable(),
    ensures
        forall|i: int|
            #[trigger] d.value(i) == (DiagonalView {
                leading_zeros: d.leading_zeros,
                transit: trimmed(d.transit, d.pattern).0,
                pattern: trimmed(d.transit, d.pattern).1,
            }).value(i),
    decreases d.transit.len(),
{
    if d.transit.len() > 1 && d.pattern.len() > 1 && d.transit.last() == d.pattern.last() {
        let e = DiagonalView {
            leading_zeros: d.leading_zeros,
            transit: d.transit.drop_last(),
            pattern: rotated_right(d.pattern),
        };
        lemma_trim_step_same_values(d);
        lemma_trimmed_same_values(e);
    }
}

/// Compression changes how a diagonal is stored, never what it holds: every
/// position reads the same before and after.
pub proof fn lemma_compressed_same_values(d: DiagonalView)
    requires
        d.readable(),
    ensures
        compressed(d).readable(),
        forall|i: int| #[trigger] compressed(d).value(i) == d.value(i),
{
    lemma_trimmed_same_values(d);
    let t = DiagonalView {
        leading_zeros: d.leading_zeros,
        transit: trimmed(d.transit, d.pattern).0,
        pattern: trimmed(d.transit, d.pattern).1,
    };
    lemma_trimmed_pattern_len(d.transit, d.pattern);
    lemma_unrolled_same_values(t);
    assert forall|i: int| #[trigger] compressed(d).value(i) == d.value(i) by {
        assert(t.value(i) == d.value(i));
    }
}

/// The trimming loop keeps the length of the pattern.
pub proof fn lemma_trimmed_pattern_len(t: Seq<u8>, p: Seq<u8>)
    ensures
        trimmed(t, p).1.len() == p.len(),
    decreases t.len(),
{
    if t.len() > 1 && p.len() > 1 && t.last() == p.last() {
        lemma_trimmed_pattern_len(t.drop_last(), rotated_right(p));
    }
}

/// A left diagonal of the rule-30 triangle: `leading_zeros` zero positions,
/// then the transit, then the pattern repeated forever.
#[derive(Debug, PartialEq, Eq)]
pub struct Diagonal {
    pub pattern: Vec<u8>,
    pub transit: Vec<u8>,
    pub leading_zeros: usize,
}

impl View for Diagonal {
    type V = DiagonalView;

    open spec fn view(&self) -> DiagonalView {
        DiagonalView {
            leading_zeros: self.leading_zeros as nat,
            transit: self.transit@,
            pattern: self.pattern@,
        }
    }
}

impl Clone for Diagonal {
    /// A copy with the same transit, pattern and leading zeros.
    fn clone(&self) -> (r: Self)
        ensures
            r@ == self@,
    {
        Diagonal {
            pattern: self.pattern.clone(),
            transit: self.transit.clone(),
            leading_zeros: self.leading_zeros,
        }
    }
}

impl Diagonal {
    /// A diagonal with the given pattern and transit and no leading zeros.
    pub fn new(pattern: Vec<u8>, transit: Vec<u8>) -> (r: Diagonal)
        ensures
            r.pattern@ == pattern@,
            r.transit@ == transit@,
            r.leading_zeros == 0,
    {
        Diagonal { pattern, transit, leading_zeros: 0 }
    }

    /// A diagonal with no leading zeros whose transit and pattern are written
    /// as strings of decimal digits, one digit per state.
    pub fn new_from_binary(transit: &str, pattern: &str) -> (r: Diagonal)
        requires
            forall|k: int| 0 <= k < transit@.len() ==> is_digit(#[trigger] transit@[k]),
            forall|k: int| 0 <= k < pattern@.len() ==> is_digit(#[trigger] pattern@[k]),
        ensures
            r.transit@ == states_of(transit@),
            r.pattern@ == states_of(pattern@),
            r.leading_zeros == 0,
    {
        let pattern = states_from_digits(pattern);
        let transit = states_from_digits(transit);
        Self::new(pattern, transit)
    }

    /// Removes every state; the diagonal is left with no leading zeros.
    pub fn clear(&mut self)
        ensures
            final(self).transit@.len() == 0,
            final(self).pattern@.len() == 0,
            final(self).leading_zeros == 0,
    {
        self.transit.clear();
        self.pattern.clear();
        self.leading_zeros = 0;
    }

    /// Appends a state to the transit.
    pub fn push_transit(&mut self, state: u8)
        ensures
            final(self).transit@ == old(self).transit@.push(state),
            final(self).pattern@ == old(self).pattern@,
            final(self).leading_zeros == old(self).leading_zeros,
    {
        self.transit.push(state);
    }

    /// Appends a state to the pattern.
    pub fn push_pattern(&mut self, state: u8)
        ensures
            final(self).pattern@ == old(self).pattern@.push(state),
            final(self).transit@ == old(self).transit@,
            final(self).leading_zeros == old(self).leading_zeros,
    {
        self.pattern.push(state);
    }

    /// Takes over the transit, pattern and leading zeros of `new`.
    pub fn set(&mut self, new: Diagonal)
        ensures
            final(self)@ == new@,
    {
        self.transit = new.transit;
        self.pattern = new.pattern;
        self.leading_zeros = new.leading_zeros;
    }

    /// The state at the 1-based position `i`, counted from the start of the
    /// transit: the leading zeros are not counted.
    pub fn get_last(&self, index: usize) -> (r: u8)
        requires
            index >= 1,
            index > self.transit@.len() ==> self.pattern@.len() > 0,
        ensures
            index <= self.transit@.len() ==> r == self.transit@[index - 1],
            index > self.transit@.len() ==> r == self.pattern@[(index - 1 - self.transit@.len())
                % (self.pattern@.len() as int)],
    {
        if index <= self.transit.len() {
            self.transit[index - 1]
        } else {
            let tau = self.transit.len();
            let pi = self.pattern.len();
            let index = (index - 1 - tau) % pi;
            self.pattern[index]
        }
    }

    /// Whether `state` occurs in the pattern.
    pub fn has_state_in_pattern(&self, state: u8) -> (r: bool)
        ensures
            r == self.pattern@.contains(state),
    {
        let mut i: usize = 0;
        while i < self.pattern.len()
            invariant
                i <= self.pattern@.len(),
                forall|k: int| 0 <= k < i ==> self.pattern@[k] != state,
            decreases self.pattern@.len() - i,
        {
            if self.pattern[i] == state {
                return true;
            }
            i += 1;
        }
        false
    }

    /// The number of occurrences of `state` in the pattern.
    pub fn count_state_in_pattern(&self, state: u8) -> (r: usize)
        ensures
            r == count_of(self.pattern@, state),
    {
        let mut count: usize = 0;
        let mut i: usize = 0;
        while i < self.pattern.len()
            invariant
                i <= self.pattern@.len(),
                count == count_of(self.pattern@.subrange(0, i as int), state),
                count <= i,
            decreases self.pattern@.len() - i,
        {
            assert(self.pattern@.subrange(0, i + 1).drop_last() == self.pattern@.subrange(
                0,
                i as int,
            ));
            if self.pattern[i] == state {
                count += 1;
            }
            i += 1;
        }
        assert(self.pattern@.subrange(0, i as int) == self.pattern@);
        count
    }

    /// The state at the 1-based position `i`: zero within the leading zeros,
    /// then the transit, then the pattern repeated.
    pub fn get_from_index(&self, i: usize) -> (r: u8)
        requires
            i > self@.transit_end() ==> self@.readable(),
        ensures
            r == self@.value(i as int),
            i <= self.leading_zeros ==> r == 0,
            self.leading_zeros < i <= self@.transit_end() ==> r == self.transit@[i
                - self.leading_zeros - 1],
            i > self@.transit_end() ==> r == self.pattern@[(i - self@.transit_end() - 1)
                % (self.pattern@.len() as int)],
    {
        let tau = self.transit.len();
        let pi = self.pattern.len();
        let zeta = self.leading_zeros;

        if i <= zeta {
            0
        } else if i - zeta <= tau {
            let k = i - zeta - 1;
            self.transit[k]
        } else {
            let k = (i - zeta - tau - 1) % pi;
            self.pattern[k]
        }
    }

    /// Shortens the transit without changing any state of the diagonal.
    ///
    /// While the transit has more than one state, the pattern more than one,
    /// and both end with the same state, the last state of the transit is
    /// dropped and the pattern is turned one place to the right. Then one
    /// copy of the pattern is appended to the transit.
    pub fn elude_transit(&mut self)
        ensures
            final(self)@ == compressed(old(self)@),
            final(self).pattern@.len() == old(self).pattern@.len(),
            old(self)@.readable() ==> forall|i: int|
                #[trigger] final(self)@.value(i) == old(self)@.value(i),
    {
        while self.transit.len() > 1 && self.pattern.len() > 1 && self.transit[self.transit.len()
            - 1] == self.pattern[self.pattern.len() - 1]
            invariant
                trimmed(self.transit@, self.pattern@) == trimmed(
                    old(self).transit@,
                    old(self).pattern@,
                ),
                self.leading_zeros == old(self).leading_zeros,
                self.pattern@.len() == old(self).pattern@.len(),
                old(self)@.readable() ==> forall|i: int|
                    #[trigger] self@.value(i) == old(self)@.value(i),
            decreases self.transit@.len(),
        {
            let ghost before = self@;
            proof {
                lemma_trim_step_same_values(before);
            }
            self.transit.pop();
            let last = self.pattern.pop().unwrap();
            self.pattern.insert(0, last);
            assert(self.pattern@ =~= rotated_right(before.pattern));
            assert(self.transit@ =~= before.transit.drop_last());
            assert(self@ == DiagonalView {
                leading_zeros: before.leading_zeros,
                transit: before.transit.drop_last(),
                pattern: rotated_right(before.pattern),
            });
            proof {
                if old(self)@.readable() {
                    assert forall|i: int| #[trigger]
                        self@.value(i) == old(self)@.value(i) by {
                        assert(before.value(i) == old(self)@.value(i));
                    }
                }
            }
        }
        proof {
            if old(self)@.readable() {
                lemma_unrolled_same_values(self@);
            }
        }
        let ghost before = self@;
        let mut copy = self.pattern.clone();
        assert(copy@ =~= self.pattern@);
        self.transit.append(&mut copy);
        assert(self@ == DiagonalView {
            leading_zeros: before.leading_zeros,
            transit: before.transit + before.pattern,
            pattern: before.pattern,
        });
        proof {
            if old(self)@.readable() {
                assert forall|i: int| #[trigger]
                    self@.value(i) == old(self)@.value(i) by {
                    assert(before.value(i) == old(self)@.value(i));
                }
            }
        }
    }

    /// Sets the number of leading zeros.
    pub fn set_leading_zeros(&mut self, zeros: usize)
        ensures
            final(self).leading_zeros == zeros,
            final(self).transit@ == old(self).transit@,
            final(self).pattern@ == old(self).pattern@,
    {
        self.leading_zeros = zeros;
    }

    /// The number of leading zeros.
    pub fn leading_zeros(&self) -> (r: usize)
        ensures
            r == self.leading_zeros,
    {
        self.leading_zeros
    }

    /// The transit and the pattern as text, each on a tab-indented line.
    pub fn to_string(&self) -> (r: String)
        ensures
            r@ == diagonal_text(self@),
    {
        let mut result = String::new();
        result.append("\tTransit: ");
        append_states(&mut result, &self.transit);
        result.append("\n");
        result.append("\tPattern: ");
        append_states(&mut result, &self.pattern);
        result.append("\n");
        result
    }
}

} // verus!
