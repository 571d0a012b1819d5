//! The diagonal recurrence: each left diagonal of the rule-30 triangle from
//! the two before it.
use vstd::prelude::*;
use crate::fast_30::diagonal::{
    compressed, count_of, diagonal_text, lemma_trimmed_pattern_len, Diagonal, DiagonalView,
};
use crate::fast_30::flags_options::Fast30Option;
use crate::fast_30::options::Options;
use crate::text::{decimal_digits, decimal_string};
use crate::rules::rule30_state;

verus! {

/// Capacity reserved for a transit.
pub const DEFAULT_TRANSIT_CAPACITY: usize = 1_000_000;

/// Capacity reserved for a pattern.
pub const DEFAULT_PATTERN_CAPACITY: usize = 64;

/// The larger of two integers.
pub open spec fn max_int(a: int, b: int) -> int {
    if a >= b {
        a
    } else {
        b
    }
}

/// The first position from which both diagonals read from their patterns.
pub open spec fn periodic_start(last: DiagonalView, penult: DiagonalView) -> int {
    max_int(last.transit_end(), penult.transit_end()) + 1
}

/// The `k`-th state built by the recurrence from position `start`: rule 30
/// applied to the penultimate diagonal (left), the last diagonal (centre)
/// and the state built just before (right, zero for the first).
pub open spec fn recurrence(last: DiagonalView, penult: DiagonalView, start: int, k: nat) -> u8
    decreases k,
{
    let right = if k == 0 {
        0u8
    } else {
        recurrence(last, penult, start, (k - 1) as nat)
    };
    rule30_state(penult.value(start + k), last.value(start + k), right)
}

/// How many states the recurrence builds from `start`: up to the periodic
/// start of both diagonals, then `period` more.
pub open spec fn built_length(last: DiagonalView, penult: DiagonalView, start: int, period: nat) -> nat {
    let p = periodic_start(last, penult);
    if start >= p {
        period
    } else {
        (p - start + period) as nat
    }
}

/// The diagonal built from `last` and `penult`: `start` leading zeros, every
/// built state in the transit, and the last `period` of them as the pattern.
pub open spec fn next_diagonal(last: DiagonalView, penult: DiagonalView, start: nat, period: nat) -> DiagonalView {
    let n = built_length(last, penult, start as int, period);
    DiagonalView {
        leading_zeros: start,
        transit: Seq::new(n, |k: int| recurrence(last, penult, start as int, k as nat)),
        pattern: Seq::new(
            period,
            |k: int| recurrence(last, penult, start as int, (n - period + k) as nat),
        ),
    }
}

/// What the evaluator holds: the last two diagonals, the assumed period, the
/// number of diagonals finalized, and the settings.
pub struct Fast30View {
    pub last: DiagonalView,
    pub penult: DiagonalView,
    pub period: nat,
    pub iteration: nat,
    pub options: Options,
}

impl Fast30View {
    /// Both diagonals can be read everywhere, the period is positive and the
    /// settings are valid.
    pub open spec fn wf(self) -> bool {
        &&& self.last.readable()
        &&& self.penult.readable()
        &&& self.period >= 1
        &&& self.options.valid()
    }

    /// The period doubles when the last pattern holds no 1 and the
    /// penultimate pattern holds an odd number of them. This trigger comes
    /// from what rule 30's diagonals have been seen to do, not from a proof:
    /// the diagonals built are right only as far as that conjecture holds.
    pub open spec fn doubling(self) -> bool {
        !self.last.pattern.contains(1u8) && count_of(self.penult.pattern, 1u8) % 2 == 1
    }

    /// The period assumed for the next diagonal.
    pub open spec fn next_period(self) -> nat {
        if self.doubling() {
            2 * self.period
        } else {
            self.period
        }
    }

    /// The leading zeros of the next diagonal: half of the next iteration,
    /// rounded up, that is `ceil((iteration + 1) / 2)`.
    pub open spec fn next_zeros(self) -> nat {
        (self.iteration + 2) / 2
    }

    /// The next diagonal, before any compression.
    pub open spec fn built(self) -> DiagonalView {
        next_diagonal(self.last, self.penult, self.next_zeros(), self.next_period())
    }

    /// Every number used by one more step fits in a `usize`.
    pub open spec fn fits(self) -> bool {
        &&& self.iteration + 1 <= usize::MAX
        &&& max_int(self.next_zeros() as int, periodic_start(self.last, self.penult))
            + self.next_period() <= usize::MAX
    }

    /// The state after one more diagonal: the built diagonal becomes the last,
    /// the last becomes the penultimate, and both are compressed when the new
    /// iteration is a multiple of the compression cadence.
    pub open spec fn advanced(self) -> Fast30View {
        let iteration = self.iteration + 1;
        let elude = iteration % (self.options.elude_diagonal_steps as nat) == 0;
        Fast30View {
            last: if elude {
                compressed(self.built())
            } else {
                self.built()
            },
            penult: if elude {
                compressed(self.last)
            } else {
                self.last
            },
            period: self.next_period(),
            iteration,
            options: self.options,
        }
    }
}

/// The state after `n` more diagonals.
pub open spec fn evolved(s: Fast30View, n: nat) -> Fast30View
    decreases n,
{
    if n == 0 {
        s
    } else {
        evolved(s, (n - 1) as nat).advanced()
    }
}

/// Every step of the next `n` fits in a `usize`.
pub open spec fn fits_for(s: Fast30View, n: nat) -> bool {
    forall|k: nat| k < n ==> (#[trigger] evolved(s, k)).fits()
}

/// One step keeps the state well formed.
proof fn lemma_advanced_wf(s: Fast30View)
    requires
        s.wf(),
    ensures
        s.advanced().wf(),
        s.advanced().period == s.period || s.advanced().period == 2 * s.period,
        s.advanced().last.transit.len() >= s.advanced().period,
{
    lemma_trimmed_pattern_len(s.built().transit, s.built().pattern);
    lemma_trimmed_pattern_len(s.last.transit, s.last.pattern);
}

/// Well-formedness holds after any number of steps.
pub proof fn lemma_evolved_wf(s: Fast30View, n: nat)
    requires
        s.wf(),
    ensures
        evolved(s, n).wf(),
        evolved(s, n).options == s.options,
    decreases n,
{
    if n > 0 {
        lemma_evolved_wf(s, (n - 1) as nat);
        lemma_advanced_wf(evolved(s, (n - 1) as nat));
    }
}

/// Evolving by `a` and then by `b` diagonals gives the same state as
/// evolving by `a + b` at once.
pub proof fn lemma_evolve_split(s: Fast30View, a: nat, b: nat)
    ensures
        evolved(evolved(s, a), b) == evolved(s, a + b),
    decreases b,
{
    if b > 0 {
        lemma_evolve_split(s, a, (b - 1) as nat);
    }
}

/// `2` to the power `d`.
pub open spec fn pow2(d: nat) -> nat
    decreases d,
{
    if d == 0 {
        1
    } else {
        2 * pow2((d - 1) as nat)
    }
}

/// The period never decreases, and only changes by doubling: after any
/// number of steps it is the first period times a power of two.
pub proof fn lemma_period_doubles(s: Fast30View, n: nat)
    requires
        s.wf(),
    ensures
        evolved(s, n).period >= s.period,
        exists|d: nat| d <= n && evolved(s, n).period == s.period * #[trigger] pow2(d),
    decreases n,
{
    if n == 0 {
        assert(pow2(0) == 1);
        assert(s.period == s.period * pow2(0));
    } else {
        lemma_period_doubles(s, (n - 1) as nat);
        lemma_evolved_wf(s, (n - 1) as nat);
        let prev = evolved(s, (n - 1) as nat);
        let d = choose|d: nat| d <= n - 1 && prev.period == s.period * #[trigger] pow2(d);
        lemma_advanced_wf(prev);
        if prev.doubling() {
            assert(pow2(d + 1) == 2 * pow2(d));
            assert(evolved(s, n).period == s.period * pow2(d + 1)) by (nonlinear_arith)
                requires
                    evolved(s, n).period == 2 * prev.period,
                    prev.period == s.period * pow2(d),
                    pow2(d + 1) == 2 * pow2(d),
            ;
        } else {
            assert(evolved(s, n).period == s.period * pow2(d));
        }
    }
}

/// Builds into `current` the diagonal that follows `last` and `penult`.
fn build_next(
    last: &Diagonal,
    penult: &Diagonal,
    current: &mut Diagonal,
    zeros: usize,
    period: usize,
)
    requires
        last@.readable(),
        penult@.readable(),
        period >= 1,
        max_int(zeros as int, periodic_start(last@, penult@)) + period <= usize::MAX,
    ensures
        final(current)@ == next_diagonal(last@, penult@, zeros as nat, period as nat),
{
    let ghost start = zeros as int;
    let ghost p = periodic_start(last@, penult@);
    let ghost first = max_int(start, p);
    current.transit.clear();
    current.pattern.clear();
    current.set_leading_zeros(zeros);

    let bound_last = last.transit.len() + last.leading_zeros;
    let bound_penult = penult.transit.len() + penult.leading_zeros;

    let mut j: usize = 0;
    let mut i: usize = zeros;
    let mut last_state: u8 = 0;

    while j < period
        invariant
            last@.readable(),
            penult@.readable(),
            period >= 1,
            start == zeros as int,
            p == periodic_start(last@, penult@),
            first == max_int(start, p),
            first + period <= usize::MAX,
            bound_last == last@.transit_end(),
            bound_penult == penult@.transit_end(),
            zeros <= i <= first + period,
            j <= period,
            j == (if i >= first { i - first } else { 0 }),
            current.leading_zeros == zeros,
            current.transit@ =~= Seq::new(
                (i - zeros) as nat,
                |k: int| recurrence(last@, penult@, start, k as nat),
            ),
            current.pattern@ =~= Seq::new(
                j as nat,
                |k: int| recurrence(last@, penult@, start, (i - zeros - j + k) as nat),
            ),
            last_state == (if i == zeros {
                0u8
            } else {
                recurrence(last@, penult@, start, (i - zeros - 1) as nat)
            }),
        decreases (period - j) + (if i < p { p - i } else { 0 }),
    {
        let center = last.get_from_index(i);
        let left = penult.get_from_index(i);
        let ghost k = (i - zeros) as nat;
        assert(start + k == i);
        assert(k > 0 ==> last_state == recurrence(last@, penult@, start, (k - 1) as nat));
        last_state = left ^ (center | last_state);
        assert(last_state == recurrence(last@, penult@, start, k));

        current.transit.push(last_state);

        assert((i > bound_last && i > bound_penult) == (i >= first));
        if i > bound_last && i > bound_penult {
            j += 1;
            current.pattern.push(last_state);
        }

        i += 1;
    }
    assert(i == first + period);
}

/// The text of an evaluator: each of the last two diagonals with its number
/// of leading zeros.
pub open spec fn fast30_text(s: Fast30View) -> Seq<char> {
    "Last Diagonal:\n"@ + diagonal_text(s.last) + "Number of leading zeros: "@ + decimal_digits(
        s.last.leading_zeros,
    ) + "\n"@ + "Penultimate Diagonal:\n"@ + diagonal_text(s.penult)
        + "Number of leading zeros: "@ + decimal_digits(s.penult.leading_zeros)
}

/// The change of each recorded transit excess from the one before, for a
/// record whose first entry belongs to iteration `first_iteration`: zero at
/// iteration 0, `last_transit` for the first entry, then the difference with
/// the entry before.
pub open spec fn transit_delta(record: Seq<u32>, first_iteration: int, last_transit: u32, k: int) -> int {
    if first_iteration + k == 0 {
        0
    } else if k == 0 {
        last_transit as int
    } else {
        record[k] - record[k - 1]
    }
}

/// The change of each recorded transit excess from the one before.
pub fn transit_deltas(record: &Vec<u32>, first_iteration: usize, last_transit: u32) -> (r: Vec<i64>)
    ensures
        r@.len() == record@.len(),
        forall|k: int|
            0 <= k < record@.len() ==> #[trigger] r@[k] as int == transit_delta(
                record@,
                first_iteration as int,
                last_transit,
                k,
            ),
{
    let mut result: Vec<i64> = Vec::with_capacity(record.len());
    let mut k: usize = 0;
    while k < record.len()
        invariant
            k <= record@.len(),
            result@.len() == k,
            forall|j: int|
                0 <= j < k ==> #[trigger] result@[j] as int == transit_delta(
                    record@,
                    first_iteration as int,
                    last_transit,
                    j,
                ),
        decreases record@.len() - k,
    {
        let delta: i64 = if k == 0 && first_iteration == 0 {
            0
        } else if k == 0 {
            last_transit as i64
        } else {
            record[k] as i64 - record[k - 1] as i64
        };
        result.push(delta);
        k += 1;
    }
    result
}

/// Reports what one step did and which side activities fall due.
pub struct StepReport {
    /// The period doubled before the new diagonal was built.
    pub doubled: bool,
    /// Saving is on and the new iteration is a multiple of its cadence.
    pub save_due: bool,
    /// Progress logging is on and the new iteration is a multiple of its
    /// cadence.
    pub log_due: bool,
    /// The new iteration is a multiple of the transit report cadence.
    pub transit_due: bool,
    /// How much longer the last transit is than the period.
    pub transit_excess: usize,
}

/// The fast evaluator: builds each left diagonal of the rule-30 triangle from
/// the two before it, in time proportional to the assumed period.
///
/// Each new pattern is taken to repeat with the assumed period, and the
/// period doubles on the trigger of `Fast30View::doubling`; both rest on the
/// conjecture that every left diagonal becomes periodic.
pub struct Fast30 {
    last_diagonal: Diagonal,
    penult_diagonal: Diagonal,
    current_diagonal: Diagonal,
    current_period: usize,
    iteration: usize,
    options: Options,
}

impl View for Fast30 {
    type V = Fast30View;

    closed spec fn view(&self) -> Fast30View {
        Fast30View {
            last: self.last_diagonal@,
            penult: self.penult_diagonal@,
            period: self.current_period as nat,
            iteration: self.iteration as nat,
            options: self.options,
        }
    }
}

impl Fast30 {
    /// The evaluator is well formed.
    pub open spec fn wf(&self) -> bool {
        self@.wf()
    }

    /// An evaluator at iteration 2: both seed diagonals have no leading
    /// zero, an empty transit and the pattern `[1]`; the period is 1.
    pub fn new() -> (r: Self)
        ensures
            r.wf(),
            r@.last == (DiagonalView { leading_zeros: 0, transit: Seq::empty(), pattern: seq![1u8] }),
            r@.penult == (DiagonalView { leading_zeros: 0, transit: Seq::empty(), pattern: seq![1u8] }),
            r@.period == 1,
            r@.iteration == 2,
            r@.options.is_default(),
    {
        let mut penult_diagonal = Diagonal::new(
            Vec::with_capacity(DEFAULT_PATTERN_CAPACITY),
            Vec::with_capacity(DEFAULT_TRANSIT_CAPACITY),
        );
        let mut last_diagonal = penult_diagonal.clone();
        let current_diagonal = penult_diagonal.clone();

        penult_diagonal.pattern.push(1);

        last_diagonal.pattern.push(1);
        last_diagonal.leading_zeros = 0;

        let r = Self {
            last_diagonal,
            penult_diagonal,
            current_diagonal,
            current_period: 1,
            iteration: 2,
            options: Options::new(),
        };
        assert(r@.last.pattern =~= seq![1u8]);
        assert(r@.penult.pattern =~= seq![1u8]);
        r
    }

    /// Whether the next step's numbers fit in a `usize`.
    pub fn can_advance(&self) -> (r: bool)
        requires
            self.wf(),
        ensures
            r == self@.fits(),
    {
        if self.iteration == usize::MAX {
            return false;
        }
        let doubling = self.is_doubling();
        let period = if doubling {
            if self.current_period > usize::MAX / 2 {
                return false;
            }
            self.current_period * 2
        } else {
            self.current_period
        };
        let zeros = self.iteration / 2 + 1;
        let end_last = self.last_diagonal.leading_zeros as u128 + self.last_diagonal.transit.len() as u128;
        let end_penult = self.penult_diagonal.leading_zeros as u128
            + self.penult_diagonal.transit.len() as u128;
        let periodic = if end_last >= end_penult { end_last + 1 } else { end_penult + 1 };
        let first = if zeros as u128 >= periodic { zeros as u128 } else { periodic };
        first + period as u128 <= usize::MAX as u128
    }

    /// The period doubles for the next diagonal.
    fn is_doubling(&self) -> (r: bool)
        ensures
            r == self@.doubling(),
    {
        !self.last_diagonal.has_state_in_pattern(1) && self.penult_diagonal.count_state_in_pattern(1)
            % 2 == 1
    }

    /// Builds the next diagonal and rotates the three buffers: the new
    /// diagonal becomes the last, the last the penultimate, and the old
    /// penultimate buffer is kept for the next build.
    fn next(&mut self) -> (doubled: bool)
        requires
            old(self).wf(),
            old(self)@.fits(),
        ensures
            doubled == old(self)@.doubling(),
            final(self)@.last == old(self)@.built(),
            final(self)@.penult == old(self)@.last,
            final(self)@.period == old(self)@.next_period(),
            final(self)@.iteration == old(self)@.iteration,
            final(self)@.options == old(self)@.options,
    {
        let doubled = self.is_doubling();
        if doubled {
            self.current_period = self.current_period * 2;
        }
        let number_zeros = self.iteration / 2 + 1;
        build_next(
            &self.last_diagonal,
            &self.penult_diagonal,
            &mut self.current_diagonal,
            number_zeros,
            self.current_period,
        );
        std::mem::swap(&mut self.penult_diagonal, &mut self.last_diagonal);
        std::mem::swap(&mut self.last_diagonal, &mut self.current_diagonal);
        doubled
    }

    /// Builds the next diagonal, counts it, and compresses the last two
    /// diagonals when the new iteration is a multiple of the compression
    /// cadence. Reports which side activities fall due.
    pub fn advance(&mut self) -> (r: StepReport)
        requires
            old(self).wf(),
            old(self)@.fits(),
        ensures
            final(self).wf(),
            final(self)@ == old(self)@.advanced(),
            final(self)@.period == old(self)@.period || final(self)@.period == 2 * old(self)@.period,
            r.doubled == old(self)@.doubling(),
            r.save_due == (final(self)@.options.want_to_save && final(self)@.iteration
                % (final(self)@.options.save_steps as nat) == 0),
            r.log_due == (final(self)@.options.want_log_steps && final(self)@.iteration
                % (final(self)@.options.logging_steps as nat) == 0),
            r.transit_due == (final(self)@.iteration % (final(self)@.options.transit_steps as nat)
                == 0),
            r.transit_excess == final(self)@.last.transit.len() - final(self)@.period,
    {
        proof {
            lemma_advanced_wf(self@);
        }
        let doubled = self.next();
        self.iteration = self.iteration + 1;
        if self.iteration % self.options.elude_diagonal_steps == 0 {
            self.elude_diagonals();
        }
        let save_due = self.options.want_to_save && self.iteration % self.options.save_steps == 0;
        let log_due = self.options.want_log_steps && self.iteration % self.options.logging_steps
            == 0;
        let transit_due = self.iteration % self.options.transit_steps == 0;
        let transit_excess = self.last_diagonal.transit.len() - self.current_period;
        StepReport { doubled, save_due, log_due, transit_due, transit_excess }
    }

    /// Advances by exactly `steps` diagonals.
    pub fn evolve(&mut self, steps: usize)
        requires
            old(self).wf(),
            fits_for(old(self)@, steps as nat),
        ensures
            final(self).wf(),
            final(self)@ == evolved(old(self)@, steps as nat),
            final(self)@.period >= old(self)@.period,
            exists|d: nat|
                d <= steps && final(self)@.period == old(self)@.period * #[trigger] pow2(d),
    {
        let mut k: usize = 0;
        while k < steps
            invariant
                k <= steps,
                self.wf(),
                self@ == evolved(old(self)@, k as nat),
                fits_for(old(self)@, steps as nat),
            decreases steps - k,
        {
            proof {
                assert(evolved(old(self)@, k as nat).fits());
            }
            self.advance();
            k += 1;
        }
        proof {
            lemma_period_doubles(old(self)@, steps as nat);
        }
    }

    /// Compresses the last two diagonals; no state of either changes.
    pub fn elude_diagonals(&mut self)
        requires
            old(self).wf(),
        ensures
            final(self).wf(),
            final(self)@ == (Fast30View {
                last: compressed(old(self)@.last),
                penult: compressed(old(self)@.penult),
                ..old(self)@
            }),
            forall|i: int| #[trigger] final(self)@.last.value(i) == old(self)@.last.value(i),
            forall|i: int| #[trigger] final(self)@.penult.value(i) == old(self)@.penult.value(i),
    {
        self.last_diagonal.elude_transit();
        self.penult_diagonal.elude_transit();
    }

    /// Sets how many iterations pass between two compressions.
    pub fn set_steps_elude(&mut self, steps: usize) -> (r: &mut Self)
        requires
            old(self).wf(),
            steps > 0,
        ensures
            (*r).wf(),
            (*r)@ == (Fast30View {
                options: Options { elude_diagonal_steps: steps, ..old(self)@.options },
                ..old(self)@
            }),
            *final(self) == *final(r),
    {
        self.options.elude_diagonal_steps = steps;
        self
    }

    /// Sets how many iterations pass between two reports of the transit
    /// lengths.
    pub fn set_transit_steps(&mut self, steps: usize) -> (r: &mut Self)
        requires
            old(self).wf(),
            steps > 0,
        ensures
            (*r).wf(),
            (*r)@ == (Fast30View {
                options: Options { transit_steps: steps, ..old(self)@.options },
                ..old(self)@
            }),
            *final(self) == *final(r),
    {
        self.options.transit_steps = steps;
        self
    }

    /// Turns saving and the two kinds of logging on or off as the switches
    /// say.
    pub fn set_options(&mut self, opts: Fast30Option)
        requires
            old(self).wf(),
        ensures
            final(self).wf(),
            final(self)@.last == old(self)@.last,
            final(self)@.penult == old(self)@.penult,
            final(self)@.period == old(self)@.period,
            final(self)@.iteration == old(self)@.iteration,
            final(self)@.options.want_to_save == (opts.spec_bits()
                & crate::fast_30::flags_options::SAVE_DIAGONALS
                == crate::fast_30::flags_options::SAVE_DIAGONALS),
            final(self)@.options.want_log_steps == (opts.spec_bits()
                & crate::fast_30::flags_options::LOG_STEPS
                == crate::fast_30::flags_options::LOG_STEPS),
            final(self)@.options.want_log_doubling == (opts.spec_bits()
                & crate::fast_30::flags_options::LOG_DOUBLING
                == crate::fast_30::flags_options::LOG_DOUBLING),
            final(self)@.options.elude_diagonal_steps == old(self)@.options.elude_diagonal_steps,
            final(self)@.options.save_steps == old(self)@.options.save_steps,
            final(self)@.options.path_to_save_file == old(self)@.options.path_to_save_file,
            final(self)@.options.logging_steps == old(self)@.options.logging_steps,
            final(self)@.options.want_transit == old(self)@.options.want_transit,
            final(self)@.options.transit_steps == old(self)@.options.transit_steps,
    {
        self.options.set_options(opts);
    }

    /// The settings.
    pub fn options(&self) -> (r: &Options)
        ensures
            *r == self@.options,
    {
        &self.options
    }

    /// The period assumed for the patterns.
    pub fn current_period(&self) -> (r: usize)
        ensures
            r == self@.period,
    {
        self.current_period
    }

    /// The number of diagonals finalized.
    pub fn iteration(&self) -> (r: usize)
        ensures
            r == self@.iteration,
    {
        self.iteration
    }

    /// The last diagonal built.
    pub fn last_diagonal(&self) -> (r: &Diagonal)
        ensures
            r@ == self@.last,
    {
        &self.last_diagonal
    }

    /// The diagonal built before the last one.
    pub fn penult_diagonal(&self) -> (r: &Diagonal)
        ensures
            r@ == self@.penult,
    {
        &self.penult_diagonal
    }

    /// The last two diagonals as text, each with its number of leading zeros.
    pub fn to_string(&self) -> (r: String)
        ensures
            r@ == fast30_text(self@),
    {
        let mut result = String::new();
        result.append("Last Diagonal:\n");
        result.append(self.last_diagonal.to_string().as_str());
        result.append("Number of leading zeros: ");
        result.append(decimal_string(self.last_diagonal.leading_zeros).as_str());
        result.append("\n");

        result.append("Penultimate Diagonal:\n");
        result.append(self.penult_diagonal.to_string().as_str());
        result.append("Number of leading zeros: ");
        result.append(decimal_string(self.penult_diagonal.leading_zeros).as_str());
        result
    }
}

} // verus!
