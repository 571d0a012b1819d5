//! The settings of the evaluator.
use vstd::prelude::*;
use crate::fast_30::flags_options::{Fast30Option, LOG_DOUBLING, LOG_STEPS, SAVE_DIAGONALS};

verus! {

/// Iterations between two compressions of the diagonals, by default.
pub const DEFAULT_ELUDE_DIAGONAL_STEPS: usize = 10;

/// Iterations between two saves of the diagonals, by default.
pub const DEFAULT_SAVE_STEPS: usize = 100_000;

/// Iterations between two progress lines, by default.
pub const DEFAULT_LOGGING_STEPS: usize = 1_000_000;

/// Iterations between two reports of the transit lengths, by default.
pub const DEFAULT_TRANSIT_STEPS: usize = 1_000;

/// The settings of the evaluator. Only the compression cadence changes the
/// states held; the others say when the caller saves, logs or reports.
pub struct Options {
    pub elude_diagonal_steps: usize,
    pub want_to_save: bool,
    pub save_steps: usize,
    pub path_to_save_file: String,
    pub want_log_doubling: bool,
    pub want_log_steps: bool,
    pub logging_steps: usize,
    pub want_transit: bool,
    pub transit_steps: usize,
}

impl Options {
    /// Every cadence is positive.
    pub open spec fn valid(&self) -> bool {
        &&& self.elude_diagonal_steps > 0
        &&& self.save_steps > 0
        &&& self.logging_steps > 0
        &&& self.transit_steps > 0
    }

    /// The default settings: compression every ten iterations, every side
    /// activity off.
    pub open spec fn is_default(&self) -> bool {
        &&& self.elude_diagonal_steps == DEFAULT_ELUDE_DIAGONAL_STEPS
        &&& !self.want_to_save
        &&& self.save_steps == DEFAULT_SAVE_STEPS
        &&& self.path_to_save_file@ == "output/diagonal.txt"@
        &&& !self.want_log_doubling
        &&& !self.want_log_steps
        &&& self.logging_steps == DEFAULT_LOGGING_STEPS
        &&& !self.want_transit
        &&& self.transit_steps == DEFAULT_TRANSIT_STEPS
    }

    /// The default settings.
    pub fn new() -> (r: Self)
        ensures
            r.is_default(),
            r.valid(),
    {
        Self {
            elude_diagonal_steps: DEFAULT_ELUDE_DIAGONAL_STEPS,
            want_to_save: false,
            save_steps: DEFAULT_SAVE_STEPS,
            path_to_save_file: String::from_str("output/diagonal.txt"),
            want_log_doubling: false,
            want_log_steps: false,
            logging_steps: DEFAULT_LOGGING_STEPS,
            want_transit: false,
            transit_steps: DEFAULT_TRANSIT_STEPS,
        }
    }

    /// Turns saving and the two kinds of logging on or off as the switches
    /// say; the other settings are kept.
    pub fn set_options(&mut self, opts: Fast30Option)
        ensures
            final(self).want_to_save == (opts.spec_bits() & SAVE_DIAGONALS == SAVE_DIAGONALS),
            final(self).want_log_steps == (opts.spec_bits() & LOG_STEPS == LOG_STEPS),
            final(self).want_log_doubling == (opts.spec_bits() & LOG_DOUBLING == LOG_DOUBLING),
            final(self).elude_diagonal_steps == old(self).elude_diagonal_steps,
            final(self).save_steps == old(self).save_steps,
            final(self).path_to_save_file == old(self).path_to_save_file,
            final(self).logging_steps == old(self).logging_steps,
            final(self).want_transit == old(self).want_transit,
            final(self).transit_steps == old(self).transit_steps,
    {
        self.want_to_save = opts.contains(SAVE_DIAGONALS);
        self.want_log_steps = opts.contains(LOG_STEPS);
        self.want_log_doubling = opts.contains(LOG_DOUBLING);
    }
}

} // verus!
