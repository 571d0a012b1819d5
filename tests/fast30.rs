use cellular_automaton::automaton::Automaton;
use cellular_automaton::cell::Cell;
use cellular_automaton::fast_30::diagonal::Diagonal;
use cellular_automaton::fast_30::fast30::{transit_deltas, Fast30};
use cellular_automaton::fast_30::flags_options::{Fast30Option, LOG_DOUBLING, LOG_STEPS, SAVE_DIAGONALS};
use cellular_automaton::row::Row;
use cellular_automaton::rules::WolframRule;

/// The naive diagram of rule 30 from a single 1, `rows` rows deep.
struct Naive {
    automaton: Automaton<WolframRule>,
    center: usize,
}

impl Naive {
    fn new(rows: usize) -> Naive {
        let width = 2 * rows + 3;
        let center = rows + 1;
        let mut cells = vec![Cell::new(0); width];
        cells[center] = Cell::new(1);
        let mut automaton = Automaton::new(Row::new(cells), WolframRule::new(30));
        automaton.evolve((rows - 1) as u64);
        Naive { automaton, center }
    }

    /// The state at row `t`, `offset` columns right of the centre.
    fn cell(&self, t: usize, offset: i64) -> u8 {
        let column = (self.center as i64 + offset) as usize;
        self.automaton.grid()[t].get(column).unwrap().state()
    }

    fn rows(&self) -> usize {
        self.automaton.iteration()
    }
}

/// Left diagonal `m` of the naive diagram read at position `i`: the cell of
/// row `i` on the line where row plus column offset is `m`.
fn naive_diagonal(naive: &Naive, m: usize, i: usize) -> u8 {
    naive.cell(i, m as i64 - i as i64)
}

/// Compares the last diagonal with the naive one from the centre column
/// leftwards: position `i` is row `i`, and the centre column is reached at
/// row `m` on diagonal `m`.
fn assert_matches_naive(fast: &Fast30, naive: &Naive) {
    let m = fast.iteration() - 1;
    let last = fast.last_diagonal();
    for i in m.max(1)..naive.rows() {
        assert_eq!(
            last.get_from_index(i),
            naive_diagonal(naive, m, i),
            "diagonal {} position {}",
            m,
            i
        );
    }
}

#[test]
fn first_step_gives_third_diagonal() {
    let mut fast = Fast30::new();
    fast.evolve(1);
    let last = fast.last_diagonal();
    assert_eq!(fast.iteration(), 3);
    assert_eq!(last.leading_zeros(), 2);
    assert_eq!(last.transit, vec![0]);
    assert_eq!(last.pattern, vec![0]);
    let naive = Naive::new(12);
    assert_matches_naive(&fast, &naive);
    assert_eq!(fast.penult_diagonal(), &Diagonal::new(vec![1], vec![]));
}

#[test]
fn second_step_doubles_the_period() {
    let mut fast = Fast30::new();
    fast.evolve(2);
    assert_eq!(fast.current_period(), 2);
    let last = fast.last_diagonal();
    assert_eq!(last.leading_zeros(), 2);
    assert_eq!(last.transit, vec![1, 0, 1, 0]);
    assert_eq!(last.pattern, vec![1, 0]);
}

#[test]
fn fast_matches_naive_on_the_first_diagonals() {
    let naive = Naive::new(300);
    let mut fast = Fast30::new();
    for _ in 0..6 {
        fast.evolve(1);
        assert_matches_naive(&fast, &naive);
    }
}

#[test]
fn leading_zeros_are_half_the_next_iteration_rounded_up() {
    let naive = Naive::new(120);
    let mut fast = Fast30::new();
    for _ in 0..100 {
        let before = fast.iteration();
        fast.evolve(1);
        let last = fast.last_diagonal();
        assert_eq!(last.leading_zeros(), (before + 2) / 2);
        for i in 1..=last.leading_zeros() {
            assert_eq!(last.get_from_index(i), 0);
        }
    }
    let mut fast = Fast30::new();
    for _ in 0..6 {
        fast.evolve(1);
        assert_matches_naive(&fast, &naive);
    }
}

#[test]
fn fast_matches_naive_with_compression_every_step() {
    let naive = Naive::new(200);
    let mut fast = Fast30::new();
    fast.set_steps_elude(1);
    for _ in 0..6 {
        fast.evolve(1);
        assert_matches_naive(&fast, &naive);
    }
}

fn same_state(a: &Fast30, b: &Fast30) {
    assert_eq!(a.iteration(), b.iteration());
    assert_eq!(a.current_period(), b.current_period());
    assert_eq!(a.last_diagonal(), b.last_diagonal());
    assert_eq!(a.penult_diagonal(), b.penult_diagonal());
}

#[test]
fn evolve_in_two_parts_equals_one_call() {
    for (a, b) in [(0usize, 0usize), (0, 7), (7, 0), (3, 4), (13, 29), (50, 77)] {
        let mut split = Fast30::new();
        split.evolve(a);
        split.evolve(b);
        let mut whole = Fast30::new();
        whole.evolve(a + b);
        same_state(&split, &whole);
    }
}

#[test]
fn period_only_doubles() {
    let mut fast = Fast30::new();
    let mut period = fast.current_period();
    assert_eq!(period, 1);
    for _ in 0..400 {
        fast.evolve(1);
        let now = fast.current_period();
        assert!(now == period || now == 2 * period);
        period = now;
    }
    assert!(period > 1);
}

#[test]
fn advance_reports_due_activities() {
    let mut fast = Fast30::new();
    fast.set_steps_elude(4).set_transit_steps(2);
    fast.set_options(Fast30Option::from_bits_retain(LOG_STEPS | SAVE_DIAGONALS));
    assert!(fast.options().want_log_steps);
    assert!(fast.options().want_to_save);
    assert!(!fast.options().want_log_doubling);
    assert_eq!(fast.options().elude_diagonal_steps, 4);
    assert_eq!(fast.options().transit_steps, 2);

    assert!(fast.can_advance());
    let first = fast.advance();
    assert!(!first.doubled);
    assert!(!first.transit_due);
    assert!(!first.save_due);
    assert!(!first.log_due);
    assert_eq!(
        first.transit_excess,
        fast.last_diagonal().transit.len() - fast.current_period()
    );

    let second = fast.advance();
    assert!(second.doubled);
    assert!(second.transit_due);
    assert_eq!(fast.iteration(), 4);
    assert_eq!(second.transit_excess, 1);
    assert_eq!(fast.last_diagonal().transit, vec![1, 0, 1]);
    assert_eq!(fast.last_diagonal().pattern, vec![0, 1]);
}

#[test]
fn default_options_and_switches() {
    let mut fast = Fast30::new();
    let options = fast.options();
    assert_eq!(options.elude_diagonal_steps, 10);
    assert_eq!(options.save_steps, 100_000);
    assert_eq!(options.logging_steps, 1_000_000);
    assert_eq!(options.transit_steps, 1_000);
    assert_eq!(options.path_to_save_file, "output/diagonal.txt");
    assert!(!options.want_to_save && !options.want_log_steps && !options.want_log_doubling);

    fast.set_options(Fast30Option::from_bits_retain(LOG_DOUBLING));
    assert!(fast.options().want_log_doubling);
    assert!(!fast.options().want_log_steps);
    let flags = Fast30Option::from_bits_retain(SAVE_DIAGONALS | LOG_DOUBLING);
    assert!(flags.contains(SAVE_DIAGONALS));
    assert!(!flags.contains(LOG_STEPS));
    assert_eq!(flags.bits(), 3);
}

#[test]
fn eluding_keeps_the_diagonals() {
    let mut fast = Fast30::new();
    fast.set_steps_elude(1000);
    fast.evolve(60);
    let last = fast.last_diagonal().clone();
    let penult = fast.penult_diagonal().clone();
    fast.elude_diagonals();
    for i in 1..400 {
        assert_eq!(fast.last_diagonal().get_from_index(i), last.get_from_index(i));
        assert_eq!(fast.penult_diagonal().get_from_index(i), penult.get_from_index(i));
    }
    assert!(fast.last_diagonal().transit.len() >= fast.last_diagonal().pattern.len());
}

#[test]
fn fast_text_at_start() {
    let fast = Fast30::new();
    assert_eq!(
        fast.to_string(),
        "Last Diagonal:\n\tTransit: \n\tPattern: 1\nNumber of leading zeros: 0\n\
         Penultimate Diagonal:\n\tTransit: \n\tPattern: 1\nNumber of leading zeros: 0"
    );
}

#[test]
fn transit_deltas_of_a_record() {
    assert_eq!(transit_deltas(&vec![3, 5, 4], 10, 7), vec![7, 2, -1]);
    assert_eq!(transit_deltas(&vec![3, 5], 0, 7), vec![0, 2]);
    assert!(transit_deltas(&vec![], 4, 1).is_empty());
}
