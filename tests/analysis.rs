use cellular_automaton::automaton::Automaton;
use cellular_automaton::automaton_analysis::{identite, over_two, zero, AutomatonAnalysis, DIAGONAL};
use cellular_automaton::cell::Cell;
use cellular_automaton::row::Row;
use cellular_automaton::rules::WolframRule;
use cellular_automaton::utils::is_periodic;

fn cells(bits: &[u8]) -> Vec<Cell> {
    bits.iter().map(|&b| Cell::new(b)).collect()
}

fn states(cells: &[Cell]) -> Vec<u8> {
    cells.iter().map(|c| c.state()).collect()
}

#[test]
fn periodicity_of_cells() {
    let d = cells(&[0, 1, 0, 1, 0]);
    assert!(is_periodic(&d, 2));
    assert!(!is_periodic(&d, 1));
    assert!(is_periodic(&d, 0));
    assert!(is_periodic(&d, 9));
    assert!(is_periodic(&cells(&[]), 1));
}

#[test]
fn offsets() {
    assert_eq!(over_two(150), 75);
    assert_eq!(over_two(100), 100);
    assert_eq!(identite(7), 7);
    assert_eq!(zero(7), 0);
}

fn diagram() -> Automaton<WolframRule> {
    let mut first = vec![Cell::new(0); 11];
    first[5] = Cell::new(1);
    let mut automaton = Automaton::new(Row::new(first), WolframRule::new(30));
    automaton.evolve(5);
    automaton
}

#[test]
fn left_patterns_of_a_small_diagram() {
    let automaton = diagram();
    let mut analysis = AutomatonAnalysis::new(&automaton);
    analysis.extract_diagonals(DIAGONAL::LEFT);
    let patterns = analysis.extract_patterns(DIAGONAL::LEFT, zero);
    assert_eq!(patterns.len(), 2);
    assert_eq!(states(&patterns[0].0), vec![1]);
    assert_eq!((patterns[0].1, patterns[0].2), (1, 0));
    assert_eq!(states(&patterns[1].0), vec![0]);
    assert_eq!((patterns[1].1, patterns[1].2), (1, 0));
}

#[test]
fn patterns_from_shifted_offsets() {
    let automaton = diagram();
    let mut analysis = AutomatonAnalysis::new(&automaton);
    analysis.extract_diagonals(DIAGONAL::LEFT);
    let patterns = analysis.extract_patterns(DIAGONAL::LEFT, identite);
    // The first diagonal, all ones, from offset 0; the second, all zeros,
    // from offset 1; the third is too short from offset 2.
    assert_eq!(patterns.len(), 2);
    assert_eq!(states(&patterns[1].0), vec![0]);
    assert_eq!(patterns[1].2, 1);
}

#[test]
fn right_patterns_without_diagonals() {
    let automaton = diagram();
    let mut analysis = AutomatonAnalysis::new(&automaton);
    analysis.extract_diagonals(DIAGONAL::LEFT);
    assert!(analysis.extract_patterns(DIAGONAL::RIGHT, zero).is_empty());
}

#[test]
fn rightmost_runs_of_ones() {
    let mut first = vec![Cell::new(0); 7];
    first[3] = Cell::new(1);
    let mut automaton = Automaton::new(Row::new(first), WolframRule::new(30));
    automaton.evolve(6);
    let analysis = AutomatonAnalysis::new(&automaton);
    let runs = analysis.rightmost_same_state(Cell::new(1));
    let found: Vec<(u16, u16)> = runs.into_iter().collect();
    assert_eq!(found, vec![(1, 0), (3, 1), (4, 3)]);
}
