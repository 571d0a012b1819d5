use cellular_automaton::automaton::Automaton;
use cellular_automaton::cell::Cell;
use cellular_automaton::row::Row;
use cellular_automaton::rules::{Rule, Rule30, WolframRule};

fn row_of(bits: &str) -> Row {
    Row::new(bits.chars().map(|c| Cell::new(if c == '1' { 1 } else { 0 })).collect())
}

#[test]
fn cell_operations() {
    let one = Cell::new(1);
    let zero = Cell::new(0);
    assert_eq!((!one).state(), 0);
    assert_eq!((!zero).state(), 1);
    assert_eq!((!Cell::new(7)).state(), 0);
    assert_eq!((one | zero).state(), 1);
    assert_eq!((one ^ one).state(), 0);
    assert_eq!((Cell::new(6) & Cell::new(3)).state(), 2);
    assert_eq!(Cell::new(12).to_string(), "12");
    assert_eq!(zero.display(), '.');
    assert_eq!(one.display(), '#');
    assert_eq!(Cell::new(2).display(), '?');
    let mut c = Cell::new(0);
    c.set_state(5);
    assert_eq!(c.state(), 5);
    assert_eq!(c, Cell::new(5));
}

#[test]
fn rules_agree_on_rule_30() {
    let wolfram = WolframRule::new(30);
    for l in 0..2u8 {
        for c in 0..2u8 {
            for r in 0..2u8 {
                assert_eq!(Rule30.apply(l, c, r), l ^ (c | r));
                assert_eq!(wolfram.apply(l, c, r), l ^ (c | r));
            }
        }
    }
    assert_eq!(wolfram.states(), 30);
    assert_eq!(Rule30.states(), 30);
    let rule90 = WolframRule::new(90);
    assert_eq!(rule90.apply(1, 0, 1), 0);
    assert_eq!(rule90.apply(1, 1, 0), 1);
    assert_eq!(rule90.states(), 90);
}

#[test]
fn row_next_and_text() {
    let row = row_of("00100");
    assert_eq!(row.len(), 5);
    assert_eq!(row.get(2).unwrap().state(), 1);
    assert!(row.get(5).is_none());
    let next = row.next(&WolframRule::new(30));
    assert_eq!(next.to_string(), ".###.");
    let again = next.next(&Rule30);
    assert_eq!(again.to_string(), "##..#");
    assert_eq!(row.clone().to_string(), "..#..");
}

#[test]
fn row_edges_use_first_cell() {
    let row = row_of("10000");
    // First cell: its own left neighbour; last cell: the first as right neighbour.
    let next = row.next(&Rule30);
    assert_eq!(next.to_string(), ".#..#");
}

#[test]
fn automaton_grows_row_by_row() {
    let mut automaton = Automaton::new(row_of("0000100000"), WolframRule::new(30));
    assert_eq!(automaton.iteration(), 1);
    assert_eq!(automaton.col(), 10);
    automaton.evolve(3);
    assert_eq!(automaton.iteration(), 4);
    assert_eq!(automaton.grid().len(), 4);
    assert_eq!(automaton.max_iteration(), 10);
    assert_eq!(
        automaton.to_string(),
        "....#.....\n...###....\n..##..#...\n.##.####..\n"
    );
    automaton.next();
    assert_eq!(automaton.grid()[4].to_string(), "##..#...#.");
    automaton.evolve(10);
    assert_eq!(automaton.max_iteration(), 15);
}
