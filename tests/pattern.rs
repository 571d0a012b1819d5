use cellular_automaton::cell::Cell;
use cellular_automaton::pattern::Pattern;

#[test]
fn pattern_from_binary_and_queries() {
    let pattern = Pattern::new_from_binary("0111", "0010");
    assert_eq!(pattern.to_string_left(), "0111");
    assert_eq!(pattern.to_string_center(), "0010");
    assert_eq!(pattern.len(), 4);
    assert_eq!(pattern.count_state_in_left(1), 3);
    assert_eq!(pattern.count_state_in_left(0), 1);
    assert!(pattern.contains(&Cell::new(1)));
    assert!(!pattern.contains(&Cell::new(2)));
    let center: Vec<u8> = pattern.get_center().iter().map(|c| c.state()).collect();
    assert_eq!(center, vec![0, 0, 1, 0]);
    let same = Pattern::new(
        vec![Cell::new(0), Cell::new(1), Cell::new(1), Cell::new(1)],
        vec![Cell::new(0), Cell::new(0), Cell::new(1), Cell::new(0)],
    );
    assert_eq!(same.clone().to_string_left(), pattern.to_string_left());
}

#[test]
fn next_with_odd_count_doubles() {
    let pattern = Pattern::new_from_binary("0111", "0000");
    let next = pattern.next(None);
    assert_eq!(next.to_string_center(), "11010010");
    assert_eq!(next.to_string_left(), "00000000");
    assert_eq!(next.len(), 8);
}

#[test]
fn next_with_even_count_uses_default() {
    let pattern = Pattern::new_from_binary("11", "000");
    let next = pattern.next(Some(&Cell::new(0)));
    assert_eq!(next.to_string_center(), "010");
    assert_eq!(next.to_string_left(), "000");
    let next = pattern.next(Some(&Cell::new(1)));
    assert_eq!(next.to_string_center(), "101");
}

#[test]
fn next_with_a_one_turns_around_the_centre() {
    let pattern = Pattern::new_from_binary("10", "0100");
    let next = pattern.next(None);
    assert_eq!(next.to_string_center(), "1100");
    assert_eq!(next.to_string_left(), "0100");
}
