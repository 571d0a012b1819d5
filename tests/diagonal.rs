use cellular_automaton::fast_30::diagonal::Diagonal;

#[test]
fn diagonal_test_new_in_binary() {
    let diagonal = Diagonal::new(vec![0, 1, 0, 1], vec![1, 0, 0, 1]);
    let binary = Diagonal::new_from_binary("1001", "0101");

    assert_eq!(diagonal.pattern, binary.pattern);
    assert_eq!(diagonal.transit, binary.transit);

    let binary = Diagonal::new_from_binary("01010101", "10011001");

    assert_ne!(diagonal.pattern, binary.pattern);
    assert_ne!(diagonal.transit, binary.transit);
}

#[test]
fn diagonal_test_has_state_in_pattern() {
    let diagonal = Diagonal::new_from_binary("0000", "1100");
    assert!(diagonal.has_state_in_pattern(1));

    let diagonal = Diagonal::new_from_binary("0000", "0000");
    assert!(!diagonal.has_state_in_pattern(1));
}

#[test]
fn diagonal_test_count_state_in_pattern() {
    let diagonal = Diagonal::new_from_binary("0000", "1100");
    assert_eq!(diagonal.count_state_in_pattern(1), 2);

    let diagonal = Diagonal::new_from_binary("0000", "0000");
    assert_eq!(diagonal.count_state_in_pattern(1), 0);
}

/// The expected diagonal after compression: the trimmed transit, then one
/// copy of the turned pattern appended to it.
fn compressed_form(transit: &str, pattern: &str) -> Diagonal {
    let mut d = Diagonal::new_from_binary(transit, pattern);
    let copy = d.pattern.clone();
    d.transit.extend(copy);
    d
}

#[test]
fn diagonal_test_elude_transit() {
    let mut diagonal = Diagonal::new_from_binary("00101011001100", "1100");
    diagonal.elude_transit();
    let needed = compressed_form("00101", "0110");
    assert_eq!(diagonal, needed);

    let mut diagonal = Diagonal::new_from_binary("0000000000000000", "0000");
    diagonal.elude_transit();
    let needed = compressed_form("0", "0000");
    assert_eq!(diagonal, needed);

    let mut diagonal = Diagonal::new_from_binary("01101101101110101101010110011001100110", "0110");
    diagonal.elude_transit();
    let needed = compressed_form("0110110110111010110101", "0110");
    assert_eq!(diagonal, needed);
}

#[test]
fn diagonal_test_get_from_index_without_leading() {
    let diagonal = Diagonal::new_from_binary("0000101010101010", "11001100");
    assert_eq!(diagonal.get_from_index(1), 0);
    assert_eq!(diagonal.get_from_index(5), 1);
    assert_eq!(diagonal.get_from_index(10), 0);
    assert_eq!(diagonal.get_from_index(15), 1);
    assert_eq!(diagonal.get_from_index(20), 0);
    assert_eq!(diagonal.get_from_index(25), 1);
}

#[test]
fn diagonal_test_get_from_index_with_leading() {
    let mut diagonal = Diagonal::new_from_binary("101010101010", "11001100");
    diagonal.set_leading_zeros(4);
    assert_eq!(diagonal.get_from_index(1), 0);
    assert_eq!(diagonal.get_from_index(5), 1);
    assert_eq!(diagonal.get_from_index(10), 0);
    assert_eq!(diagonal.get_from_index(15), 1);
    assert_eq!(diagonal.get_from_index(20), 0);
    assert_eq!(diagonal.get_from_index(25), 1);
}

/// Every position from 1 to `n`.
fn values(d: &Diagonal, n: usize) -> Vec<u8> {
    (1..=n).map(|i| d.get_from_index(i)).collect()
}

#[test]
fn reading_follows_zeros_transit_then_pattern() {
    let mut d = Diagonal::new_from_binary("10", "011");
    d.set_leading_zeros(2);
    assert_eq!(values(&d, 10), vec![0, 0, 1, 0, 0, 1, 1, 0, 1, 1]);
}

#[test]
fn reading_with_empty_transit_cycles_pattern() {
    let d = Diagonal::new_from_binary("", "10");
    assert_eq!(values(&d, 5), vec![1, 0, 1, 0, 1]);
}

#[test]
fn get_last_ignores_leading_zeros() {
    let mut d = Diagonal::new_from_binary("110", "01");
    d.set_leading_zeros(5);
    assert_eq!(d.get_last(1), 1);
    assert_eq!(d.get_last(3), 0);
    assert_eq!(d.get_last(4), 0);
    assert_eq!(d.get_last(5), 1);
    assert_eq!(d.get_last(6), 0);
}

#[test]
fn compression_keeps_every_value() {
    let cases = [
        ("00101011001100", "1100", 0usize),
        ("0000000000000000", "0000", 3),
        ("01101101101110101101010110011001100110", "0110", 7),
        ("1", "10", 1),
        ("", "1", 0),
        ("111111", "1", 2),
        ("0101101", "011", 4),
    ];
    for (transit, pattern, zeros) in cases {
        let mut d = Diagonal::new_from_binary(transit, pattern);
        d.set_leading_zeros(zeros);
        let before = values(&d, 120);
        d.elude_transit();
        assert_eq!(values(&d, 120), before);
        assert_eq!(d.leading_zeros(), zeros);
    }
}

#[test]
fn compression_with_short_pattern_only_appends() {
    let mut d = Diagonal::new_from_binary("0000", "0");
    d.elude_transit();
    assert_eq!(d, Diagonal::new_from_binary("00000", "0"));

    let mut d = Diagonal::new_from_binary("1", "0110");
    d.elude_transit();
    assert_eq!(d, Diagonal::new_from_binary("10110", "0110"));
}

#[test]
fn diagonal_text_lists_transit_and_pattern() {
    let d = Diagonal::new_from_binary("101", "01");
    assert_eq!(d.to_string(), "\tTransit: 101\n\tPattern: 01\n");
}

#[test]
fn diagonal_edits() {
    let mut d = Diagonal::new(vec![1], vec![0]);
    d.push_transit(1);
    d.push_pattern(0);
    assert_eq!(d.transit, vec![0, 1]);
    assert_eq!(d.pattern, vec![1, 0]);
    let copy = d.clone();
    assert_eq!(copy, d);
    let mut other = Diagonal::new(vec![], vec![]);
    other.set(copy);
    assert_eq!(other, d);
    d.set_leading_zeros(3);
    d.clear();
    assert!(d.transit.is_empty());
    assert!(d.pattern.is_empty());
    assert_eq!(d.leading_zeros(), 0);
}

// The same checks, as first written against the evaluator's diagonal.

#[test]
fn test_new_in_binary() {
    diagonal_test_new_in_binary();
}

#[test]
fn test_has_state_in_pattern() {
    diagonal_test_has_state_in_pattern();
}

#[test]
fn test_count_state_in_pattern() {
    diagonal_test_count_state_in_pattern();
}

#[test]
fn test_elude_transit() {
    diagonal_test_elude_transit();
}

#[test]
fn test_get_from_index_without_leading() {
    diagonal_test_get_from_index_without_leading();
}

#[test]
fn test_get_from_index_with_leading() {
    diagonal_test_get_from_index_with_leading();
}
