use std::collections::HashSet;

use glyph_codec::collect::{add_unseen, goes_before, sort_symbols};
use glyph_codec::glyph::Glyph;

#[test]
fn add_unseen_keeps_the_first_symbol_of_every_code() {
    let mut unique: HashSet<i128> = HashSet::new();
    let mut all = Vec::new();
    add_unseen(
        &mut unique,
        &mut all,
        &vec![(5, Glyph::Command(5)), (7, Glyph::Variable(1)), (5, Glyph::Variable(9))],
    );
    assert_eq!(all, vec![(5, Glyph::Command(5)), (7, Glyph::Variable(1))]);
    add_unseen(&mut unique, &mut all, &vec![(7, Glyph::Command(7)), (-5, Glyph::Command(-5))]);
    assert_eq!(
        all,
        vec![(5, Glyph::Command(5)), (7, Glyph::Variable(1)), (-5, Glyph::Command(-5))]
    );
    let mut codes: Vec<i128> = unique.into_iter().collect();
    codes.sort();
    assert_eq!(codes, vec![-5, 5, 7]);
}

#[test]
fn add_unseen_trusts_the_set_of_codes() {
    let mut unique: HashSet<i128> = HashSet::new();
    unique.insert(3);
    let mut all = vec![(8, Glyph::Command(8))];
    add_unseen(&mut unique, &mut all, &vec![(3, Glyph::Command(3)), (8, Glyph::Command(8))]);
    assert_eq!(all, vec![(8, Glyph::Command(8)), (8, Glyph::Command(8))]);
}

#[test]
fn variables_go_by_index_and_other_pairs_by_code() {
    assert!(goes_before(&(9, Glyph::Variable(1)), &(2, Glyph::Variable(3))));
    assert!(!goes_before(&(2, Glyph::Variable(3)), &(9, Glyph::Variable(1))));
    assert!(!goes_before(&(2, Glyph::Variable(3)), &(9, Glyph::Variable(3))));
    assert!(goes_before(&(2, Glyph::Variable(3)), &(9, Glyph::Command(1))));
    assert!(goes_before(&(2, Glyph::Command(30)), &(9, Glyph::Variable(1))));
    assert!(goes_before(&(-2, Glyph::Command(-2)), &(0, Glyph::Command(0))));
    assert!(!goes_before(&(4, Glyph::Command(4)), &(4, Glyph::Integer(4))));
}

#[test]
fn sort_symbols_orders_commands_by_code() {
    let symbols = vec![
        (417, Glyph::Command(417)),
        (0, Glyph::Command(0)),
        (-3, Glyph::Command(-3)),
        (12, Glyph::Command(12)),
    ];
    assert_eq!(
        sort_symbols(&symbols),
        vec![
            (-3, Glyph::Command(-3)),
            (0, Glyph::Command(0)),
            (12, Glyph::Command(12)),
            (417, Glyph::Command(417)),
        ]
    );
    assert_eq!(sort_symbols(&vec![]), vec![]);
}

#[test]
fn sort_symbols_orders_variables_by_index() {
    let symbols = vec![(1, Glyph::Variable(5)), (2, Glyph::Variable(-1)), (3, Glyph::Variable(2))];
    assert_eq!(
        sort_symbols(&symbols),
        vec![(2, Glyph::Variable(-1)), (3, Glyph::Variable(2)), (1, Glyph::Variable(5))]
    );
}

#[test]
fn sort_symbols_keeps_the_order_of_equals() {
    let symbols = vec![
        (4, Glyph::Command(4)),
        (1, Glyph::Integer(10)),
        (4, Glyph::Integer(4)),
        (1, Glyph::Command(1)),
    ];
    assert_eq!(
        sort_symbols(&symbols),
        vec![
            (1, Glyph::Integer(10)),
            (1, Glyph::Command(1)),
            (4, Glyph::Command(4)),
            (4, Glyph::Integer(4)),
        ]
    );
}

#[test]
fn sort_symbols_agrees_with_a_stable_sort_of_commands() {
    let mut state: u64 = 12345;
    for _ in 0..50 {
        let mut symbols = Vec::new();
        for i in 0..20 {
            state = state.wrapping_mul(6364136223846793005).wrapping_add(1442695040888963407);
            let code = ((state >> 33) % 7) as i128 - 3;
            symbols.push((code, Glyph::Command(i)));
        }
        let mut expected = symbols.clone();
        expected.sort_by_key(|t| t.0);
        assert_eq!(sort_symbols(&symbols), expected);
    }
}
