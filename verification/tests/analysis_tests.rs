use spn::analysis::{analyze_s, check_key, get, search_key, statistics};
use spn::SPN;

#[test]
fn bias_table_shape_and_range() {
    let table = analyze_s(SPN::sbox_table());
    assert_eq!(table.len(), 7);
    for row in table.iter() {
        assert_eq!(row.len(), 7);
        for &entry in row.iter() {
            assert!(entry <= 8);
        }
    }
}

#[test]
fn bias_table_is_deterministic() {
    let first = analyze_s(SPN::sbox_table());
    let second = analyze_s(SPN::sbox_table());
    assert_eq!(first, second);
}

#[test]
fn bias_table_known_entry() {
    // Masks i = 1, j = 1 over [4, 0, 7, 3, 5, 1, 2, 6]: the low bit of the
    // index matches the low bit of the entry for indices 0, 3, 5 and 6.
    let table = analyze_s(SPN::sbox_table());
    assert_eq!(table[0][0], 4);
}

#[test]
fn get_extracts_bits_from_the_most_significant_end() {
    assert_eq!(get(0b100000000, 1), 1);
    assert_eq!(get(0b100000000, 9), 0);
    assert_eq!(get(0b000000001, 9), 1);
    assert_eq!(get(0b000000001, 1), 0);
    assert_eq!(get(0b010000000, 2), 1);
}

#[test]
fn statistics_returns_valid_pairs_and_counts() {
    let (ciphers, stats) = statistics();
    assert_eq!(ciphers.len(), 100);
    assert_eq!(stats.len(), 9);
    let spn = SPN::new(3);
    let key: u16 = 0b011000101;
    for &(x, y) in ciphers.iter() {
        assert!(x < 512);
        assert_eq!(spn.encode(x, key), y);
        assert_eq!(spn.decode(y, key), x);
    }
    for &stat in stats.iter() {
        assert!(stat <= 100);
    }
}

#[test]
fn check_key_accepts_the_right_key_and_rejects_a_wrong_one() {
    let spn = SPN::new(3);
    let key: u16 = 0b011000101;
    let pairs = vec![
        (0b010000001, spn.encode(0b010000001, key)),
        (0b111111111, spn.encode(0b111111111, key)),
    ];
    assert!(check_key(&pairs, key));
    assert!(!check_key(&pairs, 0b010000000));
}

#[test]
fn key_recovery_finds_the_known_key() {
    let spn = SPN::new(3);
    let key: u16 = 0b011000101;
    let plaintext: u16 = 0b010000001;
    let cipher = spn.encode(plaintext, key);
    assert_eq!(
        search_key(vec![0b010000000, 0b011000101], &vec![(plaintext, cipher)]),
        Some(key)
    );

    let pairs = vec![
        (0b010000001, spn.encode(0b010000001, key)),
        (0b100110011, spn.encode(0b100110011, key)),
    ];
    assert_eq!(
        search_key(vec![key, 0b000000111, 0b110001100], &pairs),
        Some(key)
    );
}

#[test]
fn key_recovery_signals_not_found() {
    let spn = SPN::new(3);
    let key: u16 = 0b011000101;
    let pairs = vec![
        (0b010000001, spn.encode(0b010000001, key)),
        (0b100110011, spn.encode(0b100110011, key)),
        (0b000011110, spn.encode(0b000011110, key)),
    ];
    assert_eq!(search_key(vec![0b010000000, 0b000000111], &pairs), None);
    assert_eq!(search_key(vec![], &pairs), None);
}
