use rand::{thread_rng, Rng};
use spn::SPN;

#[test]
fn test_s_0() {
    assert_eq!(SPN::s_i(0, 0b001, false), 0b000);
    assert_eq!(SPN::s_i(0, 0b011, false), 0b011);
    assert_eq!(SPN::s_i(0, 0b101, false), 0b001);
    assert_eq!(SPN::s_i(0, 0b111, false), 0b110);

    assert_eq!(SPN::s_i(0, 0b100, true), 0b000);
    assert_eq!(SPN::s_i(0, 0b111, true), 0b010);
    assert_eq!(SPN::s_i(0, 0b101, true), 0b100);
    assert_eq!(SPN::s_i(0, 0b010, true), 0b110);
}

#[test]
fn test_s_full() {
    assert_eq!(SPN::s(0b110000011, false), 0b010100011);
    assert_eq!(SPN::s(0b010001001, true), 0b110101101);
    assert_eq!(SPN::s(SPN::s(0b110101010, false), true), 0b110101010);

    for _ in 0..100 {
        let x: u16 = thread_rng().gen_range(0..=0x1ff);
        assert_eq!(SPN::s(SPN::s(x, false), true), x);
        assert_eq!(SPN::s(SPN::s(x, true), false), x);
    }
}

#[test]
fn test_p() {
    assert_eq!(SPN::p(0b100010110), 0b101011000);
    assert_eq!(SPN::p(0b101011000), 0b100010110);
    assert_eq!(SPN::p(SPN::p(0b100010110)), 0b100010110);

    for _ in 0..100 {
        let x: u16 = thread_rng().gen_range(0..=0x1ff);
        assert_eq!(SPN::p(SPN::p(x)), x);
    }
}

#[test]
fn test_spn() {
    for _ in 0..100 {
        let spn = SPN::new(3);
        let x: u16 = thread_rng().gen_range(0..=0x1ff);
        let key: u16 = thread_rng().gen_range(0..=0x1ff);
        let y = spn.encode(x, key);
        assert_eq!(spn.decode(y, key), x)
    }
}

#[test]
fn round_trip_all_blocks_all_round_counts() {
    let keys: [u16; 4] = [0, 0b011000101, 0b101010101, 0x1ff];
    for rounds in 1..=4usize {
        let spn = SPN::new(rounds);
        for &key in keys.iter() {
            for x in 0..512u16 {
                let y = spn.encode(x, key);
                assert!(y < 512);
                assert_eq!(spn.decode(y, key), x);
            }
        }
    }
}

#[test]
fn sbox_tables_are_mutual_inverses() {
    // Nibble 0 substitution forward then inverse walks
    // inverse_table[forward_table[v]] for each 3-bit value v.
    for v in 0..8u16 {
        assert_eq!(SPN::s_i(0, SPN::s_i(0, v, false), true), v);
        assert_eq!(SPN::s_i(0, SPN::s_i(0, v, true), false), v);
    }
    assert_eq!(SPN::sbox_table(), [4, 0, 7, 3, 5, 1, 2, 6]);
}

#[test]
fn substitution_is_a_bijection_on_all_blocks() {
    for b in 0..512u16 {
        assert_eq!(SPN::s(SPN::s(b, false), true), b);
        assert_eq!(SPN::s(SPN::s(b, true), false), b);
    }
}

#[test]
fn permutation_is_an_involution_on_all_blocks() {
    for b in 0..512u16 {
        assert_eq!(SPN::p(SPN::p(b)), b);
    }
}

#[test]
fn single_nibble_substitutions_compose_to_full_layer() {
    for b in 0..512u16 {
        let step = SPN::s_i(2, SPN::s_i(1, SPN::s_i(0, b, false), false), false);
        assert_eq!(step, SPN::s(b, false));
    }
}

#[test]
fn encode_stays_in_nine_bits() {
    let spn = SPN::new(3);
    for x in 0..512u16 {
        assert!(spn.encode(x, 0x1ff) < 512);
    }
}
