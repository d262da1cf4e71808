use snn::errors::Type;
use snn::neuron::TAU;
use snn::word::{
    corrupt_bit, exceeds, fraction_word, negate, word_of_input, EXPONENT_UNIT, INFINITY,
    MAGNITUDE_MASK, ONE, SIGN_MASK,
};

fn sample_words() -> Vec<u64> {
    let numbers: [f64; 16] = [
        0.0,
        -0.0,
        1.0,
        -1.0,
        0.5,
        -0.5,
        2.0,
        1.0e-310,
        -1.0e-310,
        3.25e100,
        -3.25e100,
        f64::INFINITY,
        f64::NEG_INFINITY,
        f64::NAN,
        f64::MIN_POSITIVE,
        f64::MAX,
    ];
    let mut words: Vec<u64> = numbers.iter().map(|x| x.to_bits()).collect();
    words.push(0xFFF8_0000_0000_0001);
    words.push(0x7FF0_0000_0000_0001);
    words
}

#[test]
fn constants_are_the_words_of_their_numbers() {
    assert_eq!(ONE, 1.0f64.to_bits());
    assert_eq!(TAU, 0.1f64.to_bits());
    assert_eq!(INFINITY, f64::INFINITY.to_bits());
    assert_eq!(SIGN_MASK, (-0.0f64).to_bits());
    assert_eq!(MAGNITUDE_MASK, !SIGN_MASK);
    assert_eq!(EXPONENT_UNIT, 1u64 << 52);
}

#[test]
fn stuck_at_0_clears_the_bit() {
    assert_eq!(corrupt_bit(0b1111, 2, Type::Stuck0), 0b1011);
    assert_eq!(corrupt_bit(0b1011, 2, Type::Stuck0), 0b1011);
    assert_eq!(corrupt_bit(u64::MAX, 63, Type::Stuck0), u64::MAX >> 1);
    assert_eq!(corrupt_bit(ONE, 61, Type::Stuck0), 0x1FF0_0000_0000_0000);
}

#[test]
fn stuck_at_1_sets_the_bit() {
    assert_eq!(corrupt_bit(0, 0, Type::Stuck1), 1);
    assert_eq!(corrupt_bit(0b1000, 1, Type::Stuck1), 0b1010);
    assert_eq!(corrupt_bit(0b1010, 1, Type::Stuck1), 0b1010);
    assert_eq!(corrupt_bit(ONE, 63, Type::Stuck1), (-1.0f64).to_bits());
}

#[test]
fn bit_flip_inverts_the_bit() {
    assert_eq!(corrupt_bit(0b0101, 0, Type::BitFlip), 0b0100);
    assert_eq!(corrupt_bit(0b0101, 1, Type::BitFlip), 0b0111);
    assert_eq!(corrupt_bit(2.0f64.to_bits(), 63, Type::BitFlip), (-2.0f64).to_bits());
}

#[test]
fn no_error_and_bits_outside_the_word_change_nothing() {
    for w in sample_words() {
        for mode in [Type::NoError, Type::Stuck0, Type::Stuck1, Type::BitFlip] {
            assert_eq!(corrupt_bit(w, 64, mode), w);
            assert_eq!(corrupt_bit(w, 200, mode), w);
        }
        for bit in 0..64u8 {
            assert_eq!(corrupt_bit(w, bit, Type::NoError), w);
        }
    }
}

#[test]
fn a_fault_touches_only_its_own_bit() {
    for w in sample_words() {
        for bit in 0..64u8 {
            let mask = 1u64 << bit;
            for mode in [Type::Stuck0, Type::Stuck1, Type::BitFlip] {
                let r = corrupt_bit(w, bit, mode);
                assert_eq!(r & !mask, w & !mask);
            }
            assert_eq!(corrupt_bit(w, bit, Type::Stuck0) & mask, 0);
            assert_eq!(corrupt_bit(w, bit, Type::Stuck1) & mask, mask);
            assert_eq!(corrupt_bit(w, bit, Type::BitFlip) & mask, !w & mask);
        }
    }
}

#[test]
fn a_stuck_bit_struck_twice_is_as_struck_once() {
    for w in sample_words() {
        for bit in 0..64u8 {
            for mode in [Type::Stuck0, Type::Stuck1] {
                let once = corrupt_bit(w, bit, mode);
                assert_eq!(corrupt_bit(once, bit, mode), once);
            }
        }
    }
}

#[test]
fn a_bit_flipped_twice_is_restored() {
    for w in sample_words() {
        for bit in 0..64u8 {
            let once = corrupt_bit(w, bit, Type::BitFlip);
            assert_ne!(once, w);
            assert_eq!(corrupt_bit(once, bit, Type::BitFlip), w);
        }
    }
}

#[test]
fn negate_changes_the_sign_of_the_number() {
    for w in sample_words() {
        let x = f64::from_bits(w);
        assert_eq!(negate(w), (-x).to_bits());
        assert_eq!(negate(negate(w)), w);
    }
}

#[test]
fn exceeds_orders_words_as_numbers() {
    let words = sample_words();
    for &a in &words {
        for &b in &words {
            let expected = f64::from_bits(a) > f64::from_bits(b);
            assert_eq!(exceeds(a, b), expected, "{:#x} > {:#x}", a, b);
        }
    }
}

#[test]
fn exceeds_edge_cases() {
    let nan = f64::NAN.to_bits();
    assert!(!exceeds(nan, 0));
    assert!(!exceeds(0, nan));
    assert!(!exceeds(nan, nan));
    assert!(!exceeds(0, SIGN_MASK));
    assert!(!exceeds(SIGN_MASK, 0));
    assert!(!exceeds(ONE, ONE));
    assert!(exceeds(2.0f64.to_bits(), ONE));
    assert!(exceeds(INFINITY, f64::MAX.to_bits()));
    assert!(exceeds((-1.0f64).to_bits(), (-2.0f64).to_bits()));
    assert!(!exceeds((-2.0f64).to_bits(), (-1.0f64).to_bits()));
    assert!(exceeds(f64::MIN_POSITIVE.to_bits(), SIGN_MASK));
}

#[test]
fn word_of_input_encodes_every_byte() {
    for x in 0..=255u8 {
        assert_eq!(word_of_input(x), (x as f64).to_bits(), "{}", x);
    }
    assert_eq!(word_of_input(0), 0);
    assert_eq!(word_of_input(1), ONE);
    assert_eq!(word_of_input(2), 0x4000_0000_0000_0000);
    assert_eq!(word_of_input(3), 0x4008_0000_0000_0000);
    assert_eq!(word_of_input(255), 0x406F_E000_0000_0000);
}

#[test]
fn fraction_word_encodes_every_256th() {
    for d in 0..=255u8 {
        assert_eq!(fraction_word(d), (d as f64 / 256.0).to_bits(), "{}", d);
    }
    assert_eq!(fraction_word(0), 0);
    assert_eq!(fraction_word(128), 0.5f64.to_bits());
    assert_eq!(fraction_word(1), 0x3F70_0000_0000_0000);
}
