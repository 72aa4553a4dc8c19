use zenith::bits::bit_error_count;
use zenith::modem::{Bpsk, Qpsk};
use zenith::rng::Rng;

#[test]
fn bit_error_count_counts_mismatches() {
    let a = [true, false, true, true];
    let b = [true, true, true, false];
    assert_eq!(bit_error_count(&a, &b), (2, 4));
    assert_eq!(bit_error_count(&a, &a), (0, 4));
}

#[test]
fn bit_error_count_compares_the_shorter_length() {
    assert_eq!(bit_error_count(&[true, true, true], &[false]), (1, 1));
    assert_eq!(bit_error_count(&[], &[true, false]), (0, 0));
}

#[test]
fn qpsk_groups_bits_in_pairs_with_padding() {
    let pairs = Qpsk.symbol_bits(&[true, false, true]);
    assert_eq!(pairs, vec![(true, false), (true, false)]);
    assert_eq!(Qpsk.decision_bits(&pairs), vec![true, false, true, false]);
    assert_eq!(Qpsk.bits_per_symbol(), 2);
    assert_eq!(Bpsk.bits_per_symbol(), 1);
}

#[test]
fn rng_first_outputs_follow_xorshift_star() {
    let mut rng = Rng::new(1);
    // state 1 -> x ^= x << 13 -> 0x2001; x ^= x >> 7 -> 0x2041; x ^= x << 17 -> 0x4082_2041.
    let expected_state: u64 = 0x4082_2041;
    assert_eq!(rng.next_u64(), expected_state.wrapping_mul(0x2545F4914F6CDD1D));
}

#[test]
fn rng_same_seed_is_reproducible_and_zero_seed_is_remapped() {
    let mut a = Rng::new(7);
    let mut b = Rng::new(7);
    for _ in 0..100 {
        assert_eq!(a.next_u64(), b.next_u64());
    }
    let mut z = Rng::new(0);
    let mut r = Rng::new(0x9E3779B97F4A7C15);
    assert_eq!(z.next_u64(), r.next_u64());
    let mut c = a.clone();
    assert_eq!(a.next_u64(), c.next_u64());
}
