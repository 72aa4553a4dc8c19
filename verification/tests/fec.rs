use zenith::bits::pad_to_multiple;
use zenith::fec::{Decoder, Encoder, Hamming74};

#[test]
fn round_trip_no_errors() {
    let bits = [true, false, true, true, false, false, true, false];
    let code = Hamming74;
    let encoded = code.encode(&bits);
    assert_eq!(encoded.len(), 14);
    let decoded = code.decode(&encoded);
    assert_eq!(decoded, bits);
}

#[test]
fn corrects_any_single_bit_error_per_codeword() {
    let bits = [true, false, true, true];
    let code = Hamming74;
    let encoded = code.encode(&bits);
    for flip in 0..7 {
        let mut corrupted = encoded.clone();
        corrupted[flip] = !corrupted[flip];
        let decoded = code.decode(&corrupted);
        assert_eq!(decoded, bits, "failed to correct error at bit {flip}");
    }
}

#[test]
fn pads_data_not_a_multiple_of_four() {
    let bits = [true, false, true]; // 3 bits -> padded to 4
    let code = Hamming74;
    let encoded = code.encode(&bits);
    assert_eq!(encoded.len(), 7);
    let decoded = code.decode(&encoded);
    assert_eq!(&decoded[..3], &bits);
}

#[test]
fn codeword_layout_is_p1_p2_d1_p3_d2_d3_d4() {
    // d = 1011: p1 = 1^0^1 = 0, p2 = 1^1^1 = 1, p3 = 0^1^1 = 0.
    let encoded = Hamming74.encode(&[true, false, true, true]);
    assert_eq!(encoded, vec![false, true, true, false, false, true, true]);
    // All-zero data encodes to the all-zero codeword.
    assert_eq!(Hamming74.encode(&[false; 4]), vec![false; 7]);
}

#[test]
fn corrects_one_error_in_every_codeword_of_a_long_stream() {
    let bits: Vec<bool> = (0..40).map(|i| (i * 7 + 3) % 5 < 2).collect();
    let encoded = Hamming74.encode(&bits);
    assert_eq!(encoded.len(), 70);
    let mut corrupted = encoded.clone();
    for word in 0..10 {
        let pos = word * 7 + (word % 7);
        corrupted[pos] = !corrupted[pos];
    }
    assert_eq!(Hamming74.decode(&corrupted), bits);
}

#[test]
fn two_errors_in_one_codeword_are_not_corrected() {
    let bits = [true, false, true, true];
    let mut corrupted = Hamming74.encode(&bits);
    corrupted[0] = !corrupted[0];
    corrupted[1] = !corrupted[1];
    assert_ne!(Hamming74.decode(&corrupted), bits.to_vec());
}

#[test]
fn trailing_partial_word_is_ignored_and_empty_input_is_empty() {
    let mut encoded = Hamming74.encode(&[true, true, false, false]);
    encoded.extend_from_slice(&[true, false, true]);
    assert_eq!(Hamming74.decode(&encoded), vec![true, true, false, false]);
    assert!(Hamming74.encode(&[]).is_empty());
    assert!(Hamming74.decode(&[]).is_empty());
}

#[test]
fn block_sizes_are_four_and_seven() {
    assert_eq!(Hamming74.data_bits(), 4);
    assert_eq!(Hamming74.code_bits(), 7);
}

#[test]
fn padding_reaches_next_multiple() {
    assert_eq!(pad_to_multiple(&[true, true, true], 4), vec![true, true, true, false]);
    assert_eq!(pad_to_multiple(&[true, false], 2), vec![true, false]);
    assert_eq!(pad_to_multiple(&[], 3), Vec::<bool>::new());
    assert_eq!(pad_to_multiple(&[true], 3), vec![true, false, false]);
}
