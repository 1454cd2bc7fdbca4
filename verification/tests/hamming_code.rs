use hamming74::hamming::{
    covered_positions, hamming_correct, hamming_encode, hamming_syndrome, syndrome_position,
};

fn data_of(n: u8) -> [u8; 4] {
    [(n >> 3) & 1, (n >> 2) & 1, (n >> 1) & 1, n & 1]
}

#[test]
fn encode_initial_data() {
    assert_eq!(hamming_encode([1, 0, 1, 1]), [0, 1, 1, 0, 0, 1, 1]);
}

#[test]
fn encode_all_zero_and_all_one() {
    assert_eq!(hamming_encode([0, 0, 0, 0]), [0, 0, 0, 0, 0, 0, 0]);
    assert_eq!(hamming_encode([1, 1, 1, 1]), [1, 1, 1, 1, 1, 1, 1]);
}

#[test]
fn encode_single_data_bits() {
    assert_eq!(hamming_encode([1, 0, 0, 0]), [1, 1, 1, 0, 0, 0, 0]);
    assert_eq!(hamming_encode([0, 1, 0, 0]), [1, 0, 0, 1, 1, 0, 0]);
    assert_eq!(hamming_encode([0, 0, 1, 0]), [0, 1, 0, 1, 0, 1, 0]);
    assert_eq!(hamming_encode([0, 0, 0, 1]), [1, 1, 0, 1, 0, 0, 1]);
}

#[test]
fn syndrome_of_codeword_is_zero() {
    assert_eq!(hamming_syndrome([0, 1, 1, 0, 0, 1, 1]), ([0, 0, 0], 0));
}

#[test]
fn readme_error_at_bit_three() {
    let received = [0, 1, 0, 0, 0, 1, 1];
    let (syndrome, pos) = hamming_syndrome(received);
    assert_eq!(syndrome, [1, 1, 0]);
    assert_eq!(pos, 3);
    assert_eq!(hamming_correct(received, pos), [0, 1, 1, 0, 0, 1, 1]);
}

#[test]
fn every_single_error_is_located_and_corrected() {
    for n in 0..16u8 {
        let codeword = hamming_encode(data_of(n));
        assert_eq!(hamming_syndrome(codeword), ([0, 0, 0], 0));
        assert_eq!(hamming_correct(codeword, 0), codeword);
        for i in 0..7usize {
            let mut received = codeword;
            received[i] ^= 1;
            let (_, pos) = hamming_syndrome(received);
            assert_eq!(pos, i + 1);
            assert_eq!(hamming_correct(received, pos), codeword);
        }
    }
}

#[test]
fn every_binary_word_corrects_to_a_codeword() {
    for n in 0..128u8 {
        let word: [u8; 7] = std::array::from_fn(|i| (n >> i) & 1);
        let (_, pos) = hamming_syndrome(word);
        assert!(pos <= 7);
        let corrected = hamming_correct(word, pos);
        assert_eq!(hamming_syndrome(corrected), ([0, 0, 0], 0));
        let data = [corrected[2], corrected[4], corrected[5], corrected[6]];
        assert_eq!(hamming_encode(data), corrected);
    }
}

#[test]
fn double_error_is_miscorrected() {
    // Two flipped bits (positions 1 and 2) look like a single error at 3.
    let received = [1, 0, 1, 0, 0, 1, 1];
    let (syndrome, pos) = hamming_syndrome(received);
    assert_eq!(syndrome, [1, 1, 0]);
    assert_eq!(pos, 3);
    assert_eq!(hamming_correct(received, pos), [1, 0, 0, 0, 0, 1, 1]);
}

#[test]
fn correct_ignores_positions_outside_the_word() {
    let word = [0, 1, 1, 0, 0, 1, 1];
    assert_eq!(hamming_correct(word, 0), word);
    assert_eq!(hamming_correct(word, 8), word);
    assert_eq!(hamming_correct(word, usize::MAX), word);
    assert_eq!(hamming_correct(word, 1), [1, 1, 1, 0, 0, 1, 1]);
    assert_eq!(hamming_correct(word, 7), [0, 1, 1, 0, 0, 1, 0]);
}

#[test]
fn syndrome_position_reads_binary_address() {
    assert_eq!(syndrome_position([0, 0, 0]), 0);
    assert_eq!(syndrome_position([1, 0, 0]), 1);
    assert_eq!(syndrome_position([0, 1, 0]), 2);
    assert_eq!(syndrome_position([0, 0, 1]), 4);
    assert_eq!(syndrome_position([1, 1, 1]), 7);
    assert_eq!(syndrome_position([2, 0, 0]), 2);
}

#[test]
fn syndrome_of_non_binary_word_uses_the_formula() {
    let (syndrome, pos) = hamming_syndrome([2, 0, 0, 0, 0, 0, 0]);
    assert_eq!(syndrome, [2, 0, 0]);
    assert_eq!(pos, 2);
    assert_eq!(hamming_encode([2, 0, 0, 0]), [2, 2, 2, 0, 0, 0, 0]);
}

#[test]
fn parity_checks_cover_their_positions() {
    assert_eq!(covered_positions(0), [1, 3, 5, 7]);
    assert_eq!(covered_positions(1), [2, 3, 6, 7]);
    assert_eq!(covered_positions(2), [4, 5, 6, 7]);
    for k in 0..3usize {
        for p in 1..=7usize {
            assert_eq!(covered_positions(k).contains(&p), (p >> k) & 1 == 1);
        }
    }
}

#[test]
fn syndrome_bits_are_parities_of_covered_positions() {
    let received = [0, 1, 0, 0, 0, 1, 1];
    let (syndrome, _) = hamming_syndrome(received);
    for k in 0..3usize {
        let parity = covered_positions(k).iter().fold(0u8, |acc, &p| acc ^ received[p - 1]);
        assert_eq!(syndrome[k], parity);
    }
}
