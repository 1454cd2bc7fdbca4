use hamming74::hamming::hamming_encode;
use hamming74::panel::{is_parity_column, CellKind, Row};
use hamming74::state::{Event, HammingState};

#[test]
fn new_state_is_initial_data_without_error() {
    let s = HammingState::new();
    assert_eq!(s.data, [1, 0, 1, 1]);
    assert_eq!(s.codeword, [0, 1, 1, 0, 0, 1, 1]);
    assert_eq!(s.received, s.codeword);
    assert_eq!(s.syndrome, [0, 0, 0]);
    assert_eq!(s.error_pos, 0);
    assert_eq!(s.corrected, s.codeword);
}

#[test]
fn recompute_derives_everything_from_data_and_received() {
    let mut s = HammingState::new();
    s.data = [0, 0, 0, 1];
    s.received = [0, 1, 0, 0, 0, 1, 1];
    s.recompute();
    assert_eq!(s.data, [0, 0, 0, 1]);
    assert_eq!(s.received, [0, 1, 0, 0, 0, 1, 1]);
    assert_eq!(s.codeword, [1, 1, 0, 1, 0, 0, 1]);
    assert_eq!(s.syndrome, [1, 1, 0]);
    assert_eq!(s.error_pos, 3);
    assert_eq!(s.corrected, [0, 1, 1, 0, 0, 1, 1]);
}

#[test]
fn toggle_data_reencodes_and_clears_errors() {
    let mut s = HammingState::new();
    s.flip_received(5);
    s.toggle_data(1);
    assert_eq!(s.data, [1, 1, 1, 1]);
    assert_eq!(s.codeword, [1, 1, 1, 1, 1, 1, 1]);
    assert_eq!(s.received, s.codeword);
    assert_eq!(s.error_pos, 0);
    assert_eq!(s.corrected, s.codeword);
}

#[test]
fn flip_received_injects_and_locates_an_error() {
    let mut s = HammingState::new();
    s.flip_received(2);
    assert_eq!(s.received, [0, 1, 0, 0, 0, 1, 1]);
    assert_eq!(s.syndrome, [1, 1, 0]);
    assert_eq!(s.error_pos, 3);
    assert_eq!(s.corrected, s.codeword);
    s.flip_received(2);
    assert_eq!(s.received, s.codeword);
    assert_eq!(s.error_pos, 0);
}

#[test]
fn reset_errors_restores_the_codeword() {
    let mut s = HammingState::new();
    s.flip_received(0);
    s.flip_received(6);
    assert_ne!(s.received, s.codeword);
    s.reset_errors();
    assert_eq!(s.received, s.codeword);
    assert_eq!(s.syndrome, [0, 0, 0]);
    assert_eq!(s.error_pos, 0);
    assert_eq!(s.corrected, s.codeword);
}

#[test]
fn reset_uses_the_stored_codeword() {
    let mut s = HammingState::new();
    s.data = [0, 0, 0, 0];
    s.reset_errors();
    assert_eq!(s.received, [0, 1, 1, 0, 0, 1, 1]);
    assert_eq!(s.codeword, [0, 0, 0, 0, 0, 0, 0]);
}

#[test]
fn messages_map_to_events() {
    assert_eq!(Event::from_message(0, 3), Some(Event::ToggleData(3)));
    assert_eq!(Event::from_message(1, 6), Some(Event::FlipReceived(6)));
    assert_eq!(Event::from_message(2, 0), Some(Event::ResetErrors));
    assert_eq!(Event::from_message(3, 0), None);
    assert_eq!(Event::from_message(255, 1), None);
}

#[test]
fn handle_event_runs_each_event() {
    let mut s = HammingState::new();
    s.handle_event(Event::FlipReceived(4));
    assert_eq!(s.error_pos, 5);
    assert_eq!(s.corrected, s.codeword);
    s.handle_event(Event::ResetErrors);
    assert_eq!(s.error_pos, 0);
    s.handle_event(Event::ToggleData(0));
    assert_eq!(s.data, [0, 0, 1, 1]);
    assert_eq!(s.codeword, hamming_encode([0, 0, 1, 1]));
    assert_eq!(s.received, s.codeword);
}

#[test]
fn every_single_flip_from_every_state_is_corrected() {
    let mut s = HammingState::new();
    for step in 0..16usize {
        s.toggle_data(step % 4);
        for i in 0..7usize {
            s.flip_received(i);
            assert_eq!(s.error_pos, i + 1);
            assert_eq!(s.corrected, s.codeword);
            s.reset_errors();
        }
    }
}

#[test]
fn parity_columns_are_positions_one_two_four() {
    let kinds: Vec<bool> = (0..7).map(is_parity_column).collect();
    assert_eq!(kinds, vec![true, true, false, true, false, false, false]);
}

#[test]
fn cells_mark_error_and_fix() {
    let mut s = HammingState::new();
    for col in 0..7usize {
        let expected = if is_parity_column(col) { CellKind::Parity } else { CellKind::Data };
        assert_eq!(s.cell_kind(Row::Codeword, col), expected);
        assert_eq!(s.cell_kind(Row::Received, col), expected);
        assert_eq!(s.cell_kind(Row::Corrected, col), expected);
    }
    s.flip_received(4);
    assert_eq!(s.cell_kind(Row::Received, 4), CellKind::Error);
    assert_eq!(s.cell_kind(Row::Corrected, 4), CellKind::Fixed);
    assert_eq!(s.cell_kind(Row::Codeword, 4), CellKind::Data);
    assert_eq!(s.cell_kind(Row::Received, 3), CellKind::Parity);
    assert_eq!(s.cell_kind(Row::Corrected, 5), CellKind::Data);
}

#[test]
fn row_bits_pick_the_row() {
    let mut s = HammingState::new();
    s.flip_received(1);
    assert_eq!(s.row_bits(Row::Codeword), s.codeword);
    assert_eq!(s.row_bits(Row::Received), s.received);
    assert_eq!(s.row_bits(Row::Corrected), s.corrected);
}
