//! The state of the walk-through: the data bits, their codeword, the word as
//! received (possibly with injected errors), its syndrome, the error position
//! read from it and the corrected word; and the events that change it.

use vstd::prelude::*;

use crate::hamming::{
    all_bits, at_most_one_differs, hamming_correct, hamming_encode, hamming_syndrome,
    lemma_codeword_has_zero_syndrome, lemma_corrects_at_most_one_error, lemma_single_error_corrected, lemma_single_error_located, lemma_encode_keeps_bits,
    lemma_syndrome_of_bits, lemma_correction_yields_codeword, spec_correct, spec_data_bits,
    spec_encode, spec_flip, spec_position, spec_syndrome_bits,
};

verus! {

#[derive(Clone, Copy)]
pub struct HammingState {
    /// The 4 input data bits [d1,d2,d3,d4]
    pub data: [u8; 4],
    /// Encoded 7-bit codeword
    pub codeword: [u8; 7],
    /// "Received" word (may have injected errors)
    pub received: [u8; 7],
    /// Syndrome bits [s1, s2, s4]
    pub syndrome: [u8; 3],
    /// Bit position of detected error (0 = none)
    pub error_pos: usize,
    /// Word after correction
    pub corrected: [u8; 7],
}

/// What a user does to the state.
#[derive(Clone, Copy, Debug, PartialEq, Eq, Structural)]
pub enum Event {
    /// Toggle data bit `i` (0-based); re-encodes and clears injected errors.
    ToggleData(usize),
    /// Flip received bit `i` (0-based) to simulate a transmission error.
    FlipReceived(usize),
    /// Restore the received word to the codeword.
    ResetErrors,
}

impl Event {
    /// The event names a bit that exists.
    pub open spec fn is_valid(self) -> bool {
        match self {
            Event::ToggleData(i) => i < 4,
            Event::FlipReceived(i) => i < 7,
            Event::ResetErrors => true,
        }
    }

    /// The event that a message (kind, index) from a control stands for:
    /// kind 0 toggles data bit `index`, kind 1 flips received bit `index`,
    /// kind 2 resets the errors; any other kind stands for nothing.
    pub fn from_message(kind: u8, index: u8) -> (event: Option<Event>)
        ensures
            event == (if kind == 0 {
                Some(Event::ToggleData(index as usize))
            } else if kind == 1 {
                Some(Event::FlipReceived(index as usize))
            } else if kind == 2 {
                Some(Event::ResetErrors)
            } else {
                None
            }),
    {
        if kind == 0 {
            Some(Event::ToggleData(index as usize))
        } else if kind == 1 {
            Some(Event::FlipReceived(index as usize))
        } else if kind == 2 {
            Some(Event::ResetErrors)
        } else {
            None
        }
    }
}

impl HammingState {
    /// The codeword, syndrome, error position and corrected word are those
    /// that the data bits and the received word determine.
    pub open spec fn consistent(&self) -> bool {
        &&& self.codeword@ == spec_encode(self.data@)
        &&& self.syndrome@ == spec_syndrome_bits(self.received@)
        &&& self.error_pos == spec_position(self.syndrome@)
        &&& self.corrected@ == spec_correct(self.received@, self.error_pos as int)
    }

    /// A consistent state whose data bits and received word are made of bits.
    pub open spec fn well_formed(&self) -> bool {
        &&& self.consistent()
        &&& all_bits(self.data@)
        &&& all_bits(self.received@)
    }

    /// The initial state: data bits [1, 0, 1, 1], received without error.
    pub fn new() -> (s: Self)
        ensures
            s.data@ == seq![1u8, 0u8, 1u8, 1u8],
            s.codeword@ == spec_encode(s.data@),
            s.received@ == s.codeword@,
            s.syndrome@ == seq![0u8, 0u8, 0u8],
            s.error_pos == 0,
            s.corrected@ == s.codeword@,
            s.well_formed(),
    {
        let data: [u8; 4] = [1, 0, 1, 1];
        let codeword = hamming_encode(data);
        let received = codeword;
        let (syndrome, error_pos) = hamming_syndrome(received);
        let corrected = hamming_correct(received, error_pos);
        proof {
            lemma_codeword_has_zero_syndrome(data@);
            assert(all_bits(data@));
            lemma_encode_keeps_bits(data@);
        }
        HammingState { data, codeword, received, syndrome, error_pos, corrected }
    }

    /// Re-encode the data bits and decode the received word anew.
    pub fn recompute(&mut self)
        ensures
            final(self).data == old(self).data,
            final(self).received == old(self).received,
            final(self).consistent(),
    {
        self.codeword = hamming_encode(self.data);
        let (syn, ep) = hamming_syndrome(self.received);
        self.syndrome = syn;
        self.error_pos = ep;
        self.corrected = hamming_correct(self.received, ep);
    }

    /// Toggle data bit `i`, re-encode, and restore the received word to the
    /// new codeword.
    pub fn toggle_data(&mut self, i: usize)
        requires
            i < 4,
        ensures
            final(self).data@ == spec_flip(old(self).data@, i as int),
            final(self).data[i as int] == old(self).data[i as int] ^ 1u8,
            forall|j: int| 0 <= j < 4 && j != i ==> #[trigger] final(self).data[j] == old(self).data[j],
            final(self).codeword@ == spec_encode(final(self).data@),
            final(self).received@ == final(self).codeword@,
            final(self).consistent(),
            final(self).syndrome@ == seq![0u8, 0u8, 0u8],
            final(self).error_pos == 0,
            final(self).corrected@ == final(self).codeword@,
            old(self).well_formed() ==> final(self).well_formed(),
    {
        self.data[i] = self.data[i] ^ 1;
        self.codeword = hamming_encode(self.data);
        self.received = self.codeword;
        self.recompute();
        proof {
            lemma_codeword_has_zero_syndrome(self.data@);
            if old(self).well_formed() {
                let x = old(self).data@[i as int];
                assert(x == 0u8 || x == 1u8);
                assert((x == 0u8 || x == 1u8) ==> (x ^ 1u8 == 0u8 || x ^ 1u8 == 1u8))
                    by (bit_vector);
                assert(all_bits(self.data@));
                lemma_encode_keeps_bits(self.data@);
            }
        }
    }

    /// Flip received bit `i` and decode the received word anew.
    pub fn flip_received(&mut self, i: usize)
        requires
            i < 7,
        ensures
            final(self).data == old(self).data,
            final(self).received@ == spec_flip(old(self).received@, i as int),
            final(self).received[i as int] == old(self).received[i as int] ^ 1u8,
            forall|j: int|
                0 <= j < 7 && j != i ==> #[trigger] final(self).received[j] == old(self).received[j],
            final(self).consistent(),
            old(self).consistent() && old(self).received@ == old(self).codeword@ ==> {
                &&& final(self).error_pos == i + 1
                &&& final(self).corrected@ == final(self).codeword@
            },
            old(self).well_formed() ==> final(self).well_formed(),
    {
        self.received[i] = self.received[i] ^ 1;
        self.recompute();
        proof {
            if old(self).consistent() && old(self).received@ == old(self).codeword@ {
                lemma_single_error_located(self.data@, i as int);
                lemma_single_error_corrected(self.data@, i as int);
            }
            if old(self).well_formed() {
                let x = old(self).received@[i as int];
                assert(x == 0u8 || x == 1u8);
                assert((x == 0u8 || x == 1u8) ==> (x ^ 1u8 == 0u8 || x ^ 1u8 == 1u8))
                    by (bit_vector);
                assert(all_bits(self.received@));
            }
        }
    }

    /// Restore the received word to the codeword (remove all injected errors)
    /// and decode it anew.
    pub fn reset_errors(&mut self)
        ensures
            final(self).data == old(self).data,
            final(self).received@ == old(self).codeword@,
            final(self).consistent(),
            old(self).consistent() ==> {
                &&& final(self).received@ == final(self).codeword@
                &&& final(self).syndrome@ == seq![0u8, 0u8, 0u8]
                &&& final(self).error_pos == 0
                &&& final(self).corrected@ == final(self).codeword@
            },
            old(self).well_formed() ==> final(self).well_formed(),
    {
        self.received = self.codeword;
        self.recompute();
        proof {
            if old(self).consistent() {
                lemma_codeword_has_zero_syndrome(self.data@);
            }
            if old(self).well_formed() {
                lemma_encode_keeps_bits(self.data@);
            }
        }
    }

    /// Apply a user's event: the decision that the event loop makes before it
    /// redraws.
    pub fn handle_event(&mut self, event: Event)
        requires
            event.is_valid(),
        ensures
            match event {
                Event::ToggleData(i) => {
                    &&& final(self).data@ == spec_flip(old(self).data@, i as int)
                    &&& final(self).received@ == spec_encode(final(self).data@)
                },
                Event::FlipReceived(i) => {
                    &&& final(self).data == old(self).data
                    &&& final(self).received@ == spec_flip(old(self).received@, i as int)
                },
                Event::ResetErrors => {
                    &&& final(self).data == old(self).data
                    &&& final(self).received@ == old(self).codeword@
                },
            },
            final(self).consistent(),
            old(self).well_formed() ==> final(self).well_formed(),
    {
        match event {
            Event::ToggleData(i) => self.toggle_data(i),
            Event::FlipReceived(i) => self.flip_received(i),
            Event::ResetErrors => self.reset_errors(),
        }
    }
}

// ─── Laws of the state ───────────────────────────────────────────────────────

/// In a well-formed state every field holds bits and the error position is
/// one of 0..=7.
pub proof fn lemma_well_formed_holds_bits(s: HammingState)
    requires
        s.well_formed(),
    ensures
        all_bits(s.codeword@),
        all_bits(s.syndrome@),
        s.error_pos <= 7,
        all_bits(s.corrected@),
{
    lemma_encode_keeps_bits(s.data@);
    lemma_syndrome_of_bits(s.received@);
}

/// In a well-formed state the corrected word is always a codeword, and when
/// the received word has at most one bit in error it is the codeword that
/// was sent.
pub proof fn lemma_state_corrects_single_error(s: HammingState)
    requires
        s.well_formed(),
    ensures
        s.corrected@ == spec_encode(spec_data_bits(s.corrected@)),
        at_most_one_differs(s.received@, s.codeword@) ==> s.corrected@ == s.codeword@,
{
    lemma_correction_yields_codeword(s.received@);
    if at_most_one_differs(s.received@, s.codeword@) {
        lemma_corrects_at_most_one_error(s.data@, s.received@);
    }
}

} // verus!
