//! Hamming(7,4) single-error-correcting code, with the state of an
//! interactive walk-through of encoding, error injection, syndrome
//! decoding and correction.

pub mod hamming;

pub mod state;
pub mod panel;
