# hamming74

A verified Hamming(7,4) single-error-correcting code, with the state of an
interactive visualizer of encoding, error injection, syndrome decoding and
correction.

- `src/hamming.rs`: encoding, syndrome, correction and parity coverage, with
  the laws of the code (a codeword has syndrome zero; a single flipped bit is
  located by the syndrome and corrected; every word of bits corrects to a
  codeword).
- `src/state.rs`: the visualizer's state, its consistency invariant, and the
  events (toggle a data bit, flip a received bit, reset errors).
- `src/panel.rs`: how the panel marks each bit cell (error, fixed, parity, data).
- `app/`: the FLTK window, drawing and event loop around the library.
