//! What the visualization panel shows of a state: which of the three word
//! rows a cell lies in, and how each bit cell is marked.

use vstd::prelude::*;

use crate::hamming::{
    lemma_codeword_has_zero_syndrome, lemma_single_error_located, spec_encode, spec_flip,
};
use crate::state::HammingState;

verus! {

/// The three word rows of the panel.
#[derive(Clone, Copy, Debug, PartialEq, Eq, Structural)]
pub enum Row {
    Codeword,
    Received,
    Corrected,
}

/// How a bit cell is marked: an injected error in the received word, the bit
/// that correction flipped, or else by the kind of position it holds.
#[derive(Clone, Copy, Debug, PartialEq, Eq, Structural)]
pub enum CellKind {
    Error,
    Fixed,
    Parity,
    Data,
}

/// Column `col` (0-based) holds a parity bit: positions 1, 2 and 4, the powers of two.
pub open spec fn spec_is_parity_column(col: int) -> bool {
    col == 0 || col == 1 || col == 3
}

/// The mark of the cell in `row` at column `col`, given the error position.
pub open spec fn spec_cell_kind(row: Row, col: int, error_pos: int) -> CellKind {
    if row is Received && error_pos == col + 1 {
        CellKind::Error
    } else if row is Corrected && error_pos != 0 && error_pos == col + 1 {
        CellKind::Fixed
    } else if spec_is_parity_column(col) {
        CellKind::Parity
    } else {
        CellKind::Data
    }
}

/// Whether column `col` (0-based) of a codeword holds a parity bit.
pub fn is_parity_column(col: usize) -> (parity: bool)
    requires
        col < 7,
    ensures
        parity == spec_is_parity_column(col as int),
{
    let is_parity = [true, true, false, true, false, false, false];
    is_parity[col]
}

impl HammingState {
    /// The bits shown in `row`.
    pub fn row_bits(&self, row: Row) -> (bits: [u8; 7])
        ensures
            bits == match row {
                Row::Codeword => self.codeword,
                Row::Received => self.received,
                Row::Corrected => self.corrected,
            },
    {
        match row {
            Row::Codeword => self.codeword,
            Row::Received => self.received,
            Row::Corrected => self.corrected,
        }
    }

    /// How the cell in `row` at column `col` is marked.
    pub fn cell_kind(&self, row: Row, col: usize) -> (kind: CellKind)
        requires
            col < 7,
        ensures
            kind == spec_cell_kind(row, col as int, self.error_pos as int),
    {
        let is_err = row == Row::Received && self.error_pos == col + 1;
        let is_fix = row == Row::Corrected && self.error_pos != 0 && self.error_pos == col + 1;
        if is_err {
            CellKind::Error
        } else if is_fix {
            CellKind::Fixed
        } else if is_parity_column(col) {
            CellKind::Parity
        } else {
            CellKind::Data
        }
    }
}

/// The column of data bit `j` (0-based) in a codeword: d1..d4 sit at
/// positions 3, 5, 6, 7.
pub open spec fn data_column(j: int) -> int {
    if j == 0 {
        2
    } else if j == 1 {
        4
    } else if j == 2 {
        5
    } else {
        6
    }
}

/// The columns marked as parity are exactly those that do not carry a data
/// bit: each data bit `j` of `d` sits at `data_column(j)` of its codeword.
pub proof fn lemma_parity_columns_hold_no_data(d: Seq<u8>)
    requires
        d.len() == 4,
    ensures
        forall|j: int|
            0 <= j < 4 ==> spec_encode(d)[#[trigger] data_column(j)] == d[j]
                && !spec_is_parity_column(data_column(j)),
        forall|col: int|
            0 <= col < 7 ==> (spec_is_parity_column(col) <==> !(col == data_column(0) || col
                == data_column(1) || col == data_column(2) || col == data_column(3))),
{
}

/// How every cell is marked, for every row, column and error position: red
/// (Error) exactly in the received row at the error position, green (Fixed)
/// exactly in the corrected row at the error position, and every other cell
/// purple (Parity) exactly when its position 1, 2 or 4 is a power of two,
/// blue (Data) otherwise.
pub proof fn lemma_cell_marks(row: Row, col: int, error_pos: int)
    requires
        0 <= col < 7,
    ensures
        ({
            let k = spec_cell_kind(row, col, error_pos);
            &&& (k is Error <==> (row is Received && error_pos == col + 1))
            &&& (k is Fixed <==> (row is Corrected && error_pos == col + 1))
            &&& !(k is Error || k is Fixed) ==> (k is Parity <==> (col == 0 || col == 1 || col
                == 3))
            &&& !(k is Error || k is Fixed) ==> (k is Data <==> !(col == 0 || col == 1 || col
                == 3))
        }),
{
}

/// Red marks the injected error and green its correction: with no error
/// injected no cell is marked, and with one bit flipped at column `i` the
/// received row marks exactly that column as an error and the corrected row
/// marks exactly that column as fixed.
pub proof fn lemma_marks_follow_injected_error(s: HammingState, injected: Option<int>)
    requires
        s.consistent(),
        match injected {
            None => s.received@ == s.codeword@,
            Some(i) => 0 <= i < 7 && s.received@ == spec_flip(s.codeword@, i),
        },
    ensures
        forall|row: Row, col: int|
            0 <= col < 7 ==> {
                &&& (#[trigger] spec_cell_kind(row, col, s.error_pos as int) is Error <==> (row
                    is Received && injected == Some(col)))
                &&& (spec_cell_kind(row, col, s.error_pos as int) is Fixed <==> (row is Corrected
                    && injected == Some(col)))
            },
{
    match injected {
        None => lemma_codeword_has_zero_syndrome(s.data@),
        Some(i) => lemma_single_error_located(s.data@, i),
    }
}

} // verus!
