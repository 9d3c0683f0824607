use vstd::prelude::*;

verus! {

/// One square of a board: empty, or occupied by a black or a white stone.
///
/// The boards themselves store the equivalent integer encoding
/// (`0` empty, `+1` black, `-1` white); the sign carries the color.
#[derive(Clone, Copy, Debug, PartialEq, Eq, Structural)]
pub enum Cell {
    Empty,
    Black,
    White,
}

/// The integer encoding of a cell: `0` empty, `+1` black, `-1` white.
pub open spec fn cell_value(c: Cell) -> i8 {
    match c {
        Cell::Empty => 0i8,
        Cell::Black => 1i8,
        Cell::White => (-1i8),
    }
}

/// The cell encoded by an integer; values other than `+1` and `-1` read as empty.
pub open spec fn cell_of_value(v: i8) -> Cell {
    if v == 1 {
        Cell::Black
    } else if v == -1 {
        Cell::White
    } else {
        Cell::Empty
    }
}

/// An integer is a well-formed cell encoding when it is `-1`, `0` or `+1`.
pub open spec fn valid_value(v: i8) -> bool {
    v == 0 || v == 1 || v == -1
}

impl Cell {
    /// The integer encoding of this cell.
    pub fn value(self) -> (v: i8)
        ensures
            v == cell_value(self),
    {
        match self {
            Cell::Empty => 0,
            Cell::Black => 1,
            Cell::White => -1,
        }
    }

    /// Decode an integer into a cell; values other than `+1` and `-1` read as empty.
    pub fn from_value(v: i8) -> (c: Cell)
        ensures
            c == cell_of_value(v),
    {
        if v == 1 {
            Cell::Black
        } else if v == -1 {
            Cell::White
        } else {
            Cell::Empty
        }
    }

    /// The opposite color; empty stays empty.
    pub fn opposite(self) -> (c: Cell)
        ensures
            c == spec_opposite(self),
    {
        match self {
            Cell::Empty => Cell::Empty,
            Cell::Black => Cell::White,
            Cell::White => Cell::Black,
        }
    }
}

/// The opposite color; empty stays empty.
pub open spec fn spec_opposite(c: Cell) -> Cell {
    match c {
        Cell::Empty => Cell::Empty,
        Cell::Black => Cell::White,
        Cell::White => Cell::Black,
    }
}

} // verus!
