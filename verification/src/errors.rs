use vstd::prelude::*;

verus! {

/// Why a world or board file could not be read.
#[derive(Debug, Clone, Copy, PartialEq, Eq)]
pub enum DecodeError {
    /// A world file does not start with the two bytes `ff ff`.
    InvalidMagic,
    /// The run-length encoded terrain of a board describes more than the board's 1500 tiles;
    /// the payload is the tile count at which the overflow was noticed.
    InvalidTileCount(usize),
    /// A board's stat count is negative.
    NegativeStatCount,
    /// The data ended before a field that the format requires.
    UnexpectedEof,
    /// Any other malformation.
    Unknown,
}

/// Why a world or board could not be written.
#[derive(Debug, Clone, Copy, PartialEq, Eq)]
pub enum EncodeError {
    /// A text field is longer than the format allows; `max` is the field's capacity in bytes.
    StringTooLong { max: u8 },
    /// A character has no CP437 equivalent.
    EncodingError(char),
    /// A board's data is longer than the 65535 bytes its size field can describe.
    BoardTooLarge,
    /// A world without boards: every world needs at least its title screen.
    NoBoards,
}

/// An encoder's result with the written bytes seen as a sequence.
pub open spec fn bytes_of(r: Result<Vec<u8>, EncodeError>) -> Result<Seq<u8>, EncodeError> {
    match r {
        Ok(v) => Ok(v@),
        Err(e) => Err(e),
    }
}

} // verus!
