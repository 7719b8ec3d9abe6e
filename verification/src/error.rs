//! Errors of the text-notation decoder.

use vstd::prelude::*;

verus! {

/// Everything that can go wrong while decoding a position from text.
///
/// Every decode failure is detected eagerly: no partially built position is
/// ever handed out together with one of these.
#[derive(Clone, Copy, Debug, PartialEq, Eq, Structural)]
pub enum FenError {
    /// A malformed placement: an unrecognized character, a rank running past
    /// eight squares, a misplaced separator, or a truncated placement.
    /// Carries the offending character and its index within the placement
    /// field.
    InvalidFen { index: usize, found: char },
    /// The side-to-move field is neither "w" nor "b".
    InvalidSideColor,
    /// A square in algebraic form is shorter than two characters or names a
    /// file outside 'a'..='h' or a rank outside '1'..='8'.
    InvalidSquare,
    /// The halfmove field is not a plain decimal number, or does not fit the
    /// machine word.
    InvalidHalfmove,
}

} // verus!
