//! Moves as stored in a position's history.

use vstd::prelude::*;

use crate::piece::PieceType;
use crate::square::Square;

verus! {

/// One move: origin, destination, the piece kind moved, and what else
/// changed.  Stored by value in the history so that undoing is lossless.
#[derive(Clone, Copy, Debug, PartialEq, Eq)]
pub struct Move {
    pub from: Square,
    pub to: Square,
    pub ptype: PieceType,
    pub change: StateChange,
}

/// The side effects of a move beyond relocating the mover: the captured
/// piece kind, if any.
#[derive(Clone, Copy, Debug, PartialEq, Eq)]
pub struct StateChange {
    pub captured: Option<PieceType>,
}

} // verus!
