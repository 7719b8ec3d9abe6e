//! One side's boards: exactly one occupancy board per piece kind, plus the
//! castling-rights pair.

use vstd::prelude::*;

use crate::bitboard::{bb_flip, bb_with, bb_without, sq_set, BitBoard};
use crate::piece::PieceType;

verus! {

/// One side's castling rights.
#[derive(Clone, Copy, Debug, PartialEq, Eq, Structural)]
pub struct Castling {
    pub king_side: bool,
    pub queen_side: bool,
}

/// One side's occupancy, one board per piece kind.  Holding the six boards
/// as fields makes "all six kinds always present" structural rather than a
/// runtime invariant.
#[derive(Clone, Copy, Debug, PartialEq, Eq, Structural)]
pub struct SideMap {
    pub king: BitBoard,
    pub queen: BitBoard,
    pub rook: BitBoard,
    pub bishop: BitBoard,
    pub knight: BitBoard,
    pub pawn: BitBoard,
}

impl SideMap {
    /// The board word held for the given piece kind.
    pub open spec fn spec_board(self, p: PieceType) -> u64 {
        match p {
            PieceType::King => self.king@,
            PieceType::Queen => self.queen@,
            PieceType::Rook => self.rook@,
            PieceType::Bishop => self.bishop@,
            PieceType::Knight => self.knight@,
            PieceType::Pawn => self.pawn@,
        }
    }

    /// This map with the board of one piece kind replaced.
    pub open spec fn spec_update(self, p: PieceType, bits: u64) -> SideMap {
        match p {
            PieceType::King => SideMap { king: BitBoard(bits), ..self },
            PieceType::Queen => SideMap { queen: BitBoard(bits), ..self },
            PieceType::Rook => SideMap { rook: BitBoard(bits), ..self },
            PieceType::Bishop => SideMap { bishop: BitBoard(bits), ..self },
            PieceType::Knight => SideMap { knight: BitBoard(bits), ..self },
            PieceType::Pawn => SideMap { pawn: BitBoard(bits), ..self },
        }
    }

    /// The union of all six boards, left to right from king to pawn.
    pub open spec fn spec_all(self) -> u64 {
        self.king@ | self.queen@ | self.rook@ | self.bishop@ | self.knight@ | self.pawn@
    }

    /// The map of six empty boards, as a specification value.
    pub open spec fn spec_empty() -> SideMap {
        SideMap {
            king: BitBoard(0u64),
            queen: BitBoard(0u64),
            rook: BitBoard(0u64),
            bishop: BitBoard(0u64),
            knight: BitBoard(0u64),
            pawn: BitBoard(0u64),
        }
    }

    /// A map of six empty boards.
    pub fn new() -> (r: SideMap)
        ensures
            r == SideMap::spec_empty(),
            forall|p: PieceType| r.spec_board(p) == 0u64,
    {
        SideMap {
            king: BitBoard::new(),
            queen: BitBoard::new(),
            rook: BitBoard::new(),
            bishop: BitBoard::new(),
            knight: BitBoard::new(),
            pawn: BitBoard::new(),
        }
    }

    /// Inverts one square on one piece kind's board; off-board coordinates
    /// are a silent no-op.
    pub fn toggle(&mut self, ptype: PieceType, file: u32, rank: u32)
        ensures
            *final(self) == old(self).spec_update(
                ptype,
                bb_flip(old(self).spec_board(ptype), file as int, rank as int),
            ),
    {
        match ptype {
            PieceType::King => self.king.toggle(file, rank),
            PieceType::Queen => self.queen.toggle(file, rank),
            PieceType::Rook => self.rook.toggle(file, rank),
            PieceType::Bishop => self.bishop.toggle(file, rank),
            PieceType::Knight => self.knight.toggle(file, rank),
            PieceType::Pawn => self.pawn.toggle(file, rank),
        }
    }

    /// Turns one square on on one piece kind's board; off-board coordinates
    /// are a silent no-op.
    pub fn set(&mut self, ptype: PieceType, file: u32, rank: u32)
        ensures
            *final(self) == old(self).spec_update(
                ptype,
                bb_with(old(self).spec_board(ptype), file as int, rank as int),
            ),
    {
        match ptype {
            PieceType::King => self.king.set(file, rank),
            PieceType::Queen => self.queen.set(file, rank),
            PieceType::Rook => self.rook.set(file, rank),
            PieceType::Bishop => self.bishop.set(file, rank),
            PieceType::Knight => self.knight.set(file, rank),
            PieceType::Pawn => self.pawn.set(file, rank),
        }
    }

    /// Turns one square off on one piece kind's board; off-board coordinates
    /// are a silent no-op.
    pub fn unset(&mut self, ptype: PieceType, file: u32, rank: u32)
        ensures
            *final(self) == old(self).spec_update(
                ptype,
                bb_without(old(self).spec_board(ptype), file as int, rank as int),
            ),
    {
        match ptype {
            PieceType::King => self.king.unset(file, rank),
            PieceType::Queen => self.queen.unset(file, rank),
            PieceType::Rook => self.rook.unset(file, rank),
            PieceType::Bishop => self.bishop.unset(file, rank),
            PieceType::Knight => self.knight.unset(file, rank),
            PieceType::Pawn => self.pawn.unset(file, rank),
        }
    }

    /// Reads one square of one piece kind's board: `Some` of its state on
    /// the board, `None` off it.
    pub fn get(&self, ptype: PieceType, file: u32, rank: u32) -> (r: Option<bool>)
        ensures
            file <= 7 && rank <= 7 ==> r == Some(
                sq_set(self.spec_board(ptype), file as int, rank as int),
            ),
            !(file <= 7 && rank <= 7) ==> r is None,
    {
        match ptype {
            PieceType::King => self.king.get(file, rank),
            PieceType::Queen => self.queen.get(file, rank),
            PieceType::Rook => self.rook.get(file, rank),
            PieceType::Bishop => self.bishop.get(file, rank),
            PieceType::Knight => self.knight.get(file, rank),
            PieceType::Pawn => self.pawn.get(file, rank),
        }
    }

    /// The union of the six boards.  Must be called again after any board
    /// changes; nothing tracks it incrementally.
    pub fn combine(&self) -> (out: BitBoard)
        ensures
            out@ == self.spec_all(),
    {
        let mut out = self.king;
        out.or_assign(self.queen);
        out.or_assign(self.rook);
        out.or_assign(self.bishop);
        out.or_assign(self.knight);
        out.or_assign(self.pawn);
        out
    }

    /// A copy of one piece kind's board.
    pub fn get_board(&self, piece: PieceType) -> (r: BitBoard)
        ensures
            r@ == self.spec_board(piece),
    {
        match piece {
            PieceType::King => self.king,
            PieceType::Queen => self.queen,
            PieceType::Rook => self.rook,
            PieceType::Bishop => self.bishop,
            PieceType::Knight => self.knight,
            PieceType::Pawn => self.pawn,
        }
    }

    /// A mutable borrow of one piece kind's board.
    pub fn get_mut_board(&mut self, piece: PieceType) -> (r: &mut BitBoard)
        ensures
            r@ == old(self).spec_board(piece),
            *final(self) == old(self).spec_update(piece, final(r)@),
    {
        match piece {
            PieceType::King => &mut self.king,
            PieceType::Queen => &mut self.queen,
            PieceType::Rook => &mut self.rook,
            PieceType::Bishop => &mut self.bishop,
            PieceType::Knight => &mut self.knight,
            PieceType::Pawn => &mut self.pawn,
        }
    }
}

} // verus!
