//! Piece kinds and colors, and their letter encoding.

use vstd::prelude::*;

verus! {

/// The six chess piece kinds.
#[derive(Clone, Copy, Debug, PartialEq, Eq, Structural)]
pub enum PieceType {
    King,
    Queen,
    Rook,
    Bishop,
    Knight,
    Pawn,
}

/// The two sides.
#[derive(Clone, Copy, Debug, PartialEq, Eq, Structural)]
pub enum Color {
    Black,
    White,
}

/// The piece and color a single letter stands for: uppercase K Q R B N P are
/// white, lowercase are black, anything else is no piece.
pub open spec fn piece_of_char(c: char) -> Option<(PieceType, Color)> {
    if c == 'K' {
        Some((PieceType::King, Color::White))
    } else if c == 'Q' {
        Some((PieceType::Queen, Color::White))
    } else if c == 'R' {
        Some((PieceType::Rook, Color::White))
    } else if c == 'B' {
        Some((PieceType::Bishop, Color::White))
    } else if c == 'N' {
        Some((PieceType::Knight, Color::White))
    } else if c == 'P' {
        Some((PieceType::Pawn, Color::White))
    } else if c == 'k' {
        Some((PieceType::King, Color::Black))
    } else if c == 'q' {
        Some((PieceType::Queen, Color::Black))
    } else if c == 'r' {
        Some((PieceType::Rook, Color::Black))
    } else if c == 'b' {
        Some((PieceType::Bishop, Color::Black))
    } else if c == 'n' {
        Some((PieceType::Knight, Color::Black))
    } else if c == 'p' {
        Some((PieceType::Pawn, Color::Black))
    } else {
        None
    }
}

/// The letter for a piece of a given color: lowercase for black, uppercase
/// for white.
pub open spec fn char_of_piece(p: PieceType, c: Color) -> char {
    match (p, c) {
        (PieceType::King, Color::White) => 'K',
        (PieceType::Queen, Color::White) => 'Q',
        (PieceType::Rook, Color::White) => 'R',
        (PieceType::Bishop, Color::White) => 'B',
        (PieceType::Knight, Color::White) => 'N',
        (PieceType::Pawn, Color::White) => 'P',
        (PieceType::King, Color::Black) => 'k',
        (PieceType::Queen, Color::Black) => 'q',
        (PieceType::Rook, Color::Black) => 'r',
        (PieceType::Bishop, Color::Black) => 'b',
        (PieceType::Knight, Color::Black) => 'n',
        (PieceType::Pawn, Color::Black) => 'p',
    }
}

impl PieceType {
    /// Decodes a letter to its piece and color; `None` for any character
    /// outside the twelve piece letters.
    pub fn from_char(c: char) -> (r: Option<(PieceType, Color)>)
        ensures
            r == piece_of_char(c),
    {
        match c {
            'K' => Some((PieceType::King, Color::White)),
            'Q' => Some((PieceType::Queen, Color::White)),
            'R' => Some((PieceType::Rook, Color::White)),
            'B' => Some((PieceType::Bishop, Color::White)),
            'N' => Some((PieceType::Knight, Color::White)),
            'P' => Some((PieceType::Pawn, Color::White)),
            'k' => Some((PieceType::King, Color::Black)),
            'q' => Some((PieceType::Queen, Color::Black)),
            'r' => Some((PieceType::Rook, Color::Black)),
            'b' => Some((PieceType::Bishop, Color::Black)),
            'n' => Some((PieceType::Knight, Color::Black)),
            'p' => Some((PieceType::Pawn, Color::Black)),
            _ => None,
        }
    }

    /// The letter for this piece in the given color.
    pub fn to_char(&self, c: Color) -> (r: char)
        ensures
            r == char_of_piece(*self, c),
    {
        match (self, c) {
            (PieceType::King, Color::White) => 'K',
            (PieceType::Queen, Color::White) => 'Q',
            (PieceType::Rook, Color::White) => 'R',
            (PieceType::Bishop, Color::White) => 'B',
            (PieceType::Knight, Color::White) => 'N',
            (PieceType::Pawn, Color::White) => 'P',
            (PieceType::King, Color::Black) => 'k',
            (PieceType::Queen, Color::Black) => 'q',
            (PieceType::Rook, Color::Black) => 'r',
            (PieceType::Bishop, Color::Black) => 'b',
            (PieceType::Knight, Color::Black) => 'n',
            (PieceType::Pawn, Color::Black) => 'p',
        }
    }
}

} // verus!
