//! A board square and its algebraic two-character form.

use vstd::prelude::*;

use crate::error::FenError;

verus! {

/// A square addressed by file and rank, both in 0..=7 for a square on the
/// board ("a1" is file 0, rank 0; "h8" is file 7, rank 7).
#[derive(Clone, Copy, Debug, PartialEq, Eq, Structural)]
pub struct Square {
    pub file: u32,
    pub rank: u32,
}

/// What decoding an algebraic square from the given characters yields:
/// the first two characters must be a file letter 'a'..='h' and a rank
/// digit '1'..='8'; shorter input or any other characters are rejected.
pub open spec fn spec_square_from(s: Seq<char>) -> Result<Square, FenError> {
    if s.len() < 2 {
        Err(FenError::InvalidSquare)
    } else {
        let c0 = s[0] as int;
        let c1 = s[1] as int;
        if 'a' as int <= c0 <= 'h' as int && '1' as int <= c1 <= '8' as int {
            Ok(
                Square {
                    file: (c0 - 'a' as int) as u32,
                    rank: (c1 - '1' as int) as u32,
                },
            )
        } else {
            Err(FenError::InvalidSquare)
        }
    }
}

impl Square {
    /// Both coordinates lie on the board.
    pub open spec fn on_board(self) -> bool {
        self.file <= 7 && self.rank <= 7
    }

    /// Decodes the first two characters of `s` as an algebraic square.
    /// Characters past the second are ignored.
    pub fn from_str(s: &str) -> (r: Result<Square, FenError>)
        ensures
            r == spec_square_from(s@),
            r matches Ok(sq) ==> sq.on_board(),
    {
        let n = s.unicode_len();
        if n < 2 {
            return Err(FenError::InvalidSquare);
        }
        let c0 = s.get_char(0);
        let c1 = s.get_char(1);
        Self::from_two_chars(c0, c1)
    }

    /// Decodes an algebraic square from its two characters.
    pub fn from_two_chars(c0: char, c1: char) -> (r: Result<Square, FenError>)
        ensures
            r == spec_square_from(seq![c0, c1]),
            r matches Ok(sq) ==> sq.on_board(),
    {
        let f = c0 as u32;
        let k = c1 as u32;
        if 'a' as u32 <= f && f <= 'h' as u32 && '1' as u32 <= k && k <= '8' as u32 {
            Ok(Square { file: f - 'a' as u32, rank: k - '1' as u32 })
        } else {
            Err(FenError::InvalidSquare)
        }
    }
}

} // verus!
