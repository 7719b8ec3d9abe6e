//! The text-notation codec: decoding a position from a single
//! space-separated line of `<placement> <side> <castling> <en-passant>
//! <halfmove> [<fullmove>]`.
//!
//! Every error is detected eagerly; no partially built position is ever
//! returned.  A malformed en-passant field is rejected (not read as "no
//! target"): that is this crate's documented policy for the one place the
//! format leaves open.

use vstd::prelude::*;

use crate::bitboard::{bb_flip, BitBoard};
use crate::board::{Castling, SideMap};
use crate::error::FenError;
use crate::piece::{piece_of_char, Color, PieceType};
use crate::position::{attacks_ok, occupancy_ok, GameState, Position};
use crate::square::{spec_square_from, Square};
use crate::movegen::Move;

verus! {

/// The characters of a string slice, one by one.
fn chars_of(s: &str) -> (v: Vec<char>)
    ensures
        v@ == s@,
{
    let n = s.unicode_len();
    let mut v: Vec<char> = Vec::new();
    let mut i: usize = 0;
    while i < n
        invariant
            n == s@.len(),
            i <= n,
            v@ == s@.take(i as int),
        decreases n - i,
    {
        v.push(s.get_char(i));
        proof {
            assert(s@.take(i + 1) =~= s@.take(i as int).push(s@[i as int]));
        }
        i = i + 1;
    }
    proof {
        assert(s@.take(n as int) =~= s@);
    }
    v
}

/// Whether the character occurs among the given ones.
fn contains_char(cs: &Vec<char>, t: char) -> (r: bool)
    ensures
        r == cs@.contains(t),
{
    let mut i: usize = 0;
    while i < cs.len()
        invariant
            i <= cs@.len(),
            forall|j: int| 0 <= j < i ==> cs@[j] != t,
        decreases cs@.len() - i,
    {
        if cs[i] == t {
            return true;
        }
        i = i + 1;
    }
    false
}

/// Index of the first space in `s`, or its length when there is none.
pub open spec fn first_space(s: Seq<char>) -> int
    decreases s.len(),
{
    if s.len() == 0 {
        0
    } else if s[0] == ' ' {
        0
    } else {
        1 + first_space(s.skip(1))
    }
}

/// `s` split at each space: the fields of the notation line.  A space at
/// the edge or two in a row yield an empty field, as the usual splitting
/// does.
pub open spec fn split_fields(s: Seq<char>) -> Seq<Seq<char>>
    decreases s.len(),
{
    let i = first_space(s);
    if 0 <= i < s.len() {
        seq![s.take(i)] + split_fields(s.skip(i + 1))
    } else {
        seq![s]
    }
}

/// A position with no space before it and a space (or the end) at it is
/// exactly where `first_space` points.
proof fn lemma_first_space_at(s: Seq<char>, j: int)
    requires
        0 <= j <= s.len(),
        forall|k: int| 0 <= k < j ==> s[k] != ' ',
        j < s.len() ==> s[j] == ' ',
    ensures
        first_space(s) == j,
    decreases j,
{
    if j == 0 {
    } else {
        assert(s[0] != ' ');
        lemma_first_space_at(s.skip(1), j - 1);
    }
}

/// The views of a sequence of character vectors.
pub open spec fn views_of(fields: Seq<Vec<char>>) -> Seq<Seq<char>> {
    fields.map_values(|v: Vec<char>| v@)
}

/// Splits the characters at each space.
fn split_spaces(cs: &Vec<char>) -> (fields: Vec<Vec<char>>)
    ensures
        views_of(fields@) == split_fields(cs@),
{
    let mut fields: Vec<Vec<char>> = Vec::new();
    let mut cur: Vec<char> = Vec::new();
    let ghost mut start: int = 0;
    let mut i: usize = 0;
    proof {
        assert(cs@.skip(0) =~= cs@);
        assert(views_of(fields@) + split_fields(cs@) =~= split_fields(cs@));
        assert(cur@ =~= cs@.subrange(0, 0));
    }
    while i < cs.len()
        invariant
            0 <= start <= i <= cs@.len(),
            cur@ == cs@.subrange(start, i as int),
            forall|k: int| start <= k < i ==> cs@[k] != ' ',
            split_fields(cs@) == views_of(fields@) + split_fields(cs@.skip(start)),
        decreases cs@.len() - i,
    {
        let c = cs[i];
        if c == ' ' {
            proof {
                let tail = cs@.skip(start);
                assert(forall|k: int| 0 <= k < i - start ==> tail[k] != ' ');
                assert(tail[i - start] == ' ');
                lemma_first_space_at(tail, i - start);
                assert(tail.take(i - start) =~= cur@);
                assert(tail.skip(i - start + 1) =~= cs@.skip(i + 1));
                assert(split_fields(tail) == seq![cur@] + split_fields(cs@.skip(i + 1)));
            }
            let done = cur;
            cur = Vec::new();
            proof {
                assert(views_of(fields@.push(done)) =~= views_of(fields@).push(done@));
                assert(views_of(fields@) + split_fields(cs@.skip(start)) =~= (views_of(
                    fields@,
                ).push(done@)) + split_fields(cs@.skip(i + 1)));
            }
            fields.push(done);
            proof {
                start = i + 1;
                assert(cur@ =~= cs@.subrange(start, i + 1));
            }
        } else {
            cur.push(c);
            proof {
                assert(cur@ =~= cs@.subrange(start, i + 1));
            }
        }
        i = i + 1;
    }
    proof {
        let tail = cs@.skip(start);
        assert(forall|k: int| 0 <= k < tail.len() ==> tail[k] != ' ');
        lemma_first_space_at(tail, tail.len() as int);
        assert(tail =~= cur@);
        assert(split_fields(tail) == seq![cur@]);
        assert(views_of(fields@.push(cur)) =~= views_of(fields@).push(cur@));
        assert(views_of(fields@).push(cur@) =~= views_of(fields@) + seq![cur@]);
    }
    fields.push(cur);
    fields
}

/// One step at a time through the placement field, from rank 8 down to
/// rank 1: a piece letter fills the current square, a digit 1-8 skips that
/// many squares, and '/' closes a completed rank.  A rank running past
/// eight squares, a separator before the rank is full, an unrecognized
/// character, or a truncated placement is an error carrying the index and
/// the character (the end is reported as a space at the field's length).
pub open spec fn place_rec(
    s: Seq<char>,
    i: int,
    w: SideMap,
    b: SideMap,
    file: int,
    rank: int,
) -> Result<(SideMap, SideMap), FenError>
    decreases s.len() - i,
{
    if i < 0 || i >= s.len() {
        if file == 8 && rank == 0 {
            Ok((w, b))
        } else {
            Err(FenError::InvalidFen { index: s.len() as usize, found: ' ' })
        }
    } else {
        let c = s[i];
        if c == '/' {
            if file == 8 && rank > 0 {
                place_rec(s, i + 1, w, b, 0, rank - 1)
            } else {
                Err(FenError::InvalidFen { index: i as usize, found: c })
            }
        } else if '1' as int <= c as int && c as int <= '8' as int {
            let d = c as int - '0' as int;
            if file + d <= 8 {
                place_rec(s, i + 1, w, b, file + d, rank)
            } else {
                Err(FenError::InvalidFen { index: i as usize, found: c })
            }
        } else {
            match piece_of_char(c) {
                Some((p, col)) => {
                    if file <= 7 {
                        if col == Color::White {
                            place_rec(
                                s,
                                i + 1,
                                w.spec_update(p, bb_flip(w.spec_board(p), file, rank)),
                                b,
                                file + 1,
                                rank,
                            )
                        } else {
                            place_rec(
                                s,
                                i + 1,
                                w,
                                b.spec_update(p, bb_flip(b.spec_board(p), file, rank)),
                                file + 1,
                                rank,
                            )
                        }
                    } else {
                        Err(FenError::InvalidFen { index: i as usize, found: c })
                    }
                },
                None => Err(FenError::InvalidFen { index: i as usize, found: c }),
            }
        }
    }
}

/// What decoding the placement field yields: white and black piece maps,
/// or the first error.
pub open spec fn spec_parse_pieces(s: Seq<char>) -> Result<(SideMap, SideMap), FenError> {
    place_rec(s, 0, SideMap::spec_empty(), SideMap::spec_empty(), 0, 7)
}

/// Decodes the placement field into the two sides' piece maps.
pub fn parse_pieces(cs: &Vec<char>) -> (r: Result<(SideMap, SideMap), FenError>)
    ensures
        r == spec_parse_pieces(cs@),
{
    let mut w_pieces: SideMap = SideMap::new();
    let mut b_pieces: SideMap = SideMap::new();
    let mut file: u32 = 0;
    let mut rank: u32 = 7;
    let mut i: usize = 0;
    while i < cs.len()
        invariant
            i <= cs@.len(),
            file <= 8,
            rank <= 7,
            spec_parse_pieces(cs@) == place_rec(
                cs@,
                i as int,
                w_pieces,
                b_pieces,
                file as int,
                rank as int,
            ),
        decreases cs@.len() - i,
    {
        let ghost w0 = w_pieces;
        let ghost b0 = b_pieces;
        let ghost f0 = file as int;
        let ghost r0 = rank as int;
        let c = cs[i];
        proof {
            assert(c == cs@[i as int]);
        }
        if c == '/' {
            if file == 8 && rank > 0 {
                file = 0;
                rank = rank - 1;
            } else {
                return Err(FenError::InvalidFen { index: i, found: c });
            }
        } else if '1' <= c && c <= '8' {
            let d = (c as u32) - ('0' as u32);
            proof {
                assert('1' as int <= c as int && c as int <= '8' as int);
                assert(d as int == c as int - '0' as int);
            }
            if file + d <= 8 {
                file = file + d;
            } else {
                return Err(FenError::InvalidFen { index: i, found: c });
            }
        } else {
            proof {
                assert(!('1' as int <= c as int && c as int <= '8' as int));
            }
            match PieceType::from_char(c) {
                Some((p, col)) => {
                    if file <= 7 {
                        match col {
                            Color::White => w_pieces.toggle(p, file, rank),
                            Color::Black => b_pieces.toggle(p, file, rank),
                        }
                        file = file + 1;
                    } else {
                        return Err(FenError::InvalidFen { index: i, found: c });
                    }
                },
                None => {
                    return Err(FenError::InvalidFen { index: i, found: c });
                },
            }
        }
        proof {
            assert(place_rec(cs@, i as int, w0, b0, f0, r0) == place_rec(
                cs@,
                i as int + 1,
                w_pieces,
                b_pieces,
                file as int,
                rank as int,
            ));
        }
        i = i + 1;
    }
    if file == 8 && rank == 0 {
        Ok((w_pieces, b_pieces))
    } else {
        Err(FenError::InvalidFen { index: cs.len(), found: ' ' })
    }
}

/// What decoding the castling field yields: each right is granted exactly
/// when its letter occurs; other characters (and "-") grant nothing.
pub open spec fn spec_parse_castling(s: Seq<char>) -> (Castling, Castling) {
    (
        Castling { king_side: s.contains('K'), queen_side: s.contains('Q') },
        Castling { king_side: s.contains('k'), queen_side: s.contains('q') },
    )
}

/// Decodes the castling field into white's and black's rights.  No
/// physical-possibility check is made.
pub fn parse_castling(cs: &Vec<char>) -> (r: (Castling, Castling))
    ensures
        r == spec_parse_castling(cs@),
{
    (
        Castling { king_side: contains_char(cs, 'K'), queen_side: contains_char(cs, 'Q') },
        Castling { king_side: contains_char(cs, 'k'), queen_side: contains_char(cs, 'q') },
    )
}

/// The character is a decimal digit.
pub open spec fn is_dec_digit(c: char) -> bool {
    '0' as int <= c as int <= '9' as int
}

/// Every character is a decimal digit.
pub open spec fn dec_digits(s: Seq<char>) -> bool {
    forall|j: int| 0 <= j < s.len() ==> is_dec_digit(#[trigger] s[j])
}

/// The number the digits spell, most significant first.
pub open spec fn dec_val(s: Seq<char>) -> int
    decreases s.len(),
{
    if s.len() == 0 {
        0
    } else {
        dec_val(s.drop_last()) * 10 + (s.last() as int - '0' as int)
    }
}

/// A digit string names a number of at least zero.
proof fn lemma_dec_val_nonneg(s: Seq<char>)
    requires
        dec_digits(s),
    ensures
        dec_val(s) >= 0,
    decreases s.len(),
{
    if s.len() > 0 {
        assert(dec_digits(s.drop_last()));
        lemma_dec_val_nonneg(s.drop_last());
    }
}

/// Appending digits never shrinks the number: the whole string names at
/// least what any prefix names.
proof fn lemma_dec_val_prefix(s: Seq<char>, i: int)
    requires
        0 <= i <= s.len(),
        dec_digits(s),
    ensures
        dec_val(s) >= dec_val(s.take(i)),
    decreases s.len() - i,
{
    if i == s.len() {
        assert(s.take(i) =~= s);
    } else {
        lemma_dec_val_prefix(s, i + 1);
        assert(s.take(i + 1).drop_last() =~= s.take(i));
        assert(dec_digits(s.take(i)));
        lemma_dec_val_nonneg(s.take(i));
        assert(s.take(i + 1).last() == s[i]);
        assert(dec_val(s.take(i + 1)) == dec_val(s.take(i)) * 10 + (s[i] as int - '0' as int));
    }
}

/// What decoding the halfmove field yields: the number its digits spell,
/// or an error when the field is empty, holds a non-digit, or names a
/// number too large for the machine word.
pub open spec fn spec_parse_halfmove(s: Seq<char>) -> Result<usize, FenError> {
    if s.len() == 0 || !dec_digits(s) {
        Err(FenError::InvalidHalfmove)
    } else if dec_val(s) > usize::MAX as int {
        Err(FenError::InvalidHalfmove)
    } else {
        Ok(dec_val(s) as usize)
    }
}

/// Decodes the halfmove field as a plain decimal number.
pub fn parse_halfmove(cs: &Vec<char>) -> (r: Result<usize, FenError>)
    ensures
        r == spec_parse_halfmove(cs@),
{
    if cs.len() == 0 {
        return Err(FenError::InvalidHalfmove);
    }
    let mut acc: usize = 0;
    let mut i: usize = 0;
    while i < cs.len()
        invariant
            i <= cs@.len(),
            dec_digits(cs@.take(i as int)),
            acc == dec_val(cs@.take(i as int)),
        decreases cs@.len() - i,
    {
        let c = cs[i];
        if c < '0' || c > '9' {
            assert(!is_dec_digit(cs@[i as int]));
            return Err(FenError::InvalidHalfmove);
        }
        let d = ((c as u32) - ('0' as u32)) as usize;
        proof {
            assert(c == cs@[i as int]);
            assert(d as int == c as int - '0' as int);
            assert(cs@.take(i + 1).drop_last() =~= cs@.take(i as int));
            assert(cs@.take(i + 1).last() == cs@[i as int]);
            assert(dec_val(cs@.take(i + 1)) == acc * 10 + d);
        }
        let next = match acc.checked_mul(10) {
            Some(m) => m.checked_add(d),
            None => None,
        };
        match next {
            Some(v) => {
                acc = v;
            },
            None => {
                proof {
                    if dec_digits(cs@) {
                        lemma_dec_val_prefix(cs@, i + 1);
                    }
                }
                return Err(FenError::InvalidHalfmove);
            },
        }
        i = i + 1;
    }
    proof {
        assert(cs@.take(cs@.len() as int) =~= cs@);
    }
    Ok(acc)
}

/// Everything the notation line states directly: the piece maps, side to
/// move, castling rights, en-passant target and halfmove counter.
pub struct FenData {
    pub w_pieces: SideMap,
    pub b_pieces: SideMap,
    pub side: Color,
    pub w_castling: Castling,
    pub b_castling: Castling,
    pub en_passant: Option<Square>,
    pub halfturn: usize,
}

/// Field `i` of the split line, or an empty field where the line is short.
pub open spec fn spec_field(fs: Seq<Seq<char>>, i: int) -> Seq<char> {
    if 0 <= i < fs.len() {
        fs[i]
    } else {
        Seq::empty()
    }
}

/// What decoding a whole notation line yields.  The fields are read left
/// to right and the first error wins: a bad placement, a side that is not
/// "w" or "b", a malformed en-passant square (unless it is "-"), or a bad
/// halfmove number.  A missing field is read as an empty one.  Anything
/// after the halfmove field, such as the fullmove number, is ignored.
pub open spec fn spec_from_fen(s: Seq<char>) -> Result<FenData, FenError> {
    let fs = split_fields(s);
    match spec_parse_pieces(spec_field(fs, 0)) {
        Err(e) => Err(e),
        Ok((w_pieces, b_pieces)) => {
            let side_f = spec_field(fs, 1);
            if side_f == seq!['w'] || side_f == seq!['b'] {
                let side = if side_f == seq!['w'] {
                    Color::White
                } else {
                    Color::Black
                };
                let castling = spec_parse_castling(spec_field(fs, 2));
                let ep_f = spec_field(fs, 3);
                let ep: Result<Option<Square>, FenError> = if ep_f == seq!['-'] {
                    Ok(None)
                } else {
                    match spec_square_from(ep_f) {
                        Ok(sq) => Ok(Some(sq)),
                        Err(e) => Err(e),
                    }
                };
                match ep {
                    Err(e) => Err(e),
                    Ok(en_passant) => match spec_parse_halfmove(spec_field(fs, 4)) {
                        Err(e) => Err(e),
                        Ok(halfturn) => Ok(
                            FenData {
                                w_pieces,
                                b_pieces,
                                side,
                                w_castling: castling.0,
                                b_castling: castling.1,
                                en_passant,
                                halfturn,
                            },
                        ),
                    },
                }
            } else {
                Err(FenError::InvalidSideColor)
            }
        },
    }
}

/// The decoded position carries exactly what the line stated, a Normal
/// game tag, empty history and legal-move list, occupancy unions that
/// equal the union of their piece maps, and attack boards already
/// computed: no separate recomputation is needed after decoding.
pub open spec fn position_matches(p: Position, d: FenData) -> bool {
    &&& p.w_pieces == d.w_pieces
    &&& p.b_pieces == d.b_pieces
    &&& p.side == d.side
    &&& p.w_castling == d.w_castling
    &&& p.b_castling == d.b_castling
    &&& p.en_passant == d.en_passant
    &&& p.halfturn == d.halfturn
    &&& p.gamestate == GameState::Normal
    &&& p.history@ == Seq::<Move>::empty()
    &&& p.legal_moves@ == Seq::<Move>::empty()
    &&& occupancy_ok(p)
    &&& attacks_ok(p)
}

/// Decodes a position from a single space-separated notation line.
pub fn from_fen(fen: String) -> (r: Result<Position, FenError>)
    ensures
        r matches Ok(p) ==> spec_from_fen(fen@) matches Ok(d) && position_matches(p, d),
        r matches Err(e) ==> spec_from_fen(fen@) == Err::<FenData, FenError>(e),
{
    let cs = chars_of(fen.as_str());
    let fields = split_spaces(&cs);
    let ghost fs = split_fields(fen@);
    let empty: Vec<char> = Vec::new();

    let placement = if fields.len() > 0 {
        &fields[0]
    } else {
        &empty
    };
    proof {
        assert(placement@ == spec_field(fs, 0));
    }
    let (w_pieces, b_pieces) = match parse_pieces(placement) {
        Ok(t) => t,
        Err(e) => {
            return Err(e);
        },
    };

    let side_f = if fields.len() > 1 {
        &fields[1]
    } else {
        &empty
    };
    proof {
        assert(side_f@ == spec_field(fs, 1));
    }
    let side = if side_f.len() == 1 && side_f[0] == 'w' {
        proof {
            assert(side_f@ =~= seq!['w']);
        }
        Color::White
    } else if side_f.len() == 1 && side_f[0] == 'b' {
        proof {
            assert(side_f@ =~= seq!['b']);
        }
        Color::Black
    } else {
        proof {
            assert(side_f@ != seq!['w'] && side_f@ != seq!['b']) by {
                assert(seq!['w'].len() == 1 && seq!['b'].len() == 1);
            };
        }
        return Err(FenError::InvalidSideColor);
    };

    let castling_f = if fields.len() > 2 {
        &fields[2]
    } else {
        &empty
    };
    proof {
        assert(castling_f@ == spec_field(fs, 2));
    }
    let (w_castling, b_castling) = parse_castling(castling_f);

    let ep_f = if fields.len() > 3 {
        &fields[3]
    } else {
        &empty
    };
    proof {
        assert(ep_f@ == spec_field(fs, 3));
    }
    let en_passant = if ep_f.len() == 1 && ep_f[0] == '-' {
        proof {
            assert(ep_f@ =~= seq!['-']);
        }
        None
    } else {
        proof {
            assert(ep_f@ != seq!['-']) by {
                assert(seq!['-'].len() == 1);
            };
        }
        if ep_f.len() < 2 {
            return Err(FenError::InvalidSquare);
        }
        proof {
            assert(spec_square_from(ep_f@) == spec_square_from(seq![ep_f@[0], ep_f@[1]]));
        }
        match Square::from_two_chars(ep_f[0], ep_f[1]) {
            Ok(sq) => Some(sq),
            Err(e) => {
                return Err(e);
            },
        }
    };

    let half_f = if fields.len() > 4 {
        &fields[4]
    } else {
        &empty
    };
    proof {
        assert(half_f@ == spec_field(fs, 4));
    }
    let halfturn = match parse_halfmove(half_f) {
        Ok(n) => n,
        Err(e) => {
            return Err(e);
        },
    };

    let w_pieces_all = w_pieces.combine();
    let b_pieces_all = b_pieces.combine();
    let mut pos = Position {
        gamestate: GameState::Normal,
        side,
        halfturn,
        w_castling,
        b_castling,
        en_passant,
        w_pieces_all,
        w_pieces,
        w_attacks_all: BitBoard::new(),
        w_attacks: SideMap::new(),
        b_pieces_all,
        b_pieces,
        b_attacks_all: BitBoard::new(),
        b_attacks: SideMap::new(),
        history: Vec::new(),
        legal_moves: Vec::new(),
    };
    pos.update_attack_maps();
    Ok(pos)
}

impl Position {
    /// Decodes a position from a single space-separated notation line;
    /// the same contract as the free [`from_fen`].
    pub fn from_fen(fen: String) -> (r: Result<Position, FenError>)
        ensures
            r matches Ok(p) ==> spec_from_fen(fen@) matches Ok(d) && position_matches(p, d),
            r matches Err(e) ==> spec_from_fen(fen@) == Err::<FenData, FenError>(e),
    {
        from_fen(fen)
    }
}

} // verus!
