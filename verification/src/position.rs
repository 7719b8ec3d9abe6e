//! A complete position: both sides' piece boards, cached occupancy unions,
//! derived attack boards, side to move, castling rights, en-passant target,
//! halfmove counter, and the move history that makes moves reversible.

use vstd::prelude::*;

use crate::attack::{
    bishop_attacks, get_piece_attack_map, king_attacks, knight_attacks, pawn_attacks,
    queen_attacks, rook_attacks,
};
use crate::bitboard::{
    bb_with, bb_without, coords_ok, lemma_bb_move_roundtrip, lemma_bb_unset_set_roundtrip, sq_set,
    BitBoard,
};
use crate::board::{Castling, SideMap};
use crate::movegen::Move;
use crate::piece::{Color, PieceType};
use crate::square::Square;

verus! {

/// The game-level tag of a position.  Nothing here derives it from the
/// board; it is an explicit extension point for rule-level analysis.
#[derive(Clone, Copy, Debug, PartialEq, Eq)]
pub enum GameState {
    Normal,
    InCheck(Color),
    Draw,
    Won(Color),
}

/// A complete, self-consistent snapshot of a game.
///
/// The two `*_pieces_all` boards are caches of the union of the matching
/// `SideMap` and must never diverge from it; the attack boards are derived
/// on demand by [`Position::update_attack_maps`] and are never patched
/// incrementally.
#[derive(Clone, Debug, PartialEq, Eq)]
pub struct Position {
    pub gamestate: GameState,
    pub side: Color,
    pub halfturn: usize,
    pub w_castling: Castling,
    pub b_castling: Castling,
    pub en_passant: Option<Square>,
    pub w_pieces_all: BitBoard,
    pub w_pieces: SideMap,
    pub w_attacks_all: BitBoard,
    pub w_attacks: SideMap,
    pub b_pieces_all: BitBoard,
    pub b_pieces: SideMap,
    pub b_attacks_all: BitBoard,
    pub b_attacks: SideMap,
    pub history: Vec<Move>,
    pub legal_moves: Vec<Move>,
}

/// The slice of a position that applying or undoing a move touches: both
/// sides' piece boards, the two occupancy unions, and the history.
#[verifier::ext_equal]
pub struct BoardCore {
    pub w: SideMap,
    pub w_all: u64,
    pub b: SideMap,
    pub b_all: u64,
    pub hist: Seq<Move>,
}

/// The move-relevant slice of a position.
pub open spec fn boards_of(p: Position) -> BoardCore {
    BoardCore {
        w: p.w_pieces,
        w_all: p.w_pieces_all@,
        b: p.b_pieces,
        b_all: p.b_pieces_all@,
        hist: p.history@,
    }
}

/// What applying move `m` for `side` does to the boards: the mover's
/// per-kind board and occupancy union lose the origin bit and gain the
/// destination bit; a declared capture clears the destination bit on the
/// opponent's matching boards; the move is appended to the history.
pub open spec fn apply_move(c: BoardCore, side: Color, m: Move) -> BoardCore {
    let ff = m.from.file as int;
    let fr = m.from.rank as int;
    let tf = m.to.file as int;
    let tr = m.to.rank as int;
    let mover = if side == Color::White {
        c.w
    } else {
        c.b
    };
    let mover_all = if side == Color::White {
        c.w_all
    } else {
        c.b_all
    };
    let moved = mover.spec_update(
        m.ptype,
        bb_with(bb_without(mover.spec_board(m.ptype), ff, fr), tf, tr),
    );
    let moved_all = bb_with(bb_without(mover_all, ff, fr), tf, tr);
    let opp = if side == Color::White {
        c.b
    } else {
        c.w
    };
    let opp_all = if side == Color::White {
        c.b_all
    } else {
        c.w_all
    };
    let opp_after = match m.change.captured {
        Some(p) => opp.spec_update(p, bb_without(opp.spec_board(p), tf, tr)),
        None => opp,
    };
    let opp_all_after = match m.change.captured {
        Some(_) => bb_without(opp_all, tf, tr),
        None => opp_all,
    };
    if side == Color::White {
        BoardCore {
            w: moved,
            w_all: moved_all,
            b: opp_after,
            b_all: opp_all_after,
            hist: c.hist.push(m),
        }
    } else {
        BoardCore {
            w: opp_after,
            w_all: opp_all_after,
            b: moved,
            b_all: moved_all,
            hist: c.hist.push(m),
        }
    }
}

/// What undoing the most recent move for `side` does to the boards: the
/// exact mirror of [`apply_move`], driven by the history's last entry.
pub open spec fn undo_move(c: BoardCore, side: Color) -> BoardCore
    recommends
        c.hist.len() > 0,
{
    let m = c.hist.last();
    let ff = m.from.file as int;
    let fr = m.from.rank as int;
    let tf = m.to.file as int;
    let tr = m.to.rank as int;
    let mover = if side == Color::White {
        c.w
    } else {
        c.b
    };
    let mover_all = if side == Color::White {
        c.w_all
    } else {
        c.b_all
    };
    let moved = mover.spec_update(
        m.ptype,
        bb_without(bb_with(mover.spec_board(m.ptype), ff, fr), tf, tr),
    );
    let moved_all = bb_without(bb_with(mover_all, ff, fr), tf, tr);
    let opp = if side == Color::White {
        c.b
    } else {
        c.w
    };
    let opp_all = if side == Color::White {
        c.b_all
    } else {
        c.w_all
    };
    let opp_after = match m.change.captured {
        Some(p) => opp.spec_update(p, bb_with(opp.spec_board(p), tf, tr)),
        None => opp,
    };
    let opp_all_after = match m.change.captured {
        Some(_) => bb_with(opp_all, tf, tr),
        None => opp_all,
    };
    if side == Color::White {
        BoardCore {
            w: moved,
            w_all: moved_all,
            b: opp_after,
            b_all: opp_all_after,
            hist: c.hist.drop_last(),
        }
    } else {
        BoardCore {
            w: opp_after,
            w_all: opp_all_after,
            b: moved,
            b_all: moved_all,
            hist: c.hist.drop_last(),
        }
    }
}

/// A move is fit to apply for `side`: both squares on the board and
/// distinct, the mover's piece stands on the origin and not on the
/// destination (on its own kind's board and on the occupancy union), and a
/// declared capture actually stands on the destination.
pub open spec fn move_applicable(c: BoardCore, side: Color, m: Move) -> bool {
    let ff = m.from.file as int;
    let fr = m.from.rank as int;
    let tf = m.to.file as int;
    let tr = m.to.rank as int;
    let mover = if side == Color::White {
        c.w
    } else {
        c.b
    };
    let mover_all = if side == Color::White {
        c.w_all
    } else {
        c.b_all
    };
    let opp = if side == Color::White {
        c.b
    } else {
        c.w
    };
    let opp_all = if side == Color::White {
        c.b_all
    } else {
        c.w_all
    };
    &&& m.from.on_board()
    &&& m.to.on_board()
    &&& !(m.from == m.to)
    &&& sq_set(mover.spec_board(m.ptype), ff, fr)
    &&& !sq_set(mover.spec_board(m.ptype), tf, tr)
    &&& sq_set(mover_all, ff, fr)
    &&& !sq_set(mover_all, tf, tr)
    &&& match m.change.captured {
        Some(p) => sq_set(opp.spec_board(p), tf, tr) && sq_set(opp_all, tf, tr),
        None => true,
    }
}

/// Round-trip law: undoing immediately after applying a fit move restores
/// the boards, the occupancy unions and the history, down to every bit.
pub proof fn lemma_apply_then_undo(c: BoardCore, side: Color, m: Move)
    requires
        move_applicable(c, side, m),
    ensures
        undo_move(apply_move(c, side, m), side) == c,
{
    let ff = m.from.file as int;
    let fr = m.from.rank as int;
    let tf = m.to.file as int;
    let tr = m.to.rank as int;
    let mover = if side == Color::White {
        c.w
    } else {
        c.b
    };
    let mover_all = if side == Color::White {
        c.w_all
    } else {
        c.b_all
    };
    let opp = if side == Color::White {
        c.b
    } else {
        c.w
    };
    let opp_all = if side == Color::White {
        c.b_all
    } else {
        c.w_all
    };
    let applied = apply_move(c, side, m);
    assert(applied.hist.last() == m);
    assert(applied.hist.drop_last() =~= c.hist);
    assert(!(ff == tf && fr == tr));
    lemma_bb_move_roundtrip(mover.spec_board(m.ptype), ff, fr, tf, tr);
    lemma_bb_move_roundtrip(mover_all, ff, fr, tf, tr);
    let moved = mover.spec_update(
        m.ptype,
        bb_with(bb_without(mover.spec_board(m.ptype), ff, fr), tf, tr),
    );
    assert(moved.spec_update(
        m.ptype,
        bb_without(bb_with(moved.spec_board(m.ptype), ff, fr), tf, tr),
    ) == mover);
    match m.change.captured {
        Some(p) => {
            lemma_bb_unset_set_roundtrip(opp.spec_board(p), tf, tr);
            lemma_bb_unset_set_roundtrip(opp_all, tf, tr);
            let opp_after = opp.spec_update(p, bb_without(opp.spec_board(p), tf, tr));
            assert(opp_after.spec_update(p, bb_with(opp_after.spec_board(p), tf, tr)) == opp);
        },
        None => {},
    }
    assert(undo_move(applied, side) =~= c);
}

/// The cached occupancy unions agree with the per-kind boards.
pub open spec fn occupancy_ok(p: Position) -> bool {
    &&& p.w_pieces_all@ == p.w_pieces.spec_all()
    &&& p.b_pieces_all@ == p.b_pieces.spec_all()
}

/// One side's six attack boards are exactly the attack sets of its piece
/// boards, computed against the given occupancy unions.
pub open spec fn side_attacks_ok(
    att: SideMap,
    pieces: SideMap,
    c: Color,
    friendly_all: u64,
    opposing_all: u64,
) -> bool {
    &&& forall|f: int, r: int|
        coords_ok(f, r) ==> sq_set(att.king@, f, r) == king_attacks(pieces.king@, f, r)
    &&& forall|f: int, r: int|
        coords_ok(f, r) ==> sq_set(att.queen@, f, r) == queen_attacks(
            pieces.queen@,
            friendly_all | opposing_all,
            f,
            r,
        )
    &&& forall|f: int, r: int|
        coords_ok(f, r) ==> sq_set(att.rook@, f, r) == rook_attacks(
            pieces.rook@,
            friendly_all | opposing_all,
            f,
            r,
        )
    &&& forall|f: int, r: int|
        coords_ok(f, r) ==> sq_set(att.bishop@, f, r) == bishop_attacks(
            pieces.bishop@,
            friendly_all | opposing_all,
            f,
            r,
        )
    &&& forall|f: int, r: int|
        coords_ok(f, r) ==> sq_set(att.knight@, f, r) == knight_attacks(pieces.knight@, f, r)
    &&& forall|f: int, r: int|
        coords_ok(f, r) ==> sq_set(att.pawn@, f, r) == pawn_attacks(pieces.pawn@, c, f, r)
}

/// Both sides' attack boards and their cached unions are up to date with
/// the current occupancy.
pub open spec fn attacks_ok(p: Position) -> bool {
    &&& side_attacks_ok(p.w_attacks, p.w_pieces, Color::White, p.w_pieces_all@, p.b_pieces_all@)
    &&& side_attacks_ok(p.b_attacks, p.b_pieces, Color::Black, p.b_pieces_all@, p.w_pieces_all@)
    &&& p.w_attacks_all@ == p.w_attacks.spec_all()
    &&& p.b_attacks_all@ == p.b_attacks.spec_all()
}

/// Index of a square in the rendering snapshot: `rank * 8 + (7 - file)`,
/// file-mirrored as the terminal-printing collaborator expects.
pub open spec fn snap_index(f: int, r: int) -> int {
    r * 8 + 7 - f
}

/// The character shown for one square: ' ' when empty, the uppercase piece
/// letter for white, the lowercase one for black.  Where boards overlap —
/// which a well-formed position never has — black wins over white and, per
/// side, pawn over knight over bishop over rook over queen over king.
pub open spec fn square_char(w: SideMap, b: SideMap, f: int, r: int) -> char {
    if sq_set(b.pawn@, f, r) {
        'p'
    } else if sq_set(b.knight@, f, r) {
        'n'
    } else if sq_set(b.bishop@, f, r) {
        'b'
    } else if sq_set(b.rook@, f, r) {
        'r'
    } else if sq_set(b.queen@, f, r) {
        'q'
    } else if sq_set(b.king@, f, r) {
        'k'
    } else if sq_set(w.pawn@, f, r) {
        'P'
    } else if sq_set(w.knight@, f, r) {
        'N'
    } else if sq_set(w.bishop@, f, r) {
        'B'
    } else if sq_set(w.rook@, f, r) {
        'R'
    } else if sq_set(w.queen@, f, r) {
        'Q'
    } else if sq_set(w.king@, f, r) {
        'K'
    } else {
        ' '
    }
}

/// Writes one board's squares into the snapshot grid as character `c`.
fn stamp_board(out: &mut Vec<char>, bd: &BitBoard, c: char)
    requires
        old(out)@.len() == 64,
    ensures
        final(out)@.len() == 64,
        forall|f: int, r: int|
            coords_ok(f, r) ==> final(out)@[#[trigger] snap_index(f, r)] == (if sq_set(bd@, f, r) {
                c
            } else {
                old(out)@[snap_index(f, r)]
            }),
{
    let ghost start = out@;
    let mut x: u32 = 0;
    while x < 8
        invariant
            x <= 8,
            out@.len() == 64,
            forall|f: int, r: int|
                coords_ok(f, r) ==> out@[#[trigger] snap_index(f, r)] == (if crate::attack::src_before(
                    f,
                    r,
                    x as int,
                    0,
                ) && sq_set(bd@, f, r) {
                    c
                } else {
                    start[snap_index(f, r)]
                }),
        decreases 8 - x,
    {
        let mut y: u32 = 0;
        while y < 8
            invariant
                x <= 7,
                y <= 8,
                out@.len() == 64,
                forall|f: int, r: int|
                    coords_ok(f, r) ==> out@[#[trigger] snap_index(f, r)] == (
                    if crate::attack::src_before(f, r, x as int, y as int) && sq_set(bd@, f, r) {
                        c
                    } else {
                        start[snap_index(f, r)]
                    }),
            decreases 8 - y,
        {
            let hit = match bd.get(x, y) {
                Some(true) => true,
                _ => false,
            };
            if hit {
                let idx: usize = (y as usize) * 8 + (7 - x as usize);
                proof {
                    assert(idx == snap_index(x as int, y as int));
                }
                out[idx] = c;
            }
            proof {
                assert(forall|f: int, r: int|
                    coords_ok(f, r) && #[trigger] snap_index(f, r) == snap_index(
                        x as int,
                        y as int,
                    ) ==> f == x as int && r == y as int);
            }
            y = y + 1;
        }
        x = x + 1;
    }
}

impl Position {
    /// Applies a move for the side to move.  Assumes the move is
    /// pseudo-legal and checks nothing: the origin bit moves to the
    /// destination on the mover's kind board and occupancy union, a
    /// declared capture is cleared from the opponent's boards, and the move
    /// is appended to the history.  Side to move, castling rights,
    /// en-passant target, halfmove counter and attack boards are left for
    /// the caller.
    pub fn change_board(&mut self, m: Move)
        ensures
            boards_of(*final(self)) == apply_move(boards_of(*old(self)), old(self).side, m),
            final(self).gamestate == old(self).gamestate,
            final(self).side == old(self).side,
            final(self).halfturn == old(self).halfturn,
            final(self).w_castling == old(self).w_castling,
            final(self).b_castling == old(self).b_castling,
            final(self).en_passant == old(self).en_passant,
            final(self).w_attacks == old(self).w_attacks,
            final(self).w_attacks_all == old(self).w_attacks_all,
            final(self).b_attacks == old(self).b_attacks,
            final(self).b_attacks_all == old(self).b_attacks_all,
            final(self).legal_moves == old(self).legal_moves,
    {
        let x_from = m.from.file;
        let y_from = m.from.rank;
        let x_to = m.to.file;
        let y_to = m.to.rank;
        match self.side {
            Color::White => {
                self.w_pieces_all.unset(x_from, y_from);
                self.w_pieces_all.set(x_to, y_to);
                self.w_pieces.unset(m.ptype, x_from, y_from);
                self.w_pieces.set(m.ptype, x_to, y_to);
                if let Some(piece) = m.change.captured {
                    self.b_pieces_all.unset(x_to, y_to);
                    self.b_pieces.unset(piece, x_to, y_to);
                }
            },
            Color::Black => {
                self.b_pieces_all.unset(x_from, y_from);
                self.b_pieces_all.set(x_to, y_to);
                self.b_pieces.unset(m.ptype, x_from, y_from);
                self.b_pieces.set(m.ptype, x_to, y_to);
                if let Some(piece) = m.change.captured {
                    self.w_pieces_all.unset(x_to, y_to);
                    self.w_pieces.unset(piece, x_to, y_to);
                }
            },
        }
        self.history.push(m);
    }

    /// Undoes the most recent move: pops it from the history and performs
    /// the exact mirror of [`Position::change_board`].  The history must
    /// not be empty.
    pub fn reverse_last_change(&mut self)
        requires
            old(self).history@.len() > 0,
        ensures
            boards_of(*final(self)) == undo_move(boards_of(*old(self)), old(self).side),
            final(self).gamestate == old(self).gamestate,
            final(self).side == old(self).side,
            final(self).halfturn == old(self).halfturn,
            final(self).w_castling == old(self).w_castling,
            final(self).b_castling == old(self).b_castling,
            final(self).en_passant == old(self).en_passant,
            final(self).w_attacks == old(self).w_attacks,
            final(self).w_attacks_all == old(self).w_attacks_all,
            final(self).b_attacks == old(self).b_attacks,
            final(self).b_attacks_all == old(self).b_attacks_all,
            final(self).legal_moves == old(self).legal_moves,
    {
        let m = self.history.pop().unwrap();
        let x_from = m.from.file;
        let y_from = m.from.rank;
        let x_to = m.to.file;
        let y_to = m.to.rank;
        match self.side {
            Color::White => {
                self.w_pieces_all.set(x_from, y_from);
                self.w_pieces_all.unset(x_to, y_to);
                self.w_pieces.set(m.ptype, x_from, y_from);
                self.w_pieces.unset(m.ptype, x_to, y_to);
                if let Some(piece) = m.change.captured {
                    self.b_pieces_all.set(x_to, y_to);
                    self.b_pieces.set(piece, x_to, y_to);
                }
            },
            Color::Black => {
                self.b_pieces_all.set(x_from, y_from);
                self.b_pieces_all.unset(x_to, y_to);
                self.b_pieces.set(m.ptype, x_from, y_from);
                self.b_pieces.unset(m.ptype, x_to, y_to);
                if let Some(piece) = m.change.captured {
                    self.w_pieces_all.set(x_to, y_to);
                    self.w_pieces.set(piece, x_to, y_to);
                }
            },
        }
    }

    /// Rebuilds both colors' attack boards and their unions from the
    /// current occupancy.  Must run after any occupancy change before
    /// attack data is read; everything else is left untouched.
    pub fn update_attack_maps(&mut self)
        ensures
            attacks_ok(*final(self)),
            final(self).gamestate == old(self).gamestate,
            final(self).side == old(self).side,
            final(self).halfturn == old(self).halfturn,
            final(self).w_castling == old(self).w_castling,
            final(self).b_castling == old(self).b_castling,
            final(self).en_passant == old(self).en_passant,
            final(self).w_pieces == old(self).w_pieces,
            final(self).w_pieces_all == old(self).w_pieces_all,
            final(self).b_pieces == old(self).b_pieces,
            final(self).b_pieces_all == old(self).b_pieces_all,
            final(self).history == old(self).history,
            final(self).legal_moves == old(self).legal_moves,
    {
        let new_w_attacks = SideMap {
            king: get_piece_attack_map(
                PieceType::King,
                Color::White,
                &self.w_pieces.king,
                &self.w_pieces_all,
                &self.b_pieces_all,
            ),
            queen: get_piece_attack_map(
                PieceType::Queen,
                Color::White,
                &self.w_pieces.queen,
                &self.w_pieces_all,
                &self.b_pieces_all,
            ),
            rook: get_piece_attack_map(
                PieceType::Rook,
                Color::White,
                &self.w_pieces.rook,
                &self.w_pieces_all,
                &self.b_pieces_all,
            ),
            bishop: get_piece_attack_map(
                PieceType::Bishop,
                Color::White,
                &self.w_pieces.bishop,
                &self.w_pieces_all,
                &self.b_pieces_all,
            ),
            knight: get_piece_attack_map(
                PieceType::Knight,
                Color::White,
                &self.w_pieces.knight,
                &self.w_pieces_all,
                &self.b_pieces_all,
            ),
            pawn: get_piece_attack_map(
                PieceType::Pawn,
                Color::White,
                &self.w_pieces.pawn,
                &self.w_pieces_all,
                &self.b_pieces_all,
            ),
        };
        let new_w_attacks_all = new_w_attacks.combine();
        let new_b_attacks = SideMap {
            king: get_piece_attack_map(
                PieceType::King,
                Color::Black,
                &self.b_pieces.king,
                &self.b_pieces_all,
                &self.w_pieces_all,
            ),
            queen: get_piece_attack_map(
                PieceType::Queen,
                Color::Black,
                &self.b_pieces.queen,
                &self.b_pieces_all,
                &self.w_pieces_all,
            ),
            rook: get_piece_attack_map(
                PieceType::Rook,
                Color::Black,
                &self.b_pieces.rook,
                &self.b_pieces_all,
                &self.w_pieces_all,
            ),
            bishop: get_piece_attack_map(
                PieceType::Bishop,
                Color::Black,
                &self.b_pieces.bishop,
                &self.b_pieces_all,
                &self.w_pieces_all,
            ),
            knight: get_piece_attack_map(
                PieceType::Knight,
                Color::Black,
                &self.b_pieces.knight,
                &self.b_pieces_all,
                &self.w_pieces_all,
            ),
            pawn: get_piece_attack_map(
                PieceType::Pawn,
                Color::Black,
                &self.b_pieces.pawn,
                &self.b_pieces_all,
                &self.w_pieces_all,
            ),
        };
        let new_b_attacks_all = new_b_attacks.combine();
        self.w_attacks = new_w_attacks;
        self.w_attacks_all = new_w_attacks_all;
        self.b_attacks = new_b_attacks;
        self.b_attacks_all = new_b_attacks_all;
    }

    /// The rendering snapshot: a 64-character grid indexed by
    /// `rank * 8 + (7 - file)`, ' ' for an empty square, uppercase letters
    /// for white pieces and lowercase for black.
    pub fn into_char_vec(&self) -> (out: Vec<char>)
        ensures
            out@.len() == 64,
            forall|f: int, r: int|
                coords_ok(f, r) ==> out@[#[trigger] snap_index(f, r)] == square_char(
                    self.w_pieces,
                    self.b_pieces,
                    f,
                    r,
                ),
    {
        let mut out: Vec<char> = Vec::new();
        let mut i: usize = 0;
        while i < 64
            invariant
                i <= 64,
                out@.len() == i,
                forall|j: int| 0 <= j < i ==> out@[j] == ' ',
            decreases 64 - i,
        {
            out.push(' ');
            i = i + 1;
        }
        stamp_board(&mut out, &self.w_pieces.king, 'K');
        stamp_board(&mut out, &self.w_pieces.queen, 'Q');
        stamp_board(&mut out, &self.w_pieces.rook, 'R');
        stamp_board(&mut out, &self.w_pieces.bishop, 'B');
        stamp_board(&mut out, &self.w_pieces.knight, 'N');
        stamp_board(&mut out, &self.w_pieces.pawn, 'P');
        stamp_board(&mut out, &self.b_pieces.king, 'k');
        stamp_board(&mut out, &self.b_pieces.queen, 'q');
        stamp_board(&mut out, &self.b_pieces.rook, 'r');
        stamp_board(&mut out, &self.b_pieces.bishop, 'b');
        stamp_board(&mut out, &self.b_pieces.knight, 'n');
        stamp_board(&mut out, &self.b_pieces.pawn, 'p');
        out
    }
}

} // verus!
