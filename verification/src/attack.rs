//! Pseudo-legal attack generation.
//!
//! Each generator takes one piece kind's occupancy board (plus, for sliding
//! pieces, the mover's and the opponent's full occupancy) and returns the
//! board of every attacked square.  Attacks ignore check and pin legality;
//! a sliding ray stops at, and includes, the first occupied square, friendly
//! or enemy.  Pawn attacks are the two diagonal capture squares only — the
//! forward push is not an attack.

use vstd::prelude::*;

use crate::bitboard::{coords_ok, sq_set, BitBoard};
use crate::piece::{Color, PieceType};

verus! {

broadcast use crate::bitboard::group_bitboard_bits;

/// A king standing on (sf, sr) attacks (f, r): one of the up-to-8 neighbors.
pub open spec fn king_reaches(sf: int, sr: int, f: int, r: int) -> bool {
    &&& coords_ok(f, r)
    &&& !(f == sf && r == sr)
    &&& -1 <= f - sf <= 1
    &&& -1 <= r - sr <= 1
}

/// A knight standing on (sf, sr) attacks (f, r): one of the 8 L-shaped
/// offsets, clipped at the board edge.
pub open spec fn knight_reaches(sf: int, sr: int, f: int, r: int) -> bool {
    &&& coords_ok(f, r)
    &&& ((f - sf == 1 || f - sf == -1) && (r - sr == 2 || r - sr == -2) || (f - sf == 2 || f - sf
        == -2) && (r - sr == 1 || r - sr == -1))
}

/// A pawn of color `c` standing on (sf, sr) attacks (f, r): the two
/// diagonal-forward capture squares, forward meaning rank+1 for white and
/// rank-1 for black, clipped at the board edge.
pub open spec fn pawn_reaches(c: Color, sf: int, sr: int, f: int, r: int) -> bool {
    &&& coords_ok(f, r)
    &&& (f == sf - 1 || f == sf + 1)
    &&& r == (if c == Color::White {
        sr + 1
    } else {
        sr - 1
    })
}

/// How many unit steps along direction (df, dr) lead from (sf, sr) to
/// (f, r), provided (f, r) lies on that ray.
pub open spec fn ray_len(sf: int, sr: int, df: int, dr: int, f: int, r: int) -> int {
    if df != 0 {
        (f - sf) * df
    } else {
        (r - sr) * dr
    }
}

/// (f, r) lies on the ray from (sf, sr) in direction (df, dr), at least one
/// step out.
pub open spec fn on_ray(sf: int, sr: int, df: int, dr: int, f: int, r: int) -> bool {
    let i = ray_len(sf, sr, df, dr, f, r);
    i >= 1 && f == sf + i * df && r == sr + i * dr
}

/// The square `j` steps out from (sf, sr) along (df, dr) is occupied.
pub open spec fn ray_sq_occupied(occ: u64, sf: int, sr: int, df: int, dr: int, j: int) -> bool {
    sq_set(occ, sf + j * df, sr + j * dr)
}

/// A sliding piece on (sf, sr) attacks (f, r) along direction (df, dr):
/// (f, r) is on the ray, on the board, and every square strictly between is
/// empty in `occ`.  The square (f, r) itself may be occupied — a ray marks
/// its first blocker and stops behind it.
pub open spec fn ray_reaches(occ: u64, sf: int, sr: int, df: int, dr: int, f: int, r: int) -> bool {
    &&& coords_ok(f, r)
    &&& on_ray(sf, sr, df, dr, f, r)
    &&& forall|j: int|
        1 <= j < ray_len(sf, sr, df, dr, f, r) ==> !#[trigger] ray_sq_occupied(
            occ,
            sf,
            sr,
            df,
            dr,
            j,
        )
}

/// A rook on (sf, sr) attacks (f, r): along one of the four orthogonal rays.
pub open spec fn rook_reaches(occ: u64, sf: int, sr: int, f: int, r: int) -> bool {
    ||| ray_reaches(occ, sf, sr, 1, 0, f, r)
    ||| ray_reaches(occ, sf, sr, -1, 0, f, r)
    ||| ray_reaches(occ, sf, sr, 0, 1, f, r)
    ||| ray_reaches(occ, sf, sr, 0, -1, f, r)
}

/// A bishop on (sf, sr) attacks (f, r): along one of the four diagonal rays.
pub open spec fn bishop_reaches(occ: u64, sf: int, sr: int, f: int, r: int) -> bool {
    ||| ray_reaches(occ, sf, sr, 1, 1, f, r)
    ||| ray_reaches(occ, sf, sr, -1, 1, f, r)
    ||| ray_reaches(occ, sf, sr, -1, -1, f, r)
    ||| ray_reaches(occ, sf, sr, 1, -1, f, r)
}

/// Some on-board source square set in `b` reaches (f, r).
pub open spec fn from_sources(
    b: u64,
    reach: spec_fn(int, int, int, int) -> bool,
    f: int,
    r: int,
) -> bool {
    exists|sf: int, sr: int| coords_ok(sf, sr) && #[trigger] sq_set(b, sf, sr) && reach(sf, sr, f, r)
}

/// Source (sf, sr) comes before (ff, rr) in the file-major scan order.
pub open spec fn src_before(sf: int, sr: int, ff: int, rr: int) -> bool {
    sf < ff || (sf == ff && sr < rr)
}

/// Some source square set in `b` and already scanned (before (ff, rr) in
/// file-major order) reaches (f, r).
pub open spec fn from_sources_upto(
    b: u64,
    reach: spec_fn(int, int, int, int) -> bool,
    ff: int,
    rr: int,
    f: int,
    r: int,
) -> bool {
    exists|sf: int, sr: int|
        coords_ok(sf, sr) && src_before(sf, sr, ff, rr) && #[trigger] sq_set(b, sf, sr) && reach(
            sf,
            sr,
            f,
            r,
        )
}

/// Before any source has been scanned, nothing is reached.
pub proof fn lemma_sources_start(
    b: u64,
    reach: spec_fn(int, int, int, int) -> bool,
    f: int,
    r: int,
)
    ensures
        !from_sources_upto(b, reach, 0, 0, f, r),
{
}

/// Scanning one more source square extends the reached set by that source's
/// own reach, when the source bit is set.
pub proof fn lemma_sources_step(
    b: u64,
    reach: spec_fn(int, int, int, int) -> bool,
    ff: int,
    rr: int,
    f: int,
    r: int,
)
    requires
        coords_ok(ff, rr),
    ensures
        from_sources_upto(b, reach, ff, rr + 1, f, r) == (from_sources_upto(b, reach, ff, rr, f, r)
            || (sq_set(b, ff, rr) && reach(ff, rr, f, r))),
{
    if from_sources_upto(b, reach, ff, rr + 1, f, r) {
        let (sf, sr) = choose|sf: int, sr: int|
            coords_ok(sf, sr) && src_before(sf, sr, ff, rr + 1) && #[trigger] sq_set(b, sf, sr)
                && reach(sf, sr, f, r);
        if sf == ff && sr == rr {
            assert(sq_set(b, ff, rr) && reach(ff, rr, f, r));
        } else {
            assert(src_before(sf, sr, ff, rr));
            assert(from_sources_upto(b, reach, ff, rr, f, r));
        }
    }
    if from_sources_upto(b, reach, ff, rr, f, r) {
        let (sf, sr) = choose|sf: int, sr: int|
            coords_ok(sf, sr) && src_before(sf, sr, ff, rr) && #[trigger] sq_set(b, sf, sr)
                && reach(sf, sr, f, r);
        assert(src_before(sf, sr, ff, rr + 1));
        assert(from_sources_upto(b, reach, ff, rr + 1, f, r));
    }
    if sq_set(b, ff, rr) && reach(ff, rr, f, r) {
        assert(src_before(ff, rr, ff, rr + 1));
        assert(from_sources_upto(b, reach, ff, rr + 1, f, r));
    }
}

/// Finishing one file of the scan is the same as standing at the start of
/// the next file.
pub proof fn lemma_sources_next_file(
    b: u64,
    reach: spec_fn(int, int, int, int) -> bool,
    ff: int,
    f: int,
    r: int,
)
    ensures
        from_sources_upto(b, reach, ff, 8, f, r) == from_sources_upto(b, reach, ff + 1, 0, f, r),
{
    assert(forall|sf: int, sr: int|
        coords_ok(sf, sr) ==> (src_before(sf, sr, ff, 8) == src_before(sf, sr, ff + 1, 0)));
}

/// Having scanned all eight files covers every source.
pub proof fn lemma_sources_done(
    b: u64,
    reach: spec_fn(int, int, int, int) -> bool,
    f: int,
    r: int,
)
    ensures
        from_sources_upto(b, reach, 8, 0, f, r) == from_sources(b, reach, f, r),
{
}

/// The king's reach as a source predicate.
pub open spec fn king_reach_fn() -> spec_fn(int, int, int, int) -> bool {
    |sf: int, sr: int, f: int, r: int| king_reaches(sf, sr, f, r)
}

/// The knight's reach as a source predicate.
pub open spec fn knight_reach_fn() -> spec_fn(int, int, int, int) -> bool {
    |sf: int, sr: int, f: int, r: int| knight_reaches(sf, sr, f, r)
}

/// A pawn's reach as a source predicate.
pub open spec fn pawn_reach_fn(c: Color) -> spec_fn(int, int, int, int) -> bool {
    |sf: int, sr: int, f: int, r: int| pawn_reaches(c, sf, sr, f, r)
}

/// The rook's reach through the given occupancy as a source predicate.
pub open spec fn rook_reach_fn(occ: u64) -> spec_fn(int, int, int, int) -> bool {
    |sf: int, sr: int, f: int, r: int| rook_reaches(occ, sf, sr, f, r)
}

/// The bishop's reach through the given occupancy as a source predicate.
pub open spec fn bishop_reach_fn(occ: u64) -> spec_fn(int, int, int, int) -> bool {
    |sf: int, sr: int, f: int, r: int| bishop_reaches(occ, sf, sr, f, r)
}

/// (f, r) is attacked by some king bit of `b`.
pub open spec fn king_attacks(b: u64, f: int, r: int) -> bool {
    from_sources(b, king_reach_fn(), f, r)
}

/// (f, r) is attacked by some knight bit of `b`.
pub open spec fn knight_attacks(b: u64, f: int, r: int) -> bool {
    from_sources(b, knight_reach_fn(), f, r)
}

/// (f, r) is attacked by some pawn bit of `b`, for a pawn of color `c`.
pub open spec fn pawn_attacks(b: u64, c: Color, f: int, r: int) -> bool {
    from_sources(b, pawn_reach_fn(c), f, r)
}

/// (f, r) is attacked by some rook bit of `b` through occupancy `occ`.
pub open spec fn rook_attacks(b: u64, occ: u64, f: int, r: int) -> bool {
    from_sources(b, rook_reach_fn(occ), f, r)
}

/// (f, r) is attacked by some bishop bit of `b` through occupancy `occ`.
pub open spec fn bishop_attacks(b: u64, occ: u64, f: int, r: int) -> bool {
    from_sources(b, bishop_reach_fn(occ), f, r)
}

/// (f, r) is attacked by some queen bit of `b` through occupancy `occ`:
/// the union of the rook pattern and the bishop pattern.
pub open spec fn queen_attacks(b: u64, occ: u64, f: int, r: int) -> bool {
    rook_attacks(b, occ, f, r) || bishop_attacks(b, occ, f, r)
}

/// Marks the up-to-8 king moves from one source square.
fn mark_king(out: &mut BitBoard, sf: u32, sr: u32)
    requires
        sf <= 7,
        sr <= 7,
    ensures
        forall|f: int, r: int|
            coords_ok(f, r) ==> (sq_set(final(out)@, f, r) == (sq_set(old(out)@, f, r)
                || king_reaches(sf as int, sr as int, f, r))),
{
    if sf > 0 {
        out.set(sf - 1, sr);
        if sr > 0 {
            out.set(sf - 1, sr - 1);
        }
        out.set(sf - 1, sr + 1);
    }
    out.set(sf + 1, sr);
    if sr > 0 {
        out.set(sf + 1, sr - 1);
        out.set(sf, sr - 1);
    }
    out.set(sf + 1, sr + 1);
    out.set(sf, sr + 1);
}

/// Marks the up-to-8 knight moves from one source square.
fn mark_knight(out: &mut BitBoard, sf: u32, sr: u32)
    requires
        sf <= 7,
        sr <= 7,
    ensures
        forall|f: int, r: int|
            coords_ok(f, r) ==> (sq_set(final(out)@, f, r) == (sq_set(old(out)@, f, r)
                || knight_reaches(sf as int, sr as int, f, r))),
{
    if sf >= 1 {
        out.set(sf - 1, sr + 2);
        if sr >= 2 {
            out.set(sf - 1, sr - 2);
        }
    }
    out.set(sf + 1, sr + 2);
    if sr >= 2 {
        out.set(sf + 1, sr - 2);
    }
    if sf >= 2 {
        out.set(sf - 2, sr + 1);
        if sr >= 1 {
            out.set(sf - 2, sr - 1);
        }
    }
    out.set(sf + 2, sr + 1);
    if sr >= 1 {
        out.set(sf + 2, sr - 1);
    }
}

/// Marks the up-to-2 pawn capture squares from one source square.
fn mark_pawn(out: &mut BitBoard, c: Color, sf: u32, sr: u32)
    requires
        sf <= 7,
        sr <= 7,
    ensures
        forall|f: int, r: int|
            coords_ok(f, r) ==> (sq_set(final(out)@, f, r) == (sq_set(old(out)@, f, r)
                || pawn_reaches(c, sf as int, sr as int, f, r))),
{
    match c {
        Color::White => {
            out.set(sf + 1, sr + 1);
            if sf > 0 {
                out.set(sf - 1, sr + 1);
            }
        },
        Color::Black => {
            if sr > 0 {
                out.set(sf + 1, sr - 1);
                if sf > 0 {
                    out.set(sf - 1, sr - 1);
                }
            }
        },
    }
}

/// Walks one ray from (sf, sr) in direction (df, dr), marking every square
/// until and including the first occupied one; an unobstructed ray runs to
/// the board edge.
fn ray_scan(out: &mut BitBoard, occ: &BitBoard, sf: u32, sr: u32, df: i32, dr: i32)
    requires
        sf <= 7,
        sr <= 7,
        -1 <= df <= 1,
        -1 <= dr <= 1,
        !(df == 0 && dr == 0),
    ensures
        forall|f: int, r: int|
            coords_ok(f, r) ==> (sq_set(final(out)@, f, r) == (sq_set(old(out)@, f, r)
                || ray_reaches(occ@, sf as int, sr as int, df as int, dr as int, f, r))),
{
    let ghost s = sf as int;
    let ghost t = sr as int;
    let ghost d = df as int;
    let ghost e = dr as int;
    let ghost start = out@;
    let mut x: i32 = sf as i32 + df;
    let mut y: i32 = sr as i32 + dr;
    let ghost mut k: int = 1;
    loop
        invariant_except_break
            sf <= 7,
            sr <= 7,
            s == sf as int,
            t == sr as int,
            d == df as int,
            e == dr as int,
            -1 <= d <= 1,
            -1 <= e <= 1,
            !(d == 0 && e == 0),
            1 <= k <= 8,
            x as int == s + k * d,
            y as int == t + k * e,
            -1 <= x as int <= 8,
            -1 <= y as int <= 8,
            forall|j: int| 1 <= j < k ==> !#[trigger] ray_sq_occupied(occ@, s, t, d, e, j),
            forall|f: int, r: int|
                coords_ok(f, r) ==> (sq_set(out@, f, r) == (sq_set(start, f, r) || (on_ray(
                    s,
                    t,
                    d,
                    e,
                    f,
                    r,
                ) && ray_len(s, t, d, e, f, r) < k))),
        ensures
            forall|f: int, r: int|
                coords_ok(f, r) ==> (sq_set(out@, f, r) == (sq_set(start, f, r) || ray_reaches(
                    occ@,
                    s,
                    t,
                    d,
                    e,
                    f,
                    r,
                ))),
        decreases 9 - k,
    {
        if x < 0 || x > 7 || y < 0 || y > 7 {
            proof {
                assert forall|f: int, r: int|
                    coords_ok(f, r) && on_ray(s, t, d, e, f, r) implies ray_len(s, t, d, e, f, r)
                    < k by {
                    let i = ray_len(s, t, d, e, f, r);
                    if i >= k {
                        if x as int > 7 {
                            assert(d == 1);
                            assert(f == s + i * 1);
                            assert(x as int == s + k * 1);
                        } else if (x as int) < 0 {
                            assert(d == -1);
                            assert(f == s + i * (-1));
                            assert(x as int == s + k * (-1));
                        } else if y as int > 7 {
                            assert(d == 0);
                            assert(e == 1);
                            assert(r == t + i * 1);
                            assert(y as int == t + k * 1);
                        } else {
                            assert(d == 0);
                            assert(e == -1);
                            assert(r == t + i * (-1));
                            assert(y as int == t + k * (-1));
                        }
                    }
                };
            }
            break ;
        }
        let xu = x as u32;
        let yu = y as u32;
        proof {
            assert(ray_len(s, t, d, e, xu as int, yu as int) == k) by {
                if d == 1 {
                    assert((s + k * 1 - s) * 1 == k);
                } else if d == -1 {
                    assert((s + k * (-1) - s) * -1 == k);
                } else if e == 1 {
                    assert((t + k * 1 - t) * 1 == k);
                } else {
                    assert(e == -1);
                    assert(yu as int - t == k * (-1));
                    assert((yu as int - t) * (-1) == k) by (nonlinear_arith)
                        requires
                            yu as int - t == k * (-1),
                    ;
                }
            };
            assert(on_ray(s, t, d, e, xu as int, yu as int));
            assert forall|f: int, r: int|
                coords_ok(f, r) && on_ray(s, t, d, e, f, r) && ray_len(s, t, d, e, f, r)
                    == k implies f == xu as int && r == yu as int by {
                assert(f == s + k * d);
                assert(r == t + k * e);
            };
        }
        out.set(xu, yu);
        let stop = match occ.get(xu, yu) {
            Some(true) => true,
            _ => false,
        };
        proof {
            assert(ray_sq_occupied(occ@, s, t, d, e, k) == sq_set(occ@, xu as int, yu as int));
        }
        if stop {
            proof {
                assert forall|f: int, r: int| coords_ok(f, r) implies (sq_set(out@, f, r) == (
                sq_set(start, f, r) || ray_reaches(occ@, s, t, d, e, f, r))) by {
                    if on_ray(s, t, d, e, f, r) {
                        let i = ray_len(s, t, d, e, f, r);
                        if i > k {
                            assert(ray_sq_occupied(occ@, s, t, d, e, k));
                            assert(!ray_reaches(occ@, s, t, d, e, f, r));
                        }
                    }
                };
            }
            break ;
        }
        x = x + df;
        y = y + dr;
        proof {
            k = k + 1;
        }
    }
}

/// Marks the four orthogonal rays of a rook from one source square.
fn mark_rook(out: &mut BitBoard, occ: &BitBoard, sf: u32, sr: u32)
    requires
        sf <= 7,
        sr <= 7,
    ensures
        forall|f: int, r: int|
            coords_ok(f, r) ==> (sq_set(final(out)@, f, r) == (sq_set(old(out)@, f, r)
                || rook_reaches(occ@, sf as int, sr as int, f, r))),
{
    ray_scan(out, occ, sf, sr, 1, 0);
    ray_scan(out, occ, sf, sr, -1, 0);
    ray_scan(out, occ, sf, sr, 0, 1);
    ray_scan(out, occ, sf, sr, 0, -1);
}

/// The attack board of every king bit of `b`: for each set square, its
/// up-to-8 neighbors, clipped at the board edge.  Occupancy never blocks a
/// king step, so `friendly` plays no part in the result.
pub fn get_king_attack_map(b: &BitBoard, friendly: &BitBoard) -> (out: BitBoard)
    ensures
        forall|f: int, r: int|
            coords_ok(f, r) ==> sq_set(out@, f, r) == king_attacks(b@, f, r),
{
    let mut out = BitBoard::new();
    proof {
        assert forall|f: int, r: int| coords_ok(f, r) implies sq_set(out@, f, r)
            == from_sources_upto(b@, king_reach_fn(), 0, 0, f, r) by {
            crate::bitboard::lemma_bb_zero_bit(f, r);
            lemma_sources_start(b@, king_reach_fn(), f, r);
        };
    }
    let mut file: u32 = 0;
    while file < 8
        invariant
            file <= 8,
            forall|f: int, r: int|
                coords_ok(f, r) ==> sq_set(out@, f, r) == from_sources_upto(
                    b@,
                    king_reach_fn(),
                    file as int,
                    0,
                    f,
                    r,
                ),
        decreases 8 - file,
    {
        let mut rank: u32 = 0;
        while rank < 8
            invariant
                file <= 7,
                rank <= 8,
                forall|f: int, r: int|
                    coords_ok(f, r) ==> sq_set(out@, f, r) == from_sources_upto(
                        b@,
                        king_reach_fn(),
                        file as int,
                        rank as int,
                        f,
                        r,
                    ),
            decreases 8 - rank,
        {
            let src = match b.get(file, rank) {
                Some(true) => true,
                _ => false,
            };
            if src {
                mark_king(&mut out, file, rank);
            }
            proof {
                assert forall|f: int, r: int| coords_ok(f, r) implies sq_set(out@, f, r)
                    == from_sources_upto(
                    b@,
                    king_reach_fn(),
                    file as int,
                    rank as int + 1,
                    f,
                    r,
                ) by {
                    lemma_sources_step(b@, king_reach_fn(), file as int, rank as int, f, r);
                    assert(king_reach_fn()(file as int, rank as int, f, r) == king_reaches(
                        file as int,
                        rank as int,
                        f,
                        r,
                    ));
                };
            }
            rank = rank + 1;
        }
        proof {
            assert forall|f: int, r: int| coords_ok(f, r) implies sq_set(out@, f, r)
                == from_sources_upto(b@, king_reach_fn(), file as int + 1, 0, f, r) by {
                lemma_sources_next_file(b@, king_reach_fn(), file as int, f, r);
            };
        }
        file = file + 1;
    }
    proof {
        assert forall|f: int, r: int| coords_ok(f, r) implies sq_set(out@, f, r) == king_attacks(
            b@,
            f,
            r,
        ) by {
            lemma_sources_done(b@, king_reach_fn(), f, r);
        };
    }
    out
}

/// The attack board of every knight bit of `b`: the 8 L-shaped offsets per
/// set square, each independently clipped at the board edge.  A knight jumps
/// over occupancy, so `friendly` and `opposing` play no part in the result.
pub fn get_knight_attack_map(b: &BitBoard, friendly: &BitBoard, opposing: &BitBoard) -> (out:
    BitBoard)
    ensures
        forall|f: int, r: int|
            coords_ok(f, r) ==> sq_set(out@, f, r) == knight_attacks(b@, f, r),
{
    let mut out = BitBoard::new();
    proof {
        assert forall|f: int, r: int| coords_ok(f, r) implies sq_set(out@, f, r)
            == from_sources_upto(b@, knight_reach_fn(), 0, 0, f, r) by {
            crate::bitboard::lemma_bb_zero_bit(f, r);
            lemma_sources_start(b@, knight_reach_fn(), f, r);
        };
    }
    let mut file: u32 = 0;
    while file < 8
        invariant
            file <= 8,
            forall|f: int, r: int|
                coords_ok(f, r) ==> sq_set(out@, f, r) == from_sources_upto(
                    b@,
                    knight_reach_fn(),
                    file as int,
                    0,
                    f,
                    r,
                ),
        decreases 8 - file,
    {
        let mut rank: u32 = 0;
        while rank < 8
            invariant
                file <= 7,
                rank <= 8,
                forall|f: int, r: int|
                    coords_ok(f, r) ==> sq_set(out@, f, r) == from_sources_upto(
                        b@,
                        knight_reach_fn(),
                        file as int,
                        rank as int,
                        f,
                        r,
                    ),
            decreases 8 - rank,
        {
            let src = match b.get(file, rank) {
                Some(true) => true,
                _ => false,
            };
            if src {
                mark_knight(&mut out, file, rank);
            }
            proof {
                assert forall|f: int, r: int| coords_ok(f, r) implies sq_set(out@, f, r)
                    == from_sources_upto(
                    b@,
                    knight_reach_fn(),
                    file as int,
                    rank as int + 1,
                    f,
                    r,
                ) by {
                    lemma_sources_step(b@, knight_reach_fn(), file as int, rank as int, f, r);
                    assert(knight_reach_fn()(file as int, rank as int, f, r) == knight_reaches(
                        file as int,
                        rank as int,
                        f,
                        r,
                    ));
                };
            }
            rank = rank + 1;
        }
        proof {
            assert forall|f: int, r: int| coords_ok(f, r) implies sq_set(out@, f, r)
                == from_sources_upto(b@, knight_reach_fn(), file as int + 1, 0, f, r) by {
                lemma_sources_next_file(b@, knight_reach_fn(), file as int, f, r);
            };
        }
        file = file + 1;
    }
    proof {
        assert forall|f: int, r: int| coords_ok(f, r) implies sq_set(out@, f, r) == knight_attacks(
            b@,
            f,
            r,
        ) by {
            lemma_sources_done(b@, knight_reach_fn(), f, r);
        };
    }
    out
}

/// The attack board of every pawn bit of `b` for a pawn of color `c`: only
/// the two diagonal-forward capture squares per set square, clipped at the
/// file edges.  The non-capturing forward push is deliberately excluded —
/// this is the set of attacked squares, not of legal moves.
pub fn get_pawn_attack_map(b: &BitBoard, c: Color) -> (out: BitBoard)
    ensures
        forall|f: int, r: int|
            coords_ok(f, r) ==> sq_set(out@, f, r) == pawn_attacks(b@, c, f, r),
{
    let mut out = BitBoard::new();
    proof {
        assert forall|f: int, r: int| coords_ok(f, r) implies sq_set(out@, f, r)
            == from_sources_upto(b@, pawn_reach_fn(c), 0, 0, f, r) by {
            crate::bitboard::lemma_bb_zero_bit(f, r);
            lemma_sources_start(b@, pawn_reach_fn(c), f, r);
        };
    }
    let mut file: u32 = 0;
    while file < 8
        invariant
            file <= 8,
            forall|f: int, r: int|
                coords_ok(f, r) ==> sq_set(out@, f, r) == from_sources_upto(
                    b@,
                    pawn_reach_fn(c),
                    file as int,
                    0,
                    f,
                    r,
                ),
        decreases 8 - file,
    {
        let mut rank: u32 = 0;
        while rank < 8
            invariant
                file <= 7,
                rank <= 8,
                forall|f: int, r: int|
                    coords_ok(f, r) ==> sq_set(out@, f, r) == from_sources_upto(
                        b@,
                        pawn_reach_fn(c),
                        file as int,
                        rank as int,
                        f,
                        r,
                    ),
            decreases 8 - rank,
        {
            let src = match b.get(file, rank) {
                Some(true) => true,
                _ => false,
            };
            if src {
                mark_pawn(&mut out, c, file, rank);
            }
            proof {
                assert forall|f: int, r: int| coords_ok(f, r) implies sq_set(out@, f, r)
                    == from_sources_upto(
                    b@,
                    pawn_reach_fn(c),
                    file as int,
                    rank as int + 1,
                    f,
                    r,
                ) by {
                    lemma_sources_step(b@, pawn_reach_fn(c), file as int, rank as int, f, r);
                    assert(pawn_reach_fn(c)(file as int, rank as int, f, r) == pawn_reaches(
                        c,
                        file as int,
                        rank as int,
                        f,
                        r,
                    ));
                };
            }
            rank = rank + 1;
        }
        proof {
            assert forall|f: int, r: int| coords_ok(f, r) implies sq_set(out@, f, r)
                == from_sources_upto(b@, pawn_reach_fn(c), file as int + 1, 0, f, r) by {
                lemma_sources_next_file(b@, pawn_reach_fn(c), file as int, f, r);
            };
        }
        file = file + 1;
    }
    proof {
        assert forall|f: int, r: int| coords_ok(f, r) implies sq_set(out@, f, r) == pawn_attacks(
            b@,
            c,
            f,
            r,
        ) by {
            lemma_sources_done(b@, pawn_reach_fn(c), f, r);
        };
    }
    out
}

/// The attack board of every rook bit of `b`: the four orthogonal rays per
/// set square, each running until and including the first occupied square.
pub fn get_rook_attack_map(b: &BitBoard, friendly: &BitBoard, opposing: &BitBoard) -> (out:
    BitBoard)
    ensures
        forall|f: int, r: int|
            coords_ok(f, r) ==> sq_set(out@, f, r) == rook_attacks(b@, friendly@ | opposing@, f, r),
{
    let occ = BitBoard::from(friendly.as_u64() | opposing.as_u64());
    let mut out = BitBoard::new();
    proof {
        assert forall|f: int, r: int| coords_ok(f, r) implies sq_set(out@, f, r)
            == from_sources_upto(b@, rook_reach_fn(occ@), 0, 0, f, r) by {
            crate::bitboard::lemma_bb_zero_bit(f, r);
            lemma_sources_start(b@, rook_reach_fn(occ@), f, r);
        };
    }
    let mut file: u32 = 0;
    while file < 8
        invariant
            file <= 8,
            occ@ == friendly@ | opposing@,
            forall|f: int, r: int|
                coords_ok(f, r) ==> sq_set(out@, f, r) == from_sources_upto(
                    b@,
                    rook_reach_fn(occ@),
                    file as int,
                    0,
                    f,
                    r,
                ),
        decreases 8 - file,
    {
        let mut rank: u32 = 0;
        while rank < 8
            invariant
                file <= 7,
                rank <= 8,
                occ@ == friendly@ | opposing@,
                forall|f: int, r: int|
                    coords_ok(f, r) ==> sq_set(out@, f, r) == from_sources_upto(
                        b@,
                        rook_reach_fn(occ@),
                        file as int,
                        rank as int,
                        f,
                        r,
                    ),
            decreases 8 - rank,
        {
            let src = match b.get(file, rank) {
                Some(true) => true,
                _ => false,
            };
            if src {
                mark_rook(&mut out, &occ, file, rank);
            }
            proof {
                assert forall|f: int, r: int| coords_ok(f, r) implies sq_set(out@, f, r)
                    == from_sources_upto(
                    b@,
                    rook_reach_fn(occ@),
                    file as int,
                    rank as int + 1,
                    f,
                    r,
                ) by {
                    lemma_sources_step(b@, rook_reach_fn(occ@), file as int, rank as int, f, r);
                    assert(rook_reach_fn(occ@)(file as int, rank as int, f, r) == rook_reaches(
                        occ@,
                        file as int,
                        rank as int,
                        f,
                        r,
                    ));
                };
            }
            rank = rank + 1;
        }
        proof {
            assert forall|f: int, r: int| coords_ok(f, r) implies sq_set(out@, f, r)
                == from_sources_upto(b@, rook_reach_fn(occ@), file as int + 1, 0, f, r) by {
                lemma_sources_next_file(b@, rook_reach_fn(occ@), file as int, f, r);
            };
        }
        file = file + 1;
    }
    proof {
        assert forall|f: int, r: int| coords_ok(f, r) implies sq_set(out@, f, r) == rook_attacks(
            b@,
            occ@,
            f,
            r,
        ) by {
            lemma_sources_done(b@, rook_reach_fn(occ@), f, r);
        };
    }
    out
}

/// The attack board of every bishop bit of `b`: the four diagonal rays per
/// set square, each running until and including the first occupied square.
pub fn get_bishop_attack_map(b: &BitBoard, friendly: &BitBoard, opposing: &BitBoard) -> (out:
    BitBoard)
    ensures
        forall|f: int, r: int|
            coords_ok(f, r) ==> sq_set(out@, f, r) == bishop_attacks(
                b@,
                friendly@ | opposing@,
                f,
                r,
            ),
{
    let occ = BitBoard::from(friendly.as_u64() | opposing.as_u64());
    let mut out = BitBoard::new();
    proof {
        assert forall|f: int, r: int| coords_ok(f, r) implies sq_set(out@, f, r)
            == from_sources_upto(b@, bishop_reach_fn(occ@), 0, 0, f, r) by {
            crate::bitboard::lemma_bb_zero_bit(f, r);
            lemma_sources_start(b@, bishop_reach_fn(occ@), f, r);
        };
    }
    let mut file: u32 = 0;
    while file < 8
        invariant
            file <= 8,
            occ@ == friendly@ | opposing@,
            forall|f: int, r: int|
                coords_ok(f, r) ==> sq_set(out@, f, r) == from_sources_upto(
                    b@,
                    bishop_reach_fn(occ@),
                    file as int,
                    0,
                    f,
                    r,
                ),
        decreases 8 - file,
    {
        let mut rank: u32 = 0;
        while rank < 8
            invariant
                file <= 7,
                rank <= 8,
                occ@ == friendly@ | opposing@,
                forall|f: int, r: int|
                    coords_ok(f, r) ==> sq_set(out@, f, r) == from_sources_upto(
                        b@,
                        bishop_reach_fn(occ@),
                        file as int,
                        rank as int,
                        f,
                        r,
                    ),
            decreases 8 - rank,
        {
            let src = match b.get(file, rank) {
                Some(true) => true,
                _ => false,
            };
            if src {
                mark_bishop(&mut out, &occ, file, rank);
            }
            proof {
                assert forall|f: int, r: int| coords_ok(f, r) implies sq_set(out@, f, r)
                    == from_sources_upto(
                    b@,
                    bishop_reach_fn(occ@),
                    file as int,
                    rank as int + 1,
                    f,
                    r,
                ) by {
                    lemma_sources_step(b@, bishop_reach_fn(occ@), file as int, rank as int, f, r);
                    assert(bishop_reach_fn(occ@)(file as int, rank as int, f, r) == bishop_reaches(
                        occ@,
                        file as int,
                        rank as int,
                        f,
                        r,
                    ));
                };
            }
            rank = rank + 1;
        }
        proof {
            assert forall|f: int, r: int| coords_ok(f, r) implies sq_set(out@, f, r)
                == from_sources_upto(b@, bishop_reach_fn(occ@), file as int + 1, 0, f, r) by {
                lemma_sources_next_file(b@, bishop_reach_fn(occ@), file as int, f, r);
            };
        }
        file = file + 1;
    }
    proof {
        assert forall|f: int, r: int| coords_ok(f, r) implies sq_set(out@, f, r) == bishop_attacks(
            b@,
            occ@,
            f,
            r,
        ) by {
            lemma_sources_done(b@, bishop_reach_fn(occ@), f, r);
        };
    }
    out
}

/// The attack board of every queen bit of `b`: the union of the rook-pattern
/// and the bishop-pattern results from the same occupancy.
pub fn get_queen_attack_map(b: &BitBoard, friendly: &BitBoard, opposing: &BitBoard) -> (out:
    BitBoard)
    ensures
        forall|f: int, r: int|
            coords_ok(f, r) ==> sq_set(out@, f, r) == queen_attacks(
                b@,
                friendly@ | opposing@,
                f,
                r,
            ),
{
    let mut out = get_bishop_attack_map(b, friendly, opposing);
    out.or_assign(get_rook_attack_map(b, friendly, opposing));
    out
}

/// Which squares one piece kind of one color attacks, given its own board,
/// the mover's full occupancy, and the opponent's full occupancy.
pub open spec fn piece_attacks(
    p: PieceType,
    c: Color,
    b: u64,
    friendly: u64,
    opposing: u64,
    f: int,
    r: int,
) -> bool {
    match p {
        PieceType::King => king_attacks(b, f, r),
        PieceType::Queen => queen_attacks(b, friendly | opposing, f, r),
        PieceType::Rook => rook_attacks(b, friendly | opposing, f, r),
        PieceType::Bishop => bishop_attacks(b, friendly | opposing, f, r),
        PieceType::Knight => knight_attacks(b, f, r),
        PieceType::Pawn => pawn_attacks(b, c, f, r),
    }
}

/// The attack board of one piece kind of one color: dispatches to the
/// per-kind generator.
pub fn get_piece_attack_map(
    p: PieceType,
    c: Color,
    b: &BitBoard,
    friendly: &BitBoard,
    opposing: &BitBoard,
) -> (out: BitBoard)
    ensures
        forall|f: int, r: int|
            coords_ok(f, r) ==> sq_set(out@, f, r) == piece_attacks(
                p,
                c,
                b@,
                friendly@,
                opposing@,
                f,
                r,
            ),
{
    match p {
        PieceType::King => get_king_attack_map(b, friendly),
        PieceType::Queen => get_queen_attack_map(b, friendly, opposing),
        PieceType::Rook => get_rook_attack_map(b, friendly, opposing),
        PieceType::Bishop => get_bishop_attack_map(b, friendly, opposing),
        PieceType::Knight => get_knight_attack_map(b, friendly, opposing),
        PieceType::Pawn => get_pawn_attack_map(b, c),
    }
}

/// Marks the four diagonal rays of a bishop from one source square.
fn mark_bishop(out: &mut BitBoard, occ: &BitBoard, sf: u32, sr: u32)
    requires
        sf <= 7,
        sr <= 7,
    ensures
        forall|f: int, r: int|
            coords_ok(f, r) ==> (sq_set(final(out)@, f, r) == (sq_set(old(out)@, f, r)
                || bishop_reaches(occ@, sf as int, sr as int, f, r))),
{
    ray_scan(out, occ, sf, sr, 1, 1);
    ray_scan(out, occ, sf, sr, -1, 1);
    ray_scan(out, occ, sf, sr, -1, -1);
    ray_scan(out, occ, sf, sr, 1, -1);
}

} // verus!
