//! A 64-bit word encoding one boolean per board square.
//!
//! The bit for a square sits at index `rank * 8 + file`, with file and rank
//! both in `0..=7`.  Reads of an out-of-range coordinate answer `None`, and
//! writes to one are silent no-ops, so inner loops near the board edge need
//! no extra branching.

use vstd::prelude::*;

verus! {

/// Both coordinates of a square lie on the board.
pub open spec fn coords_ok(file: int, rank: int) -> bool {
    0 <= file <= 7 && 0 <= rank <= 7
}

/// Index of a square's bit within the 64-bit word.
pub open spec fn sq_index(file: int, rank: int) -> int {
    rank * 8 + file
}

/// Whether the word has the bit for (file, rank).
pub open spec fn sq_set(bits: u64, file: int, rank: int) -> bool {
    (bits >> (sq_index(file, rank) as u64)) & 1u64 == 1u64
}

/// The word with the bit for (file, rank) turned on; unchanged when the
/// coordinates are off the board.
pub open spec fn bb_with(bits: u64, file: int, rank: int) -> u64 {
    if coords_ok(file, rank) {
        bits | (1u64 << (sq_index(file, rank) as u64))
    } else {
        bits
    }
}

/// The word with the bit for (file, rank) turned off; unchanged when the
/// coordinates are off the board.
pub open spec fn bb_without(bits: u64, file: int, rank: int) -> u64 {
    if coords_ok(file, rank) {
        bits & !(1u64 << (sq_index(file, rank) as u64))
    } else {
        bits
    }
}

/// The word with the bit for (file, rank) inverted; unchanged when the
/// coordinates are off the board.
pub open spec fn bb_flip(bits: u64, file: int, rank: int) -> u64 {
    if coords_ok(file, rank) {
        bits ^ (1u64 << (sq_index(file, rank) as u64))
    } else {
        bits
    }
}

/// Bit-level reading of `bb_with`: the named square is now set, every other
/// on-board square is as before.
pub broadcast proof fn lemma_bb_with_bit(bits: u64, x: int, y: int, f: int, r: int)
    requires
        coords_ok(f, r),
    ensures
        #[trigger] sq_set(bb_with(bits, x, y), f, r) == ((x == f && y == r) || sq_set(
            bits,
            f,
            r,
        )),
{
    if coords_ok(x, y) {
        let xu = x as u64;
        let yu = y as u64;
        let fu = f as u64;
        let ru = r as u64;
        assert(((bits | (1u64 << (yu * 8 + xu))) >> (ru * 8 + fu)) & 1u64 == (if (xu == fu && yu
            == ru) {
            1u64
        } else {
            (bits >> (ru * 8 + fu)) & 1u64
        })) by (bit_vector)
            requires
                xu <= 7,
                yu <= 7,
                fu <= 7,
                ru <= 7,
        ;
        assert(sq_index(x, y) as u64 == yu * 8 + xu);
        assert(sq_index(f, r) as u64 == ru * 8 + fu);
    }
}

/// Bit-level reading of `bb_without`: the named square is now clear, every
/// other on-board square is as before.
pub broadcast proof fn lemma_bb_without_bit(bits: u64, x: int, y: int, f: int, r: int)
    requires
        coords_ok(f, r),
    ensures
        #[trigger] sq_set(bb_without(bits, x, y), f, r) == (!(x == f && y == r) && sq_set(
            bits,
            f,
            r,
        )),
{
    if coords_ok(x, y) {
        let xu = x as u64;
        let yu = y as u64;
        let fu = f as u64;
        let ru = r as u64;
        assert(((bits & !(1u64 << (yu * 8 + xu))) >> (ru * 8 + fu)) & 1u64 == (if (xu == fu && yu
            == ru) {
            0u64
        } else {
            (bits >> (ru * 8 + fu)) & 1u64
        })) by (bit_vector)
            requires
                xu <= 7,
                yu <= 7,
                fu <= 7,
                ru <= 7,
        ;
        assert(sq_index(x, y) as u64 == yu * 8 + xu);
        assert(sq_index(f, r) as u64 == ru * 8 + fu);
    }
}

/// Bit-level reading of `bb_flip`: the named square is inverted, every other
/// on-board square is as before.
pub broadcast proof fn lemma_bb_flip_bit(bits: u64, x: int, y: int, f: int, r: int)
    requires
        coords_ok(f, r),
    ensures
        #[trigger] sq_set(bb_flip(bits, x, y), f, r) == (if x == f && y == r {
            !sq_set(bits, f, r)
        } else {
            sq_set(bits, f, r)
        }),
{
    if coords_ok(x, y) {
        let xu = x as u64;
        let yu = y as u64;
        let fu = f as u64;
        let ru = r as u64;
        assert((((bits ^ (1u64 << (yu * 8 + xu))) >> (ru * 8 + fu)) & 1u64 == 1u64) == (if (xu
            == fu && yu == ru) {
            !((bits >> (ru * 8 + fu)) & 1u64 == 1u64)
        } else {
            (bits >> (ru * 8 + fu)) & 1u64 == 1u64
        })) by (bit_vector)
            requires
                xu <= 7,
                yu <= 7,
                fu <= 7,
                ru <= 7,
        ;
        assert(sq_index(x, y) as u64 == yu * 8 + xu);
        assert(sq_index(f, r) as u64 == ru * 8 + fu);
    }
}

/// Bit-level reading of a union: a square is set in `a | b` exactly when it
/// is set in `a` or in `b`.
pub broadcast proof fn lemma_bb_union_bit(a: u64, b: u64, f: int, r: int)
    requires
        coords_ok(f, r),
    ensures
        #[trigger] sq_set(a | b, f, r) == (sq_set(a, f, r) || sq_set(b, f, r)),
{
    let fu = f as u64;
    let ru = r as u64;
    assert((((a | b) >> (ru * 8 + fu)) & 1u64 == 1u64) == (((a >> (ru * 8 + fu)) & 1u64 == 1u64)
        || ((b >> (ru * 8 + fu)) & 1u64 == 1u64))) by (bit_vector);
    assert(sq_index(f, r) as u64 == ru * 8 + fu);
}

/// The bit-level readings of the four board-word operations, for callers
/// reasoning square by square.
pub broadcast group group_bitboard_bits {
    lemma_bb_with_bit,
    lemma_bb_without_bit,
    lemma_bb_flip_bit,
    lemma_bb_union_bit,
}

/// The empty word has no square set.
pub proof fn lemma_bb_zero_bit(f: int, r: int)
    requires
        coords_ok(f, r),
    ensures
        !sq_set(0u64, f, r),
{
    let fu = f as u64;
    let ru = r as u64;
    assert(((0u64 >> (ru * 8 + fu)) & 1u64) != 1u64) by (bit_vector);
    assert(sq_index(f, r) as u64 == ru * 8 + fu);
}

/// Flipping the same square twice restores the word, on- or off-board.
pub proof fn lemma_bb_flip_twice(bits: u64, file: int, rank: int)
    ensures
        bb_flip(bb_flip(bits, file, rank), file, rank) == bits,
{
    if coords_ok(file, rank) {
        let fu = file as u64;
        let ru = rank as u64;
        assert((bits ^ (1u64 << (ru * 8 + fu))) ^ (1u64 << (ru * 8 + fu)) == bits) by (bit_vector);
        assert(sq_index(file, rank) as u64 == ru * 8 + fu);
    }
}

/// Moving a bit (clear origin, set destination) and then mirroring the move
/// (set origin, clear destination) restores the word, provided the origin
/// bit was set and the destination bit clear.
pub proof fn lemma_bb_move_roundtrip(bits: u64, ff: int, fr: int, tf: int, tr: int)
    requires
        coords_ok(ff, fr),
        coords_ok(tf, tr),
        !(ff == tf && fr == tr),
        sq_set(bits, ff, fr),
        !sq_set(bits, tf, tr),
    ensures
        bb_without(bb_with(bb_with(bb_without(bits, ff, fr), tf, tr), ff, fr), tf, tr) == bits,
{
    let ffu = ff as u64;
    let fru = fr as u64;
    let tfu = tf as u64;
    let tru = tr as u64;
    assert((((((bits & !(1u64 << (fru * 8 + ffu))) | (1u64 << (tru * 8 + tfu))) | (1u64 << (fru * 8
        + ffu))) & !(1u64 << (tru * 8 + tfu)))) == bits) by (bit_vector)
        requires
            ffu <= 7,
            fru <= 7,
            tfu <= 7,
            tru <= 7,
            !(ffu == tfu && fru == tru),
            (bits >> (fru * 8 + ffu)) & 1u64 == 1u64,
            (bits >> (tru * 8 + tfu)) & 1u64 != 1u64,
    ;
    assert(sq_index(ff, fr) as u64 == fru * 8 + ffu);
    assert(sq_index(tf, tr) as u64 == tru * 8 + tfu);
}

/// Clearing a set bit and setting it again restores the word.
pub proof fn lemma_bb_unset_set_roundtrip(bits: u64, f: int, r: int)
    requires
        coords_ok(f, r),
        sq_set(bits, f, r),
    ensures
        bb_with(bb_without(bits, f, r), f, r) == bits,
{
    let fu = f as u64;
    let ru = r as u64;
    assert(((bits & !(1u64 << (ru * 8 + fu))) | (1u64 << (ru * 8 + fu))) == bits) by (bit_vector)
        requires
            fu <= 7,
            ru <= 7,
            (bits >> (ru * 8 + fu)) & 1u64 == 1u64,
    ;
    assert(sq_index(f, r) as u64 == ru * 8 + fu);
}

/// A 64-bit square set, one bit per board square.
#[derive(Clone, Copy, Debug, PartialEq, Eq, Structural)]
pub struct BitBoard(pub u64);

impl View for BitBoard {
    type V = u64;

    open spec fn view(&self) -> u64 {
        self.0
    }
}

impl BitBoard {
    /// The empty board.
    pub fn new() -> (r: BitBoard)
        ensures
            r@ == 0u64,
    {
        BitBoard(0)
    }

    /// A board holding exactly the bits of the given word.
    pub fn from(n: u64) -> (r: BitBoard)
        ensures
            r@ == n,
    {
        BitBoard(n)
    }

    /// The underlying 64-bit word.
    pub fn as_u64(&self) -> (r: u64)
        ensures
            r == self@,
    {
        self.0
    }

    /// Turns the square on; a silent no-op off the board.
    pub fn set(&mut self, x: u32, y: u32)
        ensures
            final(self)@ == bb_with(old(self)@, x as int, y as int),
    {
        if x <= 7 && y <= 7 {
            let idx: u64 = (y as u64) * 8 + (x as u64);
            self.0 = self.0 | (1u64 << idx);
            proof {
                assert(sq_index(x as int, y as int) as u64 == idx);
            }
        }
    }

    /// Turns the square off; a silent no-op off the board.
    pub fn unset(&mut self, x: u32, y: u32)
        ensures
            final(self)@ == bb_without(old(self)@, x as int, y as int),
    {
        if x <= 7 && y <= 7 {
            let idx: u64 = (y as u64) * 8 + (x as u64);
            self.0 = self.0 & !(1u64 << idx);
            proof {
                assert(sq_index(x as int, y as int) as u64 == idx);
            }
        }
    }

    /// Inverts the square; a silent no-op off the board.
    pub fn toggle(&mut self, x: u32, y: u32)
        ensures
            final(self)@ == bb_flip(old(self)@, x as int, y as int),
    {
        if x <= 7 && y <= 7 {
            let idx: u64 = (y as u64) * 8 + (x as u64);
            self.0 = self.0 ^ (1u64 << idx);
            proof {
                assert(sq_index(x as int, y as int) as u64 == idx);
            }
        }
    }

    /// Reads the square: `Some` of its state on the board, `None` off it.
    pub fn get(&self, x: u32, y: u32) -> (r: Option<bool>)
        ensures
            x <= 7 && y <= 7 ==> r == Some(sq_set(self@, x as int, y as int)),
            !(x <= 7 && y <= 7) ==> r is None,
    {
        if x <= 7 && y <= 7 {
            let idx: u64 = (y as u64) * 8 + (x as u64);
            let bits = self.0;
            proof {
                assert(((bits & (1u64 << idx)) != 0) == ((bits >> idx) & 1u64 == 1u64))
                    by (bit_vector)
                    requires
                        idx <= 63,
                ;
                assert(sq_index(x as int, y as int) as u64 == idx);
            }
            Some((bits & (1u64 << idx)) != 0)
        } else {
            None
        }
    }

    /// Unions the other board into this one.
    pub fn or_assign(&mut self, b: BitBoard)
        ensures
            final(self)@ == (old(self)@ | b@),
    {
        self.0 = self.0 | b.as_u64();
    }

    /// A flat 64-entry indicator vector, entry `rank * 8 + file` being 1
    /// exactly when that square is set.
    pub fn as_bitvec(&self) -> (v: Vec<usize>)
        ensures
            v@.len() == 64,
            forall|f: int, r: int|
                coords_ok(f, r) ==> v@[#[trigger] sq_index(f, r)] == (if sq_set(self@, f, r) {
                    1usize
                } else {
                    0usize
                }),
    {
        let mut v: Vec<usize> = Vec::new();
        let mut i: usize = 0;
        while i < 64
            invariant
                i <= 64,
                v@.len() == i,
                forall|f: int, r: int|
                    coords_ok(f, r) && sq_index(f, r) < i ==> v@[#[trigger] sq_index(f, r)] == (
                    if sq_set(self@, f, r) {
                        1usize
                    } else {
                        0usize
                    }),
            decreases 64 - i,
        {
            let x: u32 = (i as u32) % 8;
            let y: u32 = (i as u32) / 8;
            let entry: usize = match self.get(x, y) {
                Some(true) => 1,
                _ => 0,
            };
            v.push(entry);
            proof {
                assert(sq_index(x as int, y as int) == i);
                assert(forall|f: int, r: int|
                    coords_ok(f, r) && #[trigger] sq_index(f, r) == i ==> f == x as int && r
                        == y as int) by {
                    assert(forall|f: int, r: int|
                        coords_ok(f, r) && #[trigger] sq_index(f, r) == i ==> r == i as int / 8 && f
                            == i as int % 8);
                };
            }
            i = i + 1;
        }
        v
    }
}

} // verus!
