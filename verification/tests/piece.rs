use chessboard::parse::from_fen;
use chessboard::piece::{Color, PieceType};

#[test]
fn get_piece_attack_map() {
    // King: a lone king attacks exactly its 8 neighbors...
    let pos = from_fen("8/8/8/3K4/8/6k1/8/8 w - - 0 1".to_string()).unwrap();
    assert!(pos.w_attacks_all.as_u64() == 30872694685696);

    // ...and exactly its 3 in-range neighbors from a corner.
    let pos = from_fen("K7/8/8/8/8/8/8/7k w - - 0 1".to_string()).unwrap();
    assert!(pos.w_attacks.get_board(PieceType::King).as_u64() == 144959613005987840);

    // Friendly occupancy does not shrink a king's attack set.
    let pos = from_fen("KR6/RR6/8/8/8/8/8/7k w - - 0 1".to_string()).unwrap();
    assert!(pos.w_attacks.get_board(PieceType::King).as_u64() == 144959613005987840);

    // Rook: rays stop at, and include, the first blocker on each side.
    let pos = from_fen("7K/2B2R2/8/8/8/5k2/8/8 w - - 0 1".to_string()).unwrap();
    assert!(pos.w_attacks.get_board(PieceType::Rook).as_u64() == 2367802826440048640);

    // Bishop: the same along diagonals.
    let pos = from_fen("8/3k4/4B3/8/8/7K/8/8 w - - 0 1".to_string()).unwrap();
    assert!(pos.w_attacks.get_board(PieceType::Bishop).as_u64() == 4622945190443876608);

    // Queen: union of the rook and bishop patterns.
    let pos = from_fen("8/8/1k2Q3/8/2N5/4K3/8/8 w - - 0 1".to_string()).unwrap();
    assert!(pos.w_attacks.get_board(PieceType::Queen).as_u64() == 6068862423586045952);

    // Knight: all 8 L-shaped jumps, over any occupancy.
    let pos = from_fen("8/8/8/8/k1q1N3/8/8/3K4 w - - 0 1".to_string()).unwrap();
    assert!(pos.w_attacks.get_board(PieceType::Knight).as_u64() == 44272527353856);

    // Knight near the edge: out-of-board jumps are clipped.
    let pos = from_fen("8/8/8/8/k1q5/8/1N6/3K4 w - - 0 1".to_string()).unwrap();
    assert!(pos.w_attacks.get_board(PieceType::Knight).as_u64() == 84410376);

    // Pawns: the two diagonal-forward capture squares only.
    let pos = from_fen("2K2k2/1P1P1P2/5p2/8/8/8/8/8 w - - 0 1".to_string()).unwrap();
    assert!(pos.w_attacks.get_board(PieceType::Pawn).as_u64() == 6124895493223874560);
    assert!(pos.b_attacks.get_board(PieceType::Pawn).as_u64() == 343597383680);
}

#[test]
fn piece_letter_codec() {
    assert_eq!(
        PieceType::from_char('K'),
        Some((PieceType::King, Color::White))
    );
    assert_eq!(
        PieceType::from_char('n'),
        Some((PieceType::Knight, Color::Black))
    );
    assert_eq!(PieceType::from_char('x'), None);
    assert_eq!(PieceType::from_char('1'), None);

    assert_eq!(PieceType::Queen.to_char(Color::White), 'Q');
    assert_eq!(PieceType::Queen.to_char(Color::Black), 'q');
    assert_eq!(PieceType::Pawn.to_char(Color::Black), 'p');
}

#[test]
fn pawn_attacks_at_board_edges() {
    // A white pawn on the last rank has nowhere forward to attack;
    // a black pawn on the first rank likewise.
    let pos = from_fen("P6k/8/8/8/8/8/8/K6p w - - 0 1".to_string()).unwrap();
    assert_eq!(pos.w_attacks.get_board(PieceType::Pawn).as_u64(), 0);
    assert_eq!(pos.b_attacks.get_board(PieceType::Pawn).as_u64(), 0);
}
