use chessboard::movegen::{Move, StateChange};
use chessboard::piece::PieceType;
use chessboard::square::Square;

#[test]
fn from_fen() {
    // Starting position
    assert!(chessboard::parse::from_fen(
        "rnbqkbnr/pppppppp/8/8/8/8/PPPPPPPP/RNBQKBNR w KQkq - 0 1".to_string()
    )
    .is_ok());

    // Invalid number of pieces
    assert!(chessboard::parse::from_fen(
        "rnbqkbn/pppppppp/8/8/8/8/PPPPPPPP/RNBQKBNR w KQkq - 0 1".to_string()
    )
    .is_err());

    // Invalid number of pieces
    assert!(chessboard::parse::from_fen(
        "rnbqkbnr/pppppppp/7/8/8/8/PPPPPPPP/RNBQKBNR w KQkq - 0 1".to_string()
    )
    .is_err());
}

#[test]
fn change_and_reverse() {
    let mut pos = chessboard::parse::from_fen(
        "rnbqkb1r/pppp1ppp/5n2/4p3/4PP2/2N5/PPPP2PP/R1BQKBNR b KQkq f3 0 3".to_string(),
    )
    .unwrap();

    let mv = Move {
        from: Square::from_str("e5").unwrap(),
        to: Square::from_str("f4").unwrap(),
        ptype: PieceType::Pawn,
        change: StateChange {
            captured: Some(PieceType::Pawn),
        },
    };

    let pos_before = pos.clone();

    pos.change_board(mv);
    println!("exf4");

    println!("------\nreversing move\n-----");

    pos.reverse_last_change();

    let pos_after = pos.clone();

    assert_eq!(pos_before, pos_after);
}
