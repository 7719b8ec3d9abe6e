use chessboard::error::FenError;
use chessboard::parse::from_fen;
use chessboard::piece::Color;
use chessboard::square::Square;

#[test]
fn start_position_render() {
    // Decoding the standard starting placement and rendering through the
    // snapshot contract reproduces the standard 32-piece layout exactly.
    let pos = from_fen("rnbqkbnr/pppppppp/8/8/8/8/PPPPPPPP/RNBQKBNR w KQkq - 0 1".to_string())
        .unwrap();
    let grid = pos.into_char_vec();
    assert_eq!(grid.len(), 64);

    // Snapshot index is rank * 8 + (7 - file): each row reads h..a.
    let mut expected: Vec<char> = Vec::new();
    expected.extend("RNBKQBNR".chars()); // rank 1, files h..a
    expected.extend("PPPPPPPP".chars());
    for _ in 0..32 {
        expected.push(' ');
    }
    expected.extend("pppppppp".chars());
    expected.extend("rnbkqbnr".chars()); // rank 8, files h..a
    assert_eq!(grid, expected);

    // White's back rank in board order a..h is R N B Q K B N R.
    let back: Vec<char> = (0..8).map(|file| grid[7 - file]).collect();
    assert_eq!(back, vec!['R', 'N', 'B', 'Q', 'K', 'B', 'N', 'R']);
}

#[test]
fn decoded_fields() {
    let pos = from_fen(
        "rnbqkb1r/pppp1ppp/5n2/4p3/4PP2/2N5/PPPP2PP/R1BQKBNR b KQkq f3 42 3".to_string(),
    )
    .unwrap();
    assert_eq!(pos.side, Color::Black);
    assert_eq!(pos.halfturn, 42);
    assert!(pos.w_castling.king_side && pos.w_castling.queen_side);
    assert!(pos.b_castling.king_side && pos.b_castling.queen_side);
    assert_eq!(pos.en_passant, Some(Square { file: 5, rank: 2 }));
    assert!(pos.history.is_empty());

    let pos =
        from_fen("rnbqkbnr/pppppppp/8/8/8/8/PPPPPPPP/RNBQKBNR w Kq - 0 1".to_string()).unwrap();
    assert_eq!(pos.side, Color::White);
    assert!(pos.w_castling.king_side && !pos.w_castling.queen_side);
    assert!(!pos.b_castling.king_side && pos.b_castling.queen_side);
    assert_eq!(pos.en_passant, None);
}

#[test]
fn decode_errors_by_kind() {
    let board = "rnbqkbnr/pppppppp/8/8/8/8/PPPPPPPP/RNBQKBNR";

    // An unrecognized placement character, with its position and value.
    assert_eq!(
        from_fen("rnbqkbnX/pppppppp/8/8/8/8/PPPPPPPP/RNBQKBNR w KQkq - 0 1".to_string()),
        Err(FenError::InvalidFen {
            index: 7,
            found: 'X'
        })
    );

    // A rank overflowing past eight squares.
    assert_eq!(
        from_fen("rnbqkbnrr/pppppppp/8/8/8/8/PPPPPPPP/RNBQKBNR w KQkq - 0 1".to_string()),
        Err(FenError::InvalidFen {
            index: 8,
            found: 'r'
        })
    );

    // A side that is neither "w" nor "b".
    assert_eq!(
        from_fen(format!("{board} x KQkq - 0 1")),
        Err(FenError::InvalidSideColor)
    );

    // A malformed en-passant square is rejected, not read as "none".
    assert_eq!(
        from_fen(format!("{board} w KQkq a9 0 1")),
        Err(FenError::InvalidSquare)
    );
    assert_eq!(
        from_fen(format!("{board} w KQkq e 0 1")),
        Err(FenError::InvalidSquare)
    );

    // A non-numeric halfmove counter.
    assert_eq!(
        from_fen(format!("{board} w KQkq - x 1")),
        Err(FenError::InvalidHalfmove)
    );
    assert_eq!(
        from_fen(format!("{board} w KQkq - 0x 1")),
        Err(FenError::InvalidHalfmove)
    );
    // An empty (missing) halfmove counter.
    assert_eq!(
        from_fen(format!("{board} w KQkq -")),
        Err(FenError::InvalidHalfmove)
    );
    // One too large for the machine word.
    assert_eq!(
        from_fen(format!("{board} w KQkq - 99999999999999999999999999 1")),
        Err(FenError::InvalidHalfmove)
    );
}

#[test]
fn truncated_placements_fail() {
    // An empty line: the placement field ends before the board is filled.
    assert!(from_fen("".to_string()).is_err());
    // A single rank where eight are needed.
    assert!(from_fen("rnbqkbnr w KQkq - 0 1".to_string()).is_err());
    // Seven complete ranks.
    assert!(from_fen("8/8/8/8/8/8/8 w - - 0 1".to_string()).is_err());
}

#[test]
fn castling_is_letter_presence() {
    let board = "rnbqkbnr/pppppppp/8/8/8/8/PPPPPPPP/RNBQKBNR";
    // Letters outside {K,Q,k,q} grant nothing and are not an error.
    let pos = from_fen(format!("{board} w KQx - 0 1")).unwrap();
    assert!(pos.w_castling.king_side && pos.w_castling.queen_side);
    assert!(!pos.b_castling.king_side && !pos.b_castling.queen_side);
}

#[test]
fn apply_and_undo_without_capture() {
    let mut pos =
        from_fen("rnbqkbnr/pppppppp/8/8/8/8/PPPPPPPP/RNBQKBNR w KQkq - 0 1".to_string()).unwrap();
    let before = pos.clone();
    let mv = chessboard::movegen::Move {
        from: Square { file: 4, rank: 1 },
        to: Square { file: 4, rank: 3 },
        ptype: chessboard::piece::PieceType::Pawn,
        change: chessboard::movegen::StateChange { captured: None },
    };
    pos.change_board(mv);
    assert_eq!(pos.history.len(), 1);
    assert_eq!(pos.history[0], mv);
    // e2 is now empty and e4 occupied on the white pawn board.
    assert_eq!(
        pos.w_pieces
            .get_board(chessboard::piece::PieceType::Pawn)
            .get(4, 1),
        Some(false)
    );
    assert_eq!(
        pos.w_pieces
            .get_board(chessboard::piece::PieceType::Pawn)
            .get(4, 3),
        Some(true)
    );
    assert_ne!(pos, before);
    pos.reverse_last_change();
    assert_eq!(pos, before);
}

#[test]
fn fullmove_field_is_optional_and_ignored() {
    let five = from_fen("8/8/8/3K4/8/6k1/8/8 w - - 7".to_string()).unwrap();
    let six = from_fen("8/8/8/3K4/8/6k1/8/8 w - - 7 99".to_string()).unwrap();
    assert_eq!(five.halfturn, 7);
    assert_eq!(five, six);
}
