use chessboard::error::FenError;
use chessboard::square::Square;

#[test]
fn from_str() {
    assert!(Square::from_str("a8").is_ok());
    assert!(Square::from_str("a9").is_err());
    assert!(Square::from_str("").is_err());
}

#[test]
fn square_from_str() {
    assert!(Square::from_str("a8").is_ok());
    assert!(Square::from_str("a9").is_err());
    assert!(Square::from_str("").is_err());
}

#[test]
fn square_coordinates_and_errors() {
    let sq = Square::from_str("a8").unwrap();
    assert_eq!(sq.file, 0);
    assert_eq!(sq.rank, 7);

    let sq = Square::from_str("h1").unwrap();
    assert_eq!(sq.file, 7);
    assert_eq!(sq.rank, 0);

    assert_eq!(Square::from_str("i1"), Err(FenError::InvalidSquare));
    assert_eq!(Square::from_str("a0"), Err(FenError::InvalidSquare));
    assert_eq!(Square::from_str("a"), Err(FenError::InvalidSquare));
    // Characters past the second are ignored.
    assert_eq!(Square::from_str("e4x").unwrap(), Square { file: 4, rank: 3 });
}
