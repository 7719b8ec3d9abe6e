use chessboard::bitboard::BitBoard;

#[test]
fn bitboard() {
    let mut bb1 = BitBoard::new();
    bb1.toggle(0, 0);
    assert!(bb1.as_u64() == 1);

    bb1.toggle(0, 0);
    assert!(bb1.as_u64() == 0);

    bb1.toggle(8, 0);
    assert!(bb1.get(8, 0) == None);

    bb1.toggle(7, 7);
    assert!(bb1.get(7, 7) == Some(true));
    assert!(bb1.as_u64() == 9223372036854775808);

    bb1.toggle(7, 7);
    assert!(bb1.get(7, 7) == Some(false));
    assert!(bb1.as_u64() == 0);

    bb1.unset(7, 7);
    assert!(bb1.as_u64() == 0);

    bb1.set(7, 7);
    assert!(bb1.as_u64() != 0);

    bb1.set(7, 7);
    assert!(bb1.as_u64() != 0);
}

#[test]
fn bitboard_bitboard() {
    let mut bb1 = BitBoard::new();
    bb1.toggle(0, 0);
    assert!(bb1.as_u64() == 1);

    bb1.toggle(0, 0);
    assert!(bb1.as_u64() == 0);

    bb1.toggle(8, 0);

    bb1.toggle(7, 7);
    assert!(bb1.as_u64() == 9223372036854775808);

    bb1.toggle(7, 7);
    assert!(bb1.as_u64() == 0);
}

#[test]
fn toggle_twice_restores_any_square() {
    for file in 0..8 {
        for rank in 0..8 {
            let mut b = BitBoard::from(0x1234_5678_9abc_def0);
            let before = b.as_u64();
            b.toggle(file, rank);
            assert!(b.as_u64() != before);
            b.toggle(file, rank);
            assert!(b.as_u64() == before);
        }
    }
}

#[test]
fn out_of_range_coordinates_are_inert() {
    let cases = [(8u32, 0u32), (0, 8), (8, 8), (100, 3), (3, 100)];
    for (x, y) in cases {
        let mut b = BitBoard::from(0xdead_beef_0000_ffff);
        let before = b.as_u64();
        assert!(b.get(x, y) == None);
        b.set(x, y);
        assert!(b.as_u64() == before);
        b.unset(x, y);
        assert!(b.as_u64() == before);
        b.toggle(x, y);
        assert!(b.as_u64() == before);
    }
}

#[test]
fn bitvec_export_matches_bits() {
    let mut b = BitBoard::new();
    b.set(0, 0);
    b.set(7, 7);
    b.set(3, 4);
    let v = b.as_bitvec();
    assert_eq!(v.len(), 64);
    for i in 0..64usize {
        let expected = if i == 0 || i == 63 || i == 4 * 8 + 3 { 1 } else { 0 };
        assert_eq!(v[i], expected);
    }
}
