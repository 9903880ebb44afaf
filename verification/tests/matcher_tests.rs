use pgnparser::HalfMove;
use pgnparser::Piece;
use pgnparser::pawn_capture;
use pgnparser::pawn_move;
use pgnparser::piece_move;
use pgnparser::san;

#[test]
fn lib_pawn_move_tests() {
    let m1 = HalfMove::Regular {
        piece: Piece::Pawn,
        capture: false,
        col_from: None,
        row_from: None,
        square: b"e3".to_vec(),
        promotion: None,
    };
    assert_eq!(pawn_move(b"e3", 0), Some((m1, 2)));

    let m2 = HalfMove::Regular {
        piece: Piece::Pawn,
        capture: false,
        col_from: None,
        row_from: None,
        square: b"e8".to_vec(),
        promotion: Some(Piece::Queen),
    };
    assert_eq!(pawn_move(b"e8=Q", 0), Some((m2, 4)));
}

#[test]
fn main_pawn_move_tests() {
    let m1 = HalfMove::Regular {
        piece: Piece::Pawn,
        capture: false,
        col_from: None,
        row_from: None,
        square: b"e3".to_vec(),
        promotion: None,
    };
    assert_eq!(pawn_move(b"e3", 0), Some((m1, 2)));

    let m2 = HalfMove::Regular {
        piece: Piece::Pawn,
        capture: false,
        col_from: None,
        row_from: None,
        square: b"e8".to_vec(),
        promotion: Some(Piece::Queen),
    };
    assert_eq!(pawn_move(b"e8=Q", 0), Some((m2, 4)));
}

#[test]
fn lib_pawn_capture_tests() {
    let m1 = HalfMove::Regular {
        piece: Piece::Pawn,
        capture: true,
        col_from: Some(b"e".to_vec()),
        row_from: None,
        square: b"f5".to_vec(),
        promotion: None,
    };
    assert_eq!(pawn_capture(b"exf5", 0), Some((m1, 4)));

    let m2 = HalfMove::Regular {
        piece: Piece::Pawn,
        capture: true,
        col_from: Some(b"a".to_vec()),
        row_from: None,
        square: b"b8".to_vec(),
        promotion: Some(Piece::Rook),
    };
    assert_eq!(pawn_capture(b"axb8=R", 0), Some((m2, 6)));
}

#[test]
fn main_pawn_capture_tests() {
    let m1 = HalfMove::Regular {
        piece: Piece::Pawn,
        capture: true,
        col_from: Some(b"e".to_vec()),
        row_from: None,
        square: b"f5".to_vec(),
        promotion: None,
    };
    assert_eq!(pawn_capture(b"exf5", 0), Some((m1, 4)));

    let m2 = HalfMove::Regular {
        piece: Piece::Pawn,
        capture: true,
        col_from: Some(b"a".to_vec()),
        row_from: None,
        square: b"b8".to_vec(),
        promotion: Some(Piece::Rook),
    };
    assert_eq!(pawn_capture(b"axb8=R", 0), Some((m2, 6)));
}

#[test]
fn lib_piece_move_tests() {
    let m1 = HalfMove::Regular {
        piece: Piece::Queen,
        capture: false,
        col_from: None,
        row_from: None,
        square: b"f2".to_vec(),
        promotion: None,
    };
    assert_eq!(piece_move(b"Qf2", 0), Some((m1, 3)));

    let m2 = HalfMove::Regular {
        piece: Piece::Queen,
        capture: true,
        col_from: None,
        row_from: None,
        square: b"f2".to_vec(),
        promotion: None,
    };
    assert_eq!(piece_move(b"Qxf2", 0), Some((m2, 4)));

    let m3 = HalfMove::Regular {
        piece: Piece::Bishop,
        capture: false,
        col_from: Some(b"g".to_vec()),
        row_from: None,
        square: b"a8".to_vec(),
        promotion: None,
    };
    assert_eq!(piece_move(b"Bga8", 0), Some((m3, 4)));

    let m4 = HalfMove::Regular {
        piece: Piece::Bishop,
        capture: true,
        col_from: Some(b"g".to_vec()),
        row_from: None,
        square: b"a8".to_vec(),
        promotion: None,
    };
    assert_eq!(piece_move(b"Bgxa8", 0), Some((m4, 5)));

    let m5 = HalfMove::Regular {
        piece: Piece::Rook,
        capture: false,
        col_from: None,
        row_from: Some(b"1".to_vec()),
        square: b"e1".to_vec(),
        promotion: None,
    };
    assert_eq!(piece_move(b"R1e1", 0), Some((m5, 4)));

    let m6 = HalfMove::Regular {
        piece: Piece::Rook,
        capture: true,
        col_from: None,
        row_from: Some(b"1".to_vec()),
        square: b"e1".to_vec(),
        promotion: None,
    };
    assert_eq!(piece_move(b"R1xe1", 0), Some((m6, 5)));

    let m7 = HalfMove::Regular {
        piece: Piece::Rook,
        capture: false,
        col_from: Some(b"c".to_vec()),
        row_from: Some(b"4".to_vec()),
        square: b"f4".to_vec(),
        promotion: None,
    };
    assert_eq!(piece_move(b"Rc4f4", 0), Some((m7, 5)));

    let m8 = HalfMove::Regular {
        piece: Piece::Rook,
        capture: true,
        col_from: Some(b"c".to_vec()),
        row_from: Some(b"4".to_vec()),
        square: b"f4".to_vec(),
        promotion: None,
    };
    assert_eq!(piece_move(b"Rc4xf4", 0), Some((m8, 6)));
}

#[test]
fn main_piece_move_tests() {
    let m1 = HalfMove::Regular {
        piece: Piece::Queen,
        capture: false,
        col_from: None,
        row_from: None,
        square: b"f2".to_vec(),
        promotion: None,
    };
    assert_eq!(piece_move(b"Qf2", 0), Some((m1, 3)));

    let m2 = HalfMove::Regular {
        piece: Piece::Queen,
        capture: true,
        col_from: None,
        row_from: None,
        square: b"f2".to_vec(),
        promotion: None,
    };
    assert_eq!(piece_move(b"Qxf2", 0), Some((m2, 4)));

    let m3 = HalfMove::Regular {
        piece: Piece::Bishop,
        capture: false,
        col_from: Some(b"g".to_vec()),
        row_from: None,
        square: b"a8".to_vec(),
        promotion: None,
    };
    assert_eq!(piece_move(b"Bga8", 0), Some((m3, 4)));

    let m4 = HalfMove::Regular {
        piece: Piece::Bishop,
        capture: true,
        col_from: Some(b"g".to_vec()),
        row_from: None,
        square: b"a8".to_vec(),
        promotion: None,
    };
    assert_eq!(piece_move(b"Bgxa8", 0), Some((m4, 5)));

    let m5 = HalfMove::Regular {
        piece: Piece::Rook,
        capture: false,
        col_from: None,
        row_from: Some(b"1".to_vec()),
        square: b"e1".to_vec(),
        promotion: None,
    };
    assert_eq!(piece_move(b"R1e1", 0), Some((m5, 4)));

    let m6 = HalfMove::Regular {
        piece: Piece::Rook,
        capture: true,
        col_from: None,
        row_from: Some(b"1".to_vec()),
        square: b"e1".to_vec(),
        promotion: None,
    };
    assert_eq!(piece_move(b"R1xe1", 0), Some((m6, 5)));

    let m7 = HalfMove::Regular {
        piece: Piece::Rook,
        capture: false,
        col_from: Some(b"c".to_vec()),
        row_from: Some(b"4".to_vec()),
        square: b"f4".to_vec(),
        promotion: None,
    };
    assert_eq!(piece_move(b"Rc4f4", 0), Some((m7, 5)));

    let m8 = HalfMove::Regular {
        piece: Piece::Rook,
        capture: true,
        col_from: Some(b"c".to_vec()),
        row_from: Some(b"4".to_vec()),
        square: b"f4".to_vec(),
        promotion: None,
    };
    assert_eq!(piece_move(b"Rc4xf4", 0), Some((m8, 6)));
}

#[test]
fn no_matcher_accepts_garbage() {
    assert_eq!(pawn_move(b"Z9", 0), None);
    assert_eq!(pawn_capture(b"Z9", 0), None);
    assert_eq!(piece_move(b"Z9", 0), None);
    assert_eq!(san(b"Z9", 0), None);
    assert_eq!(san(b"", 0), None);
    assert_eq!(san(b"e9", 0), None);
    assert_eq!(san(b"i4", 0), None);
    assert_eq!(san(b"e4=K", 0), None);
}

#[test]
fn queenside_before_kingside() {
    assert_eq!(san(b"O-O-O", 0), Some((HalfMove::QueensideCastling, 5)));
    assert_eq!(san(b"O-O", 0), Some((HalfMove::KingsideCastling, 3)));
    assert_eq!(san(b"O-O-O e5", 0), Some((HalfMove::QueensideCastling, 5)));
    assert_eq!(san(b"O-O-", 0), None);
}

#[test]
fn check_annotations_are_discarded() {
    let m1 = HalfMove::Regular {
        piece: Piece::Pawn,
        capture: false,
        col_from: None,
        row_from: None,
        square: b"e4".to_vec(),
        promotion: None,
    };
    assert_eq!(pawn_move(b"e4+", 0), Some((m1.clone(), 3)));
    assert_eq!(pawn_move(b"e4#", 0), Some((m1, 3)));
    let m2 = HalfMove::Regular {
        piece: Piece::Queen,
        capture: true,
        col_from: None,
        row_from: None,
        square: b"f7".to_vec(),
        promotion: None,
    };
    assert_eq!(piece_move(b"Qxf7#", 0), Some((m2, 5)));
}
