use pgnparser::GameResult;
use pgnparser::HalfMove;
use pgnparser::PGNGame;
use pgnparser::ParseError;
use pgnparser::Piece;
use pgnparser::PlyResult;
use pgnparser::moves;
use pgnparser::mve;
use pgnparser::to_san;

#[test]
fn convert_piece_to_string_test() {
    assert_eq!(Piece::King.as_white(), "\u{2654}");
    assert_eq!(Piece::Queen.as_white(), "\u{2655}");
    assert_eq!(Piece::Bishop.as_white(), "\u{2657}");
    assert_eq!(Piece::Knight.as_white(), "\u{2658}");
    assert_eq!(Piece::Rook.as_white(), "\u{2656}");
    assert_eq!(Piece::Pawn.as_white(), "");
    assert_eq!(Piece::King.as_black(), "\u{265A}");
    assert_eq!(Piece::Queen.as_black(), "\u{265B}");
    assert_eq!(Piece::Bishop.as_black(), "\u{265D}");
    assert_eq!(Piece::Knight.as_black(), "\u{265E}");
    assert_eq!(Piece::Rook.as_black(), "\u{265C}");
    assert_eq!(Piece::Pawn.as_black(), "");
}

#[test]
fn parse_piece_from_string_test() {
    assert_eq!(Piece::from_str("K"), Piece::King);
    assert_eq!(Piece::from_str("Q"), Piece::Queen);
    assert_eq!(Piece::from_str("B"), Piece::Bishop);
    assert_eq!(Piece::from_str("N"), Piece::Knight);
    assert_eq!(Piece::from_str("R"), Piece::Rook);
}

#[test]
fn lib_move_tests() {
    let move_white = HalfMove::Regular {
        piece: Piece::Pawn,
        capture: false,
        col_from: None,
        row_from: None,
        square: b"e4".to_vec(),
        promotion: None,
    };
    let move_black = HalfMove::Regular {
        piece: Piece::Pawn,
        capture: false,
        col_from: None,
        row_from: None,
        square: b"e5".to_vec(),
        promotion: None,
    };
    match mve(b"7. e4 e5", 0) {
        PlyResult::Ply { white, black, next } => {
            assert_eq!(white, move_white);
            assert_eq!(black, move_black);
            assert_eq!(next, 8);
        },
        other => panic!("{:?}", other),
    }

    let move_white_2 = HalfMove::Regular {
        piece: Piece::Bishop,
        capture: false,
        col_from: None,
        row_from: None,
        square: b"f2".to_vec(),
        promotion: None,
    };
    match mve(b"12.Bf2 O-O", 0) {
        PlyResult::Ply { white, black, next } => {
            assert_eq!(white, move_white_2);
            assert_eq!(black, HalfMove::KingsideCastling);
            assert_eq!(next, 10);
        },
        other => panic!("{:?}", other),
    }

    let move_black_2 = HalfMove::Regular {
        piece: Piece::Pawn,
        capture: true,
        col_from: Some(b"g".to_vec()),
        row_from: None,
        square: b"h4".to_vec(),
        promotion: None,
    };
    match mve(b"4.O-O-O gxh4", 0) {
        PlyResult::Ply { white, black, next } => {
            assert_eq!(white, HalfMove::QueensideCastling);
            assert_eq!(black, move_black_2);
            assert_eq!(next, 12);
        },
        other => panic!("{:?}", other),
    }
}

#[test]
fn main_move_tests() {
    let move_white = HalfMove::Regular {
        piece: Piece::Pawn,
        capture: false,
        col_from: None,
        row_from: None,
        square: b"e4".to_vec(),
        promotion: None,
    };
    let move_black = HalfMove::Regular {
        piece: Piece::Pawn,
        capture: false,
        col_from: None,
        row_from: None,
        square: b"e5".to_vec(),
        promotion: None,
    };
    match mve(b"7.e4 e5", 0) {
        PlyResult::Ply { white, black, next } => {
            assert_eq!(white, move_white);
            assert_eq!(black, move_black);
            assert_eq!(next, 7);
        },
        other => panic!("{:?}", other),
    }

    let move_white_2 = HalfMove::Regular {
        piece: Piece::Bishop,
        capture: false,
        col_from: None,
        row_from: None,
        square: b"f2".to_vec(),
        promotion: None,
    };
    match mve(b"12.Bf2 O-O", 0) {
        PlyResult::Ply { white, black, next } => {
            assert_eq!(white, move_white_2);
            assert_eq!(black, HalfMove::KingsideCastling);
            assert_eq!(next, 10);
        },
        other => panic!("{:?}", other),
    }

    let move_black_2 = HalfMove::Regular {
        piece: Piece::Pawn,
        capture: true,
        col_from: Some(b"g".to_vec()),
        row_from: None,
        square: b"h4".to_vec(),
        promotion: None,
    };
    match mve(b"4.O-O-O gxh4", 0) {
        PlyResult::Ply { white, black, next } => {
            assert_eq!(white, HalfMove::QueensideCastling);
            assert_eq!(black, move_black_2);
            assert_eq!(next, 12);
        },
        other => panic!("{:?}", other),
    }
}

#[test]
fn moves_tests() {
    let game = b"1. e4 e5 2. Bc4 Bc5 3. Qh5 Nf6 4. Qxf7";
    let move_list = moves(game, 0);
    println!("{:?}", move_list);
}

#[test]
fn full_game_seven_half_moves() {
    let g = PGNGame::from_str("1. e4 e5 2. Bc4 Bc5 3. Qh5 Nf6 4. Qxf7 1-0").unwrap();
    assert_eq!(g.moves.len(), 7);
    assert_eq!(
        g.moves[6],
        HalfMove::Regular {
            piece: Piece::Queen,
            capture: true,
            col_from: None,
            row_from: None,
            square: b"f7".to_vec(),
            promotion: None,
        }
    );
    assert_eq!(g.result, GameResult::WhiteWon);
    assert!(g.headers.is_empty());
}

#[test]
fn header_values_stored_verbatim() {
    let text = "[Event \"F/S Return Match\"]\n[Result \"1-0\"]\n1. e4 e5 1-0";
    let g = PGNGame::from_str(text).unwrap();
    assert_eq!(g.get_header(b"Event").unwrap(), b"F/S Return Match".to_vec());
    assert_eq!(g.get_header(b"Result").unwrap(), b"1-0".to_vec());
    assert_eq!(g.get_header(b"Site"), None);
    assert_eq!(g.result, GameResult::WhiteWon);
    assert_eq!(g.moves.len(), 2);
}

#[test]
fn garbage_token_aborts_whole_parse() {
    let err = PGNGame::from_str("1. Z9 1-0").unwrap_err();
    assert_eq!(err, ParseError::MalformedMove { offset: 3, token: b"Z9".to_vec() });
}

#[test]
fn result_alone_is_a_game() {
    let g = PGNGame::from_str("*").unwrap();
    assert!(g.headers.is_empty());
    assert!(g.moves.is_empty());
    assert_eq!(g.result, GameResult::Other);
}

#[test]
fn reserialized_moves_parse_back_identically() {
    let g = PGNGame::from_str(
        "1. e4 e5 2. Bc4 Bc5 3. Qh5 Nf6 4. Qxf7 1-0",
    ).unwrap();
    let mut text = String::new();
    for (i, m) in g.moves.iter().enumerate() {
        if i % 2 == 0 {
            text.push_str(&format!("{}. ", i / 2 + 1));
        }
        text.push_str(std::str::from_utf8(&to_san(m)).unwrap());
        text.push(' ');
    }
    text.push_str("1-0");
    let g2 = PGNGame::from_str(&text).unwrap();
    assert_eq!(g2.moves, g.moves);
    assert_eq!(g2.result, g.result);
}

#[test]
fn reserialized_special_moves_parse_back_identically() {
    let g = PGNGame::from_str("1. O-O-O O-O 2. Rc4xf4 axb8=R 3. e8=Q 0-1").unwrap();
    assert_eq!(g.moves.len(), 5);
    let mut text = String::new();
    for (i, m) in g.moves.iter().enumerate() {
        if i % 2 == 0 {
            text.push_str(&format!("{}. ", i / 2 + 1));
        }
        text.push_str(std::str::from_utf8(&to_san(m)).unwrap());
        text.push(' ');
    }
    text.push_str("0-1");
    let g2 = PGNGame::from_str(&text).unwrap();
    assert_eq!(g2.moves, g.moves);
    assert_eq!(g2.result, g.result);
}

#[test]
fn every_result_token_is_mapped() {
    assert_eq!(PGNGame::from_str("1. e4 1-0").unwrap().result, GameResult::WhiteWon);
    assert_eq!(PGNGame::from_str("1. e4 0-1").unwrap().result, GameResult::BlackWon);
    assert_eq!(PGNGame::from_str("1. e4 1/2-1/2").unwrap().result, GameResult::Draw);
    assert_eq!(PGNGame::from_str("1. e4 *").unwrap().result, GameResult::Other);
}

#[test]
fn wrong_result_token_is_malformed() {
    let err = PGNGame::from_str("1. e4 e5 2-0").unwrap_err();
    assert_eq!(err, ParseError::MalformedResult { offset: 9 });
}

#[test]
fn truncated_input_is_incomplete() {
    let err = PGNGame::from_str("1. e4 e5 1-").unwrap_err();
    assert_eq!(err, ParseError::IncompleteInput { offset: 9 });

    let err = PGNGame::from_str("").unwrap_err();
    assert_eq!(err, ParseError::IncompleteInput { offset: 0 });

    let err = PGNGame::from_str("1. ").unwrap_err();
    assert_eq!(err, ParseError::IncompleteInput { offset: 3 });
}

#[test]
fn repeated_header_key_overwrites() {
    let g = PGNGame::from_str("[Round \"1\"]\n[Round \"2\"]\n*").unwrap();
    assert_eq!(g.headers.len(), 1);
    assert_eq!(g.get_header(b"Round").unwrap(), b"2".to_vec());
}

#[test]
fn game_ending_on_white_move_has_odd_length() {
    let g = PGNGame::from_str("1. e4 e5 2. Qh5 *").unwrap();
    assert_eq!(g.moves.len(), 3);
    assert_eq!(
        g.moves[2],
        HalfMove::Regular {
            piece: Piece::Queen,
            capture: false,
            col_from: None,
            row_from: None,
            square: b"h5".to_vec(),
            promotion: None,
        }
    );
}

#[test]
fn serializer_writes_minimal_tokens() {
    assert_eq!(to_san(&HalfMove::KingsideCastling), b"O-O".to_vec());
    assert_eq!(to_san(&HalfMove::QueensideCastling), b"O-O-O".to_vec());
    assert_eq!(
        to_san(
            &HalfMove::Regular {
                piece: Piece::Pawn,
                capture: false,
                col_from: None,
                row_from: None,
                square: b"e8".to_vec(),
                promotion: Some(Piece::Queen),
            }
        ),
        b"e8=Q".to_vec()
    );
    assert_eq!(
        to_san(
            &HalfMove::Regular {
                piece: Piece::Rook,
                capture: true,
                col_from: Some(b"c".to_vec()),
                row_from: Some(b"4".to_vec()),
                square: b"f4".to_vec(),
                promotion: None,
            }
        ),
        b"Rc4xf4".to_vec()
    );
}
