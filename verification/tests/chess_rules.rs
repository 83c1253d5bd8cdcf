use garuda::chess::{CastlingRights, ChessMove, Color, GameStatus, Piece, PieceKind, Position, Square};

fn ucis(moves: &[ChessMove]) -> Vec<String> {
    moves.iter().map(|chess_move| chess_move.uci()).collect()
}

#[test]
fn starting_position_has_pieces() {
    let position = Position::starting_position();
    assert_eq!(position.side_to_move(), Color::White);
    assert!(position
        .piece_at(Square::from_file_rank(4, 0).unwrap())
        .is_some());
    assert!(position
        .piece_at(Square::from_file_rank(4, 7).unwrap())
        .is_some());
}

#[test]
fn pseudo_legal_moves_exist_from_start() {
    let position = Position::starting_position();
    let moves = position.pseudo_legal_moves();
    assert!(!moves.is_empty());
    assert!(moves.iter().any(|chess_move| chess_move.uci() == "b1c3"));
    assert!(moves.iter().any(|chess_move| chess_move.uci() == "e2e4"));
}

#[test]
fn legal_moves_exist_from_start() {
    let position = Position::starting_position();
    let moves = position.legal_moves();
    assert!(!moves.is_empty());
    assert!(moves.iter().any(|chess_move| chess_move.uci() == "e2e4"));
}

#[test]
fn san_formats_basic_pawn_and_piece_moves() {
    let position = Position::starting_position();
    assert_eq!(
        position
            .san_for_move(&ChessMove::from_uci("e2e4").unwrap())
            .as_deref(),
        Some("e4")
    );
    assert_eq!(
        position
            .san_for_move(&ChessMove::from_uci("g1f3").unwrap())
            .as_deref(),
        Some("Nf3")
    );
}

#[test]
fn san_formats_castling_and_promotion() {
    let castling = Position::from_fen("r3k2r/8/8/8/8/8/8/R3K2R w KQkq - 0 1").unwrap();
    assert_eq!(
        castling
            .san_for_move(&ChessMove::from_uci("e1g1").unwrap())
            .as_deref(),
        Some("O-O")
    );

    let promotion = Position::from_fen("4k3/6P1/8/8/8/8/8/4K3 w - - 0 1").unwrap();
    assert_eq!(
        promotion
            .san_for_move(&ChessMove::from_uci("g7g8q").unwrap())
            .as_deref(),
        Some("g8=Q+")
    );
}

#[test]
fn legal_moves_include_all_forward_promotion_variants() {
    let position = Position::from_fen("4k3/6P1/8/8/8/8/8/4K3 w - - 0 1").unwrap();
    let ucis = ucis(&position.legal_moves());
    assert!(ucis.contains(&"g7g8q".to_string()));
    assert!(ucis.contains(&"g7g8r".to_string()));
    assert!(ucis.contains(&"g7g8b".to_string()));
    assert!(ucis.contains(&"g7g8n".to_string()));
}

#[test]
fn legal_moves_include_all_capture_promotion_variants() {
    let position = Position::from_fen("4k2r/6P1/8/8/8/8/8/4K3 w - - 0 1").unwrap();
    let ucis = ucis(&position.legal_moves());
    assert!(ucis.contains(&"g7h8q".to_string()));
    assert!(ucis.contains(&"g7h8r".to_string()));
    assert!(ucis.contains(&"g7h8b".to_string()));
    assert!(ucis.contains(&"g7h8n".to_string()));
}

#[test]
fn starting_position_round_trips_to_fen() {
    let position = Position::starting_position();
    assert_eq!(position.to_fen(), Position::STARTPOS_FEN);
    let reparsed = Position::from_fen(&position.to_fen()).unwrap();
    assert_eq!(reparsed.to_fen(), Position::STARTPOS_FEN);
}

#[test]
fn parses_sparse_fen_position() {
    let position = Position::from_fen("8/8/3k4/8/8/4K3/8/8 b - - 4 18").unwrap();
    assert_eq!(position.side_to_move(), Color::Black);
    assert_eq!(
        position.piece_at(Square::from_file_rank(3, 5).unwrap()),
        Some(Piece {
            color: Color::Black,
            kind: PieceKind::King,
        })
    );
    assert_eq!(
        position.piece_at(Square::from_file_rank(4, 2).unwrap()),
        Some(Piece {
            color: Color::White,
            kind: PieceKind::King,
        })
    );
    assert_eq!(position.to_fen(), "8/8/3k4/8/8/4K3/8/8 b - - 4 18");
}

#[test]
fn preserves_castling_and_en_passant_in_fen() {
    let position =
        Position::from_fen("rnbqkbnr/pppppppp/8/8/3P4/8/PPP1PPPP/RNBQKBNR b KQkq d3 0 1").unwrap();
    assert_eq!(
        position.castling_rights(),
        CastlingRights {
            white_kingside: true,
            white_queenside: true,
            black_kingside: true,
            black_queenside: true,
        }
    );
    assert_eq!(position.en_passant_target(), Square::from_algebraic("d3"));
    assert_eq!(
        position.to_fen(),
        "rnbqkbnr/pppppppp/8/8/3P4/8/PPP1PPPP/RNBQKBNR b KQkq d3 0 1"
    );
}

#[test]
fn detects_check_and_filters_illegal_moves() {
    let position = Position::from_fen("4k3/8/8/8/8/8/4r3/4K3 w - - 0 1").unwrap();
    assert!(position.is_in_check(Color::White));
    let moves = position.legal_moves();
    assert!(moves
        .iter()
        .all(|chess_move| chess_move.from == Square::from_algebraic("e1").unwrap()));
    assert!(moves.iter().any(|chess_move| chess_move.uci() == "e1e2"));
    assert!(!moves.iter().any(|chess_move| chess_move.uci() == "e1d2"));
}

#[test]
fn parses_uci_moves() {
    let chess_move = ChessMove::from_uci("e2e4").unwrap();
    assert_eq!(chess_move.from, Square::from_file_rank(4, 1).unwrap());
    assert_eq!(chess_move.to, Square::from_file_rank(4, 3).unwrap());
    assert_eq!(chess_move.uci(), "e2e4");
}

#[test]
fn applies_pseudo_legal_uci_move() {
    let position = Position::starting_position();
    let next = position.apply_uci_move("b1c3").unwrap();
    assert_eq!(next.side_to_move(), Color::Black);
    assert_eq!(
        next.piece_at(Square::from_file_rank(2, 2).unwrap()),
        Some(Piece {
            color: Color::White,
            kind: PieceKind::Knight,
        })
    );
    assert!(next
        .piece_at(Square::from_file_rank(1, 0).unwrap())
        .is_none());
}

#[test]
fn generates_and_applies_castling() {
    let position = Position::from_fen("r3k2r/8/8/8/8/8/8/R3K2R w KQkq - 0 1").unwrap();
    let moves = position.legal_moves();
    assert!(moves.iter().any(|chess_move| chess_move.uci() == "e1g1"));
    assert!(moves.iter().any(|chess_move| chess_move.uci() == "e1c1"));

    let kingside = position.apply_uci_move("e1g1").unwrap();
    assert_eq!(
        kingside.piece_at(Square::from_algebraic("g1").unwrap()),
        Some(Piece {
            color: Color::White,
            kind: PieceKind::King,
        })
    );
    assert_eq!(
        kingside.piece_at(Square::from_algebraic("f1").unwrap()),
        Some(Piece {
            color: Color::White,
            kind: PieceKind::Rook,
        })
    );
}

#[test]
fn generates_and_applies_en_passant() {
    let position = Position::from_fen("4k3/8/8/3pP3/8/8/8/4K3 w - d6 0 1").unwrap();
    let moves = position.legal_moves();
    assert!(moves.iter().any(|chess_move| chess_move.uci() == "e5d6"));

    let next = position.apply_uci_move("e5d6").unwrap();
    assert_eq!(
        next.piece_at(Square::from_algebraic("d6").unwrap()),
        Some(Piece {
            color: Color::White,
            kind: PieceKind::Pawn,
        })
    );
    assert!(next
        .piece_at(Square::from_algebraic("d5").unwrap())
        .is_none());
    assert_eq!(next.to_fen(), "4k3/8/3P4/8/8/8/8/4K3 b - - 0 1");
}

#[test]
fn detects_checkmate_and_stalemate() {
    let checkmate = Position::from_fen("7k/6Q1/6K1/8/8/8/8/8 b - - 0 1").unwrap();
    assert_eq!(
        checkmate.game_status(),
        GameStatus::Checkmate {
            loser: Color::Black,
        }
    );

    let stalemate = Position::from_fen("7k/5Q2/6K1/8/8/8/8/8 b - - 0 1").unwrap();
    assert_eq!(
        stalemate.game_status(),
        GameStatus::Stalemate {
            side_to_move: Color::Black,
        }
    );
}

#[test]
fn detects_fifty_move_draw() {
    let position = Position::from_fen("4k3/8/8/8/8/8/8/4K3 w - - 100 51").unwrap();
    assert_eq!(position.game_status(), GameStatus::DrawByFiftyMoveRule);
}

#[test]
fn detects_threefold_repetition_from_history() {
    let position = Position::from_fen("4k3/8/8/8/8/8/8/4K3 w - - 4 3").unwrap();
    let history = vec![
        position.repetition_key(),
        0x1234_u64,
        position.repetition_key(),
        position.repetition_key(),
    ];
    assert_eq!(
        position.game_status_with_history(&history),
        GameStatus::DrawByRepetition
    );
}
