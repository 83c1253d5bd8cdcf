use garuda::chess::status::is_capture;
use garuda::chess::{CastlingRights, ChessMove, Color, GameStatus, Piece, PieceKind, Position, Square};

#[test]
fn fen_text_reads_back_for_varied_positions() {
    let fens = [
        "rnbqkbnr/pppppppp/8/8/8/8/PPPPPPPP/RNBQKBNR w KQkq - 0 1",
        "r3k2r/p1ppqpb1/bn2pnp1/3PN3/1p2P3/2N2Q1p/PPPBBPPP/R3K2R b Kq e3 17 42",
        "8/8/8/8/8/8/8/K6k w - - 99 65535",
        "4k3/8/8/3pP3/8/8/8/4K3 w - d6 0 3",
    ];
    for fen in fens {
        let position = Position::from_fen(fen).unwrap();
        assert_eq!(position.to_fen(), fen);
        let again = Position::from_fen(&position.to_fen()).unwrap();
        assert_eq!(again.to_fen(), position.to_fen());
    }
}

#[test]
fn fen_defaults_missing_fields() {
    let position = Position::from_fen("8/8/8/8/8/8/8/K6k b").unwrap();
    assert_eq!(position.to_fen(), "8/8/8/8/8/8/8/K6k b - - 0 1");
}

#[test]
fn fen_errors_name_the_bad_field() {
    let cases = [
        ("", "missing board field in FEN"),
        ("8/8/8/8/8/8/8/8", "missing side-to-move field in FEN"),
        ("8/8/8/8/8/8/8/8 w - - x 1", "invalid halfmove clock in FEN"),
        ("8/8/8/8/8/8/8/8 w - - 0 70000", "invalid fullmove number in FEN"),
        ("8/8/8/8/8/8/8/8 x", "invalid side-to-move field in FEN"),
        ("8/8/8/8/8/8/8/8 w KX", "invalid castling rights in FEN"),
        ("8/8/8/8/8/8/8/8 w - e9", "invalid en-passant square in FEN"),
        ("8/8/8 w", "invalid board layout in FEN"),
        ("9p/8/8/8/8/8/8/8 w", "file overflow in FEN rank"),
        ("x7/8/8/8/8/8/8/8 w", "invalid piece in FEN"),
        ("7/8/8/8/8/8/8/8 w", "rank does not fill eight files in FEN"),
    ];
    for (fen, message) in cases {
        assert_eq!(Position::from_fen(fen).err(), Some(message.to_string()));
    }
}

#[test]
fn symbols_and_names_read_back() {
    for color in [Color::White, Color::Black] {
        assert_eq!(Color::from_fen_symbol(color.fen_symbol()), Some(color));
        assert_eq!(color.opposite().opposite(), color);
        assert_ne!(color.opposite(), color);
    }
    for color in [Color::White, Color::Black] {
        for kind in [
            PieceKind::Pawn,
            PieceKind::Knight,
            PieceKind::Bishop,
            PieceKind::Rook,
            PieceKind::Queen,
            PieceKind::King,
        ] {
            let piece = Piece { color, kind };
            assert_eq!(Piece::from_fen_symbol(piece.fen_symbol()), Some(piece));
        }
    }
    for index in 0..64u8 {
        let square = Square::new(index).unwrap();
        assert_eq!(Square::from_algebraic(&square.to_string()), Some(square));
        assert_eq!(Square::from_file_rank(square.file(), square.rank()), Some(square));
    }
    assert_eq!(Square::new(64), None);
}

#[test]
fn uci_text_reads_back() {
    let e2 = Square::from_algebraic("e2").unwrap();
    let e4 = Square::from_algebraic("e4").unwrap();
    let plain = ChessMove::new(e2, e4);
    assert_eq!(ChessMove::from_uci(&plain.uci()), Some(plain));
    for kind in [PieceKind::Knight, PieceKind::Bishop, PieceKind::Rook, PieceKind::Queen] {
        let promotion = ChessMove::new(e2, e4).with_promotion(kind);
        assert_eq!(ChessMove::from_uci(&promotion.uci()), Some(promotion));
    }
    let king = ChessMove::new(e2, e4).with_promotion(PieceKind::King);
    assert_eq!(king.uci(), "e2e4q");
    assert_ne!(ChessMove::from_uci(&king.uci()), Some(king));
}

#[test]
fn castling_field_reads_back() {
    for bits in 0..16u8 {
        let rights = CastlingRights {
            white_kingside: bits & 1 != 0,
            white_queenside: bits & 2 != 0,
            black_kingside: bits & 4 != 0,
            black_queenside: bits & 8 != 0,
        };
        assert_eq!(CastlingRights::from_fen(&rights.to_fen()), Ok(rights));
    }
    assert_eq!(CastlingRights::from_fen("-"), Ok(CastlingRights::default()));
    assert!(CastlingRights::from_fen("KX").is_err());
}

#[test]
fn legal_moves_are_safe_pseudo_legal_moves() {
    let position =
        Position::from_fen("r3k2r/p1ppqpb1/bn2pnp1/3PN3/1p2P3/2N2Q1p/PPPBBPPP/R3K2R w KQkq - 0 1").unwrap();
    let pseudo = position.pseudo_legal_moves();
    let legal = position.legal_moves();
    assert_eq!(legal.len(), 48);
    for chess_move in &legal {
        assert!(pseudo.contains(chess_move));
        let next = position.apply_move(chess_move);
        assert!(!next.is_in_check(Color::White));
        assert_eq!(next.side_to_move(), Color::Black);
    }
    for chess_move in &pseudo {
        let mover = position.piece_at(chess_move.from).unwrap();
        assert_eq!(mover.color, Color::White);
        if let Some(target) = position.piece_at(chess_move.to) {
            assert_eq!(target.color, Color::Black);
        }
    }
}

#[test]
fn captures_include_en_passant() {
    let position = Position::from_fen("4k3/8/8/3pP3/8/8/8/4K3 w - d6 0 3").unwrap();
    let en_passant = ChessMove::from_uci("e5d6").unwrap();
    let push = ChessMove::from_uci("e5e6").unwrap();
    assert!(is_capture(&position, &en_passant));
    assert!(!is_capture(&position, &push));
    let start = Position::starting_position();
    assert!(is_capture(&start, &ChessMove::from_uci("e1e2").unwrap()));
}

#[test]
fn repetition_key_ignores_the_clocks() {
    let a = Position::from_fen("4k3/8/8/8/8/8/8/4K3 w - - 0 1").unwrap();
    let b = Position::from_fen("4k3/8/8/8/8/8/8/4K3 w - - 30 40").unwrap();
    let c = Position::from_fen("4k3/8/8/8/8/8/8/4K3 b - - 0 1").unwrap();
    assert_eq!(a.repetition_key(), b.repetition_key());
    assert_ne!(a.repetition_key(), c.repetition_key());
    assert_ne!(a.zobrist_like_key(), b.zobrist_like_key());
}

#[test]
fn finished_games_ignore_history() {
    let mate = Position::from_fen("7k/6Q1/6K1/8/8/8/8/8 b - - 0 1").unwrap();
    let key = mate.repetition_key();
    assert_eq!(mate.game_status(), GameStatus::Checkmate { loser: Color::Black });
    assert_eq!(
        mate.game_status_with_history(&[key, key, key]),
        GameStatus::Checkmate { loser: Color::Black }
    );
    let open = Position::starting_position();
    let open_key = open.repetition_key();
    assert_eq!(open.game_status_with_history(&[open_key, open_key]), GameStatus::Ongoing);
    assert_eq!(
        open.game_status_with_history(&[open_key, 7, open_key, open_key]),
        GameStatus::DrawByRepetition
    );
}

#[test]
fn castling_field_letters_decide_rights() {
    let rights = CastlingRights::from_fen("qKqK").unwrap();
    assert!(rights.white_kingside && rights.black_queenside);
    assert!(!rights.white_queenside && !rights.black_kingside);
    assert_eq!(CastlingRights::from_fen(""), Ok(CastlingRights::default()));
    assert!(CastlingRights::from_fen("--").is_err());
}

#[test]
fn algebraic_names_give_file_and_rank() {
    let e4 = Square::from_algebraic("E4").unwrap();
    assert_eq!(e4, Square(28));
    assert_eq!((e4.file(), e4.rank()), (4, 3));
    assert_eq!(Square::from_algebraic("i1"), None);
    assert_eq!(Square::from_algebraic("a9"), None);
    assert_eq!(Square::from_algebraic("a10"), None);
}

#[test]
fn king_square_is_the_lowest_king() {
    let mut position = Position::empty(Color::White);
    assert_eq!(position.king_square(Color::White), None);
    let king = Some(Piece { color: Color::White, kind: PieceKind::King });
    position.set_piece(Square(40), king);
    position.set_piece(Square(12), king);
    assert_eq!(position.king_square(Color::White), Some(Square(12)));
    assert_eq!(position.king_square(Color::Black), None);
}

#[test]
fn attacks_on_a_target_off_the_board_come_from_the_board() {
    let mut position = Position::empty(Color::White);
    position.set_piece(Square(0), Some(Piece { color: Color::White, kind: PieceKind::Rook }));
    assert!(position.is_square_attacked(Square(64), Color::White));
    assert!(!position.is_square_attacked(Square(65), Color::White));
    assert!(!position.is_square_attacked(Square(200), Color::Black));
}

#[test]
fn set_piece_changes_one_square() {
    let mut position = Position::starting_position();
    let queen = Some(Piece { color: Color::Black, kind: PieceKind::Queen });
    position.set_piece(Square(28), queen);
    assert_eq!(position.piece_at(Square(28)), queen);
    assert_eq!(position.piece_at(Square(27)), None);
    assert_eq!(position.piece_at(Square(4)), Some(Piece { color: Color::White, kind: PieceKind::King }));
}
