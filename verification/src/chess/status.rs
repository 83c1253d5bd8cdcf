//! The state of the game, repetition keys, and pawn structure.

use vstd::prelude::*;
use super::{ChessMove, Color, GameStatus, Piece, PieceKind, Position, PositionModel, Square, uci_cuts_ok};
use super::rules::{apply_move, file_of, game_status, game_status_with_history, legal_moves, occurrences_upto, rank_of};
use vstd::string::StringSliceAdditionalSpecFns;

verus! {

/// The code that the repetition key gives each piece.
pub open spec fn piece_code(p: Piece) -> u64 {
    match (p.color, p.kind) {
        (Color::White, PieceKind::Pawn) => 0x11,
        (Color::White, PieceKind::Knight) => 0x12,
        (Color::White, PieceKind::Bishop) => 0x13,
        (Color::White, PieceKind::Rook) => 0x14,
        (Color::White, PieceKind::Queen) => 0x15,
        (Color::White, PieceKind::King) => 0x16,
        (Color::Black, PieceKind::Pawn) => 0x21,
        (Color::Black, PieceKind::Knight) => 0x22,
        (Color::Black, PieceKind::Bishop) => 0x23,
        (Color::Black, PieceKind::Rook) => 0x24,
        (Color::Black, PieceKind::Queen) => 0x25,
        (Color::Black, PieceKind::King) => 0x26,
    }
}

/// `u64::rotate_left(k, 7)`.
pub open spec fn rotate_left_7(k: u64) -> u64 {
    (k << 7u64) | (k >> 57u64)
}

/// The key after mixing in the piece `p` on square `index`.
pub open spec fn key_step(key: u64, index: u64, p: Piece) -> u64 {
    let mix = (index << 8u64) ^ piece_code(p);
    let mixed = key ^ mix.wrapping_mul(0x1000_0000_01b3);
    rotate_left_7(mixed).wrapping_mul(0x9e37_79b9_7f4a_7c15)
}

/// The key of the pieces on squares `0..n`.
pub open spec fn board_key(board: Seq<Option<Piece>>, n: int) -> u64
    decreases n,
{
    if n <= 0 {
        0xcbf2_9ce4_8422_2325
    } else {
        match board[n - 1] {
            Some(p) => key_step(board_key(board, n - 1), (n - 1) as u64, p),
            None => board_key(board, n - 1),
        }
    }
}

/// The key of a position for repetition: the pieces, the side to move, the
/// castling rights and the en-passant target (not the clocks).
pub open spec fn repetition_key(m: PositionModel) -> u64 {
    let k0 = board_key(m.board, 64);
    let k1 = if m.side_to_move == Color::Black {
        k0 ^ 0xf0f0_f0f0_f0f0_f0f0
    } else {
        k0
    };
    let k2 = if m.castling_rights.white_kingside {
        k1 ^ 0x0101_0101_0101_0101
    } else {
        k1
    };
    let k3 = if m.castling_rights.white_queenside {
        k2 ^ 0x0202_0202_0202_0202
    } else {
        k2
    };
    let k4 = if m.castling_rights.black_kingside {
        k3 ^ 0x0404_0404_0404_0404
    } else {
        k3
    };
    let k5 = if m.castling_rights.black_queenside {
        k4 ^ 0x0808_0808_0808_0808
    } else {
        k4
    };
    match m.en_passant_target {
        Some(s) => k5 ^ (0x1111_0000_0000_1111u64 ^ (s.0 as u64)),
        None => k5,
    }
}

/// The repetition key with the two clocks mixed in.
pub open spec fn position_key(m: PositionModel) -> u64 {
    (repetition_key(m) ^ ((m.halfmove_clock as u64) << 32u64)) ^ (m.fullmove_number as u64)
}

/// The number of pawns of color `c` on file `f` among squares `0..n`.
pub open spec fn pawn_count(board: Seq<Option<Piece>>, c: Color, f: int, n: int) -> nat
    decreases n,
{
    if n <= 0 {
        0
    } else {
        pawn_count(board, c, f, n - 1) + if (n - 1) % 8 == f && board[n - 1] == Some(
            Piece { color: c, kind: PieceKind::Pawn },
        ) {
            1nat
        } else {
            0nat
        }
    }
}

/// No enemy pawn stands on the pawn's file or a neighbouring one, level
/// with it or ahead of it.
pub open spec fn is_passed_pawn(m: PositionModel, square: Square, c: Color) -> bool {
    !exists|i: int|
        0 <= i < 64 && #[trigger] m.board[i] == Some(
            Piece { color: c.spec_opposite(), kind: PieceKind::Pawn },
        ) && -1 <= i % 8 - file_of(square) <= 1 && (if c == Color::White {
            i / 8 >= rank_of(square)
        } else {
            i / 8 <= rank_of(square)
        })
}

pub open spec fn apply_uci_spec(m: PositionModel, bytes: Seq<u8>) -> Option<PositionModel> {
    match ChessMove::spec_from_uci_bytes(bytes) {
        None => None,
        Some(mv) => if legal_moves(m).contains(mv) {
            Some(apply_move(m, mv))
        } else {
            None
        },
    }
}

/// Toggling the same bits in two words keeps their difference `c`.
proof fn lemma_xor_keeps_difference(x: u64, y: u64, d: u64, c: u64)
    requires
        x == y ^ c,
    ensures
        x ^ d == (y ^ d) ^ c,
{
    assert(x ^ d == (y ^ d) ^ c) by (bit_vector)
        requires
            x == y ^ c,
    ;
}

/// Positions that agree on the pieces, the castling rights and the en-passant target have
/// the same repetition key exactly when the same side is to move: the clocks do not count,
/// and the side to move always does.
pub proof fn lemma_repetition_key_side(m1: PositionModel, m2: PositionModel)
    requires
        m1.board == m2.board,
        m1.castling_rights == m2.castling_rights,
        m1.en_passant_target == m2.en_passant_target,
    ensures
        (repetition_key(m1) == repetition_key(m2)) <==> (m1.side_to_move == m2.side_to_move),
{
    if m1.side_to_move != m2.side_to_move {
        let (w, b) = if m1.side_to_move == Color::White {
            (m1, m2)
        } else {
            (m2, m1)
        };
        let c: u64 = 0xf0f0_f0f0_f0f0_f0f0;
        let k0 = board_key(w.board, 64);
        assert(k0 ^ c == k0 ^ c);
        let cr = w.castling_rights;
        let d1: u64 = if cr.white_kingside { 0x0101_0101_0101_0101 } else { 0 };
        let d2: u64 = if cr.white_queenside { 0x0202_0202_0202_0202 } else { 0 };
        let d3: u64 = if cr.black_kingside { 0x0404_0404_0404_0404 } else { 0 };
        let d4: u64 = if cr.black_queenside { 0x0808_0808_0808_0808 } else { 0 };
        let d5: u64 = match w.en_passant_target {
            Some(s) => 0x1111_0000_0000_1111u64 ^ (s.0 as u64),
            None => 0,
        };
        assert forall|x: u64| #[trigger] (x ^ 0u64) == x by {
            assert(x ^ 0u64 == x) by (bit_vector);
        }
        let kw = k0 ^ d1 ^ d2 ^ d3 ^ d4 ^ d5;
        let kb = (k0 ^ c) ^ d1 ^ d2 ^ d3 ^ d4 ^ d5;
        assert(repetition_key(w) == kw);
        assert(repetition_key(b) == kb);
        lemma_xor_keeps_difference(k0 ^ c, k0, d1, c);
        lemma_xor_keeps_difference((k0 ^ c) ^ d1, k0 ^ d1, d2, c);
        lemma_xor_keeps_difference((k0 ^ c) ^ d1 ^ d2, k0 ^ d1 ^ d2, d3, c);
        lemma_xor_keeps_difference((k0 ^ c) ^ d1 ^ d2 ^ d3, k0 ^ d1 ^ d2 ^ d3, d4, c);
        lemma_xor_keeps_difference((k0 ^ c) ^ d1 ^ d2 ^ d3 ^ d4, k0 ^ d1 ^ d2 ^ d3 ^ d4, d5, c);
        assert(kb == kw ^ c);
        assert(kw ^ c != kw) by (bit_vector)
            requires
                c == 0xf0f0_f0f0_f0f0_f0f0u64,
        ;
    }
}

proof fn lemma_pawn_count_bound(board: Seq<Option<Piece>>, c: Color, f: int, n: int)
    requires
        n >= 0,
    ensures
        pawn_count(board, c, f, n) <= n,
    decreases n,
{
    if n > 0 {
        lemma_pawn_count_bound(board, c, f, n - 1);
    }
}

impl Position {
    /// Where the game stands: a draw by the fifty-move rule once the halfmove
    /// clock reaches 100; otherwise ongoing while a legal move exists; else
    /// checkmate or stalemate for the side to move.
    pub fn game_status(&self) -> (s: GameStatus)
        ensures
            s == game_status(self@),
    {
        if self.halfmove_clock >= 100 {
            return GameStatus::DrawByFiftyMoveRule;
        }
        let legal_moves = self.legal_moves();
        if legal_moves.len() > 0 {
            return GameStatus::Ongoing;
        }
        if self.is_in_check(self.side_to_move) {
            GameStatus::Checkmate { loser: self.side_to_move }
        } else {
            GameStatus::Stalemate { side_to_move: self.side_to_move }
        }
    }

    /// The status of the game, with a draw once the key of this position
    /// occurs three times in `repetition_history`.
    pub fn game_status_with_history(&self, repetition_history: &[u64]) -> (s: GameStatus)
        ensures
            s == game_status_with_history(self@, repetition_key(self@), repetition_history@),
    {
        let status = self.game_status();
        if status != GameStatus::Ongoing {
            return status;
        }
        let current_key = self.repetition_key();
        let mut count: usize = 0;
        let mut i: usize = 0;
        while i < repetition_history.len()
            invariant
                i <= repetition_history.len(),
                status == game_status(self@),
                status == GameStatus::Ongoing,
                current_key == repetition_key(self@),
                count == occurrences_upto(repetition_history@, current_key, i as int),
                count <= i,
            decreases repetition_history.len() - i,
        {
            if repetition_history[i] == current_key {
                count = count + 1;
            }
            i = i + 1;
        }
        if count >= 3 {
            GameStatus::DrawByRepetition
        } else {
            GameStatus::Ongoing
        }
    }

    /// The key of the position for detecting repetitions: it mixes the
    /// pieces square by square, then the side to move, the castling rights
    /// and the en-passant target.
    pub fn repetition_key(&self) -> (k: u64)
        ensures
            k == repetition_key(self@),
    {
        let mut key: u64 = 0xcbf2_9ce4_8422_2325u64;
        let mut i: usize = 0;
        while i < 64
            invariant
                i <= 64,
                key == board_key(self@.board, i as int),
            decreases 64 - i,
        {
            match self.board[i] {
                Some(piece) => {
                    let piece_code: u64 = match (piece.color, piece.kind) {
                        (Color::White, PieceKind::Pawn) => 0x11u64,
                        (Color::White, PieceKind::Knight) => 0x12u64,
                        (Color::White, PieceKind::Bishop) => 0x13u64,
                        (Color::White, PieceKind::Rook) => 0x14u64,
                        (Color::White, PieceKind::Queen) => 0x15u64,
                        (Color::White, PieceKind::King) => 0x16u64,
                        (Color::Black, PieceKind::Pawn) => 0x21u64,
                        (Color::Black, PieceKind::Knight) => 0x22u64,
                        (Color::Black, PieceKind::Bishop) => 0x23u64,
                        (Color::Black, PieceKind::Rook) => 0x24u64,
                        (Color::Black, PieceKind::Queen) => 0x25u64,
                        (Color::Black, PieceKind::King) => 0x26u64,
                    };
                    let mix = ((i as u64) << 8u64) ^ piece_code;
                    key = key ^ mix.wrapping_mul(0x1000_0000_01b3);
                    key = ((key << 7u64) | (key >> 57u64)).wrapping_mul(0x9e37_79b9_7f4a_7c15);
                },
                None => {},
            }
            i = i + 1;
        }
        if self.side_to_move == Color::Black {
            key = key ^ 0xf0f0_f0f0_f0f0_f0f0;
        }
        if self.castling_rights.white_kingside {
            key = key ^ 0x0101_0101_0101_0101;
        }
        if self.castling_rights.white_queenside {
            key = key ^ 0x0202_0202_0202_0202;
        }
        if self.castling_rights.black_kingside {
            key = key ^ 0x0404_0404_0404_0404;
        }
        if self.castling_rights.black_queenside {
            key = key ^ 0x0808_0808_0808_0808;
        }
        if let Some(square) = self.en_passant_target {
            key = key ^ (0x1111_0000_0000_1111u64 ^ (square.0 as u64));
        }
        key
    }

    /// The repetition key with the halfmove clock and the move number mixed
    /// in; it tells apart positions whose clocks differ.
    pub fn zobrist_like_key(&self) -> (k: u64)
        ensures
            k == position_key(self@),
    {
        let mut key = self.repetition_key();
        key = key ^ ((self.halfmove_clock as u64) << 32u64);
        key = key ^ (self.fullmove_number as u64);
        key
    }

    /// Plays a move given in UCI notation if it is legal here.
    pub fn apply_uci_move(&self, uci: &str) -> (next: Option<Position>)
        requires
            uci_cuts_ok(uci.spec_bytes()),
        ensures
            match apply_uci_spec(self@, uci.spec_bytes()) {
                None => next is None,
                Some(m) => next matches Some(p) && p@ == m,
            },
            super::rules::well_formed(self@),
            next matches Some(p) ==> super::rules::well_formed(p@),
    {
        proof {
            use_type_invariant(self);
        }
        let chess_move = match ChessMove::from_uci(uci) {
            Some(m) => m,
            None => return None,
        };
        let moves = self.legal_moves();
        let mut i: usize = 0;
        while i < moves.len()
            invariant
                i <= moves.len(),
                moves@ == legal_moves(self@),
                chess_move.valid(),
                Some(chess_move) == ChessMove::spec_from_uci_bytes(uci.spec_bytes()),
                forall|j: int| 0 <= j < i ==> moves@[j] != chess_move,
            decreases moves.len() - i,
        {
            if moves[i] == chess_move {
                assert(moves@[i as int] == chess_move);
                return Some(self.apply_move(&chess_move));
            }
            i = i + 1;
        }
        None
    }

    /// The position with another side to move, all else unchanged.
    pub fn clone_for_side(&self, side_to_move: Color) -> (p: Position)
        ensures
            p@ == (PositionModel { side_to_move, ..self@ }),
            super::rules::well_formed(p@),
    {
        proof {
            use_type_invariant(self);
        }
        Position {
            board: self.board,
            side_to_move,
            castling_rights: self.castling_rights,
            en_passant_target: self.en_passant_target,
            halfmove_clock: self.halfmove_clock,
            fullmove_number: self.fullmove_number,
        }
    }

    /// The number of pawns of `color` on each file.
    pub fn pawn_file_counts(&self, color: Color) -> (counts: [u8; 8])
        ensures
            forall|f: int| 0 <= f < 8 ==> #[trigger] counts@[f] == pawn_count(self@.board, color, f, 64),
    {
        let mut counts = [0u8; 8];
        let mut i: usize = 0;
        while i < 64
            invariant
                i <= 64,
                forall|f: int| 0 <= f < 8 ==> #[trigger] counts@[f] == pawn_count(self@.board, color, f, i as int),
            decreases 64 - i,
        {
            proof {
                assert forall|f: int| 0 <= f < 8 implies #[trigger] pawn_count(self@.board, color, f, i as int) <= 64 by {
                    lemma_pawn_count_bound(self@.board, color, f, i as int);
                }
            }
            match self.board[i] {
                Some(piece) => {
                    if piece.color == color && piece.kind == PieceKind::Pawn {
                        let file = i % 8;
                        counts[file] = counts[file].saturating_add(1);
                    }
                },
                None => {},
            }
            i = i + 1;
        }
        counts
    }

    /// Whether no enemy pawn can stop or take the pawn of `color` on `square`.
    pub fn is_passed_pawn(&self, square: Square, color: Color) -> (b: bool)
        requires
            square.valid(),
        ensures
            b == is_passed_pawn(self@, square, color),
    {
        let enemy_pawn = Piece { color: color.opposite(), kind: PieceKind::Pawn };
        let sf = square.file() as i8;
        let sr = square.rank();
        let mut i: usize = 0;
        while i < 64
            invariant
                i <= 64,
                sf == file_of(square),
                sr == rank_of(square),
                enemy_pawn == (Piece { color: color.spec_opposite(), kind: PieceKind::Pawn }),
                forall|j: int|
                    0 <= j < i ==> !(#[trigger] self@.board[j] == Some(enemy_pawn) && -1 <= j % 8 - sf <= 1
                        && (if color == Color::White {
                        j / 8 >= sr
                    } else {
                        j / 8 <= sr
                    })),
            decreases 64 - i,
        {
            match self.board[i] {
                Some(piece) => {
                    if piece == enemy_pawn {
                        let file_distance = (i % 8) as i8 - sf;
                        if -1 <= file_distance && file_distance <= 1 {
                            let rank = (i / 8) as u8;
                            let blocks_path = match color {
                                Color::White => rank >= sr,
                                Color::Black => rank <= sr,
                            };
                            if blocks_path {
                                assert(self@.board[i as int] == Some(enemy_pawn));
                                return false;
                            }
                        }
                    }
                },
                None => {},
            }
            i = i + 1;
        }
        true
    }
}

/// Whether a move takes something: a piece stands on its target, or it is a pawn-style
/// diagonal step onto the en-passant target.
pub fn is_capture(position: &Position, chess_move: &ChessMove) -> (r: bool)
    requires
        chess_move.valid(),
    ensures
        r == (position@.board[chess_move.to.0 as int] is Some || (position@.en_passant_target
            == Some(chess_move.to) && position@.board[chess_move.to.0 as int] is None
            && chess_move.from.spec_file() != chess_move.to.spec_file())),
{
    if position.piece_at(chess_move.to).is_some() {
        return true;
    }
    position.en_passant_target() == Some(chess_move.to) && position.piece_at(chess_move.to).is_none()
        && chess_move.from.file() != chess_move.to.file()
}

} // verus!
