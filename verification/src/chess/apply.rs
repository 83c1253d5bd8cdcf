//! Making moves.

use vstd::prelude::*;
use super::{ChessMove, Color, PieceKind, Position, Square};
use super::rules::{
    apply_move, board_after, captured_piece, castle_rook, en_passant_after, en_passant_victim,
    file_of, halfmove_after, in_check, is_castling_step, is_en_passant, king_moved_rights,
    legal_moves, promoted, pseudo_legal_moves, rank_of, rights_after, rook_square_rights,
    saturating_inc, sq,
};
use vstd::string::StringSliceAdditionalSpecFns;

verus! {

fn clear_rook_right(rights: &mut super::CastlingRights, color: Color, file: u8, rank: u8)
    ensures
        *final(rights) == rook_square_rights(*old(rights), color, file as int, rank as int),
{
    match (color, file, rank) {
        (Color::White, 0, 0) => rights.white_queenside = false,
        (Color::White, 7, 0) => rights.white_kingside = false,
        (Color::Black, 0, 7) => rights.black_queenside = false,
        (Color::Black, 7, 7) => rights.black_kingside = false,
        _ => {},
    }
}

impl Position {
    fn is_en_passant_exec(&self, piece: super::Piece, mv: ChessMove) -> (b: bool)
        requires
            mv.valid(),
        ensures
            b == is_en_passant(self@, piece, mv),
    {
        piece.kind == PieceKind::Pawn && self.en_passant_target == Some(mv.to)
            && self.board[mv.to.0 as usize].is_none() && mv.from.file() != mv.to.file()
    }

    fn captured_exec(&self, mv: ChessMove) -> (c: Option<super::Piece>)
        requires
            mv.valid(),
        ensures
            c == captured_piece(self@, mv),
    {
        match self.board[mv.from.0 as usize] {
            Some(piece) => {
                if self.is_en_passant_exec(piece, mv) {
                    let victim = mv.from.rank() * 8 + mv.to.file();
                    assert(victim != mv.from.0);
                    self.board[victim as usize]
                } else {
                    self.board[mv.to.0 as usize]
                }
            },
            None => self.board[mv.to.0 as usize],
        }
    }

    fn board_after_exec(&self, mv: ChessMove) -> (b: [Option<super::Piece>; 64])
        requires
            mv.valid(),
        ensures
            b@ == board_after(self@, mv),
    {
        let mut board = self.board;
        board[mv.from.0 as usize] = None;
        if let Some(piece0) = self.board[mv.from.0 as usize] {
            if self.is_en_passant_exec(piece0, mv) {
                let victim = mv.from.rank() * 8 + mv.to.file();
                board[victim as usize] = None;
            }
            let mut piece = piece0;
            if let Some(promotion) = mv.promotion {
                piece.kind = promotion;
            }
            assert(piece == promoted(piece0, mv));
            let to_file = mv.to.file();
            let from_file = mv.from.file();
            if piece.kind == PieceKind::King && (to_file >= from_file + 2 && to_file - from_file == 2
                || from_file >= to_file + 2 && from_file - to_file == 2) {
                let ghost b2 = board@;
                let (rook_from_file, rook_to_file): (u8, u8) = if to_file > from_file {
                    (7, 5)
                } else {
                    (0, 3)
                };
                let rank = mv.from.rank();
                let rook_from = rank * 8 + rook_from_file;
                let rook_to = rank * 8 + rook_to_file;
                let rook = board[rook_from as usize];
                board[rook_from as usize] = None;
                board[rook_to as usize] = rook;
                assert(board@ =~= castle_rook(b2, mv));
            }
            board[mv.to.0 as usize] = Some(piece);
        }
        assert(board@ =~= board_after(self@, mv));
        board
    }

    fn rights_after_exec(&self, mv: ChessMove, captured: Option<super::Piece>) -> (r: super::CastlingRights)
        requires
            mv.valid(),
            captured == captured_piece(self@, mv),
        ensures
            r == rights_after(self@, mv),
    {
        let mut rights = self.castling_rights;
        if let Some(piece0) = self.board[mv.from.0 as usize] {
            let mut piece = piece0;
            if let Some(promotion) = mv.promotion {
                piece.kind = promotion;
            }
            if piece.kind == PieceKind::King {
                match piece.color {
                    Color::White => {
                        rights.white_kingside = false;
                        rights.white_queenside = false;
                    },
                    Color::Black => {
                        rights.black_kingside = false;
                        rights.black_queenside = false;
                    },
                }
            }
            if piece.kind == PieceKind::Rook {
                clear_rook_right(&mut rights, piece.color, mv.from.file(), mv.from.rank());
            }
        }
        if let Some(captured_piece) = captured {
            if captured_piece.kind == PieceKind::Rook {
                clear_rook_right(&mut rights, captured_piece.color, mv.to.file(), mv.to.rank());
            }
        }
        rights
    }

    fn en_passant_after_exec(&self, mv: ChessMove) -> (e: Option<Square>)
        requires
            mv.valid(),
        ensures
            e == en_passant_after(self@, mv),
            e matches Some(s) ==> s.valid(),
    {
        proof {
            use_type_invariant(self);
        }
        match self.board[mv.from.0 as usize] {
            None => self.en_passant_target,
            Some(piece0) => {
                let mut piece = piece0;
                if let Some(promotion) = mv.promotion {
                    piece.kind = promotion;
                }
                let from_rank = mv.from.rank();
                let to_rank = mv.to.rank();
                if piece.kind == PieceKind::Pawn && (from_rank >= to_rank + 2 && from_rank - to_rank
                    == 2 || to_rank >= from_rank + 2 && to_rank - from_rank == 2) {
                    Some(Square(((from_rank + to_rank) / 2) * 8 + mv.from.file()))
                } else {
                    None
                }
            },
        }
    }

    fn halfmove_after_exec(&self, mv: ChessMove, captured: Option<super::Piece>) -> (h: u16)
        requires
            mv.valid(),
            captured == captured_piece(self@, mv),
        ensures
            h == halfmove_after(self@, mv),
    {
        match self.board[mv.from.0 as usize] {
            None => self.halfmove_clock,
            Some(piece0) => {
                let mut piece = piece0;
                if let Some(promotion) = mv.promotion {
                    piece.kind = promotion;
                }
                if piece.kind == PieceKind::Pawn || captured.is_some() {
                    0
                } else {
                    self.halfmove_clock.saturating_add(1)
                }
            },
        }
    }

    /// The position after `chess_move`, legal or not: the piece on the
    /// origin (if any) goes to the destination, with en-passant captures,
    /// promotions and the rook's part of castling; castling rights, the
    /// en-passant target, the clocks and the side to move follow.
    pub fn apply_move(&self, chess_move: &ChessMove) -> (next: Position)
        requires
            chess_move.valid(),
        ensures
            next@ == apply_move(self@, *chess_move),
            super::rules::well_formed(self@),
            super::rules::well_formed(next@),
    {
        proof {
            use_type_invariant(self);
        }
        let mv = *chess_move;
        let captured = self.captured_exec(mv);
        let side = self.side_to_move.opposite();
        let next = Position {
            board: self.board_after_exec(mv),
            side_to_move: side,
            castling_rights: self.rights_after_exec(mv, captured),
            en_passant_target: self.en_passant_after_exec(mv),
            halfmove_clock: self.halfmove_after_exec(mv, captured),
            fullmove_number: if side == Color::White {
                self.fullmove_number.saturating_add(1)
            } else {
                self.fullmove_number
            },
        };
        next
    }

    /// The moves of the side to move that do not leave its own king in
    /// check, in the order of `pseudo_legal_moves`.
    pub fn legal_moves(&self) -> (moves: Vec<ChessMove>)
        ensures
            moves@ == legal_moves(self@),
    {
        let side = self.side_to_move;
        let pseudo = self.pseudo_legal_moves();
        proof {
            super::movegen::lemma_pseudo_moves_valid(self@, 64);
        }
        let ghost keep = |mv: ChessMove| !in_check(apply_move(self@, mv), self@.side_to_move);
        let mut moves: Vec<ChessMove> = Vec::new();
        let mut i: usize = 0;
        while i < pseudo.len()
            invariant
                i <= pseudo.len(),
                side == self@.side_to_move,
                pseudo@ == pseudo_legal_moves(self@),
                forall|j: int| 0 <= j < pseudo.len() ==> (#[trigger] pseudo@[j]).valid(),
                keep == (|mv: ChessMove| !in_check(apply_move(self@, mv), self@.side_to_move)),
                moves@ == pseudo@.take(i as int).filter(keep),
            decreases pseudo.len() - i,
        {
            let candidate = pseudo[i];
            let next = self.apply_move(&candidate);
            let ghost before = pseudo@.take(i as int);
            assert(pseudo@.take(i + 1) == before.push(candidate));
            assert(before.push(candidate).filter(keep) == if keep(candidate) {
                before.filter(keep).push(candidate)
            } else {
                before.filter(keep)
            }) by {
                reveal_with_fuel(Seq::filter, 1);
                assert(before.push(candidate).drop_last() =~= before);
            }
            if !next.is_in_check(side) {
                moves.push(candidate);
            }
            i = i + 1;
        }
        assert(pseudo@.take(pseudo.len() as int) =~= pseudo@);
        moves
    }
}

} // verus!
