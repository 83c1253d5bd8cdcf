//! Standard algebraic notation.

use vstd::prelude::*;
use super::{ChessMove, Color, GameStatus, Piece, PieceKind, Position, PositionModel, Square, file_char, file_letter, rank_char, rank_digit};
use super::rules::{apply_move, file_of, game_status, in_check, legal_moves, rank_of};
use crate::text::{append_chars, string_of};

verus! {

/// `+` after a move that gives check, `#` after one that mates.
pub open spec fn check_suffix(next: PositionModel) -> Seq<char> {
    if game_status(next) is Checkmate {
        seq!['#']
    } else if in_check(next, next.side_to_move) {
        seq!['+']
    } else {
        seq![]
    }
}

/// A king move of two files along its rank.
pub open spec fn is_castling_san(piece: Piece, mv: ChessMove) -> bool {
    piece.kind == PieceKind::King && rank_of(mv.from) == rank_of(mv.to) && (file_of(mv.from)
        - file_of(mv.to) == 2 || file_of(mv.to) - file_of(mv.from) == 2)
}

/// Another legal move of a piece of the same color and kind to the same
/// square with the same promotion.
pub open spec fn is_rival(m: PositionModel, mv: ChessMove, piece: Piece, c: ChessMove) -> bool {
    &&& c != mv
    &&& m.board[c.from.0 as int] matches Some(cp)
    &&& cp.kind == piece.kind
    &&& cp.color == piece.color
    &&& c.to == mv.to
    &&& c.promotion == mv.promotion
}

pub open spec fn rivals(m: PositionModel, mv: ChessMove, piece: Piece) -> Seq<ChessMove> {
    legal_moves(m).filter(|c: ChessMove| is_rival(m, mv, piece, c))
}

/// What tells the move apart from its rivals: nothing when there is none;
/// else the file of the origin if no rival shares it, else its rank if no
/// rival shares that, else both.
pub open spec fn disambiguation(m: PositionModel, mv: ChessMove, piece: Piece) -> Seq<char> {
    let r = rivals(m, mv, piece);
    let same_file = exists|i: int| 0 <= i < r.len() && file_of(#[trigger] r[i].from) == file_of(mv.from);
    let same_rank = exists|i: int| 0 <= i < r.len() && rank_of(#[trigger] r[i].from) == rank_of(mv.from);
    if r.len() == 0 {
        seq![]
    } else if !same_file {
        seq![file_letter(file_of(mv.from))]
    } else if !same_rank {
        seq![rank_digit(rank_of(mv.from))]
    } else {
        seq![file_letter(file_of(mv.from)), rank_digit(rank_of(mv.from))]
    }
}

/// The move in standard algebraic notation, or nothing when no piece stands
/// on its origin.
pub open spec fn san_text(m: PositionModel, mv: ChessMove) -> Option<Seq<char>> {
    match m.board[mv.from.0 as int] {
        None => None,
        Some(piece) => {
            let next = apply_move(m, mv);
            if is_castling_san(piece, mv) {
                Some(
                    (if file_of(mv.to) > file_of(mv.from) {
                        "O-O"@
                    } else {
                        "O-O-O"@
                    }) + check_suffix(next),
                )
            } else {
                let is_en_passant = m.en_passant_target == Some(mv.to) && m.board[mv.to.0 as int] is None
                    && piece.kind == PieceKind::Pawn && file_of(mv.from) != file_of(mv.to);
                let is_capture = m.board[mv.to.0 as int] is Some || is_en_passant;
                let prefix = match piece.kind.spec_san_symbol() {
                    Some(symbol) => seq![symbol] + disambiguation(m, mv, piece),
                    None => if is_capture {
                        seq![file_letter(file_of(mv.from))]
                    } else {
                        seq![]
                    },
                };
                let promotion = match mv.promotion {
                    Some(k) => match k.spec_san_symbol() {
                        Some(symbol) => seq!['=', symbol],
                        None => seq![],
                    },
                    None => seq![],
                };
                Some(
                    prefix + (if is_capture {
                        seq!['x']
                    } else {
                        seq![]
                    }) + mv.to.spec_name() + promotion + check_suffix(next),
                )
            }
        },
    }
}

impl Position {
    fn push_check_suffix(next: &Position, out: &mut Vec<char>)
        ensures
            final(out)@ == old(out)@ + check_suffix(next@),
    {
        match next.game_status() {
            GameStatus::Checkmate { .. } => out.push('#'),
            _ => {
                if next.is_in_check(next.side_to_move()) {
                    out.push('+');
                }
            },
        }
        assert(final(out)@ =~= old(out)@ + check_suffix(next@));
    }

    fn push_disambiguation(&self, chess_move: &ChessMove, piece: Piece, out: &mut Vec<char>)
        requires
            chess_move.valid(),
        ensures
            final(out)@ == old(out)@ + disambiguation(self@, *chess_move, piece),
    {
        let mv = *chess_move;
        let legal = self.legal_moves();
        proof {
            super::movegen::lemma_pseudo_moves_valid(self@, 64);
            super::laws::lemma_legal_moves_valid(self@);
        }
        let ghost pred = |c: ChessMove| is_rival(self@, mv, piece, c);
        let mut ambiguity: Vec<ChessMove> = Vec::new();
        let mut i: usize = 0;
        while i < legal.len()
            invariant
                i <= legal.len(),
                legal@ == legal_moves(self@),
                forall|j: int| 0 <= j < legal.len() ==> (#[trigger] legal@[j]).valid(),
                pred == (|c: ChessMove| is_rival(self@, mv, piece, c)),
                ambiguity@ == legal@.take(i as int).filter(pred),
            decreases legal.len() - i,
        {
            let candidate = legal[i];
            let ghost before = legal@.take(i as int);
            assert(legal@.take(i + 1) == before.push(candidate));
            assert(before.push(candidate).filter(pred) == if pred(candidate) {
                before.filter(pred).push(candidate)
            } else {
                before.filter(pred)
            }) by {
                reveal_with_fuel(Seq::filter, 1);
                assert(before.push(candidate).drop_last() =~= before);
            }
            let keep = if candidate == mv {
                false
            } else {
                match self.board[candidate.from.0 as usize] {
                    Some(candidate_piece) => candidate_piece.kind == piece.kind && candidate_piece.color
                        == piece.color && candidate.to == mv.to && candidate.promotion == mv.promotion,
                    None => false,
                }
            };
            if keep {
                ambiguity.push(candidate);
            }
            i = i + 1;
        }
        assert(legal@.take(legal.len() as int) =~= legal@);
        assert(ambiguity@ == rivals(self@, mv, piece));
        if ambiguity.len() == 0 {
            assert(old(out)@ =~= old(out)@ + disambiguation(self@, mv, piece));
            return;
        }
        let mut same_file = false;
        let mut same_rank = false;
        let mut k: usize = 0;
        while k < ambiguity.len()
            invariant
                k <= ambiguity.len(),
                same_file == exists|j: int| 0 <= j < k && file_of(#[trigger] ambiguity@[j].from) == file_of(mv.from),
                same_rank == exists|j: int| 0 <= j < k && rank_of(#[trigger] ambiguity@[j].from) == rank_of(mv.from),
            decreases ambiguity.len() - k,
        {
            let c = ambiguity[k];
            if c.from.file() == mv.from.file() {
                same_file = true;
            }
            if c.from.rank() == mv.from.rank() {
                same_rank = true;
            }
            k = k + 1;
        }
        if !same_file {
            out.push(file_char(mv.from.file()));
        } else if !same_rank {
            out.push(rank_char(mv.from.rank()));
        } else {
            out.push(file_char(mv.from.file()));
            out.push(rank_char(mv.from.rank()));
        }
        assert(final(out)@ =~= old(out)@ + disambiguation(self@, mv, piece));
    }

    /// The move in standard algebraic notation, such as `Nf3`, `exd5`,
    /// `O-O` or `g8=Q+`; `None` when no piece stands on its origin.
    pub fn san_for_move(&self, chess_move: &ChessMove) -> (san: Option<String>)
        requires
            chess_move.valid(),
        ensures
            match san_text(self@, *chess_move) {
                None => san is None,
                Some(text) => san matches Some(s) && s@ == text,
            },
    {
        let mv = *chess_move;
        let piece = match self.board[mv.from.0 as usize] {
            Some(p) => p,
            None => return None,
        };
        let from_file = mv.from.file();
        let to_file = mv.to.file();
        let is_castling = piece.kind == PieceKind::King && mv.from.rank() == mv.to.rank() && (
        from_file >= to_file + 2 && from_file - to_file == 2 || to_file >= from_file + 2 && to_file
            - from_file == 2);
        let next = self.apply_move(chess_move);
        let mut san: Vec<char> = Vec::new();
        if is_castling {
            san.push('O');
            san.push('-');
            san.push('O');
            if !(to_file > from_file) {
                san.push('-');
                san.push('O');
            }
            proof {
                reveal_strlit("O-O");
                reveal_strlit("O-O-O");
            }
            Self::push_check_suffix(&next, &mut san);
            assert(san@ =~= san_text(self@, mv)->0);
            return Some(string_of(&san));
        }
        let is_en_passant = self.en_passant_target == Some(mv.to) && self.board[mv.to.0 as usize].is_none()
            && piece.kind == PieceKind::Pawn && from_file != to_file;
        let is_capture = self.board[mv.to.0 as usize].is_some() || is_en_passant;
        match piece.kind.san_symbol() {
            Some(symbol) => {
                san.push(symbol);
                self.push_disambiguation(chess_move, piece, &mut san);
            },
            None => {
                if is_capture {
                    san.push(file_char(from_file));
                }
            },
        }
        if is_capture {
            san.push('x');
        }
        let name = mv.to.name_chars();
        append_chars(&mut san, &name);
        match mv.promotion {
            Some(kind) => match kind.san_symbol() {
                Some(symbol) => {
                    san.push('=');
                    san.push(symbol);
                },
                None => {},
            },
            None => {},
        }
        Self::push_check_suffix(&next, &mut san);
        assert(san@ =~= san_text(self@, mv)->0);
        Some(string_of(&san))
    }
}

} // verus!
