//! Move generation.

use vstd::prelude::*;
use super::{ChessMove, Color, Piece, PieceKind, Position, PositionModel, Square};
use super::attacks::{direction_exec, king_delta_exec, knight_delta_exec};
use super::rules::{
    castling_moves, direction, file_of, king_delta, knight_delta, piece_moves, plain_move, home_rank, is_empty_at, king_moves, king_steps,
    kingside_castle_ok, knight_moves, on_board, pawn_capture, pawn_moves, pawn_pushes, promotions,
    pseudo_legal_moves, pseudo_moves_upto, queenside_castle_ok, rank_of, ray_moves, slider_moves, sq,
    step_move,
};

verus! {

impl Position {
    /// Adds the step from `from` to `(file, rank)` when that square is on the
    /// board and not held by the side to move; says whether it was empty.
    fn push_move_if_valid(&self, from: Square, file: i8, rank: i8, moves: &mut Vec<ChessMove>) -> (b: bool)
        ensures
            final(moves)@ == old(moves)@ + step_move(self@, from, file as int, rank as int),
            b == (on_board(file as int, rank as int) && is_empty_at(self@, file as int, rank as int)),
    {
        if !(0 <= file && file < 8) || !(0 <= rank && rank < 8) {
            return false;
        }
        let to = Square((rank * 8 + file) as u8);
        match self.board[to.0 as usize] {
            Some(piece) => {
                if piece.color == self.side_to_move {
                    return false;
                }
                moves.push(ChessMove::new(from, to));
                false
            },
            None => {
                moves.push(ChessMove::new(from, to));
                true
            },
        }
    }

    /// Adds the moves of a slider on `from` along direction `i`.
    fn push_ray(&self, from: Square, i: u8, moves: &mut Vec<ChessMove>)
        requires
            from.valid(),
            i < 8,
        ensures
            final(moves)@ == old(moves)@ + ray_moves(
                self@,
                from,
                file_of(from) + direction(i as int).0,
                rank_of(from) + direction(i as int).1,
                direction(i as int).0,
                direction(i as int).1,
                7,
            ),
    {
        let (df, dr) = direction_exec(i);
        let ff = from.file() as i8;
        let fr = from.rank() as i8;
        let mut f: i8 = ff + df;
        let mut r: i8 = fr + dr;
        let mut k: u8 = 1;
        let ghost total = old(moves)@ + ray_moves(self@, from, ff + df, fr + dr, df as int, dr as int, 7);
        loop
            invariant
                0 <= ff < 8,
                0 <= fr < 8,
                1 <= k <= 8,
                -1 <= df <= 1,
                -1 <= dr <= 1,
                df != 0 || dr != 0,
                df == 1 ==> f == ff + k,
                df == -1 ==> f == ff - k,
                df == 0 ==> f == ff,
                dr == 1 ==> r == fr + k,
                dr == -1 ==> r == fr - k,
                dr == 0 ==> r == fr,
                total == moves@ + ray_moves(self@, from, f as int, r as int, df as int, dr as int, (8 - k) as nat),
                total == old(moves)@ + ray_moves(
                    self@,
                    from,
                    file_of(from) + direction(i as int).0,
                    rank_of(from) + direction(i as int).1,
                    direction(i as int).0,
                    direction(i as int).1,
                    7,
                ),
            ensures
                total == moves@,
            decreases 8 - k,
        {
            let ghost before = moves@;
            let go = self.push_move_if_valid(from, f, r, moves);
            if !go {
                assert(ray_moves(self@, from, f as int, r as int, df as int, dr as int, (8 - k) as nat)
                    == step_move(self@, from, f as int, r as int));
                return;
            }
            assert(ray_moves(self@, from, f as int, r as int, df as int, dr as int, (8 - k) as nat)
                == step_move(self@, from, f as int, r as int) + ray_moves(
                self@,
                from,
                f + df,
                r + dr,
                df as int,
                dr as int,
                (8 - k - 1) as nat,
            ));
            f = f + df;
            r = r + dr;
            k = k + 1;
        }
    }

    /// Adds the moves of a slider on `from` along directions `lo..hi`.
    fn push_slider_moves(&self, from: Square, lo: u8, hi: u8, moves: &mut Vec<ChessMove>)
        requires
            from.valid(),
            lo <= hi <= 8,
        ensures
            final(moves)@ == old(moves)@ + slider_moves(self@, from, lo as int, hi as int),
    {
        let mut i: u8 = lo;
        while i < hi
            invariant
                from.valid(),
                lo <= i <= hi <= 8,
                moves@ == old(moves)@ + slider_moves(self@, from, lo as int, i as int),
            decreases hi - i,
        {
            self.push_ray(from, i, moves);
            i = i + 1;
            assert(moves@ =~= old(moves)@ + slider_moves(self@, from, lo as int, i as int));
        }
    }

    fn push_knight_moves(&self, from: Square, moves: &mut Vec<ChessMove>)
        requires
            from.valid(),
        ensures
            final(moves)@ == old(moves)@ + knight_moves(self@, from, 8),
    {
        let mut i: u8 = 0;
        while i < 8
            invariant
                from.valid(),
                i <= 8,
                moves@ == old(moves)@ + knight_moves(self@, from, i as int),
            decreases 8 - i,
        {
            let (df, dr) = knight_delta_exec(i);
            self.push_move_if_valid(from, from.file() as i8 + df, from.rank() as i8 + dr, moves);
            i = i + 1;
            assert(moves@ =~= old(moves)@ + knight_moves(self@, from, i as int));
        }
    }

    fn push_king_moves(&self, from: Square, moves: &mut Vec<ChessMove>)
        requires
            from.valid(),
        ensures
            final(moves)@ == old(moves)@ + king_moves(self@, from),
    {
        let mut i: u8 = 0;
        while i < 8
            invariant
                from.valid(),
                i <= 8,
                moves@ == old(moves)@ + king_steps(self@, from, i as int),
            decreases 8 - i,
        {
            let (df, dr) = king_delta_exec(i);
            self.push_move_if_valid(from, from.file() as i8 + df, from.rank() as i8 + dr, moves);
            i = i + 1;
            assert(moves@ =~= old(moves)@ + king_steps(self@, from, i as int));
        }
        let ghost mid = moves@;
        self.push_castling_moves(from, moves);
        assert(moves@ =~= old(moves)@ + king_moves(self@, from));
    }

    fn is_empty_square(&self, f: u8, r: u8) -> (b: bool)
        requires
            f < 8,
            r < 8,
        ensures
            b == is_empty_at(self@, f as int, r as int),
    {
        self.board[(r * 8 + f) as usize].is_none()
    }

    fn holds_rook(&self, f: u8, r: u8, color: Color) -> (b: bool)
        requires
            f < 8,
            r < 8,
        ensures
            b == (self@.board[sq(f as int, r as int)] == Some(
                Piece { color, kind: PieceKind::Rook },
            )),
    {
        match self.board[(r * 8 + f) as usize] {
            Some(p) => p == Piece { color, kind: PieceKind::Rook },
            None => false,
        }
    }

    fn push_castling_moves(&self, from: Square, moves: &mut Vec<ChessMove>)
        requires
            from.valid(),
        ensures
            final(moves)@ == old(moves)@ + castling_moves(self@, from),
    {
        let (color, rank, kingside_right, queenside_right) = match self.side_to_move {
            Color::White => (
                Color::White,
                0u8,
                self.castling_rights.white_kingside,
                self.castling_rights.white_queenside,
            ),
            Color::Black => (
                Color::Black,
                7u8,
                self.castling_rights.black_kingside,
                self.castling_rights.black_queenside,
            ),
        };
        assert(rank as int == home_rank(color));
        if from != Square(rank * 8 + 4) || self.is_in_check(color) {
            assert(moves@ =~= old(moves)@ + castling_moves(self@, from));
            return;
        }
        let enemy = color.opposite();
        let ks = kingside_right && self.is_empty_square(5, rank) && self.is_empty_square(6, rank)
            && self.holds_rook(7, rank, color) && !self.is_square_attacked(
            Square(rank * 8 + 5),
            enemy,
        ) && !self.is_square_attacked(Square(rank * 8 + 6), enemy);
        assert(ks == kingside_castle_ok(self@, color, rank as int, kingside_right));
        if ks {
            moves.push(ChessMove::new(from, Square(rank * 8 + 6)));
        }
        let qs = queenside_right && self.is_empty_square(1, rank) && self.is_empty_square(2, rank)
            && self.is_empty_square(3, rank) && self.holds_rook(0, rank, color)
            && !self.is_square_attacked(Square(rank * 8 + 3), enemy) && !self.is_square_attacked(
            Square(rank * 8 + 2),
            enemy,
        );
        assert(qs == queenside_castle_ok(self@, color, rank as int, queenside_right));
        if qs {
            moves.push(ChessMove::new(from, Square(rank * 8 + 2)));
        }
        assert(moves@ =~= old(moves)@ + castling_moves(self@, from));
    }

    fn push_promotions(from: Square, to: Square, moves: &mut Vec<ChessMove>)
        ensures
            final(moves)@ == old(moves)@ + promotions(from, to),
    {
        moves.push(ChessMove::new(from, to).with_promotion(PieceKind::Queen));
        moves.push(ChessMove::new(from, to).with_promotion(PieceKind::Rook));
        moves.push(ChessMove::new(from, to).with_promotion(PieceKind::Bishop));
        moves.push(ChessMove::new(from, to).with_promotion(PieceKind::Knight));
        assert(final(moves)@ =~= old(moves)@ + promotions(from, to));
    }

    fn push_pawn_pushes(&self, from: Square, color: Color, moves: &mut Vec<ChessMove>)
        requires
            from.valid(),
        ensures
            final(moves)@ == old(moves)@ + pawn_pushes(self@, from, color),
    {
        let direction: i8 = match color {
            Color::White => 1,
            Color::Black => -1,
        };
        let start_rank: i8 = match color {
            Color::White => 1,
            Color::Black => 6,
        };
        let f = from.file();
        let next_rank = from.rank() as i8 + direction;
        if 0 <= next_rank && next_rank < 8 {
            let to = Square(next_rank as u8 * 8 + f);
            if self.board[to.0 as usize].is_none() {
                let promotion_rank = (color == Color::White && next_rank == 7) || (color == Color::Black
                    && next_rank == 0);
                if promotion_rank {
                    Self::push_promotions(from, to, moves);
                } else {
                    moves.push(ChessMove::new(from, to));
                    if from.rank() as i8 == start_rank {
                        let skip_rank = next_rank + direction;
                        if 0 <= skip_rank && skip_rank < 8 {
                            let skip_square = Square(skip_rank as u8 * 8 + f);
                            if self.board[skip_square.0 as usize].is_none() {
                                moves.push(ChessMove::new(from, skip_square));
                            }
                        }
                    }
                }
            }
        }
        assert(final(moves)@ =~= old(moves)@ + pawn_pushes(self@, from, color));
    }

    fn push_pawn_capture(&self, from: Square, color: Color, df: i8, moves: &mut Vec<ChessMove>)
        requires
            from.valid(),
            df == -1 || df == 1,
        ensures
            final(moves)@ == old(moves)@ + pawn_capture(self@, from, color, df as int),
    {
        let direction: i8 = match color {
            Color::White => 1,
            Color::Black => -1,
        };
        let next_rank = from.rank() as i8 + direction;
        let file = from.file() as i8 + df;
        if !(0 <= file && file < 8) || !(0 <= next_rank && next_rank < 8) {
            assert(final(moves)@ =~= old(moves)@ + pawn_capture(self@, from, color, df as int));
            return;
        }
        let to = Square(next_rank as u8 * 8 + file as u8);
        let promotion_rank = (color == Color::White && next_rank == 7) || (color == Color::Black
            && next_rank == 0);
        match self.board[to.0 as usize] {
            Some(piece) => {
                if piece.color != color {
                    if promotion_rank {
                        Self::push_promotions(from, to, moves);
                    } else {
                        moves.push(ChessMove::new(from, to));
                    }
                }
            },
            None => {
                if self.en_passant_target == Some(to) {
                    moves.push(ChessMove::new(from, to));
                }
            },
        }
        assert(final(moves)@ =~= old(moves)@ + pawn_capture(self@, from, color, df as int));
    }

    fn push_pawn_moves(&self, from: Square, color: Color, moves: &mut Vec<ChessMove>)
        requires
            from.valid(),
        ensures
            final(moves)@ == old(moves)@ + pawn_moves(self@, from, color),
    {
        self.push_pawn_pushes(from, color, moves);
        self.push_pawn_capture(from, color, -1, moves);
        self.push_pawn_capture(from, color, 1, moves);
        assert(final(moves)@ =~= old(moves)@ + pawn_moves(self@, from, color));
    }

    /// The moves of the side to move by the movement rules of the pieces,
    /// square by square from a1: they may leave the own king in check.
    pub fn pseudo_legal_moves(&self) -> (moves: Vec<ChessMove>)
        ensures
            moves@ == pseudo_legal_moves(self@),
    {
        let mut moves: Vec<ChessMove> = Vec::new();
        let mut i: usize = 0;
        while i < 64
            invariant
                i <= 64,
                moves@ == pseudo_moves_upto(self@, i as int),
            decreases 64 - i,
        {
            let square = Square(i as u8);
            match self.board[i] {
                Some(piece) => {
                    if piece.color == self.side_to_move {
                        match piece.kind {
                            PieceKind::Pawn => self.push_pawn_moves(square, piece.color, &mut moves),
                            PieceKind::Knight => self.push_knight_moves(square, &mut moves),
                            PieceKind::Bishop => self.push_slider_moves(square, 0, 4, &mut moves),
                            PieceKind::Rook => self.push_slider_moves(square, 4, 8, &mut moves),
                            PieceKind::Queen => self.push_slider_moves(square, 0, 8, &mut moves),
                            PieceKind::King => self.push_king_moves(square, &mut moves),
                        }
                    }
                },
                None => {},
            }
            i = i + 1;
            assert(moves@ =~= pseudo_moves_upto(self@, i as int));
        }
        moves
    }
}

} // verus!

verus! {

/// Every move in the sequence names two squares of the board.
pub open spec fn all_valid(s: Seq<ChessMove>) -> bool {
    forall|j: int| 0 <= j < s.len() ==> (#[trigger] s[j]).valid()
}

proof fn lemma_concat_valid(a: Seq<ChessMove>, b: Seq<ChessMove>)
    requires
        all_valid(a),
        all_valid(b),
    ensures
        all_valid(a + b),
{
    assert forall|j: int| 0 <= j < (a + b).len() implies (#[trigger] (a + b)[j]).valid() by {
        if j < a.len() {
            assert((a + b)[j] == a[j]);
        } else {
            assert((a + b)[j] == b[j - a.len()]);
        }
    }
}

proof fn lemma_ray_valid(m: PositionModel, from: Square, f: int, r: int, df: int, dr: int, fuel: nat)
    requires
        from.valid(),
    ensures
        all_valid(ray_moves(m, from, f, r, df, dr, fuel)),
    decreases fuel,
{
    if fuel > 0 && on_board(f, r) {
        lemma_ray_valid(m, from, f + df, r + dr, df, dr, (fuel - 1) as nat);
        if m.board[sq(f, r)] is None {
            lemma_concat_valid(
                seq![plain_move(from, f, r)],
                ray_moves(m, from, f + df, r + dr, df, dr, (fuel - 1) as nat),
            );
        }
    }
}

proof fn lemma_slider_valid(m: PositionModel, from: Square, lo: int, hi: int)
    requires
        from.valid(),
    ensures
        all_valid(slider_moves(m, from, lo, hi)),
    decreases hi - lo,
{
    if hi > lo {
        lemma_slider_valid(m, from, lo, hi - 1);
        lemma_ray_valid(
            m,
            from,
            file_of(from) + direction(hi - 1).0,
            rank_of(from) + direction(hi - 1).1,
            direction(hi - 1).0,
            direction(hi - 1).1,
            7,
        );
        lemma_concat_valid(
            slider_moves(m, from, lo, hi - 1),
            ray_moves(
                m,
                from,
                file_of(from) + direction(hi - 1).0,
                rank_of(from) + direction(hi - 1).1,
                direction(hi - 1).0,
                direction(hi - 1).1,
                7,
            ),
        );
    }
}

proof fn lemma_knight_valid(m: PositionModel, from: Square, n: int)
    requires
        from.valid(),
    ensures
        all_valid(knight_moves(m, from, n)),
    decreases n,
{
    if n > 0 {
        lemma_knight_valid(m, from, n - 1);
        let f = file_of(from) + knight_delta(n - 1).0;
        let r = rank_of(from) + knight_delta(n - 1).1;
        lemma_concat_valid(knight_moves(m, from, n - 1), step_move(m, from, f, r));
    }
}

proof fn lemma_king_steps_valid(m: PositionModel, from: Square, n: int)
    requires
        from.valid(),
    ensures
        all_valid(king_steps(m, from, n)),
    decreases n,
{
    if n > 0 {
        lemma_king_steps_valid(m, from, n - 1);
        let f = file_of(from) + king_delta(n - 1).0;
        let r = rank_of(from) + king_delta(n - 1).1;
        lemma_concat_valid(king_steps(m, from, n - 1), step_move(m, from, f, r));
    }
}

proof fn lemma_piece_moves_valid(m: PositionModel, s: int)
    requires
        0 <= s < 64,
    ensures
        all_valid(piece_moves(m, s)),
{
    let from = Square(s as u8);
    match m.board[s] {
        None => {},
        Some(p) => {
            if p.color == m.side_to_move {
                match p.kind {
                    PieceKind::Pawn => {
                        let c = p.color;
                        lemma_concat_valid(pawn_pushes(m, from, c), pawn_capture(m, from, c, -1));
                        lemma_concat_valid(
                            pawn_pushes(m, from, c) + pawn_capture(m, from, c, -1),
                            pawn_capture(m, from, c, 1),
                        );
                    },
                    PieceKind::Knight => lemma_knight_valid(m, from, 8),
                    PieceKind::Bishop => lemma_slider_valid(m, from, 0, 4),
                    PieceKind::Rook => lemma_slider_valid(m, from, 4, 8),
                    PieceKind::Queen => lemma_slider_valid(m, from, 0, 8),
                    PieceKind::King => {
                        lemma_king_steps_valid(m, from, 8);
                        lemma_concat_valid(king_steps(m, from, 8), castling_moves(m, from));
                    },
                }
            }
        },
    }
}

/// Every pseudo-legal move names two squares of the board.
pub proof fn lemma_pseudo_moves_valid(m: PositionModel, n: int)
    requires
        n <= 64,
    ensures
        all_valid(pseudo_moves_upto(m, n)),
    decreases n,
{
    if n > 0 {
        lemma_pseudo_moves_valid(m, n - 1);
        lemma_piece_moves_valid(m, n - 1);
        lemma_concat_valid(pseudo_moves_upto(m, n - 1), piece_moves(m, n - 1));
    }
}

} // verus!
