//! Attacked squares, kings and check.

use vstd::prelude::*;
use super::{Color, Piece, PieceKind, Position, PositionModel, Square};
use super::rules::{
    direction, direction_slider, has_piece, knight_attacks, king_attacks, slider_attacks, in_check, king_delta, king_square, king_square_from,
    knight_delta, on_board, ray_attacks, square_attacked, sq, file_of, rank_of,
};

verus! {

/// The pieces of the board on squares `0..n`, in square order.
pub open spec fn pieces_upto(board: Seq<Option<Piece>>, n: int) -> Seq<(Square, Piece)>
    decreases n,
{
    if n <= 0 {
        seq![]
    } else {
        pieces_upto(board, n - 1) + match board[n - 1] {
            Some(p) => seq![(Square((n - 1) as u8), p)],
            None => seq![],
        }
    }
}

pub fn knight_delta_exec(i: u8) -> (d: (i8, i8))
    requires
        i < 8,
    ensures
        d.0 as int == knight_delta(i as int).0,
        d.1 as int == knight_delta(i as int).1,
{
    match i {
        0 => (1, 2),
        1 => (2, 1),
        2 => (2, -1),
        3 => (1, -2),
        4 => (-1, -2),
        5 => (-2, -1),
        6 => (-2, 1),
        _ => (-1, 2),
    }
}

pub fn king_delta_exec(i: u8) -> (d: (i8, i8))
    requires
        i < 8,
    ensures
        d.0 as int == king_delta(i as int).0,
        d.1 as int == king_delta(i as int).1,
{
    match i {
        0 => (-1, -1),
        1 => (-1, 0),
        2 => (-1, 1),
        3 => (0, -1),
        4 => (0, 1),
        5 => (1, -1),
        6 => (1, 0),
        _ => (1, 1),
    }
}

pub fn direction_exec(i: u8) -> (d: (i8, i8))
    requires
        i < 8,
    ensures
        d.0 as int == direction(i as int).0,
        d.1 as int == direction(i as int).1,
{
    match i {
        0 => (1, 1),
        1 => (1, -1),
        2 => (-1, 1),
        3 => (-1, -1),
        4 => (1, 0),
        5 => (-1, 0),
        6 => (0, 1),
        _ => (0, -1),
    }
}

impl Position {
    /// The pieces on the board with their squares, from a1 to h8.
    pub fn iter_pieces(&self) -> (v: Vec<(Square, Piece)>)
        ensures
            v@ == pieces_upto(self@.board, 64),
    {
        let mut v: Vec<(Square, Piece)> = Vec::new();
        let mut i: usize = 0;
        while i < 64
            invariant
                i <= 64,
                v@ == pieces_upto(self@.board, i as int),
            decreases 64 - i,
        {
            match self.board[i] {
                Some(p) => {
                    v.push((Square(i as u8), p));
                },
                None => {},
            }
            i = i + 1;
            assert(v@ =~= pieces_upto(self@.board, i as int));
        }
        v
    }

    /// The square `(f, r)` is on the board and holds `p`.
    fn holds(&self, f: i8, r: i8, p: Piece) -> (b: bool)
        ensures
            b == has_piece(self@, f as int, r as int, p),
    {
        if 0 <= f && f < 8 && 0 <= r && r < 8 {
            match self.board[(r * 8 + f) as usize] {
                Some(q) => q == p,
                None => false,
            }
        } else {
            false
        }
    }

    fn ray_attacks_exec(&self, tf: i8, tr: i8, i: u8, c: Color) -> (b: bool)
        requires
            0 <= tf < 8,
            0 <= tr < 32,
            i < 8,
        ensures
            b == ray_attacks(
                self@,
                tf + direction(i as int).0,
                tr + direction(i as int).1,
                direction(i as int).0,
                direction(i as int).1,
                c,
                direction_slider(i as int),
                8,
            ),
    {
        let (df, dr) = direction_exec(i);
        let primary = if i < 4 {
            PieceKind::Bishop
        } else {
            PieceKind::Rook
        };
        let mut f: i8 = tf + df;
        let mut r: i8 = tr + dr;
        let mut k: u8 = 1;
        while 0 <= f && f < 8 && 0 <= r && r < 8
            invariant
                0 <= tf < 8,
                0 <= tr < 32,
                1 <= k <= 9,
                k >= 2 ==> on_board(tf + df, tr + dr),
                df == direction(i as int).0,
                dr == direction(i as int).1,
                primary == direction_slider(i as int),
                -1 <= df <= 1,
                -1 <= dr <= 1,
                df != 0 || dr != 0,
                df == 1 ==> f == tf + k,
                df == -1 ==> f == tf - k,
                df == 0 ==> f == tf,
                dr == 1 ==> r == tr + k,
                dr == -1 ==> r == tr - k,
                dr == 0 ==> r == tr,
                ray_attacks(self@, tf + df, tr + dr, df as int, dr as int, c, primary, 8)
                    == ray_attacks(self@, f as int, r as int, df as int, dr as int, c, primary, (9 - k) as nat),
            decreases 9 - k,
        {
            match self.board[(r * 8 + f) as usize] {
                Some(p) => {
                    return p.color == c && (p.kind == primary || p.kind == PieceKind::Queen);
                },
                None => {},
            }
            f = f + df;
            r = r + dr;
            k = k + 1;
        }
        false
    }

    fn knight_attacks_exec(&self, tf: i8, tr: i8, c: Color) -> (b: bool)
        requires
            0 <= tf < 8,
            0 <= tr < 32,
        ensures
            b == knight_attacks(self@, tf as int, tr as int, c),
    {
        let knight = Piece { color: c, kind: PieceKind::Knight };
        let mut i: u8 = 0;
        while i < 8
            invariant
                i <= 8,
                0 <= tf < 8,
                0 <= tr < 32,
                knight == (Piece { color: c, kind: PieceKind::Knight }),
                forall|j: int|
                    0 <= j < i ==> !#[trigger] has_piece(
                        self@,
                        tf + knight_delta(j).0,
                        tr + knight_delta(j).1,
                        knight,
                    ),
            decreases 8 - i,
        {
            let (df, dr) = knight_delta_exec(i);
            if self.holds(tf + df, tr + dr, knight) {
                assert(has_piece(self@, tf + knight_delta(i as int).0, tr + knight_delta(i as int).1, knight));
                return true;
            }
            i = i + 1;
        }
        false
    }

    fn king_attacks_exec(&self, tf: i8, tr: i8, c: Color) -> (b: bool)
        requires
            0 <= tf < 8,
            0 <= tr < 32,
        ensures
            b == king_attacks(self@, tf as int, tr as int, c),
    {
        let king = Piece { color: c, kind: PieceKind::King };
        let mut i: u8 = 0;
        while i < 8
            invariant
                i <= 8,
                0 <= tf < 8,
                0 <= tr < 32,
                king == (Piece { color: c, kind: PieceKind::King }),
                forall|j: int|
                    0 <= j < i ==> !#[trigger] has_piece(
                        self@,
                        tf + king_delta(j).0,
                        tr + king_delta(j).1,
                        king,
                    ),
            decreases 8 - i,
        {
            let (df, dr) = king_delta_exec(i);
            if self.holds(tf + df, tr + dr, king) {
                assert(has_piece(self@, tf + king_delta(i as int).0, tr + king_delta(i as int).1, king));
                return true;
            }
            i = i + 1;
        }
        false
    }

    fn slider_attacks_exec(&self, tf: i8, tr: i8, c: Color) -> (b: bool)
        requires
            0 <= tf < 8,
            0 <= tr < 32,
        ensures
            b == slider_attacks(self@, tf as int, tr as int, c),
    {
        let mut i: u8 = 0;
        while i < 8
            invariant
                i <= 8,
                0 <= tf < 8,
                0 <= tr < 32,
                forall|j: int|
                    0 <= j < i ==> !#[trigger] ray_attacks(
                        self@,
                        tf + direction(j).0,
                        tr + direction(j).1,
                        direction(j).0,
                        direction(j).1,
                        c,
                        direction_slider(j),
                        8,
                    ),
            decreases 8 - i,
        {
            if self.ray_attacks_exec(tf, tr, i, c) {
                return true;
            }
            i = i + 1;
        }
        false
    }

    /// Whether a piece of `by_color` attacks `target`; a target off the board, read by
    /// its file and rank, is attacked only from the board.
    pub fn is_square_attacked(&self, target: Square, by_color: Color) -> (b: bool)
        ensures
            b == square_attacked(self@, target, by_color),
    {
        let tf = target.file() as i8;
        let tr = target.rank() as i8;
        let dr: i8 = match by_color {
            Color::White => -1,
            Color::Black => 1,
        };
        let pawn = Piece { color: by_color, kind: PieceKind::Pawn };
        let pawn_hit = self.holds(tf - 1, tr + dr, pawn) || self.holds(tf + 1, tr + dr, pawn);
        pawn_hit || self.knight_attacks_exec(tf, tr, by_color) || self.king_attacks_exec(tf, tr, by_color)
            || self.slider_attacks_exec(tf, tr, by_color)
    }

    /// The lowest square that holds the king of `color`; `None` when no square does.
    pub fn king_square(&self, color: Color) -> (s: Option<Square>)
        ensures
            s == king_square(self@, color),
            s matches Some(k) ==> k.valid() && self@.board[k.0 as int] == Some(
                Piece { color, kind: PieceKind::King },
            ),
            s matches Some(k) ==> forall|t: int|
                0 <= t < k.0 ==> #[trigger] self@.board[t] != Some(
                    Piece { color, kind: PieceKind::King },
                ),
            s is None ==> forall|t: int|
                0 <= t < 64 ==> #[trigger] self@.board[t] != Some(
                    Piece { color, kind: PieceKind::King },
                ),
    {
        let king = Piece { color, kind: PieceKind::King };
        let mut i: usize = 0;
        while i < 64
            invariant
                i <= 64,
                king == (Piece { color, kind: PieceKind::King }),
                king_square_from(self@, color, i as int) == king_square(self@, color),
                forall|t: int| 0 <= t < i ==> #[trigger] self@.board[t] != Some(king),
            decreases 64 - i,
        {
            match self.board[i] {
                Some(p) => {
                    if p == king {
                        return Some(Square(i as u8));
                    }
                },
                None => {},
            }
            i = i + 1;
        }
        None
    }

    /// Whether the king of `color` is attacked (a side without a king is
    /// never in check).
    pub fn is_in_check(&self, color: Color) -> (b: bool)
        ensures
            b == in_check(self@, color),
    {
        match self.king_square(color) {
            Some(king_square) => self.is_square_attacked(king_square, color.opposite()),
            None => false,
        }
    }
}

} // verus!
