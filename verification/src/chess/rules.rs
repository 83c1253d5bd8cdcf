//! The rules of chess over the abstract position: which squares are
//! attacked, which moves each piece may make, what a move does to the
//! position, and where the game stands.

use vstd::prelude::*;
use super::{CastlingRights, ChessMove, Color, GameStatus, Piece, PieceKind, PositionModel, Square};

verus! {

pub open spec fn on_board(f: int, r: int) -> bool {
    0 <= f < 8 && 0 <= r < 8
}

/// The index of the square on file `f` and rank `r`.
pub open spec fn sq(f: int, r: int) -> int {
    r * 8 + f
}

pub open spec fn square_at(f: int, r: int) -> Square {
    Square(sq(f, r) as u8)
}

pub open spec fn file_of(s: Square) -> int {
    (s.0 % 8) as int
}

pub open spec fn rank_of(s: Square) -> int {
    (s.0 / 8) as int
}

pub open spec fn back_rank(file: int) -> PieceKind {
    if file == 0 || file == 7 {
        PieceKind::Rook
    } else if file == 1 || file == 6 {
        PieceKind::Knight
    } else if file == 2 || file == 5 {
        PieceKind::Bishop
    } else if file == 3 {
        PieceKind::Queen
    } else {
        PieceKind::King
    }
}

/// The piece on square `i` at the start of a game.
pub open spec fn start_piece(i: int) -> Option<Piece> {
    let f = i % 8;
    let r = i / 8;
    if r == 0 {
        Some(Piece { color: Color::White, kind: back_rank(f) })
    } else if r == 1 {
        Some(Piece { color: Color::White, kind: PieceKind::Pawn })
    } else if r == 6 {
        Some(Piece { color: Color::Black, kind: PieceKind::Pawn })
    } else if r == 7 {
        Some(Piece { color: Color::Black, kind: back_rank(f) })
    } else {
        None
    }
}

pub open spec fn empty_model(side: Color) -> PositionModel {
    PositionModel {
        board: Seq::new(64, |i: int| None::<Piece>),
        side_to_move: side,
        castling_rights: CastlingRights::none(),
        en_passant_target: None,
        halfmove_clock: 0,
        fullmove_number: 1,
    }
}

pub open spec fn starting_model() -> PositionModel {
    PositionModel {
        board: Seq::new(64, |i: int| start_piece(i)),
        side_to_move: Color::White,
        castling_rights: CastlingRights::all(),
        en_passant_target: None,
        halfmove_clock: 0,
        fullmove_number: 1,
    }
}

/// The square `(f, r)` is on the board and holds `p`.
pub open spec fn has_piece(m: PositionModel, f: int, r: int, p: Piece) -> bool {
    on_board(f, r) && m.board[sq(f, r)] == Some(p)
}

// ---------------------------------------------------------------- attacks

/// A pawn of color `c` attacks the square `(tf, tr)`.
pub open spec fn pawn_attacks(m: PositionModel, tf: int, tr: int, c: Color) -> bool {
    let dr = if c == Color::White {
        -1int
    } else {
        1int
    };
    let pawn = Piece { color: c, kind: PieceKind::Pawn };
    has_piece(m, tf - 1, tr + dr, pawn) || has_piece(m, tf + 1, tr + dr, pawn)
}

/// The eight knight jumps.
pub open spec fn knight_delta(i: int) -> (int, int) {
    if i == 0 {
        (1, 2)
    } else if i == 1 {
        (2, 1)
    } else if i == 2 {
        (2, -1)
    } else if i == 3 {
        (1, -2)
    } else if i == 4 {
        (-1, -2)
    } else if i == 5 {
        (-2, -1)
    } else if i == 6 {
        (-2, 1)
    } else {
        (-1, 2)
    }
}

/// The eight king steps, file offset first.
pub open spec fn king_delta(i: int) -> (int, int) {
    if i == 0 {
        (-1, -1)
    } else if i == 1 {
        (-1, 0)
    } else if i == 2 {
        (-1, 1)
    } else if i == 3 {
        (0, -1)
    } else if i == 4 {
        (0, 1)
    } else if i == 5 {
        (1, -1)
    } else if i == 6 {
        (1, 0)
    } else {
        (1, 1)
    }
}

/// The eight directions of sliding pieces: the four diagonals, then the
/// four lines.
pub open spec fn direction(i: int) -> (int, int) {
    if i == 0 {
        (1, 1)
    } else if i == 1 {
        (1, -1)
    } else if i == 2 {
        (-1, 1)
    } else if i == 3 {
        (-1, -1)
    } else if i == 4 {
        (1, 0)
    } else if i == 5 {
        (-1, 0)
    } else if i == 6 {
        (0, 1)
    } else {
        (0, -1)
    }
}

pub open spec fn knight_attacks(m: PositionModel, tf: int, tr: int, c: Color) -> bool {
    exists|i: int|
        0 <= i < 8 && #[trigger] has_piece(
            m,
            tf + knight_delta(i).0,
            tr + knight_delta(i).1,
            Piece { color: c, kind: PieceKind::Knight },
        )
}

pub open spec fn king_attacks(m: PositionModel, tf: int, tr: int, c: Color) -> bool {
    exists|i: int|
        0 <= i < 8 && #[trigger] has_piece(
            m,
            tf + king_delta(i).0,
            tr + king_delta(i).1,
            Piece { color: c, kind: PieceKind::King },
        )
}

/// Walking from `(f, r)` in direction `(df, dr)`, the first piece met is of
/// color `c` and is a queen or of kind `primary`.
pub open spec fn ray_attacks(
    m: PositionModel,
    f: int,
    r: int,
    df: int,
    dr: int,
    c: Color,
    primary: PieceKind,
    fuel: nat,
) -> bool
    decreases fuel,
{
    if fuel == 0 || !on_board(f, r) {
        false
    } else {
        match m.board[sq(f, r)] {
            Some(p) => p.color == c && (p.kind == primary || p.kind == PieceKind::Queen),
            None => ray_attacks(m, f + df, r + dr, df, dr, c, primary, (fuel - 1) as nat),
        }
    }
}

/// The piece kind that slides along direction `i` besides the queen.
pub open spec fn direction_slider(i: int) -> PieceKind {
    if i < 4 {
        PieceKind::Bishop
    } else {
        PieceKind::Rook
    }
}

pub open spec fn slider_attacks(m: PositionModel, tf: int, tr: int, c: Color) -> bool {
    exists|i: int|
        0 <= i < 8 && #[trigger] ray_attacks(
            m,
            tf + direction(i).0,
            tr + direction(i).1,
            direction(i).0,
            direction(i).1,
            c,
            direction_slider(i),
            8,
        )
}

/// A piece of color `c` attacks the square `t`.
pub open spec fn square_attacked(m: PositionModel, t: Square, c: Color) -> bool {
    let tf = file_of(t);
    let tr = rank_of(t);
    ||| pawn_attacks(m, tf, tr, c)
    ||| knight_attacks(m, tf, tr, c)
    ||| king_attacks(m, tf, tr, c)
    ||| slider_attacks(m, tf, tr, c)
}

/// The first square, from index `i` on, that holds the king of `c`.
pub open spec fn king_square_from(m: PositionModel, c: Color, i: int) -> Option<Square>
    decreases 64 - i,
{
    if i >= 64 {
        None
    } else if m.board[i] == Some(Piece { color: c, kind: PieceKind::King }) {
        Some(Square(i as u8))
    } else {
        king_square_from(m, c, i + 1)
    }
}

/// The lowest square that holds the king of `c`.
pub open spec fn king_square(m: PositionModel, c: Color) -> Option<Square> {
    king_square_from(m, c, 0)
}

/// The king of `c` stands on an attacked square (no king: not in check).
pub open spec fn in_check(m: PositionModel, c: Color) -> bool {
    match king_square(m, c) {
        None => false,
        Some(s) => square_attacked(m, s, c.spec_opposite()),
    }
}

// ---------------------------------------------------------------- moves

pub open spec fn plain_move(from: Square, f: int, r: int) -> ChessMove {
    ChessMove { from, to: square_at(f, r), promotion: None }
}

/// A move of one step to `(f, r)`: onto an empty square or a capture.
pub open spec fn step_move(m: PositionModel, from: Square, f: int, r: int) -> Seq<ChessMove> {
    if !on_board(f, r) {
        seq![]
    } else {
        match m.board[sq(f, r)] {
            Some(p) => if p.color == m.side_to_move {
                seq![]
            } else {
                seq![plain_move(from, f, r)]
            },
            None => seq![plain_move(from, f, r)],
        }
    }
}

/// The moves of a slider from `from` along direction `(df, dr)`, starting
/// with the square `(f, r)`: every empty square, then the first enemy piece.
pub open spec fn ray_moves(
    m: PositionModel,
    from: Square,
    f: int,
    r: int,
    df: int,
    dr: int,
    fuel: nat,
) -> Seq<ChessMove>
    decreases fuel,
{
    if fuel == 0 || !on_board(f, r) {
        seq![]
    } else {
        match m.board[sq(f, r)] {
            Some(p) => if p.color == m.side_to_move {
                seq![]
            } else {
                seq![plain_move(from, f, r)]
            },
            None => seq![plain_move(from, f, r)] + ray_moves(
                m,
                from,
                f + df,
                r + dr,
                df,
                dr,
                (fuel - 1) as nat,
            ),
        }
    }
}

/// The slider moves from `from` along the directions `lo..hi`.
pub open spec fn slider_moves(m: PositionModel, from: Square, lo: int, hi: int) -> Seq<ChessMove>
    decreases hi - lo,
{
    if hi <= lo {
        seq![]
    } else {
        slider_moves(m, from, lo, hi - 1) + ray_moves(
            m,
            from,
            file_of(from) + direction(hi - 1).0,
            rank_of(from) + direction(hi - 1).1,
            direction(hi - 1).0,
            direction(hi - 1).1,
            7,
        )
    }
}

/// The knight moves from `from` along the first `n` jumps.
pub open spec fn knight_moves(m: PositionModel, from: Square, n: int) -> Seq<ChessMove>
    decreases n,
{
    if n <= 0 {
        seq![]
    } else {
        knight_moves(m, from, n - 1) + step_move(
            m,
            from,
            file_of(from) + knight_delta(n - 1).0,
            rank_of(from) + knight_delta(n - 1).1,
        )
    }
}

/// The king steps from `from` along the first `n` directions.
pub open spec fn king_steps(m: PositionModel, from: Square, n: int) -> Seq<ChessMove>
    decreases n,
{
    if n <= 0 {
        seq![]
    } else {
        king_steps(m, from, n - 1) + step_move(
            m,
            from,
            file_of(from) + king_delta(n - 1).0,
            rank_of(from) + king_delta(n - 1).1,
        )
    }
}

/// The rank of the kings and rooks of `c` at the start.
pub open spec fn home_rank(c: Color) -> int {
    if c == Color::White {
        0
    } else {
        7
    }
}

pub open spec fn is_empty_at(m: PositionModel, f: int, r: int) -> bool {
    m.board[sq(f, r)] is None
}

/// Castling on the king side: the right is held, f and g are empty, the rook
/// stands on h, and neither f nor g is attacked.
pub open spec fn kingside_castle_ok(m: PositionModel, c: Color, rank: int, right: bool) -> bool {
    &&& right
    &&& is_empty_at(m, 5, rank)
    &&& is_empty_at(m, 6, rank)
    &&& m.board[sq(7, rank)] == Some(Piece { color: c, kind: PieceKind::Rook })
    &&& !square_attacked(m, square_at(5, rank), c.spec_opposite())
    &&& !square_attacked(m, square_at(6, rank), c.spec_opposite())
}

/// Castling on the queen side: the right is held, b, c and d are empty, the
/// rook stands on a, and neither d nor c is attacked.
pub open spec fn queenside_castle_ok(m: PositionModel, c: Color, rank: int, right: bool) -> bool {
    &&& right
    &&& is_empty_at(m, 1, rank)
    &&& is_empty_at(m, 2, rank)
    &&& is_empty_at(m, 3, rank)
    &&& m.board[sq(0, rank)] == Some(Piece { color: c, kind: PieceKind::Rook })
    &&& !square_attacked(m, square_at(3, rank), c.spec_opposite())
    &&& !square_attacked(m, square_at(2, rank), c.spec_opposite())
}

/// The castling moves of the side to move, for a king on `from`: none unless
/// the king is on its e-file home square and not in check.
pub open spec fn castling_moves(m: PositionModel, from: Square) -> Seq<ChessMove> {
    let c = m.side_to_move;
    let rank = home_rank(c);
    let (ks, qs) = if c == Color::White {
        (m.castling_rights.white_kingside, m.castling_rights.white_queenside)
    } else {
        (m.castling_rights.black_kingside, m.castling_rights.black_queenside)
    };
    if from != square_at(4, rank) || in_check(m, c) {
        seq![]
    } else {
        (if kingside_castle_ok(m, c, rank, ks) {
            seq![plain_move(from, 6, rank)]
        } else {
            seq![]
        }) + (if queenside_castle_ok(m, c, rank, qs) {
            seq![plain_move(from, 2, rank)]
        } else {
            seq![]
        })
    }
}

pub open spec fn king_moves(m: PositionModel, from: Square) -> Seq<ChessMove> {
    king_steps(m, from, 8) + castling_moves(m, from)
}

pub open spec fn pawn_direction(c: Color) -> int {
    if c == Color::White {
        1
    } else {
        -1
    }
}

pub open spec fn pawn_start_rank(c: Color) -> int {
    if c == Color::White {
        1
    } else {
        6
    }
}

pub open spec fn is_promotion_rank(c: Color, r: int) -> bool {
    (c == Color::White && r == 7) || (c == Color::Black && r == 0)
}

/// The four promotions of a pawn move, queen first.
pub open spec fn promotions(from: Square, to: Square) -> Seq<ChessMove> {
    seq![
        ChessMove { from, to, promotion: Some(PieceKind::Queen) },
        ChessMove { from, to, promotion: Some(PieceKind::Rook) },
        ChessMove { from, to, promotion: Some(PieceKind::Bishop) },
        ChessMove { from, to, promotion: Some(PieceKind::Knight) },
    ]
}

/// The pushes of a pawn of color `c` on `from`: one step onto an empty square
/// (the four promotions on the last rank), and two steps from the start rank
/// over two empty squares.
pub open spec fn pawn_pushes(m: PositionModel, from: Square, c: Color) -> Seq<ChessMove> {
    let f = file_of(from);
    let r = rank_of(from);
    let dir = pawn_direction(c);
    let nr = r + dir;
    if 0 <= nr < 8 && is_empty_at(m, f, nr) {
        if is_promotion_rank(c, nr) {
            promotions(from, square_at(f, nr))
        } else {
            seq![plain_move(from, f, nr)] + if r == pawn_start_rank(c) && 0 <= nr + dir < 8
                && is_empty_at(m, f, nr + dir) {
                seq![plain_move(from, f, nr + dir)]
            } else {
                seq![]
            }
        }
    } else {
        seq![]
    }
}

/// The diagonal moves of a pawn of color `c` on `from` towards file offset
/// `df`: a capture of an enemy piece (the four promotions on the last rank),
/// or onto the en-passant target.
pub open spec fn pawn_capture(m: PositionModel, from: Square, c: Color, df: int) -> Seq<ChessMove> {
    let ff = file_of(from) + df;
    let nr = rank_of(from) + pawn_direction(c);
    if !on_board(ff, nr) {
        seq![]
    } else {
        match m.board[sq(ff, nr)] {
            Some(p) => if p.color != c {
                if is_promotion_rank(c, nr) {
                    promotions(from, square_at(ff, nr))
                } else {
                    seq![plain_move(from, ff, nr)]
                }
            } else {
                seq![]
            },
            None => if m.en_passant_target == Some(square_at(ff, nr)) {
                seq![plain_move(from, ff, nr)]
            } else {
                seq![]
            },
        }
    }
}

pub open spec fn pawn_moves(m: PositionModel, from: Square, c: Color) -> Seq<ChessMove> {
    pawn_pushes(m, from, c) + pawn_capture(m, from, c, -1) + pawn_capture(m, from, c, 1)
}

/// The moves of the piece on square `s`, if it belongs to the side to move.
pub open spec fn piece_moves(m: PositionModel, s: int) -> Seq<ChessMove> {
    let from = Square(s as u8);
    match m.board[s] {
        None => seq![],
        Some(p) => if p.color != m.side_to_move {
            seq![]
        } else {
            match p.kind {
                PieceKind::Pawn => pawn_moves(m, from, p.color),
                PieceKind::Knight => knight_moves(m, from, 8),
                PieceKind::Bishop => slider_moves(m, from, 0, 4),
                PieceKind::Rook => slider_moves(m, from, 4, 8),
                PieceKind::Queen => slider_moves(m, from, 0, 8),
                PieceKind::King => king_moves(m, from),
            }
        },
    }
}

/// The moves of the pieces on squares `0..n`, square by square.
pub open spec fn pseudo_moves_upto(m: PositionModel, n: int) -> Seq<ChessMove>
    decreases n,
{
    if n <= 0 {
        seq![]
    } else {
        pseudo_moves_upto(m, n - 1) + piece_moves(m, n - 1)
    }
}

/// The moves of the side to move by the movement rules of the pieces, before
/// asking whether they leave the own king in check.
pub open spec fn pseudo_legal_moves(m: PositionModel) -> Seq<ChessMove> {
    pseudo_moves_upto(m, 64)
}

/// The pseudo-legal moves after which the king of the side that moved is not
/// in check.
pub open spec fn legal_moves(m: PositionModel) -> Seq<ChessMove> {
    pseudo_legal_moves(m).filter(|mv: ChessMove| !in_check(apply_move(m, mv), m.side_to_move))
}

// ---------------------------------------------------------------- making a move

pub open spec fn saturating_inc(x: u16) -> u16 {
    if x == 0xffff {
        x
    } else {
        (x + 1) as u16
    }
}

/// The rights left once a rook of color `c` leaves or is taken on `(f, r)`.
pub open spec fn rook_square_rights(cr: CastlingRights, c: Color, f: int, r: int) -> CastlingRights {
    if c == Color::White && f == 0 && r == 0 {
        CastlingRights { white_queenside: false, ..cr }
    } else if c == Color::White && f == 7 && r == 0 {
        CastlingRights { white_kingside: false, ..cr }
    } else if c == Color::Black && f == 0 && r == 7 {
        CastlingRights { black_queenside: false, ..cr }
    } else if c == Color::Black && f == 7 && r == 7 {
        CastlingRights { black_kingside: false, ..cr }
    } else {
        cr
    }
}

/// The rights left once the king of `c` moves.
pub open spec fn king_moved_rights(cr: CastlingRights, c: Color) -> CastlingRights {
    if c == Color::White {
        CastlingRights { white_kingside: false, white_queenside: false, ..cr }
    } else {
        CastlingRights { black_kingside: false, black_queenside: false, ..cr }
    }
}

/// The move is a pawn's diagonal move onto the empty en-passant target.
pub open spec fn is_en_passant(m: PositionModel, piece: Piece, mv: ChessMove) -> bool {
    &&& piece.kind == PieceKind::Pawn
    &&& m.en_passant_target == Some(mv.to)
    &&& m.board[mv.to.0 as int] is None
    &&& file_of(mv.from) != file_of(mv.to)
}

/// The square of the pawn taken en passant: the target's file, the mover's rank.
pub open spec fn en_passant_victim(mv: ChessMove) -> int {
    sq(file_of(mv.to), rank_of(mv.from))
}

/// The moving piece after promotion.
pub open spec fn promoted(piece: Piece, mv: ChessMove) -> Piece {
    match mv.promotion {
        Some(k) => Piece { kind: k, ..piece },
        None => piece,
    }
}

/// A king move of two files.
pub open spec fn is_castling_step(piece: Piece, mv: ChessMove) -> bool {
    piece.kind == PieceKind::King && (file_of(mv.to) - file_of(mv.from) == 2 || file_of(mv.from)
        - file_of(mv.to) == 2)
}

/// The board after the rook's part of castling: the rook on the h-file (or
/// a-file) of the king's rank goes to the f-file (or d-file).
pub open spec fn castle_rook(board: Seq<Option<Piece>>, mv: ChessMove) -> Seq<Option<Piece>> {
    let (rf, rt) = if file_of(mv.to) > file_of(mv.from) {
        (7int, 5int)
    } else {
        (0int, 3int)
    };
    let rank = rank_of(mv.from);
    let rook = board[sq(rf, rank)];
    board.update(sq(rf, rank), None).update(sq(rt, rank), rook)
}

/// The piece taken by the move, if any.
pub open spec fn captured_piece(m: PositionModel, mv: ChessMove) -> Option<Piece> {
    match m.board[mv.from.0 as int] {
        Some(piece) => if is_en_passant(m, piece, mv) {
            m.board.update(mv.from.0 as int, None)[en_passant_victim(mv)]
        } else {
            m.board[mv.to.0 as int]
        },
        None => m.board[mv.to.0 as int],
    }
}

/// The board after the move.
pub open spec fn board_after(m: PositionModel, mv: ChessMove) -> Seq<Option<Piece>> {
    let b1 = m.board.update(mv.from.0 as int, None);
    match m.board[mv.from.0 as int] {
        None => b1,
        Some(piece0) => {
            let b2 = if is_en_passant(m, piece0, mv) {
                b1.update(en_passant_victim(mv), None)
            } else {
                b1
            };
            let piece = promoted(piece0, mv);
            let b3 = if is_castling_step(piece, mv) {
                castle_rook(b2, mv)
            } else {
                b2
            };
            b3.update(mv.to.0 as int, Some(piece))
        },
    }
}

/// The castling rights after the move.
pub open spec fn rights_after(m: PositionModel, mv: ChessMove) -> CastlingRights {
    let cr1 = match m.board[mv.from.0 as int] {
        None => m.castling_rights,
        Some(piece0) => {
            let piece = promoted(piece0, mv);
            let cr_k = if piece.kind == PieceKind::King {
                king_moved_rights(m.castling_rights, piece.color)
            } else {
                m.castling_rights
            };
            if piece.kind == PieceKind::Rook {
                rook_square_rights(cr_k, piece.color, file_of(mv.from), rank_of(mv.from))
            } else {
                cr_k
            }
        },
    };
    match captured_piece(m, mv) {
        Some(cap) => if cap.kind == PieceKind::Rook {
            rook_square_rights(cr1, cap.color, file_of(mv.to), rank_of(mv.to))
        } else {
            cr1
        },
        None => cr1,
    }
}

/// The en-passant target after the move: the square a pawn skipped.
pub open spec fn en_passant_after(m: PositionModel, mv: ChessMove) -> Option<Square> {
    match m.board[mv.from.0 as int] {
        None => m.en_passant_target,
        Some(piece0) => {
            let piece = promoted(piece0, mv);
            if piece.kind == PieceKind::Pawn && (rank_of(mv.from) - rank_of(mv.to) == 2 || rank_of(
                mv.to,
            ) - rank_of(mv.from) == 2) {
                Some(square_at(file_of(mv.from), (rank_of(mv.from) + rank_of(mv.to)) / 2))
            } else {
                None
            }
        },
    }
}

/// The halfmove clock after the move: reset by a pawn move or a capture.
pub open spec fn halfmove_after(m: PositionModel, mv: ChessMove) -> u16 {
    match m.board[mv.from.0 as int] {
        None => m.halfmove_clock,
        Some(piece0) => {
            let piece = promoted(piece0, mv);
            if piece.kind == PieceKind::Pawn || captured_piece(m, mv) is Some {
                0
            } else {
                saturating_inc(m.halfmove_clock)
            }
        },
    }
}

/// The position after the move, whether or not the move is legal.
pub open spec fn apply_move(m: PositionModel, mv: ChessMove) -> PositionModel {
    let side = m.side_to_move.spec_opposite();
    PositionModel {
        board: board_after(m, mv),
        side_to_move: side,
        castling_rights: rights_after(m, mv),
        en_passant_target: en_passant_after(m, mv),
        halfmove_clock: halfmove_after(m, mv),
        fullmove_number: if side == Color::White {
            saturating_inc(m.fullmove_number)
        } else {
            m.fullmove_number
        },
    }
}

// ---------------------------------------------------------------- status

pub open spec fn game_status(m: PositionModel) -> GameStatus {
    if m.halfmove_clock >= 100 {
        GameStatus::DrawByFiftyMoveRule
    } else if legal_moves(m).len() > 0 {
        GameStatus::Ongoing
    } else if in_check(m, m.side_to_move) {
        GameStatus::Checkmate { loser: m.side_to_move }
    } else {
        GameStatus::Stalemate { side_to_move: m.side_to_move }
    }
}

/// The number of times `key` occurs among the first `n` entries of `history`.
pub open spec fn occurrences_upto(history: Seq<u64>, key: u64, n: int) -> nat
    decreases n,
{
    if n <= 0 {
        0
    } else {
        occurrences_upto(history, key, n - 1) + if history[n - 1] == key {
            1nat
        } else {
            0nat
        }
    }
}

/// The number of times `key` occurs in `history`.
pub open spec fn occurrences(history: Seq<u64>, key: u64) -> nat {
    occurrences_upto(history, key, history.len() as int)
}

pub open spec fn game_status_with_history(m: PositionModel, key: u64, history: Seq<u64>) -> GameStatus {
    let status = game_status(m);
    if status != GameStatus::Ongoing {
        status
    } else if occurrences(history, key) >= 3 {
        GameStatus::DrawByRepetition
    } else {
        GameStatus::Ongoing
    }
}

/// A position whose en-passant target, if any, is a square of the board.
pub open spec fn well_formed(m: PositionModel) -> bool {
    &&& m.board.len() == 64
    &&& m.en_passant_target matches Some(s) ==> s.valid()
}

} // verus!
