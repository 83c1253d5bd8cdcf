//! Laws of the rules stated square by square: where pawns attack, the double step of a
//! pawn, the rook's part of castling, how a pawn capture is written, and when a game goes
//! on.

use vstd::prelude::*;
use super::{ChessMove, Color, GameStatus, Piece, PieceKind, PositionModel, Square};
use super::rules::{
    apply_move, direction, direction_slider, file_of, game_status, has_piece, on_board,
    ray_attacks, sq, king_delta, knight_delta, knight_moves,
    legal_moves, piece_moves, pseudo_legal_moves, pseudo_moves_upto, rank_of, square_attacked,
    step_move,
};
use super::san::san_text;
use super::rules::{in_check, king_moves};

verus! {

/// A pawn of color `c` on file `f` and rank `r` attacks the two squares diagonally in
/// front of it: one rank up for White, one rank down for Black.
pub proof fn lemma_pawn_attacks_diagonally_forward(
    m: PositionModel,
    f: int,
    r: int,
    c: Color,
    df: int,
)
    requires
        m.board.len() == 64,
        0 <= f < 8,
        0 <= r < 8,
        m.board[r * 8 + f] == Some(Piece { color: c, kind: PieceKind::Pawn }),
        df == -1 || df == 1,
        0 <= f + df < 8,
        0 <= r + (if c == Color::White { 1int } else { -1int }) < 8,
    ensures
        square_attacked(
            m,
            Square(((r + (if c == Color::White { 1int } else { -1int })) * 8 + f + df) as u8),
            c,
        ),
{
    let tr = r + (if c == Color::White { 1int } else { -1int });
    let t = Square((tr * 8 + f + df) as u8);
    assert(t.0 == tr * 8 + f + df);
    assert(file_of(t) == f + df);
    assert(rank_of(t) == tr);
}

/// The moves of the piece on square `s` are among the moves of the pieces on squares
/// `0..n` once `s < n`.
proof fn lemma_piece_moves_included(m: PositionModel, s: int, n: int, mv: ChessMove)
    requires
        0 <= s < n,
        piece_moves(m, s).contains(mv),
    ensures
        pseudo_moves_upto(m, n).contains(mv),
    decreases n,
{
    let prefix = pseudo_moves_upto(m, n - 1);
    let last = piece_moves(m, n - 1);
    assert(pseudo_moves_upto(m, n) == prefix + last);
    if s == n - 1 {
        let i = choose|i: int| 0 <= i < last.len() && last[i] == mv;
        assert((prefix + last)[prefix.len() + i] == mv);
    } else {
        lemma_piece_moves_included(m, s, n - 1, mv);
        let i = choose|i: int| 0 <= i < prefix.len() && prefix[i] == mv;
        assert((prefix + last)[i] == mv);
    }
}

/// A pawn of the side to move on its second rank (rank index 1 for White, 6 for Black)
/// with the two squares ahead of it empty may advance two squares.
pub proof fn lemma_double_pawn_push(m: PositionModel, f: int)
    requires
        m.board.len() == 64,
        0 <= f < 8,
        m.board[(if m.side_to_move == Color::White { 1int } else { 6int }) * 8 + f] == Some(
            Piece { color: m.side_to_move, kind: PieceKind::Pawn },
        ),
        m.board[(if m.side_to_move == Color::White { 2int } else { 5int }) * 8 + f] is None,
        m.board[(if m.side_to_move == Color::White { 3int } else { 4int }) * 8 + f] is None,
    ensures
        pseudo_legal_moves(m).contains(
            ChessMove {
                from: Square(((if m.side_to_move == Color::White { 1int } else { 6int }) * 8
                    + f) as u8),
                to: Square(((if m.side_to_move == Color::White { 3int } else { 4int }) * 8
                    + f) as u8),
                promotion: None,
            },
        ),
{
    let white = m.side_to_move == Color::White;
    let r0: int = if white { 1 } else { 6 };
    let r2: int = if white { 3 } else { 4 };
    let s = r0 * 8 + f;
    let from = Square(s as u8);
    let mv = ChessMove { from, to: Square((r2 * 8 + f) as u8), promotion: None };
    assert(file_of(from) == f);
    assert(rank_of(from) == r0);
    let pushes = super::rules::pawn_pushes(m, from, m.side_to_move);
    assert(pushes[1] == mv);
    let moves = piece_moves(m, s);
    assert(moves == super::rules::pawn_moves(m, from, m.side_to_move));
    assert(moves[1] == mv);
    assert(moves.contains(mv));
    lemma_piece_moves_included(m, s, 64, mv);
}

/// A king on the e-file that moves two files along its rank castles: on the c-file the
/// rook that stood on the a-file ends on the d-file, on the g-file the rook from the
/// h-file ends on the f-file; the rook's old square and the king's are left empty.
pub proof fn lemma_castling_moves_rook(m: PositionModel, mv: ChessMove)
    requires
        m.board.len() == 64,
        mv.valid(),
        mv.promotion is None,
        m.board[mv.from.0 as int] matches Some(k) && k.kind == PieceKind::King,
        file_of(mv.from) == 4,
        rank_of(mv.to) == rank_of(mv.from),
        file_of(mv.to) == 2 || file_of(mv.to) == 6,
    ensures
        ({
            let r = rank_of(mv.from);
            let b = apply_move(m, mv).board;
            &&& b[mv.to.0 as int] == m.board[mv.from.0 as int]
            &&& b[r * 8 + 4] is None
            &&& file_of(mv.to) == 2 ==> b[r * 8 + 3] == m.board[r * 8] && b[r * 8] is None
            &&& file_of(mv.to) == 6 ==> b[r * 8 + 5] == m.board[r * 8 + 7] && b[r * 8 + 7] is None
        }),
{
    let r = rank_of(mv.from);
    assert(mv.from.0 == r * 8 + 4);
    assert(mv.to.0 == r * 8 + file_of(mv.to));
}

/// A pawn move that takes something, on the target square or en passant, is written with
/// the letter of the pawn's file, `x`, then the target square.
pub proof fn lemma_pawn_capture_san(m: PositionModel, mv: ChessMove)
    requires
        m.board.len() == 64,
        mv.valid(),
        m.board[mv.from.0 as int] matches Some(p) && p.kind == PieceKind::Pawn,
        m.board[mv.to.0 as int] is Some || (m.en_passant_target == Some(mv.to) && file_of(
            mv.from,
        ) != file_of(mv.to)),
    ensures
        san_text(m, mv) matches Some(t) && t.len() >= 4 && t[0] == ((file_of(mv.from) + 97) as u32) as char
            && t[1] == 'x' && t[2] == ((file_of(mv.to) + 97) as u32) as char && t[3] == ((
        rank_of(mv.to) + 49) as u32) as char,
{
}

/// A game goes on while the fifty-move rule has not drawn it and the side to move has a
/// legal move; it ends in checkmate or stalemate only when there is none; a hundred
/// half-moves without a pawn move or capture draw it.
pub proof fn lemma_game_goes_on(m: PositionModel)
    ensures
        m.halfmove_clock < 100 && legal_moves(m).len() > 0 ==> game_status(m)
            == GameStatus::Ongoing,
        game_status(m) is Checkmate || game_status(m) is Stalemate ==> legal_moves(m).len() == 0,
        m.halfmove_clock >= 100 ==> game_status(m) == GameStatus::DrawByFiftyMoveRule,
{
}

/// A knight of color `c` on file `f` and rank `r` attacks every square a knight's jump
/// away: two files and one rank, or one file and two ranks, in any direction.
pub proof fn lemma_knight_attacks_jumps(m: PositionModel, f: int, r: int, c: Color, a: int, b: int)
    requires
        m.board.len() == 64,
        0 <= f < 8,
        0 <= r < 8,
        m.board[r * 8 + f] == Some(Piece { color: c, kind: PieceKind::Knight }),
        (a == 1 || a == -1) && (b == 2 || b == -2) || (a == 2 || a == -2) && (b == 1 || b == -1),
        0 <= f + a < 8,
        0 <= r + b < 8,
    ensures
        square_attacked(m, Square(((r + b) * 8 + f + a) as u8), c),
{
    let t = Square(((r + b) * 8 + f + a) as u8);
    assert(file_of(t) == f + a);
    assert(rank_of(t) == r + b);
    let knight = Piece { color: c, kind: PieceKind::Knight };
    let i: int = if a == -1 && b == -2 {
        0
    } else if a == -2 && b == -1 {
        1
    } else if a == -2 && b == 1 {
        2
    } else if a == -1 && b == 2 {
        3
    } else if a == 1 && b == 2 {
        4
    } else if a == 2 && b == 1 {
        5
    } else if a == 2 && b == -1 {
        6
    } else {
        7
    };
    assert(knight_delta(i) == (-a, -b));
    assert(has_piece(m, f + a + knight_delta(i).0, r + b + knight_delta(i).1, knight));
}

/// A king of color `c` attacks the eight squares around it.
pub proof fn lemma_king_attacks_neighbours(m: PositionModel, f: int, r: int, c: Color, a: int, b: int)
    requires
        m.board.len() == 64,
        0 <= f < 8,
        0 <= r < 8,
        m.board[r * 8 + f] == Some(Piece { color: c, kind: PieceKind::King }),
        -1 <= a <= 1,
        -1 <= b <= 1,
        a != 0 || b != 0,
        0 <= f + a < 8,
        0 <= r + b < 8,
    ensures
        square_attacked(m, Square(((r + b) * 8 + f + a) as u8), c),
{
    let t = Square(((r + b) * 8 + f + a) as u8);
    assert(file_of(t) == f + a);
    assert(rank_of(t) == r + b);
    let king = Piece { color: c, kind: PieceKind::King };
    let i: int = if a == 1 && b == 1 {
        0
    } else if a == 1 && b == 0 {
        1
    } else if a == 1 && b == -1 {
        2
    } else if a == 0 && b == 1 {
        3
    } else if a == 0 && b == -1 {
        4
    } else if a == -1 && b == 1 {
        5
    } else if a == -1 && b == 0 {
        6
    } else {
        7
    };
    assert(king_delta(i) == (-a, -b));
    assert(has_piece(m, f + a + king_delta(i).0, r + b + king_delta(i).1, king));
}

/// An ordinary move (neither castling nor en passant) of the piece on its origin leaves
/// the origin empty, puts the piece (or the piece it promotes to) on the target, keeps
/// every other square, and hands the turn to the other side.
pub proof fn lemma_ordinary_move_squares(m: PositionModel, mv: ChessMove)
    requires
        m.board.len() == 64,
        mv.valid(),
        mv.from != mv.to,
        m.board[mv.from.0 as int] matches Some(p) && !(p.kind == PieceKind::King && (file_of(mv.to)
            - file_of(mv.from) == 2 || file_of(mv.from) - file_of(mv.to) == 2)) && !(p.kind
            == PieceKind::Pawn && m.en_passant_target == Some(mv.to) && m.board[mv.to.0 as int] is None
            && file_of(mv.from) != file_of(mv.to)),
        mv.promotion is None || mv.promotion != Some(PieceKind::King),
    ensures
        ({
            let p = m.board[mv.from.0 as int]->Some_0;
            let next = apply_move(m, mv);
            &&& next.board.len() == 64
            &&& next.board[mv.from.0 as int] is None
            &&& next.board[mv.to.0 as int] == Some(
                match mv.promotion {
                    Some(k) => Piece { color: p.color, kind: k },
                    None => p,
                },
            )
            &&& forall|s: int|
                0 <= s < 64 && s != mv.from.0 && s != mv.to.0 ==> #[trigger] next.board[s]
                    == m.board[s]
            &&& next.side_to_move != m.side_to_move
        }),
{
}

/// A pawn taking en passant moves diagonally to the empty target square and removes the
/// pawn beside its origin, on the target's file.
pub proof fn lemma_en_passant_removes_victim(m: PositionModel, mv: ChessMove)
    requires
        m.board.len() == 64,
        mv.valid(),
        mv.promotion is None,
        m.board[mv.from.0 as int] matches Some(p) && p.kind == PieceKind::Pawn,
        m.en_passant_target == Some(mv.to),
        m.board[mv.to.0 as int] is None,
        file_of(mv.from) != file_of(mv.to),
        rank_of(mv.from) != rank_of(mv.to),
    ensures
        ({
            let next = apply_move(m, mv);
            &&& next.board[mv.to.0 as int] == m.board[mv.from.0 as int]
            &&& next.board[mv.from.0 as int] is None
            &&& next.board[rank_of(mv.from) * 8 + file_of(mv.to)] is None
        }),
{
    assert(mv.to.0 == rank_of(mv.to) * 8 + file_of(mv.to));
    assert(mv.from.0 == rank_of(mv.from) * 8 + file_of(mv.from));
}

/// Castling rights are only ever lost: a move keeps or clears each of them. A king's move
/// clears both rights of its side.
pub proof fn lemma_rights_only_lost(m: PositionModel, mv: ChessMove)
    ensures
        ({
            let before = m.castling_rights;
            let after = apply_move(m, mv).castling_rights;
            &&& after.white_kingside ==> before.white_kingside
            &&& after.white_queenside ==> before.white_queenside
            &&& after.black_kingside ==> before.black_kingside
            &&& after.black_queenside ==> before.black_queenside
            &&& (m.board[mv.from.0 as int] matches Some(p) && p.kind == PieceKind::King
                && mv.promotion is None) ==> (if m.board[mv.from.0 as int]->Some_0.color
                == Color::White {
                !after.white_kingside && !after.white_queenside
            } else {
                !after.black_kingside && !after.black_queenside
            })
        }),
{
}

/// A rook leaving its corner, or taken there, clears the castling right on that side.
pub proof fn lemma_rook_corner_rights(m: PositionModel, mv: ChessMove)
    requires
        m.board.len() == 64,
        mv.valid(),
        mv.promotion is None,
        m.board[mv.from.0 as int] is Some,
    ensures
        ({
            let after = apply_move(m, mv).castling_rights;
            let white_rook = Some(Piece { color: Color::White, kind: PieceKind::Rook });
            let black_rook = Some(Piece { color: Color::Black, kind: PieceKind::Rook });
            &&& (mv.from.0 == 0 && m.board[0] == white_rook) || (mv.to.0 == 0 && m.board[0]
                == white_rook) ==> !after.white_queenside
            &&& (mv.from.0 == 7 && m.board[7] == white_rook) || (mv.to.0 == 7 && m.board[7]
                == white_rook) ==> !after.white_kingside
            &&& (mv.from.0 == 56 && m.board[56] == black_rook) || (mv.to.0 == 56 && m.board[56]
                == black_rook) ==> !after.black_queenside
            &&& (mv.from.0 == 63 && m.board[63] == black_rook) || (mv.to.0 == 63 && m.board[63]
                == black_rook) ==> !after.black_kingside
        }),
{
    assert(file_of(Square(0)) == 0 && rank_of(Square(0)) == 0);
    assert(file_of(Square(7)) == 7 && rank_of(Square(7)) == 0);
    assert(file_of(Square(56)) == 0 && rank_of(Square(56)) == 7);
    assert(file_of(Square(63)) == 7 && rank_of(Square(63)) == 7);
}

/// The halfmove clock restarts at zero after a pawn move or a capture, and otherwise
/// counts one more half-move (staying at its largest value); the move number rises after
/// each move of Black.
pub proof fn lemma_clocks_after_move(m: PositionModel, mv: ChessMove)
    requires
        m.board.len() == 64,
        mv.valid(),
        mv.promotion is None,
        m.board[mv.from.0 as int] matches Some(p) && p.color == m.side_to_move,
    ensures
        ({
            let p = m.board[mv.from.0 as int]->Some_0;
            let next = apply_move(m, mv);
            &&& p.kind == PieceKind::Pawn || m.board[mv.to.0 as int] is Some ==> next.halfmove_clock
                == 0
            &&& p.kind != PieceKind::Pawn && m.board[mv.to.0 as int] is None && m.halfmove_clock
                < 0xffff ==> next.halfmove_clock == m.halfmove_clock + 1
            &&& m.side_to_move == Color::Black && m.fullmove_number < 0xffff ==> next.fullmove_number
                == m.fullmove_number + 1
            &&& m.side_to_move == Color::White ==> next.fullmove_number == m.fullmove_number
        }),
{
}

/// The moves among the first `n` knight jumps are among all of them.
proof fn lemma_knight_moves_included(m: PositionModel, from: Square, j: int, n: int, mv: ChessMove)
    requires
        0 <= j < n,
        step_move(m, from, file_of(from) + knight_delta(j).0, rank_of(from) + knight_delta(j).1)
            .contains(mv),
    ensures
        knight_moves(m, from, n).contains(mv),
    decreases n,
{
    let prefix = knight_moves(m, from, n - 1);
    let last = step_move(
        m,
        from,
        file_of(from) + knight_delta(n - 1).0,
        rank_of(from) + knight_delta(n - 1).1,
    );
    if j == n - 1 {
        let i = choose|i: int| 0 <= i < last.len() && last[i] == mv;
        assert((prefix + last)[prefix.len() + i] == mv);
    } else {
        lemma_knight_moves_included(m, from, j, n - 1, mv);
        let i = choose|i: int| 0 <= i < prefix.len() && prefix[i] == mv;
        assert((prefix + last)[i] == mv);
    }
}

/// A knight of the side to move may jump to any square a knight's jump away that does not
/// hold a piece of its own side.
pub proof fn lemma_knight_jump_moves(m: PositionModel, f: int, r: int, a: int, b: int)
    requires
        m.board.len() == 64,
        0 <= f < 8,
        0 <= r < 8,
        m.board[r * 8 + f] == Some(Piece { color: m.side_to_move, kind: PieceKind::Knight }),
        (a == 1 || a == -1) && (b == 2 || b == -2) || (a == 2 || a == -2) && (b == 1 || b == -1),
        0 <= f + a < 8,
        0 <= r + b < 8,
        !(m.board[(r + b) * 8 + f + a] matches Some(q) && q.color == m.side_to_move),
    ensures
        pseudo_legal_moves(m).contains(
            ChessMove {
                from: Square((r * 8 + f) as u8),
                to: Square(((r + b) * 8 + f + a) as u8),
                promotion: None,
            },
        ),
{
    let s = r * 8 + f;
    let from = Square(s as u8);
    let mv = ChessMove { from, to: Square(((r + b) * 8 + f + a) as u8), promotion: None };
    assert(file_of(from) == f);
    assert(rank_of(from) == r);
    let j: int = if a == 1 && b == 2 {
        0
    } else if a == 2 && b == 1 {
        1
    } else if a == 2 && b == -1 {
        2
    } else if a == 1 && b == -2 {
        3
    } else if a == -1 && b == -2 {
        4
    } else if a == -2 && b == -1 {
        5
    } else if a == -2 && b == 1 {
        6
    } else {
        7
    };
    assert(knight_delta(j) == (a, b));
    let st = step_move(m, from, f + a, r + b);
    assert(st[0] == mv);
    assert(st.contains(mv));
    lemma_knight_moves_included(m, from, j, 8, mv);
    assert(piece_moves(m, s) == knight_moves(m, from, 8));
    lemma_piece_moves_included(m, s, 64, mv);
}

/// A pawn of the side to move with an empty square ahead may step onto it; onto the last
/// rank, it does so as each of the four promotions to queen, rook, bishop and knight.
pub proof fn lemma_single_pawn_push(m: PositionModel, f: int, r: int, k: PieceKind)
    requires
        m.board.len() == 64,
        0 <= f < 8,
        0 <= r + (if m.side_to_move == Color::White { 1int } else { -1int }) < 8,
        0 <= r < 8,
        m.board[r * 8 + f] == Some(Piece { color: m.side_to_move, kind: PieceKind::Pawn }),
        m.board[(r + (if m.side_to_move == Color::White { 1int } else { -1int })) * 8 + f] is None,
        k == PieceKind::Queen || k == PieceKind::Rook || k == PieceKind::Bishop || k
            == PieceKind::Knight,
    ensures
        ({
            let nr = r + (if m.side_to_move == Color::White { 1int } else { -1int });
            let from = Square((r * 8 + f) as u8);
            let to = Square((nr * 8 + f) as u8);
            &&& (nr == 0 || nr == 7) ==> pseudo_legal_moves(m).contains(
                ChessMove { from, to, promotion: Some(k) },
            )
            &&& !(nr == 0 || nr == 7) ==> pseudo_legal_moves(m).contains(
                ChessMove { from, to, promotion: None },
            )
        }),
{
    let c = m.side_to_move;
    let nr = r + (if c == Color::White { 1int } else { -1int });
    let s = r * 8 + f;
    let from = Square(s as u8);
    let to = Square((nr * 8 + f) as u8);
    assert(file_of(from) == f);
    assert(rank_of(from) == r);
    let pushes = super::rules::pawn_pushes(m, from, c);
    let moves = piece_moves(m, s);
    assert(moves == super::rules::pawn_moves(m, from, c));
    let promotes = (c == Color::White && nr == 7) || (c == Color::Black && nr == 0);
    if nr == 0 || nr == 7 {
        if promotes {
            let mv = ChessMove { from, to, promotion: Some(k) };
            let idx: int = if k == PieceKind::Queen {
                0
            } else if k == PieceKind::Rook {
                1
            } else if k == PieceKind::Bishop {
                2
            } else {
                3
            };
            assert(pushes[idx] == mv);
            assert(moves[idx] == mv);
            assert(moves.contains(mv));
            lemma_piece_moves_included(m, s, 64, mv);
        } else {
            // a pawn moving back onto its own first rank cannot stand where it does
            assert(c == Color::White ==> nr >= 1);
            assert(c == Color::Black ==> nr <= 6);
        }
    } else {
        let mv = ChessMove { from, to, promotion: None };
        assert(pushes[0] == mv);
        assert(moves[0] == mv);
        assert(moves.contains(mv));
        lemma_piece_moves_included(m, s, 64, mv);
    }
}

/// Walking from `(x, y)` by `(dx, dy)`, past `n` empty squares, onto a piece of color `c`
/// that is a queen or of kind `primary`, finds an attack when the walk has fuel for it.
proof fn lemma_ray_reaches(
    m: PositionModel,
    x: int,
    y: int,
    dx: int,
    dy: int,
    c: Color,
    primary: PieceKind,
    fuel: nat,
    n: int,
)
    requires
        0 <= n < fuel,
        -1 <= dx <= 1,
        -1 <= dy <= 1,
        forall|j: int|
            0 <= j < n ==> on_board(x + j * dx, y + j * dy) && #[trigger] m.board[sq(
                x + j * dx,
                y + j * dy,
            )] is None,
        on_board(x + n * dx, y + n * dy),
        m.board[sq(x + n * dx, y + n * dy)] matches Some(p) && p.color == c && (p.kind == primary
            || p.kind == PieceKind::Queen),
    ensures
        ray_attacks(m, x, y, dx, dy, c, primary, fuel),
    decreases n,
{
    if n > 0 {
        assert(x + 0 * dx == x && y + 0 * dy == y) by (nonlinear_arith);
        assert(m.board[sq(x + 0 * dx, y + 0 * dy)] is None);
        assert forall|j: int| 0 <= j < n - 1 implies on_board((x + dx) + j * dx, (y + dy) + j * dy)
            && #[trigger] m.board[sq((x + dx) + j * dx, (y + dy) + j * dy)] is None by {
            assert((x + dx) + j * dx == x + (j + 1) * dx && (y + dy) + j * dy == y + (j + 1) * dy)
                by (nonlinear_arith);
            assert(m.board[sq(x + (j + 1) * dx, y + (j + 1) * dy)] is None);
        }
        assert((x + dx) + (n - 1) * dx == x + n * dx && (y + dy) + (n - 1) * dy == y + n * dy)
            by (nonlinear_arith);
        lemma_ray_reaches(m, x + dx, y + dy, dx, dy, c, primary, (fuel - 1) as nat, n - 1);
    } else {
        assert(x + 0 * dx == x && y + 0 * dy == y) by (nonlinear_arith);
    }
}

/// Walking back from the square `k` steps from `(f, r)` towards it, the first `k - 1`
/// squares are the empty ones strictly between, and the next is `(f, r)` itself.
proof fn lemma_squares_between(m: PositionModel, f: int, r: int, a: int, b: int, k: int)
    requires
        0 <= f < 8,
        0 <= r < 8,
        -1 <= a <= 1,
        -1 <= b <= 1,
        k >= 1,
        0 <= f + k * a < 8,
        0 <= r + k * b < 8,
        forall|j: int| 0 < j < k ==> #[trigger] m.board[(r + j * b) * 8 + f + j * a] is None,
    ensures
        forall|j: int|
            0 <= j < k - 1 ==> on_board((f + k * a - a) + j * (-a), (r + k * b - b) + j * (-b))
                && #[trigger] m.board[sq((f + k * a - a) + j * (-a), (r + k * b - b) + j * (-b))]
                is None,
        (f + k * a - a) + (k - 1) * (-a) == f,
        (r + k * b - b) + (k - 1) * (-b) == r,
{
    let x = f + k * a - a;
    let y = r + k * b - b;
    assert forall|j: int| 0 <= j < k - 1 implies on_board(x + j * (-a), y + j * (-b))
        && #[trigger] m.board[sq(x + j * (-a), y + j * (-b))] is None by {
        let jj = k - 1 - j;
        assert(x + j * (-a) == f + jj * a && y + j * (-b) == r + jj * b) by (nonlinear_arith)
            requires
                x == f + k * a - a,
                y == r + k * b - b,
                jj == k - 1 - j,
        ;
        assert(0 < jj < k);
        assert(0 <= f + jj * a < 8 && 0 <= r + jj * b < 8) by (nonlinear_arith)
            requires
                0 <= f < 8,
                0 <= r < 8,
                0 <= f + k * a < 8,
                0 <= r + k * b < 8,
                0 < jj < k,
                -1 <= a <= 1,
                -1 <= b <= 1,
        ;
        assert(m.board[(r + jj * b) * 8 + f + jj * a] is None);
    }
    assert(x + (k - 1) * (-a) == f && y + (k - 1) * (-b) == r) by (nonlinear_arith)
        requires
            x == f + k * a - a,
            y == r + k * b - b,
    ;
}

/// A queen, or a rook along a file or rank, or a bishop along a diagonal, of color `c`
/// on `(f, r)` attacks the square `k` steps away in the direction `(a, b)` when every
/// square strictly between is empty.
pub proof fn lemma_slider_attacks_along_line(
    m: PositionModel,
    f: int,
    r: int,
    c: Color,
    kind: PieceKind,
    a: int,
    b: int,
    k: int,
)
    requires
        m.board.len() == 64,
        0 <= f < 8,
        0 <= r < 8,
        m.board[r * 8 + f] == Some(Piece { color: c, kind }),
        -1 <= a <= 1,
        -1 <= b <= 1,
        a != 0 || b != 0,
        kind == PieceKind::Queen || (kind == PieceKind::Rook && (a == 0 || b == 0)) || (kind
            == PieceKind::Bishop && a != 0 && b != 0),
        k >= 1,
        0 <= f + k * a < 8,
        0 <= r + k * b < 8,
        forall|j: int| 0 < j < k ==> #[trigger] m.board[(r + j * b) * 8 + f + j * a] is None,
    ensures
        square_attacked(m, Square(((r + k * b) * 8 + f + k * a) as u8), c),
{
    let tf = f + k * a;
    let tr = r + k * b;
    let t = Square((tr * 8 + tf) as u8);
    assert(file_of(t) == tf);
    assert(rank_of(t) == tr);
    assert(k <= 7) by (nonlinear_arith)
        requires
            0 <= f < 8,
            0 <= r < 8,
            0 <= f + k * a < 8,
            0 <= r + k * b < 8,
            -1 <= a <= 1,
            -1 <= b <= 1,
            a != 0 || b != 0,
            k >= 1,
    ;
    let i: int = if a == -1 && b == -1 {
        0
    } else if a == -1 && b == 1 {
        1
    } else if a == 1 && b == -1 {
        2
    } else if a == 1 && b == 1 {
        3
    } else if a == -1 && b == 0 {
        4
    } else if a == 1 && b == 0 {
        5
    } else if a == 0 && b == -1 {
        6
    } else {
        7
    };
    assert(direction(i) == (-a, -b));
    let primary = direction_slider(i);
    assert(kind == primary || kind == PieceKind::Queen);
    let x = tf - a;
    let y = tr - b;
    let n = k - 1;
    lemma_squares_between(m, f, r, a, b, k);
    lemma_ray_reaches(m, x, y, -a, -b, c, primary, 8, n);
    assert(ray_attacks(
        m,
        tf + direction(i).0,
        tr + direction(i).1,
        direction(i).0,
        direction(i).1,
        c,
        direction_slider(i),
        8,
    ));
}

/// The standard algebraic notation of a move ends in `#` exactly when the move mates, and
/// in `+` exactly when it checks without mating.
pub proof fn lemma_san_check_suffix(m: PositionModel, mv: ChessMove)
    requires
        mv.valid(),
        m.board[mv.from.0 as int] is Some,
    ensures
        san_text(m, mv) matches Some(t) && t.len() >= 1 && {
            let next = apply_move(m, mv);
            &&& (t.last() == '#') == (game_status(next) is Checkmate)
            &&& (t.last() == '+') == (!(game_status(next) is Checkmate) && in_check(
                next,
                next.side_to_move,
            ))
        },
{
    reveal_strlit("O-O");
    reveal_strlit("O-O-O");
    let next = apply_move(m, mv);
    let t = san_text(m, mv)->Some_0;
    let suffix = super::san::check_suffix(next);
    let body = t.subrange(0, t.len() - suffix.len());
    assert(t == body + suffix);
    assert(body.len() >= 1);
    assert(body.last() != '#' && body.last() != '+');
}

/// A king on its home square of the e-file, not in check, may castle on the king side
/// when its side holds that right, the f- and g-squares are empty and not attacked, and its
/// rook stands on the h-square; on the queen side likewise, with the b-, c- and d-squares
/// empty, the c- and d-squares not attacked, and the rook on the a-square.
pub proof fn lemma_castling_generated(m: PositionModel, queenside: bool)
    requires
        m.board.len() == 64,
        ({
            let c = m.side_to_move;
            let home = if c == Color::White { 0int } else { 7int };
            let opponent = if c == Color::White { Color::Black } else { Color::White };
            let rook = Some(Piece { color: c, kind: PieceKind::Rook });
            &&& m.board[home * 8 + 4] == Some(Piece { color: c, kind: PieceKind::King })
            &&& !in_check(m, c)
            &&& !queenside ==> {
                &&& (if c == Color::White { m.castling_rights.white_kingside } else { m.castling_rights.black_kingside })
                &&& m.board[home * 8 + 5] is None
                &&& m.board[home * 8 + 6] is None
                &&& m.board[home * 8 + 7] == rook
                &&& !square_attacked(m, Square((home * 8 + 5) as u8), opponent)
                &&& !square_attacked(m, Square((home * 8 + 6) as u8), opponent)
            }
            &&& queenside ==> {
                &&& (if c == Color::White { m.castling_rights.white_queenside } else { m.castling_rights.black_queenside })
                &&& m.board[home * 8 + 1] is None
                &&& m.board[home * 8 + 2] is None
                &&& m.board[home * 8 + 3] is None
                &&& m.board[home * 8] == rook
                &&& !square_attacked(m, Square((home * 8 + 3) as u8), opponent)
                &&& !square_attacked(m, Square((home * 8 + 2) as u8), opponent)
            }
        }),
    ensures
        ({
            let home = if m.side_to_move == Color::White { 0int } else { 7int };
            pseudo_legal_moves(m).contains(
                ChessMove {
                    from: Square((home * 8 + 4) as u8),
                    to: Square((home * 8 + if queenside { 2int } else { 6int }) as u8),
                    promotion: None,
                },
            )
        }),
{
    let c = m.side_to_move;
    let home: int = if c == Color::White { 0 } else { 7 };
    let s = home * 8 + 4;
    let from = Square(s as u8);
    let mv = ChessMove {
        from,
        to: Square((home * 8 + if queenside { 2int } else { 6int }) as u8),
        promotion: None,
    };
    assert(c.spec_opposite() == (if c == Color::White { Color::Black } else { Color::White }));
    let steps = super::rules::king_steps(m, from, 8);
    let castles = super::rules::castling_moves(m, from);
    assert(from == super::rules::square_at(4, home));
    let moves = piece_moves(m, s);
    assert(moves == king_moves(m, from));
    assert(moves == steps + castles);
    if queenside {
        let q = if super::rules::kingside_castle_ok(m, c, home, if c == Color::White {
            m.castling_rights.white_kingside
        } else {
            m.castling_rights.black_kingside
        }) {
            1int
        } else {
            0int
        };
        assert(castles[q] == mv);
        assert(moves[steps.len() + q] == mv);
    } else {
        assert(castles[0] == mv);
        assert(moves[steps.len() as int] == mv);
    }
    assert(moves.contains(mv));
    lemma_piece_moves_included(m, s, 64, mv);
}

/// A pawn of the side to move may take diagonally forward, off its last rank: onto a
/// square holding a piece of the other side, or onto the empty en-passant target.
pub proof fn lemma_pawn_capture_moves(m: PositionModel, f: int, r: int, df: int)
    requires
        m.board.len() == 64,
        0 <= f < 8,
        0 <= r < 8,
        df == -1 || df == 1,
        0 <= f + df < 8,
        1 <= r + (if m.side_to_move == Color::White { 1int } else { -1int }) < 7,
        m.board[r * 8 + f] == Some(Piece { color: m.side_to_move, kind: PieceKind::Pawn }),
        ({
            let t = (r + (if m.side_to_move == Color::White { 1int } else { -1int })) * 8 + f + df;
            (m.board[t] matches Some(q) && q.color != m.side_to_move) || (m.board[t] is None
                && m.en_passant_target == Some(Square(t as u8)))
        }),
    ensures
        pseudo_legal_moves(m).contains(
            ChessMove {
                from: Square((r * 8 + f) as u8),
                to: Square(((r + (if m.side_to_move == Color::White { 1int } else { -1int })) * 8
                    + f + df) as u8),
                promotion: None,
            },
        ),
{
    let c = m.side_to_move;
    let nr = r + (if c == Color::White { 1int } else { -1int });
    let s = r * 8 + f;
    let from = Square(s as u8);
    let mv = ChessMove { from, to: Square((nr * 8 + f + df) as u8), promotion: None };
    assert(file_of(from) == f);
    assert(rank_of(from) == r);
    let pushes = super::rules::pawn_pushes(m, from, c);
    let left = super::rules::pawn_capture(m, from, c, -1);
    let right = super::rules::pawn_capture(m, from, c, 1);
    let moves = piece_moves(m, s);
    assert(moves == pushes + left + right);
    if df == -1 {
        assert(left[0] == mv);
        assert(moves[pushes.len() as int] == mv);
    } else {
        assert(right[0] == mv);
        assert(moves[(pushes.len() + left.len()) as int] == mv);
    }
    assert(moves.contains(mv));
    lemma_piece_moves_included(m, s, 64, mv);
}

/// A walk meets no attacker of color `c` when no queen, bishop or rook of that color is
/// on the board.
proof fn lemma_ray_without_sliders(
    m: PositionModel,
    x: int,
    y: int,
    dx: int,
    dy: int,
    c: Color,
    primary: PieceKind,
    fuel: nat,
)
    requires
        m.board.len() == 64,
        primary == PieceKind::Bishop || primary == PieceKind::Rook,
        forall|s: int|
            0 <= s < 64 ==> !(#[trigger] m.board[s] matches Some(p) && p.color == c && (p.kind
                == PieceKind::Queen || p.kind == PieceKind::Bishop || p.kind == PieceKind::Rook)),
    ensures
        !ray_attacks(m, x, y, dx, dy, c, primary, fuel),
    decreases fuel,
{
    if fuel > 0 && on_board(x, y) {
        assert(0 <= sq(x, y) < 64);
        lemma_ray_without_sliders(m, x + dx, y + dy, dx, dy, c, primary, (fuel - 1) as nat);
    }
}

/// When the only piece of color `c` is a pawn on `(f, r)`, the squares that side attacks
/// are exactly the two diagonally in front of the pawn (one rank up for White, one down
/// for Black): none beside or behind it.
pub proof fn lemma_lone_pawn_attacks(m: PositionModel, f: int, r: int, c: Color, t: Square)
    requires
        m.board.len() == 64,
        0 <= f < 8,
        0 <= r < 8,
        t.valid(),
        m.board[r * 8 + f] == Some(Piece { color: c, kind: PieceKind::Pawn }),
        forall|s: int|
            0 <= s < 64 && s != r * 8 + f ==> !(#[trigger] m.board[s] matches Some(p) && p.color
                == c),
    ensures
        square_attacked(m, t, c) <==> (rank_of(t) == r + (if c == Color::White {
            1int
        } else {
            -1int
        }) && (file_of(t) == f - 1 || file_of(t) == f + 1)),
{
    let tf = file_of(t);
    let tr = rank_of(t);
    assert(forall|s: int|
        0 <= s < 64 ==> !(#[trigger] m.board[s] matches Some(p) && p.color == c && (p.kind
            == PieceKind::Queen || p.kind == PieceKind::Bishop || p.kind == PieceKind::Rook)));
    assert forall|i: int| 0 <= i < 8 implies !#[trigger] ray_attacks(
        m,
        tf + direction(i).0,
        tr + direction(i).1,
        direction(i).0,
        direction(i).1,
        c,
        direction_slider(i),
        8,
    ) by {
        lemma_ray_without_sliders(
            m,
            tf + direction(i).0,
            tr + direction(i).1,
            direction(i).0,
            direction(i).1,
            c,
            direction_slider(i),
            8,
        );
    }
    assert forall|i: int| 0 <= i < 8 implies !#[trigger] has_piece(
        m,
        tf + knight_delta(i).0,
        tr + knight_delta(i).1,
        Piece { color: c, kind: PieceKind::Knight },
    ) by {
        let ff = tf + knight_delta(i).0;
        let rr = tr + knight_delta(i).1;
        if on_board(ff, rr) {
            assert(0 <= sq(ff, rr) < 64);
        }
    }
    assert forall|i: int| 0 <= i < 8 implies !#[trigger] has_piece(
        m,
        tf + king_delta(i).0,
        tr + king_delta(i).1,
        Piece { color: c, kind: PieceKind::King },
    ) by {
        let ff = tf + king_delta(i).0;
        let rr = tr + king_delta(i).1;
        if on_board(ff, rr) {
            assert(0 <= sq(ff, rr) < 64);
        }
    }
    let dr = if c == Color::White { -1int } else { 1int };
    let pawn = Piece { color: c, kind: PieceKind::Pawn };
    if on_board(tf - 1, tr + dr) {
        assert(0 <= sq(tf - 1, tr + dr) < 64);
        if m.board[sq(tf - 1, tr + dr)] == Some(pawn) {
            assert(sq(tf - 1, tr + dr) == r * 8 + f);
            assert(tr + dr == r && tf - 1 == f);
        }
    }
    if on_board(tf + 1, tr + dr) {
        assert(0 <= sq(tf + 1, tr + dr) < 64);
        if m.board[sq(tf + 1, tr + dr)] == Some(pawn) {
            assert(sq(tf + 1, tr + dr) == r * 8 + f);
            assert(tr + dr == r && tf + 1 == f);
        }
    }
    if tr == r - dr && (tf == f - 1 || tf == f + 1) {
        if tf == f - 1 {
            assert(has_piece(m, tf + 1, tr + dr, pawn));
        } else {
            assert(has_piece(m, tf - 1, tr + dr, pawn));
        }
    }
}

/// A move of a piece other than a pawn (and not castling) is written from the piece's
/// letter: `N`, `B`, `R`, `Q` or `K`; a pawn move that takes nothing is written from its
/// target square.
pub proof fn lemma_san_leading_letter(m: PositionModel, mv: ChessMove)
    requires
        mv.valid(),
        m.board[mv.from.0 as int] matches Some(p) && !(p.kind == PieceKind::King && rank_of(mv.from)
            == rank_of(mv.to) && (file_of(mv.from) - file_of(mv.to) == 2 || file_of(mv.to) - file_of(
            mv.from) == 2)),
    ensures
        san_text(m, mv) matches Some(t) && t.len() >= 2 && {
            let p = m.board[mv.from.0 as int]->Some_0;
            &&& p.kind == PieceKind::Knight ==> t[0] == 'N'
            &&& p.kind == PieceKind::Bishop ==> t[0] == 'B'
            &&& p.kind == PieceKind::Rook ==> t[0] == 'R'
            &&& p.kind == PieceKind::Queen ==> t[0] == 'Q'
            &&& p.kind == PieceKind::King ==> t[0] == 'K'
            &&& (p.kind == PieceKind::Pawn && m.board[mv.to.0 as int] is None && !(
            m.en_passant_target == Some(mv.to) && file_of(mv.from) != file_of(mv.to))) ==> t[0]
                == ((file_of(mv.to) + 97) as u32) as char && t[1] == ((rank_of(mv.to) + 49) as u32) as char
        },
{
}

} // verus!
