//! What every generated move satisfies: it starts on a piece of the side to move, never
//! lands on one, and, when legal, leaves that side's king out of check.

use vstd::prelude::*;
use super::{ChessMove, Color, PieceKind, PositionModel, Square};
use super::rules::{
    apply_move, castling_moves, direction, file_of, game_status, game_status_with_history,
    home_rank, in_check, is_empty_at, is_promotion_rank, king_delta, king_steps, kingside_castle_ok,
    knight_delta, knight_moves, legal_moves, occurrences, on_board, pawn_capture, pawn_direction,
    pawn_moves, pawn_pushes, pawn_start_rank, piece_moves, plain_move, promotions,
    pseudo_legal_moves, pseudo_moves_upto, queenside_castle_ok, rank_of, ray_moves, slider_moves, sq,
    square_at, step_move,
};

verus! {

/// Square `i` holds a piece of the side to move.
pub open spec fn own_piece(m: PositionModel, i: int) -> bool {
    m.board[i] matches Some(p) && p.color == m.side_to_move
}

/// Every move of `s` starts on `from` and does not land on a piece of the side to move.
pub open spec fn moves_from(m: PositionModel, from: Square, s: Seq<ChessMove>) -> bool {
    forall|j: int|
        0 <= j < s.len() ==> (#[trigger] s[j]).from == from && !own_piece(m, s[j].to.0 as int)
}

proof fn lemma_concat_from(m: PositionModel, from: Square, a: Seq<ChessMove>, b: Seq<ChessMove>)
    requires
        moves_from(m, from, a),
        moves_from(m, from, b),
    ensures
        moves_from(m, from, a + b),
{
    assert forall|j: int| 0 <= j < (a + b).len() implies (#[trigger] (a + b)[j]).from == from
        && !own_piece(m, (a + b)[j].to.0 as int) by {
        if j < a.len() {
            assert((a + b)[j] == a[j]);
        } else {
            assert((a + b)[j] == b[j - a.len()]);
        }
    }
}

proof fn lemma_plain_move(m: PositionModel, from: Square, f: int, r: int)
    requires
        on_board(f, r),
        !own_piece(m, sq(f, r)),
    ensures
        moves_from(m, from, seq![plain_move(from, f, r)]),
{
    assert(plain_move(from, f, r).to.0 as int == sq(f, r));
}

proof fn lemma_step_from(m: PositionModel, from: Square, f: int, r: int)
    ensures
        moves_from(m, from, step_move(m, from, f, r)),
{
    if on_board(f, r) {
        match m.board[sq(f, r)] {
            Some(p) => if p.color != m.side_to_move {
                lemma_plain_move(m, from, f, r);
            },
            None => lemma_plain_move(m, from, f, r),
        }
    }
}

proof fn lemma_ray_from(m: PositionModel, from: Square, f: int, r: int, df: int, dr: int, fuel: nat)
    ensures
        moves_from(m, from, ray_moves(m, from, f, r, df, dr, fuel)),
    decreases fuel,
{
    if fuel > 0 && on_board(f, r) {
        lemma_ray_from(m, from, f + df, r + dr, df, dr, (fuel - 1) as nat);
        match m.board[sq(f, r)] {
            Some(p) => if p.color != m.side_to_move {
                lemma_plain_move(m, from, f, r);
            },
            None => {
                lemma_plain_move(m, from, f, r);
                lemma_concat_from(
                    m,
                    from,
                    seq![plain_move(from, f, r)],
                    ray_moves(m, from, f + df, r + dr, df, dr, (fuel - 1) as nat),
                );
            },
        }
    }
}

proof fn lemma_slider_from(m: PositionModel, from: Square, lo: int, hi: int)
    ensures
        moves_from(m, from, slider_moves(m, from, lo, hi)),
    decreases hi - lo,
{
    if hi > lo {
        lemma_slider_from(m, from, lo, hi - 1);
        let (df, dr) = direction(hi - 1);
        lemma_ray_from(m, from, file_of(from) + df, rank_of(from) + dr, df, dr, 7);
        lemma_concat_from(
            m,
            from,
            slider_moves(m, from, lo, hi - 1),
            ray_moves(m, from, file_of(from) + df, rank_of(from) + dr, df, dr, 7),
        );
    }
}

proof fn lemma_knight_from(m: PositionModel, from: Square, n: int)
    ensures
        moves_from(m, from, knight_moves(m, from, n)),
    decreases n,
{
    if n > 0 {
        lemma_knight_from(m, from, n - 1);
        let f = file_of(from) + knight_delta(n - 1).0;
        let r = rank_of(from) + knight_delta(n - 1).1;
        lemma_step_from(m, from, f, r);
        lemma_concat_from(m, from, knight_moves(m, from, n - 1), step_move(m, from, f, r));
    }
}

proof fn lemma_king_steps_from(m: PositionModel, from: Square, n: int)
    ensures
        moves_from(m, from, king_steps(m, from, n)),
    decreases n,
{
    if n > 0 {
        lemma_king_steps_from(m, from, n - 1);
        let f = file_of(from) + king_delta(n - 1).0;
        let r = rank_of(from) + king_delta(n - 1).1;
        lemma_step_from(m, from, f, r);
        lemma_concat_from(m, from, king_steps(m, from, n - 1), step_move(m, from, f, r));
    }
}

proof fn lemma_castling_from(m: PositionModel, from: Square)
    ensures
        moves_from(m, from, castling_moves(m, from)),
{
    let c = m.side_to_move;
    let rank = home_rank(c);
    let (ks, qs) = if c == Color::White {
        (m.castling_rights.white_kingside, m.castling_rights.white_queenside)
    } else {
        (m.castling_rights.black_kingside, m.castling_rights.black_queenside)
    };
    if !(from != square_at(4, rank) || in_check(m, c)) {
        let a: Seq<ChessMove> = if kingside_castle_ok(m, c, rank, ks) {
            seq![plain_move(from, 6, rank)]
        } else {
            seq![]
        };
        let b: Seq<ChessMove> = if queenside_castle_ok(m, c, rank, qs) {
            seq![plain_move(from, 2, rank)]
        } else {
            seq![]
        };
        if kingside_castle_ok(m, c, rank, ks) {
            lemma_plain_move(m, from, 6, rank);
        }
        if queenside_castle_ok(m, c, rank, qs) {
            lemma_plain_move(m, from, 2, rank);
        }
        lemma_concat_from(m, from, a, b);
    }
}

proof fn lemma_promotions_from(m: PositionModel, from: Square, f: int, r: int)
    requires
        on_board(f, r),
        !own_piece(m, sq(f, r)),
    ensures
        moves_from(m, from, promotions(from, square_at(f, r))),
{
    assert(square_at(f, r).0 as int == sq(f, r));
}

proof fn lemma_pawn_from(m: PositionModel, from: Square)
    requires
        from.valid(),
    ensures
        moves_from(m, from, pawn_moves(m, from, m.side_to_move)),
{
    let c = m.side_to_move;
    let f = file_of(from);
    let r = rank_of(from);
    let dir = pawn_direction(c);
    let nr = r + dir;
    if 0 <= nr < 8 && is_empty_at(m, f, nr) {
        if is_promotion_rank(c, nr) {
            lemma_promotions_from(m, from, f, nr);
        } else {
            lemma_plain_move(m, from, f, nr);
            if r == pawn_start_rank(c) && 0 <= nr + dir < 8 && is_empty_at(m, f, nr + dir) {
                lemma_plain_move(m, from, f, nr + dir);
                lemma_concat_from(
                    m,
                    from,
                    seq![plain_move(from, f, nr)],
                    seq![plain_move(from, f, nr + dir)],
                );
            } else {
                assert(seq![plain_move(from, f, nr)] + seq![] =~= seq![plain_move(from, f, nr)]);
            }
        }
    }
    assert forall|df: int| df == -1 || df == 1 implies moves_from(m, from, #[trigger] pawn_capture(m, from, c, df)) by {
        let ff = file_of(from) + df;
        if on_board(ff, nr) {
            match m.board[sq(ff, nr)] {
                Some(p) => if p.color != c {
                    if is_promotion_rank(c, nr) {
                        lemma_promotions_from(m, from, ff, nr);
                    } else {
                        lemma_plain_move(m, from, ff, nr);
                    }
                },
                None => if m.en_passant_target == Some(square_at(ff, nr)) {
                    lemma_plain_move(m, from, ff, nr);
                },
            }
        }
    }
    lemma_concat_from(m, from, pawn_pushes(m, from, c), pawn_capture(m, from, c, -1));
    lemma_concat_from(
        m,
        from,
        pawn_pushes(m, from, c) + pawn_capture(m, from, c, -1),
        pawn_capture(m, from, c, 1),
    );
}

proof fn lemma_piece_moves_from(m: PositionModel, s: int)
    requires
        0 <= s < 64,
    ensures
        moves_from(m, Square(s as u8), piece_moves(m, s)),
        piece_moves(m, s).len() > 0 ==> own_piece(m, s),
{
    let from = Square(s as u8);
    match m.board[s] {
        None => {},
        Some(p) => {
            if p.color == m.side_to_move {
                match p.kind {
                    PieceKind::Pawn => lemma_pawn_from(m, from),
                    PieceKind::Knight => lemma_knight_from(m, from, 8),
                    PieceKind::Bishop => lemma_slider_from(m, from, 0, 4),
                    PieceKind::Rook => lemma_slider_from(m, from, 4, 8),
                    PieceKind::Queen => lemma_slider_from(m, from, 0, 8),
                    PieceKind::King => {
                        lemma_king_steps_from(m, from, 8);
                        lemma_castling_from(m, from);
                        lemma_concat_from(m, from, king_steps(m, from, 8), castling_moves(m, from));
                    },
                }
            }
        },
    }
}

proof fn lemma_pseudo_upto_own(m: PositionModel, n: int)
    requires
        n <= 64,
    ensures
        forall|j: int|
            0 <= j < pseudo_moves_upto(m, n).len() ==> own_piece(
                m,
                (#[trigger] pseudo_moves_upto(m, n)[j]).from.0 as int,
            ) && !own_piece(m, pseudo_moves_upto(m, n)[j].to.0 as int),
    decreases n,
{
    if n > 0 {
        lemma_pseudo_upto_own(m, n - 1);
        lemma_piece_moves_from(m, n - 1);
        let a = pseudo_moves_upto(m, n - 1);
        let b = piece_moves(m, n - 1);
        assert forall|j: int| 0 <= j < (a + b).len() implies own_piece(m, (#[trigger] (a + b)[j]).from.0 as int)
            && !own_piece(m, (a + b)[j].to.0 as int) by {
            if j < a.len() {
                assert((a + b)[j] == a[j]);
            } else {
                assert((a + b)[j] == b[j - a.len()]);
                assert(b[j - a.len()].from == Square((n - 1) as u8));
            }
        }
    }
}

/// Every pseudo-legal move starts on a piece of the side to move and does not land on one.
pub proof fn lemma_pseudo_moves_own_pieces(m: PositionModel)
    ensures
        forall|j: int|
            0 <= j < pseudo_legal_moves(m).len() ==> own_piece(
                m,
                (#[trigger] pseudo_legal_moves(m)[j]).from.0 as int,
            ) && !own_piece(m, pseudo_legal_moves(m)[j].to.0 as int),
{
    lemma_pseudo_upto_own(m, 64);
}

/// The legal moves are the pseudo-legal moves after which the mover's king is not in check:
/// each legal move is pseudo-legal and leaves that king safe, and each pseudo-legal move that
/// leaves it safe is legal.
pub proof fn lemma_legal_moves_safe(m: PositionModel, mv: ChessMove)
    ensures
        legal_moves(m).contains(mv) <==> (pseudo_legal_moves(m).contains(mv) && !in_check(
            apply_move(m, mv),
            m.side_to_move,
        )),
{
    let keep = |x: ChessMove| !in_check(apply_move(m, x), m.side_to_move);
    if legal_moves(m).contains(mv) {
        pseudo_legal_moves(m).lemma_filter_contains_rev(keep, mv);
    }
    if pseudo_legal_moves(m).contains(mv) && keep(mv) {
        let i = choose|i: int| 0 <= i < pseudo_legal_moves(m).len() && pseudo_legal_moves(m)[i] == mv;
        pseudo_legal_moves(m).lemma_filter_contains(keep, i);
    }
}

/// Making a move hands the turn to the other side.
pub proof fn lemma_apply_move_switches_side(m: PositionModel, mv: ChessMove)
    ensures
        apply_move(m, mv).side_to_move == m.side_to_move.spec_opposite(),
{
}

/// A finished game keeps its status whatever the history; an unfinished one is drawn by
/// repetition exactly when its key occurs three times or more.
pub proof fn lemma_status_with_history(m: PositionModel, key: u64, history: Seq<u64>)
    ensures
        game_status(m) != super::GameStatus::Ongoing ==> game_status_with_history(m, key, history)
            == game_status(m),
        game_status(m) == super::GameStatus::Ongoing ==> (game_status_with_history(m, key, history)
            == (if occurrences(history, key) >= 3 {
            super::GameStatus::DrawByRepetition
        } else {
            super::GameStatus::Ongoing
        })),
{
}

/// A position with no legal move is decided: checkmate when the side to move is in check,
/// stalemate otherwise, unless the fifty-move rule has already drawn it.
pub proof fn lemma_no_moves_decides(m: PositionModel)
    requires
        legal_moves(m).len() == 0,
        m.halfmove_clock < 100,
    ensures
        in_check(m, m.side_to_move) ==> game_status(m) == (super::GameStatus::Checkmate {
            loser: m.side_to_move,
        }),
        !in_check(m, m.side_to_move) ==> game_status(m) == (super::GameStatus::Stalemate {
            side_to_move: m.side_to_move,
        }),
{
}

} // verus!
