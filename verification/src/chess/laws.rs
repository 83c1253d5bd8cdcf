//! What holds of the rules as a whole.

use vstd::prelude::*;
use vstd::string::StringSliceAdditionalSpecFns;
use super::{CastlingRights, ChessMove, Color, Piece, PieceKind, PositionModel, Square};
use super::movegen::{all_valid, lemma_pseudo_moves_valid};
use super::rules::{apply_move, in_check, legal_moves, pseudo_legal_moves};

verus! {

/// Every legal move names two squares of the board.
pub proof fn lemma_legal_moves_valid(m: PositionModel)
    ensures
        all_valid(legal_moves(m)),
{
    lemma_pseudo_moves_valid(m, 64);
    let keep = |mv: ChessMove| !in_check(apply_move(m, mv), m.side_to_move);
    let l = pseudo_legal_moves(m).filter(keep);
    assert forall|j: int| 0 <= j < l.len() implies (#[trigger] l[j]).valid() by {
        assert(l.contains(l[j]));
        pseudo_legal_moves(m).lemma_filter_contains_rev(keep, l[j]);
    }
}

/// Taking the opposite colour twice gives the colour back.
pub proof fn lemma_opposite_involutive(c: Color)
    ensures
        c.spec_opposite().spec_opposite() == c,
        c.spec_opposite() != c,
{
}

/// A colour's FEN letter reads back as that colour.
pub proof fn lemma_color_symbol_round_trip(c: Color)
    ensures
        Color::spec_from_fen_symbol(c.spec_fen_symbol()) == Some(c),
{
}

/// A piece's FEN letter reads back as that piece.
pub proof fn lemma_piece_symbol_round_trip(p: Piece)
    ensures
        Piece::spec_from_fen_symbol(p.spec_fen_symbol()) == Some(p),
{
}

/// A square of the board is the square of its own file and rank.
pub proof fn lemma_square_file_rank_round_trip(s: Square)
    requires
        s.valid(),
    ensures
        Square::spec_from_file_rank(s.spec_file(), s.spec_rank()) == Some(s),
        s.spec_file() < 8,
        s.spec_rank() < 8,
{
}

/// The file and rank of the square made from them are the ones given.
pub proof fn lemma_file_rank_square_round_trip(file: u8, rank: u8)
    requires
        file < 8,
        rank < 8,
    ensures
        Square::spec_from_file_rank(file, rank) matches Some(s) && s.spec_file() == file
            && s.spec_rank() == rank,
{
}

/// Text holding a square's name reads back as that square.
pub proof fn lemma_square_name_round_trip(s: Square, text: &str)
    requires
        s.valid(),
        text@ == s.spec_name(),
    ensures
        Square::spec_from_algebraic_bytes(text.spec_bytes()) == Some(s),
{
    broadcast use vstd::string::is_ascii_spec_bytes;
    assert(vstd::string::is_ascii(text));
    let b = text.spec_bytes();
    assert(b.len() == 2);
    assert(b[0] == s.spec_file() + 97);
    assert(b[1] == s.spec_rank() + 49);
}

/// Text holding a move's UCI notation reads back as that move, for moves between squares of
/// the board that promote to nothing or to a knight, bishop, rook or queen.
pub proof fn lemma_uci_round_trip(m: ChessMove, text: &str)
    requires
        m.valid(),
        m.promotion matches Some(k) ==> k != PieceKind::Pawn && k != PieceKind::King,
        text@ == m.spec_uci(),
    ensures
        ChessMove::spec_from_uci_bytes(text.spec_bytes()) == Some(m),
{
    broadcast use vstd::string::is_ascii_spec_bytes;
    assert(vstd::string::is_ascii(text)) by {
        assert forall|i: int| 0 <= i < text@.len() implies '\0' <= #[trigger] text@[i] <= '\u{7f}' by {
            if i >= 4 {
                assert(text@[i] == promotion_letter_of(m));
            }
        }
    }
    let b = text.spec_bytes();
    assert(b.subrange(0, 2) =~= seq![(m.from.spec_file() + 97) as u8, (m.from.spec_rank() + 49) as u8]);
    assert(b.subrange(2, 4) =~= seq![(m.to.spec_file() + 97) as u8, (m.to.spec_rank() + 49) as u8]);
}

/// The letter a move's promotion is written with.
pub open spec fn promotion_letter_of(m: ChessMove) -> char {
    match m.promotion {
        Some(k) => super::promotion_letter(k),
        None => ' ',
    }
}

/// Castling rights written in FEN read back as the same rights.
pub proof fn lemma_castling_round_trip(c: CastlingRights)
    ensures
        CastlingRights::spec_from_fen(c.spec_to_fen()) == Some(c),
{
    reveal_with_fuel(CastlingRights::read_from, 5);
}

/// One of the letters `K`, `Q`, `k`, `q` of the castling field.
pub open spec fn castling_letter(c: char) -> bool {
    c == 'K' || c == 'Q' || c == 'k' || c == 'q'
}

/// The letter `c` occurs in `field` from index `i` on.
pub open spec fn occurs_from(field: Seq<char>, i: int, c: char) -> bool {
    exists|j: int| i <= j < field.len() && field[j] == c
}

/// Reading the castling letters from `i` on fails exactly at a character that is not one of
/// them, and otherwise adds each right whose letter occurs.
proof fn lemma_read_castling_from(field: Seq<char>, i: int, r: CastlingRights)
    requires
        0 <= i <= field.len(),
    ensures
        CastlingRights::read_from(field, i, r) is None <==> exists|j: int|
            i <= j < field.len() && !castling_letter(#[trigger] field[j]),
        CastlingRights::read_from(field, i, r) matches Some(o) ==> {
            &&& o.white_kingside == (r.white_kingside || occurs_from(field, i, 'K'))
            &&& o.white_queenside == (r.white_queenside || occurs_from(field, i, 'Q'))
            &&& o.black_kingside == (r.black_kingside || occurs_from(field, i, 'k'))
            &&& o.black_queenside == (r.black_queenside || occurs_from(field, i, 'q'))
        },
    decreases field.len() - i,
{
    if i < field.len() {
        let c = field[i];
        let r2 = if c == 'K' {
            CastlingRights { white_kingside: true, ..r }
        } else if c == 'Q' {
            CastlingRights { white_queenside: true, ..r }
        } else if c == 'k' {
            CastlingRights { black_kingside: true, ..r }
        } else {
            CastlingRights { black_queenside: true, ..r }
        };
        lemma_read_castling_from(field, i + 1, r2);
        assert forall|ch: char| occurs_from(field, i, ch) == (field[i] == ch || occurs_from(
            field,
            i + 1,
            ch,
        )) by {
            if occurs_from(field, i, ch) {
                let j = choose|j: int| i <= j < field.len() && field[j] == ch;
                if j > i {
                    assert(occurs_from(field, i + 1, ch));
                }
            }
            if occurs_from(field, i + 1, ch) {
                let j = choose|j: int| i + 1 <= j < field.len() && field[j] == ch;
                assert(occurs_from(field, i, ch));
            }
            if field[i] == ch {
                assert(occurs_from(field, i, ch));
            }
        }
        if !castling_letter(c) {
            assert(!castling_letter(field[i]));
        } else {
            assert((exists|j: int| i <= j < field.len() && !castling_letter(#[trigger] field[j]))
                == (exists|j: int| i + 1 <= j < field.len() && !castling_letter(#[trigger] field[j])))
                by {
                if exists|j: int| i <= j < field.len() && !castling_letter(#[trigger] field[j]) {
                    let j = choose|j: int| i <= j < field.len() && !castling_letter(#[trigger] field[j]);
                    assert(j != i);
                }
            }
        }
    }
}

/// The castling field of FEN is refused exactly when it is not `-` and holds a character
/// other than `K`, `Q`, `k` and `q`; when it is read, each right is held exactly when its
/// letter occurs in the field (so `-` and the empty field give no rights).
pub proof fn lemma_castling_field(field: Seq<char>)
    ensures
        CastlingRights::spec_from_fen(field) is None <==> (field != seq!['-'] && exists|j: int|
            0 <= j < field.len() && !castling_letter(#[trigger] field[j])),
        CastlingRights::spec_from_fen(field) matches Some(r) ==> {
            &&& r.white_kingside == field.contains('K')
            &&& r.white_queenside == field.contains('Q')
            &&& r.black_kingside == field.contains('k')
            &&& r.black_queenside == field.contains('q')
        },
{
    lemma_read_castling_from(field, 0, CastlingRights::none());
    assert forall|ch: char| occurs_from(field, 0, ch) == field.contains(ch) by {
        if field.contains(ch) {
            let j = choose|j: int| 0 <= j < field.len() && field[j] == ch;
            assert(occurs_from(field, 0, ch));
        }
    }
    if field == seq!['-'] {
        assert(!field.contains('K') && !field.contains('Q') && !field.contains('k')
            && !field.contains('q'));
    }
}

} // verus!
