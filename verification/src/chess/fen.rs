//! Forsyth-Edwards Notation: reading and writing positions.

use vstd::prelude::*;
use super::{CastlingRights, Color, Piece, Position, PositionModel, Square, file_letter, rank_digit};
use super::rules::{sq, well_formed};
use crate::text::{
    chars_of, decimal, digit_char, digit_to_char, digit_value, is_digit, is_digit_char,
    parse_u16_chars, parse_u16_spec, push_decimal, split_chars, split_on, split_whitespace_chars,
    string_of, ws_tokens, append_chars,
};

verus! {

/// Why a FEN text was refused.
#[derive(Debug, Clone, Copy, PartialEq, Eq, Structural)]
pub enum FenError {
    MissingBoard,
    MissingSide,
    BadHalfmoveClock,
    BadFullmoveNumber,
    EmptySide,
    BadSide,
    BadCastling,
    BadEnPassant,
    BadLayout,
    FileOverflow,
    BadPiece,
    ShortRank,
}

impl FenError {
    /// The message that `Position::from_fen` returns for the error.
    pub open spec fn text(self) -> Seq<char> {
        match self {
            FenError::MissingBoard => "missing board field in FEN"@,
            FenError::MissingSide => "missing side-to-move field in FEN"@,
            FenError::BadHalfmoveClock => "invalid halfmove clock in FEN"@,
            FenError::BadFullmoveNumber => "invalid fullmove number in FEN"@,
            FenError::EmptySide => "empty side-to-move field in FEN"@,
            FenError::BadSide => "invalid side-to-move field in FEN"@,
            FenError::BadCastling => "invalid castling rights in FEN"@,
            FenError::BadEnPassant => "invalid en-passant square in FEN"@,
            FenError::BadLayout => "invalid board layout in FEN"@,
            FenError::FileOverflow => "file overflow in FEN rank"@,
            FenError::BadPiece => "invalid piece in FEN"@,
            FenError::ShortRank => "rank does not fill eight files in FEN"@,
        }
    }

    pub fn message(self) -> (s: String)
        ensures
            s@ == self.text(),
    {
        let text = match self {
            FenError::MissingBoard => "missing board field in FEN",
            FenError::MissingSide => "missing side-to-move field in FEN",
            FenError::BadHalfmoveClock => "invalid halfmove clock in FEN",
            FenError::BadFullmoveNumber => "invalid fullmove number in FEN",
            FenError::EmptySide => "empty side-to-move field in FEN",
            FenError::BadSide => "invalid side-to-move field in FEN",
            FenError::BadCastling => "invalid castling rights in FEN",
            FenError::BadEnPassant => "invalid en-passant square in FEN",
            FenError::BadLayout => "invalid board layout in FEN",
            FenError::FileOverflow => "file overflow in FEN rank",
            FenError::BadPiece => "invalid piece in FEN",
            FenError::ShortRank => "rank does not fill eight files in FEN",
        };
        crate::text::literal(text)
    }
}

/// The square that two characters name, such as `e4` (the file letter in
/// either case).
pub open spec fn square_from_chars(cs: Seq<char>) -> Option<Square> {
    if cs.len() != 2 {
        None
    } else {
        let file = super::spec_ascii_lower(cs[0]);
        let rank = cs[1];
        if 'a' <= file && file <= 'h' && '1' <= rank && rank <= '8' {
            Some(Square((((rank as int) - ('1' as int)) * 8 + ((file as int) - ('a' as int))) as u8))
        } else {
            None
        }
    }
}

/// Reading the pieces of one rank field, `cs[i..]`, into rank `r` of the
/// board, `file` being the file reached so far (digits skip empty squares;
/// the count saturates at 255 as a `u8` does).
pub open spec fn read_rank(cs: Seq<char>, r: int, i: int, file: int, board: Seq<Option<Piece>>) -> Result<
    Seq<Option<Piece>>,
    FenError,
>
    decreases cs.len() - i,
{
    if i >= cs.len() {
        if file == 8 {
            Ok(board)
        } else {
            Err(FenError::ShortRank)
        }
    } else if is_digit(cs[i]) {
        let next = file + digit_value(cs[i]);
        read_rank(cs, r, i + 1, if next > 255 { 255 } else { next }, board)
    } else if file >= 8 {
        Err(FenError::FileOverflow)
    } else {
        match Piece::spec_from_fen_symbol(cs[i]) {
            None => Err(FenError::BadPiece),
            Some(p) => read_rank(cs, r, i + 1, file + 1, board.update(sq(file, r), Some(p))),
        }
    }
}

/// Reading the rank fields `ranks[k..]`, from the eighth rank down.
pub open spec fn read_ranks(ranks: Seq<Seq<char>>, k: int, board: Seq<Option<Piece>>) -> Result<
    Seq<Option<Piece>>,
    FenError,
>
    decreases 8 - k,
{
    if k >= 8 {
        Ok(board)
    } else {
        match read_rank(ranks[k], 7 - k, 0, 0, board) {
            Err(e) => Err(e),
            Ok(b) => read_ranks(ranks, k + 1, b),
        }
    }
}

/// The position that a FEN text describes, or the first thing wrong with it.
/// Fields are separated by whitespace; the board and the side to move are
/// required, the castling field and the en-passant field default to `-`,
/// the clocks to 0 and 1; further fields are ignored.
pub open spec fn parse_fen(s: Seq<char>) -> Result<PositionModel, FenError> {
    let t = ws_tokens(s);
    if t.len() < 1 {
        Err(FenError::MissingBoard)
    } else if t.len() < 2 {
        Err(FenError::MissingSide)
    } else {
        let castling = if t.len() > 2 {
            t[2]
        } else {
            seq!['-']
        };
        let ep = if t.len() > 3 {
            t[3]
        } else {
            seq!['-']
        };
        let half = if t.len() > 4 {
            parse_u16_spec(t[4])
        } else {
            Some(0u16)
        };
        let full = if t.len() > 5 {
            parse_u16_spec(t[5])
        } else {
            Some(1u16)
        };
        if half is None {
            Err(FenError::BadHalfmoveClock)
        } else if full is None {
            Err(FenError::BadFullmoveNumber)
        } else if t[1].len() == 0 {
            Err(FenError::EmptySide)
        } else {
            match Color::spec_from_fen_symbol(t[1][0]) {
                None => Err(FenError::BadSide),
                Some(side) => match CastlingRights::spec_from_fen(castling) {
                    None => Err(FenError::BadCastling),
                    Some(rights) => {
                        if ep != seq!['-'] && square_from_chars(ep) is None {
                            Err(FenError::BadEnPassant)
                        } else {
                            let ranks = split_on(t[0], '/');
                            if ranks.len() != 8 {
                                Err(FenError::BadLayout)
                            } else {
                                match read_ranks(ranks, 0, Seq::new(64, |i: int| None::<Piece>)) {
                                    Err(e) => Err(e),
                                    Ok(board) => Ok(
                                        PositionModel {
                                            board,
                                            side_to_move: side,
                                            castling_rights: rights,
                                            en_passant_target: if ep == seq!['-'] {
                                                None
                                            } else {
                                                square_from_chars(ep)
                                            },
                                            halfmove_clock: half->0,
                                            fullmove_number: full->0,
                                        },
                                    ),
                                }
                            }
                        }
                    },
                },
            }
        }
    }
}

/// The text of rank `r` from file `f` on, `run` empty squares pending and
/// `acc` written so far.
pub open spec fn rank_text_from(board: Seq<Option<Piece>>, r: int, f: int, run: int, acc: Seq<char>) -> Seq<
    char,
>
    decreases 8 - f,
{
    let flushed = if run > 0 {
        acc.push(digit_char(run))
    } else {
        acc
    };
    if f >= 8 {
        flushed
    } else {
        match board[sq(f, r)] {
            Some(p) => rank_text_from(board, r, f + 1, 0, flushed.push(p.spec_fen_symbol())),
            None => rank_text_from(board, r, f + 1, run + 1, acc),
        }
    }
}

/// The FEN text of rank `r`: piece letters, and digits for runs of empty squares.
pub open spec fn rank_text(board: Seq<Option<Piece>>, r: int) -> Seq<char> {
    rank_text_from(board, r, 0, 0, seq![])
}

/// The texts of the first `n` ranks from the eighth down, joined by `/`.
pub open spec fn board_text(board: Seq<Option<Piece>>, n: int) -> Seq<char>
    decreases n,
{
    if n <= 1 {
        rank_text(board, 7)
    } else {
        board_text(board, n - 1) + seq!['/'] + rank_text(board, 8 - n)
    }
}

pub open spec fn en_passant_text(ep: Option<Square>) -> Seq<char> {
    match ep {
        Some(s) => s.spec_name(),
        None => seq!['-'],
    }
}

/// The FEN text of a position: board, side, castling, en passant and the
/// two clocks, separated by single spaces.
pub open spec fn fen_text(m: PositionModel) -> Seq<char> {
    board_text(m.board, 8) + seq![' ', m.side_to_move.spec_fen_symbol(), ' '] + m.castling_rights.spec_to_fen()
        + seq![' '] + en_passant_text(m.en_passant_target) + seq![' '] + decimal(
        m.halfmove_clock as nat,
    ) + seq![' '] + decimal(m.fullmove_number as nat)
}

fn square_from_chars_exec(cs: &Vec<char>) -> (s: Option<Square>)
    ensures
        s == square_from_chars(cs@),
        s matches Some(q) ==> q.valid(),
{
    if cs.len() != 2 {
        return None;
    }
    let file = super::ascii_lower(cs[0]);
    let rank = cs[1];
    if 'a' <= file && file <= 'h' && '1' <= rank && rank <= '8' {
        let f = (file as u32 - 'a' as u32) as u8;
        let r = (rank as u32 - '1' as u32) as u8;
        Some(Square(r * 8 + f))
    } else {
        None
    }
}

fn is_dash(cs: &Vec<char>) -> (b: bool)
    ensures
        b == (cs@ == seq!['-']),
{
    if cs.len() == 1 && cs[0] == '-' {
        assert(cs@ =~= seq!['-']);
        true
    } else {
        assert(cs@ != seq!['-']) by {
            if cs@ == seq!['-'] {
                assert(cs@.len() == 1);
            }
        }
        false
    }
}

fn dash() -> (v: Vec<char>)
    ensures
        v@ == seq!['-'],
{
    let mut v = Vec::new();
    v.push('-');
    assert(v@ =~= seq!['-']);
    v
}

impl Position {
    fn read_rank_exec(board: &mut [Option<Piece>; 64], cs: &Vec<char>, r: u8) -> (res: Result<(), FenError>)
        requires
            r < 8,
        ensures
            match read_rank(cs@, r as int, 0, 0, old(board)@) {
                Ok(b) => res is Ok && final(board)@ == b,
                Err(e) => res == Err::<(), FenError>(e),
            },
    {
        let mut file: u8 = 0;
        let mut i: usize = 0;
        while i < cs.len()
            invariant
                r < 8,
                i <= cs.len(),
                read_rank(cs@, r as int, i as int, file as int, board@) == read_rank(
                    cs@,
                    r as int,
                    0,
                    0,
                    old(board)@,
                ),
            decreases cs.len() - i,
        {
            let symbol = cs[i];
            if is_digit_char(symbol) {
                let empty_count = (symbol as u32 - '0' as u32) as u8;
                file = file.saturating_add(empty_count);
                i = i + 1;
                continue;
            }
            if file >= 8 {
                return Err(FenError::FileOverflow);
            }
            let piece = match Piece::from_fen_symbol(symbol) {
                Some(p) => p,
                None => return Err(FenError::BadPiece),
            };
            board[(r * 8 + file) as usize] = Some(piece);
            file = file + 1;
            i = i + 1;
        }
        if file != 8 {
            return Err(FenError::ShortRank);
        }
        Ok(())
    }

    fn read_board(ranks: &Vec<Vec<char>>) -> (res: Result<[Option<Piece>; 64], FenError>)
        requires
            ranks.len() == 8,
        ensures
            match read_ranks(
                Seq::new(8, |k: int| ranks@[k]@),
                0,
                Seq::new(64, |i: int| None::<Piece>),
            ) {
                Ok(b) => res matches Ok(a) && a@ == b,
                Err(e) => res == Err::<[Option<Piece>; 64], FenError>(e),
            },
    {
        let ghost views = Seq::new(8, |k: int| ranks@[k]@);
        let mut board: [Option<Piece>; 64] = [None; 64];
        assert(board@ =~= Seq::new(64, |i: int| None::<Piece>));
        let mut k: usize = 0;
        while k < 8
            invariant
                k <= 8,
                ranks.len() == 8,
                views == Seq::new(8, |k: int| ranks@[k]@),
                read_ranks(views, k as int, board@) == read_ranks(
                    views,
                    0,
                    Seq::new(64, |i: int| None::<Piece>),
                ),
            decreases 8 - k,
        {
            let r = (7 - k) as u8;
            match Self::read_rank_exec(&mut board, &ranks[k], r) {
                Ok(()) => {},
                Err(e) => return Err(e),
            }
            k = k + 1;
        }
        Ok(board)
    }

    fn from_fen_chars(chars: &Vec<char>) -> (res: Result<Position, FenError>)
        ensures
            match parse_fen(chars@) {
                Ok(m) => res matches Ok(p) && p@ == m,
                Err(e) => res matches Err(f) && f == e,
            },
    {
        let tokens = split_whitespace_chars(chars);
        let ghost t = ws_tokens(chars@);
        if tokens.len() < 1 {
            return Err(FenError::MissingBoard);
        }
        if tokens.len() < 2 {
            return Err(FenError::MissingSide);
        }
        let castling_field = if tokens.len() > 2 {
            tokens[2].clone()
        } else {
            dash()
        };
        let en_passant_field = if tokens.len() > 3 {
            tokens[3].clone()
        } else {
            dash()
        };
        let halfmove_clock = if tokens.len() > 4 {
            parse_u16_chars(&tokens[4])
        } else {
            Some(0)
        };
        let halfmove_clock = match halfmove_clock {
            Some(h) => h,
            None => return Err(FenError::BadHalfmoveClock),
        };
        let fullmove_number = if tokens.len() > 5 {
            parse_u16_chars(&tokens[5])
        } else {
            Some(1)
        };
        let fullmove_number = match fullmove_number {
            Some(f) => f,
            None => return Err(FenError::BadFullmoveNumber),
        };
        if tokens[1].len() == 0 {
            return Err(FenError::EmptySide);
        }
        let side_to_move = match Color::from_fen_symbol(tokens[1][0]) {
            Some(c) => c,
            None => return Err(FenError::BadSide),
        };
        let castling_rights = match CastlingRights::from_fen_chars(&castling_field) {
            Some(c) => c,
            None => return Err(FenError::BadCastling),
        };
        let en_passant_target = if is_dash(&en_passant_field) {
            None
        } else {
            match square_from_chars_exec(&en_passant_field) {
                Some(s) => Some(s),
                None => return Err(FenError::BadEnPassant),
            }
        };
        let ranks = split_chars(&tokens[0], '/');
        if ranks.len() != 8 {
            return Err(FenError::BadLayout);
        }
        assert(Seq::new(8, |k: int| ranks@[k]@) =~= split_on(t[0], '/'));
        let board = match Self::read_board(&ranks) {
            Ok(b) => b,
            Err(e) => return Err(e),
        };
        Ok(
            Position {
                board,
                side_to_move,
                castling_rights,
                en_passant_target,
                halfmove_clock,
                fullmove_number,
            },
        )
    }

    fn rank_chars(&self, r: u8) -> (text: Vec<char>)
        requires
            r < 8,
        ensures
            text@ == rank_text(self@.board, r as int),
    {
        let mut text: Vec<char> = Vec::new();
        let mut run: u8 = 0;
        let mut f: u8 = 0;
        while f < 8
            invariant
                r < 8,
                f <= 8,
                run <= f,
                rank_text_from(self@.board, r as int, f as int, run as int, text@) == rank_text(
                    self@.board,
                    r as int,
                ),
            decreases 8 - f,
        {
            match self.board[(r * 8 + f) as usize] {
                Some(piece) => {
                    if run > 0 {
                        text.push(digit_to_char(run));
                        run = 0;
                    }
                    text.push(piece.fen_symbol());
                },
                None => {
                    run = run + 1;
                },
            }
            f = f + 1;
        }
        if run > 0 {
            text.push(digit_to_char(run));
        }
        text
    }

    pub fn to_fen_chars(&self) -> (out: Vec<char>)
        ensures
            out@ == fen_text(self@),
    {
        let mut out: Vec<char> = Vec::new();
        let mut k: u8 = 0;
        while k < 8
            invariant
                k <= 8,
                k == 0 ==> out@.len() == 0,
                k > 0 ==> out@ == board_text(self@.board, k as int),
            decreases 8 - k,
        {
            if k > 0 {
                out.push('/');
            }
            let rank = self.rank_chars(7 - k);
            append_chars(&mut out, &rank);
            k = k + 1;
            assert(out@ =~= board_text(self@.board, k as int));
        }
        out.push(' ');
        out.push(self.side_to_move.fen_symbol());
        out.push(' ');
        let castling = self.castling_rights.to_fen_chars();
        append_chars(&mut out, &castling);
        out.push(' ');
        match self.en_passant_target {
            Some(square) => {
                let name = square.name_chars();
                append_chars(&mut out, &name);
            },
            None => {
                out.push('-');
            },
        }
        out.push(' ');
        push_decimal(&mut out, self.halfmove_clock as u64);
        out.push(' ');
        push_decimal(&mut out, self.fullmove_number as u64);
        assert(out@ =~= fen_text(self@));
        out
    }

    /// Writes the position in Forsyth-Edwards Notation; the text reads back as the same
    /// position.
    pub fn to_fen(&self) -> (s: String)
        ensures
            s@ == fen_text(self@),
            well_formed(self@),
            parse_fen(s@) == Ok::<PositionModel, FenError>(self@),
    {
        proof {
            use_type_invariant(self);
            super::fen_laws::lemma_fen_round_trip(self@);
        }
        let v = self.to_fen_chars();
        string_of(&v)
    }

    /// Reads a position in Forsyth-Edwards Notation.
    pub fn from_fen(fen: &str) -> (res: Result<Position, String>)
        ensures
            match parse_fen(fen@) {
                Ok(m) => res matches Ok(p) && p@ == m,
                Err(e) => res matches Err(msg) && msg@ == e.text(),
            },
            res matches Ok(p) ==> well_formed(p@),
    {
        let chars = chars_of(fen);
        match Self::from_fen_chars(&chars) {
            Ok(p) => {
                proof {
                    use_type_invariant(&p);
                }
                Ok(p)
            },
            Err(e) => Err(e.message()),
        }
    }
}

} // verus!
