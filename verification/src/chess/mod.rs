//! Chess positions, moves and the rules that relate them.

use vstd::prelude::*;

pub mod rules;
pub mod attacks;
pub mod movegen;
pub mod apply;
pub mod status;
pub mod fen;
pub mod san;
pub mod laws;
pub mod fen_laws;
pub mod move_laws;
pub mod rule_laws;

use crate::text::{chars_of, string_of};
use vstd::string::StringSliceAdditionalSpecFns;

verus! {

pub const BOARD_SQUARES: usize = 64;

pub const DEFAULT_POLICY_WIDTH: usize = 8;

pub const TINY_INPUT_SIZE: usize = 96;

pub const TINY_HIDDEN_SIZE: usize = 32;

pub const TINY_MOVE_FEATURES: usize = 12;

/// The side of a piece or of the player to move.
#[derive(Debug, Clone, Copy, PartialEq, Eq, Hash, Structural)]
pub enum Color {
    White,
    Black,
}

impl Color {
    pub open spec fn spec_opposite(self) -> Color {
        match self {
            Color::White => Color::Black,
            Color::Black => Color::White,
        }
    }

    pub open spec fn spec_fen_symbol(self) -> char {
        match self {
            Color::White => 'w',
            Color::Black => 'b',
        }
    }

    pub open spec fn spec_from_fen_symbol(symbol: char) -> Option<Color> {
        if symbol == 'w' {
            Some(Color::White)
        } else if symbol == 'b' {
            Some(Color::Black)
        } else {
            None
        }
    }

    #[verifier::when_used_as_spec(spec_opposite)]
    pub fn opposite(self) -> (c: Color)
        ensures
            c == self.spec_opposite(),
    {
        match self {
            Color::White => Color::Black,
            Color::Black => Color::White,
        }
    }

    #[verifier::when_used_as_spec(spec_fen_symbol)]
    pub fn fen_symbol(self) -> (c: char)
        ensures
            c == self.spec_fen_symbol(),
    {
        match self {
            Color::White => 'w',
            Color::Black => 'b',
        }
    }

    pub fn from_fen_symbol(symbol: char) -> (c: Option<Color>)
        ensures
            c == Color::spec_from_fen_symbol(symbol),
    {
        if symbol == 'w' {
            Some(Color::White)
        } else if symbol == 'b' {
            Some(Color::Black)
        } else {
            None
        }
    }
}

/// The kind of a chess piece.
#[derive(Debug, Clone, Copy, PartialEq, Eq, Hash, Structural)]
pub enum PieceKind {
    Pawn,
    Knight,
    Bishop,
    Rook,
    Queen,
    King,
}

impl PieceKind {
    pub open spec fn spec_san_symbol(self) -> Option<char> {
        match self {
            PieceKind::Pawn => None,
            PieceKind::Knight => Some('N'),
            PieceKind::Bishop => Some('B'),
            PieceKind::Rook => Some('R'),
            PieceKind::Queen => Some('Q'),
            PieceKind::King => Some('K'),
        }
    }

    /// The letter of the piece in algebraic notation; pawns have none.
    #[verifier::when_used_as_spec(spec_san_symbol)]
    pub fn san_symbol(self) -> (c: Option<char>)
        ensures
            c == self.spec_san_symbol(),
    {
        match self {
            PieceKind::Pawn => None,
            PieceKind::Knight => Some('N'),
            PieceKind::Bishop => Some('B'),
            PieceKind::Rook => Some('R'),
            PieceKind::Queen => Some('Q'),
            PieceKind::King => Some('K'),
        }
    }
}

/// A piece of a given color and kind.
#[derive(Debug, Clone, Copy, PartialEq, Eq, Hash, Structural)]
pub struct Piece {
    pub color: Color,
    pub kind: PieceKind,
}

impl Piece {
    pub open spec fn spec_fen_symbol(self) -> char {
        match (self.color, self.kind) {
            (Color::White, PieceKind::Pawn) => 'P',
            (Color::White, PieceKind::Knight) => 'N',
            (Color::White, PieceKind::Bishop) => 'B',
            (Color::White, PieceKind::Rook) => 'R',
            (Color::White, PieceKind::Queen) => 'Q',
            (Color::White, PieceKind::King) => 'K',
            (Color::Black, PieceKind::Pawn) => 'p',
            (Color::Black, PieceKind::Knight) => 'n',
            (Color::Black, PieceKind::Bishop) => 'b',
            (Color::Black, PieceKind::Rook) => 'r',
            (Color::Black, PieceKind::Queen) => 'q',
            (Color::Black, PieceKind::King) => 'k',
        }
    }

    pub open spec fn spec_from_fen_symbol(symbol: char) -> Option<Piece> {
        let w = Color::White;
        let b = Color::Black;
        if symbol == 'P' {
            Some(Piece { color: w, kind: PieceKind::Pawn })
        } else if symbol == 'N' {
            Some(Piece { color: w, kind: PieceKind::Knight })
        } else if symbol == 'B' {
            Some(Piece { color: w, kind: PieceKind::Bishop })
        } else if symbol == 'R' {
            Some(Piece { color: w, kind: PieceKind::Rook })
        } else if symbol == 'Q' {
            Some(Piece { color: w, kind: PieceKind::Queen })
        } else if symbol == 'K' {
            Some(Piece { color: w, kind: PieceKind::King })
        } else if symbol == 'p' {
            Some(Piece { color: b, kind: PieceKind::Pawn })
        } else if symbol == 'n' {
            Some(Piece { color: b, kind: PieceKind::Knight })
        } else if symbol == 'b' {
            Some(Piece { color: b, kind: PieceKind::Bishop })
        } else if symbol == 'r' {
            Some(Piece { color: b, kind: PieceKind::Rook })
        } else if symbol == 'q' {
            Some(Piece { color: b, kind: PieceKind::Queen })
        } else if symbol == 'k' {
            Some(Piece { color: b, kind: PieceKind::King })
        } else {
            None
        }
    }

    /// The FEN letter of the piece: upper case for white, lower case for black.
    #[verifier::when_used_as_spec(spec_fen_symbol)]
    pub fn fen_symbol(self) -> (c: char)
        ensures
            c == self.spec_fen_symbol(),
    {
        let symbol = match self.kind {
            PieceKind::Pawn => 'p',
            PieceKind::Knight => 'n',
            PieceKind::Bishop => 'b',
            PieceKind::Rook => 'r',
            PieceKind::Queen => 'q',
            PieceKind::King => 'k',
        };
        match self.color {
            Color::White => ascii_upper(symbol),
            Color::Black => symbol,
        }
    }

    /// The piece that a FEN letter names, if any.
    pub fn from_fen_symbol(symbol: char) -> (p: Option<Piece>)
        ensures
            p == Piece::spec_from_fen_symbol(symbol),
    {
        let color = if 'A' <= symbol && symbol <= 'Z' {
            Color::White
        } else {
            Color::Black
        };
        let lower = ascii_lower(symbol);
        let kind = if lower == 'p' {
            PieceKind::Pawn
        } else if lower == 'n' {
            PieceKind::Knight
        } else if lower == 'b' {
            PieceKind::Bishop
        } else if lower == 'r' {
            PieceKind::Rook
        } else if lower == 'q' {
            PieceKind::Queen
        } else if lower == 'k' {
            PieceKind::King
        } else {
            return None;
        };
        Some(Piece { color, kind })
    }
}

/// `char::to_ascii_uppercase` on the letters that pieces use.
fn ascii_upper(c: char) -> (u: char)
    requires
        c == 'p' || c == 'n' || c == 'b' || c == 'r' || c == 'q' || c == 'k',
    ensures
        c == 'p' ==> u == 'P',
        c == 'n' ==> u == 'N',
        c == 'b' ==> u == 'B',
        c == 'r' ==> u == 'R',
        c == 'q' ==> u == 'Q',
        c == 'k' ==> u == 'K',
{
    if c == 'p' {
        'P'
    } else if c == 'n' {
        'N'
    } else if c == 'b' {
        'B'
    } else if c == 'r' {
        'R'
    } else if c == 'q' {
        'Q'
    } else {
        'K'
    }
}

pub open spec fn spec_ascii_lower(c: char) -> char {
    if 'A' <= c && c <= 'Z' {
        ((c as u32) + 32) as char
    } else {
        c
    }
}

/// `char::to_ascii_lowercase`.
pub fn ascii_lower(c: char) -> (l: char)
    ensures
        l == spec_ascii_lower(c),
        'a' <= l <= 'z' ==> (c == l || c as u32 == l as u32 - 32),
        c == 'P' ==> l == 'p',
        c == 'N' ==> l == 'n',
        c == 'B' ==> l == 'b',
        c == 'R' ==> l == 'r',
        c == 'Q' ==> l == 'q',
        c == 'K' ==> l == 'k',
{
    if 'A' <= c && c <= 'Z' {
        let code = (c as u32) + 32;
        assert(code < 0xd800);
        char_from_ascii(code)
    } else {
        c
    }
}

/// The character of an ASCII code.
fn char_from_ascii(code: u32) -> (c: char)
    requires
        code < 128,
    ensures
        c as u32 == code,
        c == code as char,
{
    (code as u8) as char
}

/// A square of the board, numbered `rank * 8 + file` from a1 = 0 to h8 = 63.
#[derive(Debug, Clone, Copy, PartialEq, Eq, Hash, Structural)]
pub struct Square(pub u8);

impl Square {
    pub open spec fn valid(self) -> bool {
        self.0 < 64
    }

    pub open spec fn spec_file(self) -> u8 {
        self.0 % 8
    }

    pub open spec fn spec_rank(self) -> u8 {
        self.0 / 8
    }

    pub open spec fn spec_new(index: u8) -> Option<Square> {
        if index < 64 {
            Some(Square(index))
        } else {
            None
        }
    }

    pub open spec fn spec_from_file_rank(file: u8, rank: u8) -> Option<Square> {
        if file < 8 && rank < 8 {
            Some(Square((rank * 8 + file) as u8))
        } else {
            None
        }
    }

    /// The two characters that name the square, such as `e4`.
    pub open spec fn spec_name(self) -> Seq<char> {
        seq![file_letter(self.spec_file() as int), rank_digit(self.spec_rank() as int)]
    }

    #[verifier::when_used_as_spec(spec_new)]
    pub fn new(index: u8) -> (s: Option<Square>)
        ensures
            s == Square::spec_new(index),
    {
        if index < 64 {
            Some(Square(index))
        } else {
            None
        }
    }

    #[verifier::when_used_as_spec(spec_from_file_rank)]
    pub fn from_file_rank(file: u8, rank: u8) -> (s: Option<Square>)
        ensures
            s == Square::spec_from_file_rank(file, rank),
    {
        if file < 8 && rank < 8 {
            Some(Square(rank * 8 + file))
        } else {
            None
        }
    }

    #[verifier::when_used_as_spec(spec_file)]
    pub fn file(self) -> (f: u8)
        ensures
            f == self.spec_file(),
    {
        self.0 % 8
    }

    #[verifier::when_used_as_spec(spec_rank)]
    pub fn rank(self) -> (r: u8)
        ensures
            r == self.spec_rank(),
    {
        self.0 / 8
    }

    /// The square that two ASCII bytes name, such as `e4` (the file letter in
    /// either case); any other text names none.
    pub open spec fn spec_from_algebraic_bytes(bytes: Seq<u8>) -> Option<Square> {
        if bytes.len() != 2 {
            None
        } else {
            let file = if 65 <= bytes[0] <= 90 {
                bytes[0] + 32
            } else {
                bytes[0] as int
            };
            let rank = bytes[1] as int;
            if 97 <= file <= 104 && 49 <= rank <= 56 {
                Some(Square(((rank - 49) * 8 + (file - 97)) as u8))
            } else {
                None
            }
        }
    }

    pub fn from_algebraic(text: &str) -> (s: Option<Square>)
        ensures
            s == Square::spec_from_algebraic_bytes(text.spec_bytes()),
            s matches Some(q) ==> {
                let b = text.spec_bytes();
                &&& q.valid()
                &&& q.spec_file() == (if 65 <= b[0] <= 90 {
                    b[0] + 32
                } else {
                    b[0] as int
                }) - 97
                &&& q.spec_rank() == b[1] - 49
            },
    {
        let bytes = text.as_bytes();
        if bytes.len() != 2 {
            return None;
        }
        let b0 = bytes[0];
        let file = if 65 <= b0 && b0 <= 90 {
            b0 + 32
        } else {
            b0
        };
        let rank = bytes[1];
        if !(97 <= file && file <= 104) || !(49 <= rank && rank <= 56) {
            return None;
        }
        Square::from_file_rank(file - 97, rank - 49)
    }

    /// The name of the square, such as `e4`.
    pub fn to_string(&self) -> (s: String)
        ensures
            s@ == self.spec_name(),
    {
        let v = self.name_chars();
        string_of(&v)
    }

    pub fn name_chars(&self) -> (v: Vec<char>)
        ensures
            v@ == self.spec_name(),
    {
        let mut v = Vec::new();
        v.push(file_char(self.file()));
        v.push(rank_char(self.rank()));
        assert(v@ =~= self.spec_name());
        v
    }
}

/// The letter of file `f`, `a` to `h` for the files of the board.
pub open spec fn file_letter(f: int) -> char {
    ((f + 97) as u32) as char
}

/// The digit of rank `r`, `1` to `8` for the ranks of the board (and the
/// ASCII characters after `8` beyond them).
pub open spec fn rank_digit(r: int) -> char {
    ((r + 49) as u32) as char
}

pub fn file_char(f: u8) -> (c: char)
    requires
        f < 8,
    ensures
        c == file_letter(f as int),
{
    char_from_ascii(97 + f as u32)
}

pub fn rank_char(r: u8) -> (c: char)
    requires
        r < 32,
    ensures
        c == rank_digit(r as int),
{
    char_from_ascii(49 + r as u32)
}

/// A move from one square to another, with the piece a pawn promotes to.
#[derive(Debug, Clone, Copy, PartialEq, Eq, Hash, Structural)]
pub struct ChessMove {
    pub from: Square,
    pub to: Square,
    pub promotion: Option<PieceKind>,
}

/// The letter of a promotion in UCI notation (pawns and kings are written
/// as queens).
pub open spec fn promotion_letter(k: PieceKind) -> char {
    match k {
        PieceKind::Knight => 'n',
        PieceKind::Bishop => 'b',
        PieceKind::Rook => 'r',
        _ => 'q',
    }
}

/// The promotion that a UCI byte names, in either case.
pub open spec fn promotion_from_byte(b: u8) -> Option<PieceKind> {
    if b == 110 || b == 78 {
        Some(PieceKind::Knight)
    } else if b == 98 || b == 66 {
        Some(PieceKind::Bishop)
    } else if b == 114 || b == 82 {
        Some(PieceKind::Rook)
    } else if b == 113 || b == 81 {
        Some(PieceKind::Queen)
    } else {
        None
    }
}

impl ChessMove {
    pub open spec fn valid(self) -> bool {
        self.from.valid() && self.to.valid()
    }

    /// The UCI text of the move, such as `e2e4` or `g7g8q`.
    pub open spec fn spec_uci(self) -> Seq<char> {
        self.from.spec_name() + self.to.spec_name() + match self.promotion {
            Some(k) => seq![promotion_letter(k)],
            None => seq![],
        }
    }

    /// What `from_uci` makes of the bytes of a text: two squares in the
    /// first four bytes, then an optional promotion letter.
    pub open spec fn spec_from_uci_bytes(bytes: Seq<u8>) -> Option<ChessMove> {
        if bytes.len() < 4 {
            None
        } else {
            match (
                Square::spec_from_algebraic_bytes(bytes.subrange(0, 2)),
                Square::spec_from_algebraic_bytes(bytes.subrange(2, 4)),
            ) {
                (Some(from), Some(to)) => Some(
                    ChessMove {
                        from,
                        to,
                        promotion: if bytes.len() > 4 {
                            promotion_from_byte(bytes[4])
                        } else {
                            None
                        },
                    },
                ),
                _ => None,
            }
        }
    }

    pub fn new(from: Square, to: Square) -> (m: ChessMove)
        ensures
            m == (ChessMove { from, to, promotion: None }),
    {
        ChessMove { from, to, promotion: None }
    }

    pub fn with_promotion(self, promotion: PieceKind) -> (m: ChessMove)
        ensures
            m == (ChessMove { promotion: Some(promotion), ..self }),
    {
        let mut next = self;
        next.promotion = Some(promotion);
        next
    }

    pub fn uci_chars(&self) -> (v: Vec<char>)
        ensures
            v@ == self.spec_uci(),
    {
        let mut v = self.from.name_chars();
        v.push(file_char(self.to.file()));
        v.push(rank_char(self.to.rank()));
        if let Some(promotion) = self.promotion {
            v.push(
                match promotion {
                    PieceKind::Knight => 'n',
                    PieceKind::Bishop => 'b',
                    PieceKind::Rook => 'r',
                    PieceKind::Queen => 'q',
                    PieceKind::Pawn | PieceKind::King => 'q',
                },
            );
        }
        assert(v@ =~= self.spec_uci());
        v
    }

    /// The move in UCI notation.
    pub fn uci(&self) -> (s: String)
        ensures
            s@ == self.spec_uci(),
    {
        let v = self.uci_chars();
        string_of(&v)
    }

    /// Reads a move in UCI notation. The text is cut at its byte 2 and, once
    /// the first square is read, at its byte 4; those cuts must fall between
    /// characters.
    pub fn from_uci(uci: &str) -> (m: Option<ChessMove>)
        requires
            uci_cuts_ok(uci.spec_bytes()),
        ensures
            m == ChessMove::spec_from_uci_bytes(uci.spec_bytes()),
            m matches Some(mv) ==> mv.valid(),
    {
        let bytes = uci.as_bytes();
        if bytes.len() < 4 {
            return None;
        }
        let from = match square_from_bytes(bytes[0], bytes[1]) {
            Some(s) => s,
            None => return None,
        };
        let to = match square_from_bytes(bytes[2], bytes[3]) {
            Some(s) => s,
            None => return None,
        };
        let promotion = if bytes.len() > 4 {
            let b = bytes[4];
            if b == 110 || b == 78 {
                Some(PieceKind::Knight)
            } else if b == 98 || b == 66 {
                Some(PieceKind::Bishop)
            } else if b == 114 || b == 82 {
                Some(PieceKind::Rook)
            } else if b == 113 || b == 81 {
                Some(PieceKind::Queen)
            } else {
                None
            }
        } else {
            None
        };
        Some(ChessMove { from, to, promotion })
    }
}

/// The text of a UCI move can be cut where `from_uci` cuts it: at byte 2 when
/// it has four bytes or more, and at byte 4 once the first two bytes name a
/// square.
pub open spec fn uci_cuts_ok(bytes: Seq<u8>) -> bool {
    bytes.len() >= 4 ==> {
        &&& vstd::utf8::is_char_boundary(bytes, 2)
        &&& Square::spec_from_algebraic_bytes(bytes.subrange(0, 2)) is Some
            ==> vstd::utf8::is_char_boundary(bytes, 4)
    }
}

/// The square that two bytes name, as `Square::from_algebraic` reads them.
fn square_from_bytes(b0: u8, b1: u8) -> (s: Option<Square>)
    ensures
        s == Square::spec_from_algebraic_bytes(seq![b0, b1]),
        s matches Some(sq) ==> sq.valid(),
{
    let file = if 65 <= b0 && b0 <= 90 {
        b0 + 32
    } else {
        b0
    };
    if !(97 <= file && file <= 104) || !(49 <= b1 && b1 <= 56) {
        return None;
    }
    Square::from_file_rank(file - 97, b1 - 49)
}

/// Which castling moves each side may still make.
#[derive(Debug, Clone, Copy, PartialEq, Eq, Structural)]
pub struct CastlingRights {
    pub white_kingside: bool,
    pub white_queenside: bool,
    pub black_kingside: bool,
    pub black_queenside: bool,
}

impl Default for CastlingRights {
    fn default() -> (r: CastlingRights)
        ensures
            r == CastlingRights::none(),
    {
        CastlingRights::none_exec()
    }
}

impl CastlingRights {
    pub open spec fn none() -> CastlingRights {
        CastlingRights {
            white_kingside: false,
            white_queenside: false,
            black_kingside: false,
            black_queenside: false,
        }
    }

    pub open spec fn all() -> CastlingRights {
        CastlingRights {
            white_kingside: true,
            white_queenside: true,
            black_kingside: true,
            black_queenside: true,
        }
    }

    fn none_exec() -> (r: CastlingRights)
        ensures
            r == CastlingRights::none(),
    {
        CastlingRights {
            white_kingside: false,
            white_queenside: false,
            black_kingside: false,
            black_queenside: false,
        }
    }

    /// The rights after reading `field[i..]` into `r`, or `None` at the
    /// first character that is not one of `KQkq`.
    pub open spec fn read_from(field: Seq<char>, i: int, r: CastlingRights) -> Option<CastlingRights>
        decreases field.len() - i,
    {
        if i >= field.len() {
            Some(r)
        } else if field[i] == 'K' {
            CastlingRights::read_from(field, i + 1, CastlingRights { white_kingside: true, ..r })
        } else if field[i] == 'Q' {
            CastlingRights::read_from(field, i + 1, CastlingRights { white_queenside: true, ..r })
        } else if field[i] == 'k' {
            CastlingRights::read_from(field, i + 1, CastlingRights { black_kingside: true, ..r })
        } else if field[i] == 'q' {
            CastlingRights::read_from(field, i + 1, CastlingRights { black_queenside: true, ..r })
        } else {
            None
        }
    }

    /// The castling field of FEN: `-` for none, or a string of `KQkq` letters
    /// in any order and number.
    pub open spec fn spec_from_fen(field: Seq<char>) -> Option<CastlingRights> {
        if field == seq!['-'] {
            Some(CastlingRights::none())
        } else {
            CastlingRights::read_from(field, 0, CastlingRights::none())
        }
    }

    /// The castling field that FEN writes: the letters of the rights held, in
    /// the order `KQkq`, or `-` when none is held.
    pub open spec fn spec_to_fen(self) -> Seq<char> {
        let s = (if self.white_kingside {
            seq!['K']
        } else {
            seq![]
        }) + (if self.white_queenside {
            seq!['Q']
        } else {
            seq![]
        }) + (if self.black_kingside {
            seq!['k']
        } else {
            seq![]
        }) + (if self.black_queenside {
            seq!['q']
        } else {
            seq![]
        });
        if s.len() == 0 {
            seq!['-']
        } else {
            s
        }
    }

    pub fn from_fen_chars(field: &Vec<char>) -> (r: Option<CastlingRights>)
        ensures
            r == CastlingRights::spec_from_fen(field@),
    {
        if field.len() == 1 && field[0] == '-' {
            assert(field@ =~= seq!['-']);
            return Some(CastlingRights::none_exec());
        }
        assert(field@ != seq!['-']);
        let mut rights = CastlingRights::none_exec();
        let mut i: usize = 0;
        while i < field.len()
            invariant
                i <= field.len(),
                field@ != seq!['-'],
                CastlingRights::read_from(field@, i as int, rights) == CastlingRights::read_from(
                    field@,
                    0,
                    CastlingRights::none(),
                ),
            decreases field.len() - i,
        {
            let symbol = field[i];
            if symbol == 'K' {
                rights.white_kingside = true;
            } else if symbol == 'Q' {
                rights.white_queenside = true;
            } else if symbol == 'k' {
                rights.black_kingside = true;
            } else if symbol == 'q' {
                rights.black_queenside = true;
            } else {
                return None;
            }
            i = i + 1;
        }
        Some(rights)
    }

    /// Reads the castling field of FEN.
    pub fn from_fen(field: &str) -> (r: Result<CastlingRights, String>)
        ensures
            match CastlingRights::spec_from_fen(field@) {
                Some(c) => r == Ok::<CastlingRights, String>(c),
                None => r is Err && r->Err_0@ == castling_error_text(),
            },
    {
        let chars = chars_of(field);
        match CastlingRights::from_fen_chars(&chars) {
            Some(c) => Ok(c),
            None => Err(castling_error()),
        }
    }

    pub fn to_fen_chars(self) -> (v: Vec<char>)
        ensures
            v@ == self.spec_to_fen(),
    {
        let mut field: Vec<char> = Vec::new();
        if self.white_kingside {
            field.push('K');
        }
        if self.white_queenside {
            field.push('Q');
        }
        if self.black_kingside {
            field.push('k');
        }
        if self.black_queenside {
            field.push('q');
        }
        if field.len() == 0 {
            field.push('-');
        }
        assert(field@ =~= self.spec_to_fen());
        field
    }

    /// Writes the castling field of FEN.
    pub fn to_fen(self) -> (s: String)
        ensures
            s@ == self.spec_to_fen(),
    {
        let v = self.to_fen_chars();
        string_of(&v)
    }
}

pub open spec fn castling_error_text() -> Seq<char> {
    "invalid castling rights in FEN"@
}

fn castling_error() -> (s: String)
    ensures
        s@ == castling_error_text(),
{
    crate::text::literal("invalid castling rights in FEN")
}

/// Where a game stands.
#[derive(Debug, Clone, Copy, PartialEq, Eq, Structural)]
pub enum GameStatus {
    Ongoing,
    Checkmate { loser: Color },
    Stalemate { side_to_move: Color },
    DrawByFiftyMoveRule,
    DrawByRepetition,
}

/// The abstract content of a position: the 64 squares from a1 to h8, the side
/// to move, the castling rights, the en-passant target and the two clocks.
pub struct PositionModel {
    pub board: Seq<Option<Piece>>,
    pub side_to_move: Color,
    pub castling_rights: CastlingRights,
    pub en_passant_target: Option<Square>,
    pub halfmove_clock: u16,
    pub fullmove_number: u16,
}

/// A chess position.
#[derive(Debug, Clone, Copy)]
pub struct Position {
    board: [Option<Piece>; 64],
    side_to_move: Color,
    castling_rights: CastlingRights,
    en_passant_target: Option<Square>,
    halfmove_clock: u16,
    fullmove_number: u16,
}

impl View for Position {
    type V = PositionModel;

    closed spec fn view(&self) -> PositionModel {
        PositionModel {
            board: self.board@,
            side_to_move: self.side_to_move,
            castling_rights: self.castling_rights,
            en_passant_target: self.en_passant_target,
            halfmove_clock: self.halfmove_clock,
            fullmove_number: self.fullmove_number,
        }
    }
}

impl Default for Position {
    fn default() -> (p: Position)
        ensures
            p@ == rules::starting_model(),
    {
        Position::starting_position()
    }
}

impl Position {
    /// A position's en-passant target, if it has one, is a square of the board.
    #[verifier::type_invariant]
    spec fn inv(self) -> bool {
        self.en_passant_target matches Some(s) ==> s.valid()
    }

    /// The side to move. Every position is well formed: 64 squares, and an en-passant
    /// target on the board.
    pub fn side_to_move(&self) -> (c: Color)
        ensures
            c == self@.side_to_move,
            rules::well_formed(self@),
    {
        proof {
            use_type_invariant(self);
        }
        self.side_to_move
    }

    pub fn piece_at(&self, square: Square) -> (p: Option<Piece>)
        requires
            square.valid(),
        ensures
            p == self@.board[square.0 as int],
            rules::well_formed(self@),
    {
        proof {
            use_type_invariant(self);
        }
        self.board[square.0 as usize]
    }

    pub fn castling_rights(&self) -> (c: CastlingRights)
        ensures
            c == self@.castling_rights,
            rules::well_formed(self@),
    {
        proof {
            use_type_invariant(self);
        }
        self.castling_rights
    }

    pub fn en_passant_target(&self) -> (s: Option<Square>)
        ensures
            s == self@.en_passant_target,
            s matches Some(t) ==> t.valid(),
            rules::well_formed(self@),
    {
        proof {
            use_type_invariant(self);
        }
        self.en_passant_target
    }

    /// The number of half-moves since the last capture or pawn move.
    pub fn halfmove_clock(&self) -> (n: u16)
        ensures
            n == self@.halfmove_clock,
            rules::well_formed(self@),
    {
        proof {
            use_type_invariant(self);
        }
        self.halfmove_clock
    }

    /// The number of the full move, counted from one and raised after each black move.
    pub fn fullmove_number(&self) -> (n: u16)
        ensures
            n == self@.fullmove_number,
            rules::well_formed(self@),
    {
        proof {
            use_type_invariant(self);
        }
        self.fullmove_number
    }

    pub fn set_piece(&mut self, square: Square, piece: Option<Piece>)
        requires
            square.valid(),
        ensures
            final(self)@ == (PositionModel {
                board: old(self)@.board.update(square.0 as int, piece),
                ..old(self)@
            }),
            rules::well_formed(old(self)@),
            rules::well_formed(final(self)@),
    {
        proof {
            use_type_invariant(&*self);
        }
        self.board[square.0 as usize] = piece;
        proof {
            use_type_invariant(&*self);
        }
    }

    /// The empty board with the given side to move, no castling rights, no
    /// en-passant target, the halfmove clock at 0 and the move number 1.
    pub fn empty(side_to_move: Color) -> (p: Position)
        ensures
            p@ == rules::empty_model(side_to_move),
            rules::well_formed(p@),
    {
        let p = Position {
            board: [None; 64],
            side_to_move,
            castling_rights: CastlingRights::none_exec(),
            en_passant_target: None,
            halfmove_clock: 0,
            fullmove_number: 1,
        };
        assert(p@.board =~= Seq::new(64, |i: int| None::<Piece>));
        p
    }

    /// The position at the start of a game.
    pub fn starting_position() -> (p: Position)
        ensures
            p@ == rules::starting_model(),
            rules::well_formed(p@),
    {
        let mut position = Position {
            board: [None; 64],
            side_to_move: Color::White,
            castling_rights: CastlingRights {
                white_kingside: true,
                white_queenside: true,
                black_kingside: true,
                black_queenside: true,
            },
            en_passant_target: None,
            halfmove_clock: 0,
            fullmove_number: 1,
        };
        assert(position@.board =~= Seq::new(64, |i: int| None::<Piece>));
        let mut file: u8 = 0;
        while file < 8
            invariant
                file <= 8,
                position@.side_to_move == Color::White,
                position@.castling_rights == CastlingRights::all(),
                position@.en_passant_target is None,
                position@.halfmove_clock == 0,
                position@.fullmove_number == 1,
                position@.board.len() == 64,
                forall|i: int|
                    0 <= i < 64 ==> #[trigger] position@.board[i] == if i % 8 < file {
                        rules::start_piece(i)
                    } else {
                        None
                    },
            decreases 8 - file,
        {
            let kind = back_rank_kind(file);
            position.set_piece(Square(file), Some(Piece { color: Color::White, kind }));
            position.set_piece(
                Square(8 + file),
                Some(Piece { color: Color::White, kind: PieceKind::Pawn }),
            );
            position.set_piece(
                Square(48 + file),
                Some(Piece { color: Color::Black, kind: PieceKind::Pawn }),
            );
            position.set_piece(Square(56 + file), Some(Piece { color: Color::Black, kind }));
            file = file + 1;
        }
        assert(position@.board =~= rules::starting_model().board);
        position
    }

    pub const STARTPOS_FEN: &'static str = "rnbqkbnr/pppppppp/8/8/8/8/PPPPPPPP/RNBQKBNR w KQkq - 0 1";
}

/// The kind of piece that starts on the given file of the back rank.
pub fn back_rank_kind(file: u8) -> (k: PieceKind)
    requires
        file < 8,
    ensures
        k == rules::back_rank(file as int),
{
    match file {
        0 | 7 => PieceKind::Rook,
        1 | 6 => PieceKind::Knight,
        2 | 5 => PieceKind::Bishop,
        3 => PieceKind::Queen,
        _ => PieceKind::King,
    }
}

} // verus!
