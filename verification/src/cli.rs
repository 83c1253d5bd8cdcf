//! The decisions of the command-line front end: reading arguments, naming game outcomes,
//! writing PGN move text and dates, and tallying match results.
use vstd::prelude::*;
use crate::chess::{ChessMove, Color, GameStatus, Position};
use crate::chess::laws::lemma_legal_moves_valid;
use crate::chess::movegen::all_valid;
use crate::chess::rules::{apply_move, game_status_with_history, legal_moves};
use crate::chess::san::san_text;
use crate::chess::status::repetition_key;
use crate::text::chars_of;
use crate::numeric::number_theory::quot;
use crate::text::{
    all_digits, decimal, digit_value, digits_value, is_digit, is_digit_char, push_decimal,
    push_str, string_of,
};

verus! {

/// What `str::parse` accepts for an unsigned integer type whose largest value is `max`:
/// an optional `+`, then at least one ASCII digit, with a value up to `max`.
pub open spec fn parse_unsigned_spec(s: Seq<char>, max: nat) -> Option<nat> {
    let digits = if s.len() >= 1 && s[0] == '+' {
        s.skip(1)
    } else {
        s
    };
    if digits.len() >= 1 && all_digits(digits) && digits_value(digits) <= max {
        Some(digits_value(digits))
    } else {
        None
    }
}

/// The value of a digit prefix never exceeds the value of a longer one.
proof fn lemma_digits_prefix(s: Seq<char>, j: int, k: int)
    requires
        0 <= j <= k <= s.len(),
        all_digits(s),
    ensures
        digits_value(s.take(j)) <= digits_value(s.take(k)),
    decreases k - j,
{
    if j < k {
        lemma_digits_prefix(s, j, k - 1);
        assert(s.take(k).drop_last() =~= s.take(k - 1));
        assert(is_digit(s[k - 1]));
    }
}

/// Parses an unsigned integer no larger than `max` as `str::parse` does.
pub fn parse_unsigned(s: &str, max: u64) -> (r: Option<u64>)
    ensures
        r matches Some(v) ==> parse_unsigned_spec(s@, max as nat) == Some(v as nat),
        r is None ==> parse_unsigned_spec(s@, max as nat) is None,
{
    let cs = crate::text::chars_of(s);
    let start: usize = if cs.len() >= 1 && cs[0] == '+' {
        1
    } else {
        0
    };
    let ghost digits = if s@.len() >= 1 && s@[0] == '+' {
        s@.skip(1)
    } else {
        s@
    };
    assert(digits =~= cs@.skip(start as int));
    if start >= cs.len() {
        assert(digits.len() == 0);
        return None;
    }
    let mut i: usize = start;
    while i < cs.len()
        invariant
            cs@ == s@,
            start <= i <= cs@.len(),
            digits =~= cs@.skip(start as int),
            digits == (if s@.len() >= 1 && s@[0] == '+' { s@.skip(1) } else { s@ }),
            forall|k: int| start <= k < i ==> is_digit(#[trigger] cs@[k]),
        decreases cs@.len() - i,
    {
        if !is_digit_char(cs[i]) {
            assert(digits[i - start] == cs@[i as int]);
            assert(!all_digits(digits));
            return None;
        }
        i = i + 1;
    }
    assert(all_digits(digits)) by {
        assert forall|k: int| 0 <= k < digits.len() implies is_digit(#[trigger] digits[k]) by {
            assert(digits[k] == cs@[k + start]);
        }
    }
    let mut value: u64 = 0;
    let mut j: usize = start;
    while j < cs.len()
        invariant
            cs@ == s@,
            start <= j <= cs@.len(),
            digits =~= cs@.skip(start as int),
            digits == (if s@.len() >= 1 && s@[0] == '+' { s@.skip(1) } else { s@ }),
            all_digits(digits),
            value == digits_value(digits.take(j - start)),
            value <= max,
        decreases cs@.len() - j,
    {
        let c = cs[j];
        assert(c == digits[j - start]);
        let d: u64 = (c as u32 - '0' as u32) as u64;
        assert(digits.take(j - start + 1).drop_last() =~= digits.take(j - start));
        assert(digits.take(j - start + 1).last() == c);
        assert(digits_value(digits.take(j - start + 1)) == value * 10 + d);
        if d > max || value > (max - d) / 10 {
            proof {
                lemma_digits_prefix(digits, j - start + 1, digits.len() as int);
                assert(digits.take(digits.len() as int) =~= digits);
                if d <= max {
                    vstd::arithmetic::div_mod::lemma_fundamental_div_mod((max - d) as int, 10);
                }
            }
            return None;
        }
        proof {
            vstd::arithmetic::div_mod::lemma_fundamental_div_mod((max - d) as int, 10);
        }
        value = value * 10 + d;
        j = j + 1;
    }
    assert(digits.take(digits.len() as int) =~= digits);
    Some(value)
}

/// `"w"` or `"white"` is White, `"b"` or `"black"` is Black; anything else is refused with
/// the message `invalid color: ` followed by the text.
pub fn parse_color(text: &str) -> (r: Result<Color, String>)
    ensures
        (text@ == "w"@ || text@ == "white"@) ==> r == Ok::<Color, String>(Color::White),
        (text@ == "b"@ || text@ == "black"@) ==> r == Ok::<Color, String>(Color::Black),
        !(text@ == "w"@ || text@ == "white"@ || text@ == "b"@ || text@ == "black"@) ==> (r matches Err(
            msg,
        ) && msg@ == "invalid color: "@ + text@),
{
    proof {
        reveal_strlit("w");
        reveal_strlit("white");
        reveal_strlit("b");
        reveal_strlit("black");
        assert("w"@[0] == 'w' && "white"@[0] == 'w' && "b"@[0] == 'b' && "black"@[0] == 'b');
    }
    if crate::text::same_text(text, "w") || crate::text::same_text(text, "white") {
        Ok(Color::White)
    } else if crate::text::same_text(text, "b") || crate::text::same_text(text, "black") {
        Ok(Color::Black)
    } else {
        let mut out: Vec<char> = Vec::new();
        push_str(&mut out, "invalid color: ");
        push_str(&mut out, text);
        assert(out@ =~= "invalid color: "@ + text@);
        Err(string_of(&out))
    }
}

/// The name of a game status, as the command line prints it.
pub fn format_status(status: GameStatus) -> (r: &'static str)
    ensures
        r@ == (match status {
            GameStatus::Ongoing => "ongoing"@,
            GameStatus::Checkmate { loser: Color::White } => "checkmate:white-loses"@,
            GameStatus::Checkmate { loser: Color::Black } => "checkmate:black-loses"@,
            GameStatus::Stalemate { side_to_move: Color::White } => "stalemate:white-to-move"@,
            GameStatus::Stalemate { side_to_move: Color::Black } => "stalemate:black-to-move"@,
            GameStatus::DrawByFiftyMoveRule => "draw:fifty-move-rule"@,
            GameStatus::DrawByRepetition => "draw:threefold-repetition"@,
        }),
{
    match status {
        GameStatus::Ongoing => "ongoing",
        GameStatus::Checkmate { loser } => match loser {
            Color::White => "checkmate:white-loses",
            Color::Black => "checkmate:black-loses",
        },
        GameStatus::Stalemate { side_to_move } => match side_to_move {
            Color::White => "stalemate:white-to-move",
            Color::Black => "stalemate:black-to-move",
        },
        GameStatus::DrawByFiftyMoveRule => "draw:fifty-move-rule",
        GameStatus::DrawByRepetition => "draw:threefold-repetition",
    }
}

/// The argument read as a `usize`, or the default when it is absent or does not parse.
pub fn parse_usize_arg(value: Option<String>, default: usize) -> (r: usize)
    ensures
        r == (match value {
            Some(text) => match parse_unsigned_spec(text@, usize::MAX as nat) {
                Some(v) => v,
                None => default as nat,
            },
            None => default as nat,
        }),
{
    match value {
        Some(text) => match parse_unsigned(text.as_str(), usize::MAX as u64) {
            Some(v) => v as usize,
            None => default,
        },
        None => default,
    }
}

/// The argument read as a `u64`, or the default when it is absent or does not parse.
pub fn parse_u64_arg(value: Option<String>, default: u64) -> (r: u64)
    ensures
        r == (match value {
            Some(text) => match parse_unsigned_spec(text@, u64::MAX as nat) {
                Some(v) => v,
                None => default as nat,
            },
            None => default as nat,
        }),
{
    match value {
        Some(text) => match parse_unsigned(text.as_str(), u64::MAX) {
            Some(v) => v,
            None => default,
        },
        None => default,
    }
}

/// A ply limit: absent or unparsable text gives the default, zero means no limit.
pub fn parse_optional_plies_arg(value: Option<String>, default: Option<usize>) -> (r: Option<usize>)
    ensures
        r == (match value {
            Some(text) => match parse_unsigned_spec(text@, usize::MAX as nat) {
                Some(v) => if v == 0 {
                    None
                } else {
                    Some(v as usize)
                },
                None => default,
            },
            None => default,
        }),
{
    match value {
        Some(text) => match parse_unsigned(text.as_str(), usize::MAX as u64) {
            Some(v) => {
                if v == 0 {
                    None
                } else {
                    Some(v as usize)
                }
            },
            None => default,
        },
        None => default,
    }
}

/// The PGN result of a game: the side not checkmated wins, anything else is a draw.
pub fn format_pgn_result(status: GameStatus) -> (r: &'static str)
    ensures
        r@ == (match status {
            GameStatus::Checkmate { loser: Color::White } => "0-1"@,
            GameStatus::Checkmate { loser: Color::Black } => "1-0"@,
            _ => "1/2-1/2"@,
        }),
{
    match status {
        GameStatus::Checkmate { loser: Color::White } => "0-1",
        GameStatus::Checkmate { loser: Color::Black } => "1-0",
        _ => "1/2-1/2",
    }
}

/// The PGN token of the move with index `i`: White's moves carry their move number.
pub open spec fn pgn_token(i: int, san: Seq<char>) -> Seq<char> {
    if i % 2 == 0 {
        decimal((i / 2 + 1) as nat) + seq!['.', ' '] + san
    } else {
        san
    }
}

/// The tokens of the first `k` moves, each followed by a space.
pub open spec fn pgn_moves_prefix(moves: Seq<String>, k: int) -> Seq<char>
    decreases k,
{
    if k <= 0 {
        Seq::empty()
    } else {
        pgn_moves_prefix(moves, k - 1) + pgn_token(k - 1, moves[k - 1]@) + seq![' ']
    }
}

/// PGN move text: the move tokens and then the result, separated by single spaces.
pub fn format_pgn_moves(san_moves: &[String], result: &str) -> (r: String)
    requires
        san_moves@.len() < usize::MAX,
    ensures
        r@ == pgn_moves_prefix(san_moves@, san_moves@.len() as int) + result@,
{
    let mut out: Vec<char> = Vec::new();
    let mut index: usize = 0;
    while index < san_moves.len()
        invariant
            index <= san_moves@.len() < usize::MAX,
            out@ == pgn_moves_prefix(san_moves@, index as int),
        decreases san_moves@.len() - index,
    {
        let ghost before = out@;
        if index % 2 == 0 {
            push_decimal(&mut out, ((index / 2) + 1) as u64);
            out.push('.');
            out.push(' ');
        }
        push_str(&mut out, san_moves[index].as_str());
        out.push(' ');
        proof {
            assert(out@ =~= before + pgn_token(index as int, san_moves@[index as int]@) + seq![' ']);
        }
        index = index + 1;
    }
    push_str(&mut out, result);
    string_of(&out)
}

/// Records a finished game of a match for the side `garuda_color`: a checkmate of that side
/// is a win of the other engine, any other checkmate is a win of this side, and every other
/// status is a draw. Returns the outcome's name.
pub fn summarize_bo_result(
    status: GameStatus,
    garuda_color: Color,
    garuda_wins: &mut usize,
    uci_wins: &mut usize,
    draws: &mut usize,
) -> (r: &'static str)
    requires
        *old(garuda_wins) < usize::MAX,
        *old(uci_wins) < usize::MAX,
        *old(draws) < usize::MAX,
    ensures
        match status {
            GameStatus::Checkmate { loser } => if loser == garuda_color {
                &&& r@ == "uci-win"@
                &&& *final(uci_wins) == *old(uci_wins) + 1
                &&& *final(garuda_wins) == *old(garuda_wins)
                &&& *final(draws) == *old(draws)
            } else {
                &&& r@ == "garuda-win"@
                &&& *final(garuda_wins) == *old(garuda_wins) + 1
                &&& *final(uci_wins) == *old(uci_wins)
                &&& *final(draws) == *old(draws)
            },
            _ => {
                &&& r@ == "draw"@
                &&& *final(draws) == *old(draws) + 1
                &&& *final(garuda_wins) == *old(garuda_wins)
                &&& *final(uci_wins) == *old(uci_wins)
            },
        },
{
    match status {
        GameStatus::Checkmate { loser } => {
            if loser == garuda_color {
                *uci_wins = *uci_wins + 1;
                "uci-win"
            } else {
                *garuda_wins = *garuda_wins + 1;
                "garuda-win"
            }
        },
        _ => {
            *draws = *draws + 1;
            "draw"
        },
    }
}

/// `digits` left-padded with zeros to `width` characters.
pub open spec fn zero_padded(digits: Seq<char>, width: int) -> Seq<char> {
    if digits.len() >= width {
        digits
    } else {
        Seq::new((width - digits.len()) as nat, |i: int| '0') + digits
    }
}

/// A decimal numeral padded with zeros to `width` characters, the sign counted in the width,
/// as the format `{:0width}` writes an integer.
pub open spec fn padded_decimal(n: int, width: int) -> Seq<char> {
    if n < 0 {
        seq!['-'] + zero_padded(decimal((-n) as nat), width - 1)
    } else {
        zero_padded(decimal(n as nat), width)
    }
}

/// The civil (proleptic Gregorian) date of a day count since 1970-01-01, as year, month and
/// day, by the era-based conversion that `civil_from_days` computes.
pub open spec fn civil_fields(days: int) -> (int, int, int) {
    let z = days + 719_468;
    let era = quot(if z >= 0 {
        z
    } else {
        z - 146_096
    }, 146_097);
    let doe = z - era * 146_097;
    let yoe = quot(doe - quot(doe, 1_460) + quot(doe, 36_524) - quot(doe, 146_096), 365);
    let year = yoe + era * 400;
    let doy = doe - (365 * yoe + quot(yoe, 4) - quot(yoe, 100));
    let mp = quot(5 * doy + 2, 153);
    let day = doy - quot(153 * mp + 2, 5) + 1;
    let month = mp + if mp < 10 {
        3int
    } else {
        -9int
    };
    let year = year + if month <= 2 {
        1int
    } else {
        0int
    };
    (year, month, day)
}

/// Within an era of 146097 days the year of the era, the day of the year and the month
/// stay in range, so months are `1..=12` and days `1..=31`.
proof fn lemma_civil_day_of_era(doe: u64)
    requires
        doe < 146_097,
    ensures
        ({
            let yoe = (doe - doe / 1_460 + doe / 36_524 - doe / 146_096) / 365;
            let doy = doe - (365 * yoe + yoe / 4 - yoe / 100);
            let mp = (5 * doy + 2) / 153;
            &&& 0 <= yoe <= 399
            &&& 0 <= doy <= 365
            &&& 0 <= mp <= 11
            &&& 1 <= doy - (153 * mp + 2) / 5 + 1 <= 31
        }),
{
    let a: u64 = (doe - doe / 1_460 + doe / 36_524 - doe / 146_096) as u64;
    assert(0 <= doe - doe / 1_460 + doe / 36_524 - doe / 146_096 <= 146_096 && a / 365 <= 399) by (bit_vector)
        requires
            doe < 146_097,
            a == (doe - doe / 1_460 + doe / 36_524 - doe / 146_096) as u64,
    ;
    let yoe: u64 = a / 365;
    assert(365 * yoe + yoe / 4 - yoe / 100 <= doe && doe - (365 * yoe + yoe / 4 - yoe / 100) <= 365) by (bit_vector)
        requires
            doe < 146_097,
            a == (doe - doe / 1_460 + doe / 36_524 - doe / 146_096) as u64,
            yoe == a / 365,
    ;
    let doy: u64 = (doe - (365 * yoe + yoe / 4 - yoe / 100)) as u64;
    assert((5 * doy + 2) / 153 <= 11 && 1 <= doy - (153 * ((5 * doy + 2) / 153) + 2) / 5 + 1 <= 31) by (bit_vector)
        requires
            doy <= 365,
    ;
}

/// The civil date of a day count since 1970-01-01, written `YYYY.MM.DD` with zero padding.
pub fn civil_from_days(days_since_epoch: i64) -> (r: String)
    requires
        days_since_epoch <= i64::MAX - 719_468,
    ensures
        ({
            let (y, m, d) = civil_fields(days_since_epoch as int);
            &&& r@ == padded_decimal(y, 4) + seq!['.'] + padded_decimal(m, 2) + seq!['.']
                + padded_decimal(d, 2)
            &&& 1 <= m <= 12
            &&& 1 <= d <= 31
        }),
{
    let z: i64 = days_since_epoch + 719_468;
    let num: i64 = if z >= 0 {
        z
    } else {
        z - 146_096
    };
    let era: i64 = num / 146_097;
    proof {
        if z >= 0 {
            vstd::arithmetic::div_mod::lemma_fundamental_div_mod(z as int, 146_097);
        } else {
            vstd::arithmetic::div_mod::lemma_fundamental_div_mod(146_096 - z, 146_097);
        }
    }
    let doe: i64 = z - era * 146_097;
    assert(0 <= doe < 146_097);
    proof {
        lemma_civil_day_of_era(doe as u64);
    }
    let yoe: i64 = (doe - doe / 1_460 + doe / 36_524 - doe / 146_096) / 365;
    let year: i64 = yoe + era * 400;
    let doy: i64 = doe - (365 * yoe + yoe / 4 - yoe / 100);
    let mp: i64 = (5 * doy + 2) / 153;
    let day: i64 = doy - (153 * mp + 2) / 5 + 1;
    let month: i64 = mp + if mp < 10 {
        3
    } else {
        -9
    };
    let year: i64 = year + if month <= 2 {
        1
    } else {
        0
    };
    let mut out: Vec<char> = Vec::new();
    push_padded(&mut out, year, 4);
    out.push('.');
    push_padded(&mut out, month, 2);
    out.push('.');
    push_padded(&mut out, day, 2);
    string_of(&out)
}

/// Appends `n` padded with zeros to `width` characters, the sign counted in the width.
fn push_padded(out: &mut Vec<char>, n: i64, width: usize)
    requires
        1 <= width <= 4,
    ensures
        final(out)@ == old(out)@ + padded_decimal(n as int, width as int),
{
    let magnitude: u64 = if n < 0 {
        if n == i64::MIN {
            0x8000_0000_0000_0000u64
        } else {
            (-n) as u64
        }
    } else {
        n as u64
    };
    let mut digits: Vec<char> = Vec::new();
    push_decimal(&mut digits, magnitude);
    assert(digits@ =~= decimal(magnitude as nat));
    let target: usize = if n < 0 {
        out.push('-');
        width - 1
    } else {
        width
    };
    let ghost start = out@;
    let mut k: usize = digits.len();
    while k < target
        invariant
            digits.len() <= k <= target || (target < digits.len() && k == digits.len()),
            out@ == start + Seq::new((k - digits.len()) as nat, |i: int| '0'),
        decreases target - k,
    {
        out.push('0');
        k = k + 1;
        assert(out@ =~= start + Seq::new((k - digits.len()) as nat, |i: int| '0'));
    }
    let ghost padded = out@;
    let mut i: usize = 0;
    while i < digits.len()
        invariant
            i <= digits.len(),
            out@ == padded + digits@.take(i as int),
        decreases digits.len() - i,
    {
        out.push(digits[i]);
        i = i + 1;
        assert(out@ =~= padded + digits@.take(i as int));
    }
    assert(digits@.take(digits.len() as int) =~= digits@);
    proof {
        let zeros = Seq::new((k - digits.len()) as nat, |i: int| '0');
        if digits@.len() >= target {
            assert(zeros =~= Seq::<char>::empty());
            assert(zero_padded(digits@, target as int) == digits@);
        } else {
            assert(zero_padded(digits@, target as int) =~= zeros + digits@);
        }
        if n < 0 {
            assert(out@ =~= old(out)@ + (seq!['-'] + zero_padded(digits@, target as int)));
        } else {
            assert(out@ =~= old(out)@ + zero_padded(digits@, target as int));
        }
    }
}

/// Why a move that an engine sent during a match could not be played.
#[derive(Debug, Clone, Copy, PartialEq, Eq, Structural)]
pub enum EngineMoveError {
    /// No legal move has that UCI text.
    Illegal,
    /// The move could not be written in standard algebraic notation.
    NoSan,
}

/// The first index from `i` on at which `moves` holds a move whose UCI text is `text`.
pub open spec fn first_uci_match(moves: Seq<ChessMove>, text: Seq<char>, i: int) -> Option<int>
    decreases moves.len() - i,
{
    if i < 0 || i >= moves.len() {
        None
    } else if moves[i].spec_uci() == text {
        Some(i)
    } else {
        first_uci_match(moves, text, i + 1)
    }
}

/// Whether two character sequences are equal.
fn chars_equal(a: &Vec<char>, b: &Vec<char>) -> (r: bool)
    ensures
        r == (a@ == b@),
{
    if a.len() != b.len() {
        return false;
    }
    let mut i: usize = 0;
    while i < a.len()
        invariant
            i <= a.len(),
            a.len() == b.len(),
            forall|j: int| 0 <= j < i ==> a@[j] == b@[j],
        decreases a.len() - i,
    {
        if a[i] != b[i] {
            return false;
        }
        i = i + 1;
    }
    assert(a@ =~= b@);
    true
}

/// A match is over once `max_plies` plies have been played (when there is a limit), or
/// once the game, with the repetition `history`, is no longer going on.
pub fn match_over(position: &Position, history: &[u64], ply: usize, max_plies: Option<usize>) -> (r:
    bool)
    ensures
        r == ((max_plies matches Some(m) && ply >= m) || game_status_with_history(
            position@,
            repetition_key(position@),
            history@,
        ) != GameStatus::Ongoing),
{
    if let Some(m) = max_plies {
        if ply >= m {
            return true;
        }
    }
    position.game_status_with_history(history) != GameStatus::Ongoing
}

/// Plays a move that an engine sent in UCI text: the first legal move with that text,
/// written in standard algebraic notation, is made, and the key of the new position is
/// added to the repetition `history`. The history is unchanged on an error.
pub fn play_engine_move(position: &Position, uci: &str, history: &mut Vec<u64>) -> (r: Result<
    (Position, String),
    EngineMoveError,
>)
    ensures
        match first_uci_match(legal_moves(position@), uci@, 0) {
            None => r == Err::<(Position, String), EngineMoveError>(EngineMoveError::Illegal)
                && final(history)@ == old(history)@,
            Some(j) => match san_text(position@, legal_moves(position@)[j]) {
                None => r == Err::<(Position, String), EngineMoveError>(EngineMoveError::NoSan)
                    && final(history)@ == old(history)@,
                Some(t) => r matches Ok((next, san)) && next@ == apply_move(
                    position@,
                    legal_moves(position@)[j],
                ) && san@ == t && final(history)@ == old(history)@.push(repetition_key(next@)),
            },
        },
{
    let moves = position.legal_moves();
    let text = chars_of(uci);
    let mut i: usize = 0;
    proof {
        lemma_legal_moves_valid(position@);
    }
    while i < moves.len()
        invariant
            i <= moves.len(),
            moves@ == legal_moves(position@),
            text@ == uci@,
            first_uci_match(moves@, text@, i as int) == first_uci_match(moves@, text@, 0),
            all_valid(moves@),
            history@ == old(history)@,
        decreases moves.len() - i,
    {
        let candidate = moves[i];
        let candidate_text = candidate.uci_chars();
        if chars_equal(&candidate_text, &text) {
            assert(candidate.valid());
            assert(first_uci_match(moves@, text@, i as int) == Some(i as int));
            let san = match position.san_for_move(&candidate) {
                Some(s) => s,
                None => return Err(EngineMoveError::NoSan),
            };
            let next = position.apply_move(&candidate);
            history.push(next.repetition_key());
            return Ok((next, san));
        }
        i = i + 1;
    }
    assert(first_uci_match(moves@, text@, i as int) is None);
    Err(EngineMoveError::Illegal)
}

} // verus!
