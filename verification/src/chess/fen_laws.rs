//! Reading back what FEN writes: the text of a position parses to the same position.

use vstd::prelude::*;
use super::{CastlingRights, Color, Piece, PositionModel, Square};
use super::fen::{
    board_text, en_passant_text, fen_text, parse_fen, rank_text, read_rank, read_ranks,
    rank_text_from, square_from_chars, FenError,
};
use super::rules::well_formed;
use super::rules::sq;
use crate::text::{
    decimal, digit_char, digit_value, is_digit, is_whitespace, parse_u16_spec, split_from, split_on,
    ws_tokens, ws_tokens_from,
};

verus! {

/// A character that FEN writes inside a rank: a piece letter or a digit from 1 to 8.
pub open spec fn rank_char(c: char) -> bool {
    ||| Piece::spec_from_fen_symbol(c) is Some
    ||| ('1' <= c && c <= '8')
}

/// The board with the pieces of rank `r` from file `f` on copied from `board` into `b`.
pub open spec fn fill_rank(board: Seq<Option<Piece>>, r: int, f: int, b: Seq<Option<Piece>>) -> Seq<
    Option<Piece>,
>
    decreases 8 - f,
{
    if f >= 8 {
        b
    } else {
        fill_rank(
            board,
            r,
            f + 1,
            match board[sq(f, r)] {
                Some(p) => b.update(sq(f, r), Some(p)),
                None => b,
            },
        )
    }
}

proof fn lemma_digit_char_value(d: int)
    requires
        1 <= d <= 8,
    ensures
        is_digit(digit_char(d)),
        digit_value(digit_char(d)) == d,
        '1' <= digit_char(d) <= '8',
{
}

proof fn lemma_symbol_not_digit(p: Piece)
    ensures
        !is_digit(p.spec_fen_symbol()),
        Piece::spec_from_fen_symbol(p.spec_fen_symbol()) == Some(p),
{
}

/// The text of a rank extends what was written before it.
pub proof fn lemma_rank_text_prefix(
    board: Seq<Option<Piece>>,
    r: int,
    f: int,
    run: int,
    acc: Seq<char>,
)
    ensures
        rank_text_from(board, r, f, run, acc) == acc + rank_text_from(board, r, f, run, seq![]),
    decreases 8 - f,
{
    let flushed = if run > 0 {
        acc.push(digit_char(run))
    } else {
        acc
    };
    let flushed0: Seq<char> = if run > 0 {
        seq![digit_char(run)]
    } else {
        seq![]
    };
    assert(flushed =~= acc + flushed0);
    if f >= 8 {
    } else {
        match board[sq(f, r)] {
            Some(p) => {
                lemma_rank_text_prefix(board, r, f + 1, 0, flushed.push(p.spec_fen_symbol()));
                lemma_rank_text_prefix(board, r, f + 1, 0, flushed0.push(p.spec_fen_symbol()));
                assert(flushed.push(p.spec_fen_symbol()) =~= acc + flushed0.push(p.spec_fen_symbol()));
            },
            None => {
                lemma_rank_text_prefix(board, r, f + 1, run + 1, acc);
                lemma_rank_text_prefix(board, r, f + 1, run + 1, seq![]);
            },
        }
    }
}

/// Every character of a rank's text is a piece letter or a digit from 1 to 8.
pub proof fn lemma_rank_text_chars(board: Seq<Option<Piece>>, r: int, f: int, run: int)
    requires
        0 <= run <= f,
        f <= 8,
        run <= 8,
    ensures
        forall|i: int|
            0 <= i < rank_text_from(board, r, f, run, seq![]).len() ==> rank_char(
                #[trigger] rank_text_from(board, r, f, run, seq![])[i],
            ),
        f == 8 ==> rank_text_from(board, r, f, run, seq![]).len() == (if run > 0 {
            1int
        } else {
            0
        }),
        f < 8 || run > 0 ==> rank_text_from(board, r, f, run, seq![]).len() >= 1,
    decreases 8 - f,
{
    let flushed0: Seq<char> = if run > 0 {
        seq![digit_char(run)]
    } else {
        seq![]
    };
    if run > 0 {
        lemma_digit_char_value(run);
    }
    if f >= 8 {
    } else {
        match board[sq(f, r)] {
            Some(p) => {
                lemma_rank_text_chars(board, r, f + 1, 0);
                lemma_rank_text_prefix(board, r, f + 1, 0, flushed0.push(p.spec_fen_symbol()));
                lemma_symbol_not_digit(p);
                let rest = rank_text_from(board, r, f + 1, 0, seq![]);
                let all = flushed0.push(p.spec_fen_symbol()) + rest;
                assert forall|i: int| 0 <= i < all.len() implies rank_char(#[trigger] all[i]) by {
                    if i >= flushed0.len() + 1 {
                        assert(all[i] == rest[i - flushed0.len() - 1]);
                    }
                }
            },
            None => {
                lemma_rank_text_chars(board, r, f + 1, run + 1);
            },
        }
    }
}

/// Reading the rest of a rank's text, from where the text written so far ends, fills the
/// rest of the rank.
pub proof fn lemma_read_rank_text(
    board: Seq<Option<Piece>>,
    r: int,
    f: int,
    run: int,
    acc: Seq<char>,
    cs: Seq<char>,
    b: Seq<Option<Piece>>,
)
    requires
        0 <= r < 8,
        0 <= run <= f <= 8,
        board.len() == 64,
        b.len() == 64,
        cs == rank_text_from(board, r, f, run, acc),
    ensures
        read_rank(cs, r, acc.len() as int, f - run, b) == Ok::<Seq<Option<Piece>>, super::fen::FenError>(
            fill_rank(board, r, f, b),
        ),
    decreases 8 - f,
{
    lemma_rank_text_prefix(board, r, f, run, acc);
    let flushed = if run > 0 {
        acc.push(digit_char(run))
    } else {
        acc
    };
    if run > 0 {
        lemma_digit_char_value(run);
    }
    if f >= 8 {
        assert(cs == flushed);
        if run > 0 {
            assert(cs[acc.len() as int] == digit_char(run));
            assert(read_rank(cs, r, acc.len() + 1int, 8, b) == Ok::<Seq<Option<Piece>>, super::fen::FenError>(b));
        }
    } else {
        match board[sq(f, r)] {
            Some(p) => {
                let next = flushed.push(p.spec_fen_symbol());
                lemma_rank_text_prefix(board, r, f + 1, 0, next);
                lemma_symbol_not_digit(p);
                assert(cs == rank_text_from(board, r, f + 1, 0, next));
                lemma_read_rank_text(board, r, f + 1, 0, next, cs, b.update(sq(f, r), Some(p)));
                assert(cs[flushed.len() as int] == p.spec_fen_symbol());
                assert(read_rank(cs, r, flushed.len() as int, f, b) == read_rank(cs, r, next.len() as int, f + 1, b.update(sq(f, r), Some(p))));
                if run > 0 {
                    assert(cs[acc.len() as int] == digit_char(run));
                    assert(read_rank(cs, r, acc.len() as int, f - run, b) == read_rank(cs, r, flushed.len() as int, f, b));
                }
            },
            None => {
                assert(cs == rank_text_from(board, r, f + 1, run + 1, acc));
                lemma_read_rank_text(board, r, f + 1, run + 1, acc, cs, b);
            },
        }
    }
}

/// The board with the pieces of ranks `7 - k` down to 0 copied from `board` into `b`.
pub open spec fn fill_ranks(board: Seq<Option<Piece>>, k: int, b: Seq<Option<Piece>>) -> Seq<
    Option<Piece>,
>
    decreases 8 - k,
{
    if k >= 8 {
        b
    } else {
        fill_ranks(board, k + 1, fill_rank(board, 7 - k, 0, b))
    }
}

proof fn lemma_fill_rank_at(board: Seq<Option<Piece>>, r: int, f: int, b: Seq<Option<Piece>>, s: int)
    requires
        0 <= r < 8,
        0 <= f <= 8,
        board.len() == 64,
        b.len() == 64,
        0 <= s < 64,
    ensures
        fill_rank(board, r, f, b).len() == 64,
        fill_rank(board, r, f, b)[s] == (if s / 8 == r && s % 8 >= f && board[s] is Some {
            board[s]
        } else {
            b[s]
        }),
    decreases 8 - f,
{
    if f < 8 {
        let next = match board[sq(f, r)] {
            Some(p) => b.update(sq(f, r), Some(p)),
            None => b,
        };
        lemma_fill_rank_at(board, r, f + 1, next, s);
    }
}

proof fn lemma_fill_ranks_at(board: Seq<Option<Piece>>, k: int, b: Seq<Option<Piece>>, s: int)
    requires
        0 <= k <= 8,
        board.len() == 64,
        b.len() == 64,
        0 <= s < 64,
    ensures
        fill_ranks(board, k, b).len() == 64,
        fill_ranks(board, k, b)[s] == (if s / 8 <= 7 - k && board[s] is Some {
            board[s]
        } else {
            b[s]
        }),
    decreases 8 - k,
{
    if k < 8 {
        lemma_fill_rank_at(board, 7 - k, 0, b, s);
        assert forall|t: int| 0 <= t < 64 implies #[trigger] fill_rank(board, 7 - k, 0, b)[t] == (if t / 8 == 7 - k && board[t] is Some {
            board[t]
        } else {
            b[t]
        }) by {
            lemma_fill_rank_at(board, 7 - k, 0, b, t);
        }
        lemma_fill_ranks_at(board, k + 1, fill_rank(board, 7 - k, 0, b), s);
    }
}

/// Reading the texts of the ranks from the eighth down fills the board rank by rank.
proof fn lemma_read_ranks_text(ranks: Seq<Seq<char>>, board: Seq<Option<Piece>>, k: int, b: Seq<Option<Piece>>)
    requires
        0 <= k <= 8,
        board.len() == 64,
        b.len() == 64,
        ranks.len() == 8,
        forall|j: int| 0 <= j < 8 ==> #[trigger] ranks[j] == rank_text(board, 7 - j),
    ensures
        read_ranks(ranks, k, b) == Ok::<Seq<Option<Piece>>, FenError>(fill_ranks(board, k, b)),
    decreases 8 - k,
{
    if k < 8 {
        lemma_read_rank_text(board, 7 - k, 0, 0, seq![], ranks[k], b);
        let next = fill_rank(board, 7 - k, 0, b);
        lemma_fill_rank_at(board, 7 - k, 0, b, 0);
        lemma_read_ranks_text(ranks, board, k + 1, next);
    }
}

/// Reading the board text back gives the board, on an empty board to start from.
pub proof fn lemma_board_read_back(board: Seq<Option<Piece>>, ranks: Seq<Seq<char>>)
    requires
        board.len() == 64,
        ranks.len() == 8,
        forall|j: int| 0 <= j < 8 ==> #[trigger] ranks[j] == rank_text(board, 7 - j),
    ensures
        read_ranks(ranks, 0, Seq::new(64, |i: int| None::<Piece>)) == Ok::<Seq<Option<Piece>>, FenError>(
            board,
        ),
{
    let empty = Seq::new(64, |i: int| None::<Piece>);
    lemma_read_ranks_text(ranks, board, 0, empty);
    assert forall|s: int| 0 <= s < 64 implies #[trigger] fill_ranks(board, 0, empty)[s] == board[s] by {
        lemma_fill_ranks_at(board, 0, empty, s);
    }
    lemma_fill_ranks_at(board, 0, empty, 0);
    assert(fill_ranks(board, 0, empty) =~= board);
}

/// The pieces read so far and the piece being read, once `s[i..]` has been split.
pub open spec fn split_state(s: Seq<char>, sep: char, i: int, cur: Seq<char>, acc: Seq<Seq<char>>) -> (
    Seq<char>,
    Seq<Seq<char>>,
)
    decreases s.len() - i,
{
    if i >= s.len() {
        (cur, acc)
    } else if s[i] == sep {
        split_state(s, sep, i + 1, seq![], acc.push(cur))
    } else {
        split_state(s, sep, i + 1, cur.push(s[i]), acc)
    }
}

proof fn lemma_split_prefix(a: Seq<char>, x: Seq<char>, sep: char, i: int, cur: Seq<char>, acc: Seq<Seq<char>>)
    requires
        0 <= i <= a.len(),
    ensures
        split_from(a + x, sep, i, cur, acc) == split_from(
            a + x,
            sep,
            a.len() as int,
            split_state(a, sep, i, cur, acc).0,
            split_state(a, sep, i, cur, acc).1,
        ),
        split_from(a, sep, i, cur, acc) == split_state(a, sep, i, cur, acc).1.push(
            split_state(a, sep, i, cur, acc).0,
        ),
    decreases a.len() - i,
{
    if i < a.len() {
        assert((a + x)[i] == a[i]);
        if a[i] == sep {
            lemma_split_prefix(a, x, sep, i + 1, seq![], acc.push(cur));
        } else {
            lemma_split_prefix(a, x, sep, i + 1, cur.push(a[i]), acc);
        }
    }
}

proof fn lemma_split_no_sep(s: Seq<char>, sep: char, i: int, cur: Seq<char>, acc: Seq<Seq<char>>)
    requires
        0 <= i <= s.len(),
        forall|j: int| i <= j < s.len() ==> #[trigger] s[j] != sep,
    ensures
        split_from(s, sep, i, cur, acc) == acc.push(cur + s.subrange(i, s.len() as int)),
    decreases s.len() - i,
{
    if i < s.len() {
        lemma_split_no_sep(s, sep, i + 1, cur.push(s[i]), acc);
        assert(cur.push(s[i]) + s.subrange(i + 1, s.len() as int) =~= cur + s.subrange(i, s.len() as int));
    } else {
        assert(cur + s.subrange(i, s.len() as int) =~= cur);
    }
}

/// Splitting `a`, a separator and a piece without separators gives the pieces of `a` and then
/// that piece.
pub proof fn lemma_split_append(a: Seq<char>, sep: char, b: Seq<char>)
    requires
        forall|j: int| 0 <= j < b.len() ==> #[trigger] b[j] != sep,
    ensures
        split_on(a + seq![sep] + b, sep) == split_on(a, sep).push(b),
{
    let x = seq![sep] + b;
    assert(a + seq![sep] + b =~= a + x);
    lemma_split_prefix(a, x, sep, 0, seq![], seq![]);
    let st = split_state(a, sep, 0, seq![], seq![]);
    let s = a + x;
    assert(s[a.len() as int] == sep);
    assert forall|j: int| a.len() + 1 <= j < s.len() implies #[trigger] s[j] != sep by {
        assert(s[j] == b[j - a.len() - 1]);
    }
    lemma_split_no_sep(s, sep, a.len() + 1int, seq![], st.1.push(st.0));
    assert(seq![] + s.subrange(a.len() + 1int, s.len() as int) =~= b);
}

/// A rank's text holds no `/`.
proof fn lemma_rank_text_no_slash(board: Seq<Option<Piece>>, r: int)
    ensures
        forall|j: int| 0 <= j < rank_text(board, r).len() ==> #[trigger] rank_text(board, r)[j] != '/',
        rank_text(board, r).len() >= 1,
{
    lemma_rank_text_chars(board, r, 0, 0);
    assert forall|j: int| 0 <= j < rank_text(board, r).len() implies #[trigger] rank_text(board, r)[j] != '/' by {
        assert(rank_char(rank_text(board, r)[j]));
    }
}

/// The board text splits at `/` into the texts of the ranks, from the eighth down.
pub proof fn lemma_split_board_text(board: Seq<Option<Piece>>, n: int)
    requires
        1 <= n <= 8,
    ensures
        split_on(board_text(board, n), '/').len() == n,
        forall|k: int| 0 <= k < n ==> #[trigger] split_on(board_text(board, n), '/')[k] == rank_text(board, 7 - k),
    decreases n,
{
    if n == 1 {
        lemma_rank_text_no_slash(board, 7);
        lemma_split_no_sep(rank_text(board, 7), '/', 0, seq![], seq![]);
        assert(seq![] + rank_text(board, 7).subrange(0, rank_text(board, 7).len() as int) =~= rank_text(board, 7));
    } else {
        lemma_split_board_text(board, n - 1);
        lemma_rank_text_no_slash(board, 8 - n);
        lemma_split_append(board_text(board, n - 1), '/', rank_text(board, 8 - n));
    }
}

/// No character of `t` is whitespace.
pub open spec fn no_whitespace(t: Seq<char>) -> bool {
    forall|j: int| 0 <= j < t.len() ==> !is_whitespace(#[trigger] t[j])
}

/// The tokens joined by single spaces.
pub open spec fn spaced(ts: Seq<Seq<char>>) -> Seq<char>
    decreases ts.len(),
{
    if ts.len() == 0 {
        Seq::empty()
    } else if ts.len() == 1 {
        ts[0]
    } else {
        ts[0] + seq![' '] + spaced(ts.drop_first())
    }
}

proof fn lemma_ws_read(s: Seq<char>, i: int, t: Seq<char>, cur: Seq<char>, acc: Seq<Seq<char>>)
    requires
        0 <= i,
        i + t.len() <= s.len(),
        s.subrange(i, i + t.len()) == t,
        no_whitespace(t),
    ensures
        ws_tokens_from(s, i, cur, acc) == ws_tokens_from(s, i + t.len(), cur + t, acc),
    decreases t.len(),
{
    if t.len() == 0 {
        assert(cur + t =~= cur);
    } else {
        assert(s[i] == t[0]);
        assert(!is_whitespace(t[0]));
        let rest = t.drop_first();
        assert(s.subrange(i + 1, i + 1 + rest.len()) =~= rest);
        lemma_ws_read(s, i + 1, rest, cur.push(s[i]), acc);
        assert(cur.push(s[i]) + rest =~= cur + t);
    }
}

/// Splitting a text of tokens joined by single spaces, from where the tokens start, adds the
/// tokens to those already read.
proof fn lemma_ws_spaced(prefix: Seq<char>, ts: Seq<Seq<char>>, acc: Seq<Seq<char>>)
    requires
        ts.len() >= 1,
        forall|k: int| 0 <= k < ts.len() ==> (#[trigger] ts[k]).len() >= 1 && no_whitespace(ts[k]),
    ensures
        ws_tokens_from(prefix + spaced(ts), prefix.len() as int, seq![], acc) == acc + ts,
    decreases ts.len(),
{
    let s = prefix + spaced(ts);
    let t0 = ts[0];
    if ts.len() == 1 {
        assert(s.subrange(prefix.len() as int, prefix.len() + t0.len() as int) =~= t0);
        lemma_ws_read(s, prefix.len() as int, t0, seq![], acc);
        assert(seq![] + t0 =~= t0);
        assert(acc.push(t0) =~= acc + ts);
    } else {
        let rest = ts.drop_first();
        let prefix2 = prefix + t0 + seq![' '];
        assert(s =~= prefix2 + spaced(rest));
        assert(s.subrange(prefix.len() as int, prefix.len() + t0.len() as int) =~= t0);
        lemma_ws_read(s, prefix.len() as int, t0, seq![], acc);
        assert(seq![] + t0 =~= t0);
        assert(s[prefix.len() + t0.len() as int] == ' ');
        assert forall|k: int| 0 <= k < rest.len() implies (#[trigger] rest[k]).len() >= 1 && no_whitespace(rest[k]) by {
            assert(rest[k] == ts[k + 1]);
        }
        lemma_ws_spaced(prefix2, rest, acc.push(t0));
        assert(acc.push(t0) + rest =~= acc + ts);
    }
}

/// The tokens of a text made of tokens joined by single spaces are those tokens.
pub proof fn lemma_ws_tokens_spaced(ts: Seq<Seq<char>>)
    requires
        ts.len() >= 1,
        forall|k: int| 0 <= k < ts.len() ==> (#[trigger] ts[k]).len() >= 1 && no_whitespace(ts[k]),
    ensures
        ws_tokens(spaced(ts)) == ts,
{
    lemma_ws_spaced(seq![], ts, seq![]);
    assert(seq![] + spaced(ts) =~= spaced(ts));
    assert(seq![] + ts =~= ts);
}

/// The board text is made of piece letters, digits from 1 to 8 and `/`.
proof fn lemma_board_text_chars(board: Seq<Option<Piece>>, n: int)
    requires
        1 <= n <= 8,
    ensures
        no_whitespace(board_text(board, n)),
        board_text(board, n).len() >= 1,
    decreases n,
{
    lemma_rank_text_chars(board, 7 - (n - 1), 0, 0);
    let rt = rank_text(board, 8 - n);
    assert forall|j: int| 0 <= j < rt.len() implies !is_whitespace(#[trigger] rt[j]) by {
        assert(rank_char(rt[j]));
    }
    if n > 1 {
        lemma_board_text_chars(board, n - 1);
        let bt = board_text(board, n);
        let prev = board_text(board, n - 1);
        assert(bt == prev + seq!['/'] + rt);
        assert forall|j: int| 0 <= j < bt.len() implies !is_whitespace(#[trigger] bt[j]) by {
            if j < prev.len() {
                assert(bt[j] == prev[j]);
            } else if j > prev.len() {
                assert(bt[j] == rt[j - prev.len() - 1]);
            }
        }
    }
}

/// A decimal numeral of a sixteen-bit value reads back as that value.
proof fn lemma_decimal_u16(n: u16)
    ensures
        parse_u16_spec(decimal(n as nat)) == Some(n),
        no_whitespace(decimal(n as nat)),
        decimal(n as nat).len() >= 1,
{
    crate::numeric::digits::lemma_decimal_digits(n as nat);
    let d = decimal(n as nat);
    assert(d[0] != '+');
    assert(crate::text::all_digits(d)) by {
        assert forall|i: int| 0 <= i < d.len() implies is_digit(#[trigger] d[i]) by {
            assert('0' <= d[i] <= '9');
        }
    }
    assert forall|j: int| 0 <= j < d.len() implies !is_whitespace(#[trigger] d[j]) by {
        assert('0' <= d[j] <= '9');
    }
}

/// A square's name reads back as the square.
proof fn lemma_square_chars(s: Square)
    requires
        s.valid(),
    ensures
        square_from_chars(s.spec_name()) == Some(s),
        no_whitespace(s.spec_name()),
        s.spec_name().len() == 2,
        s.spec_name() != seq!['-'],
{
    let name = s.spec_name();
    assert(name.len() == 2);
    assert(name[0] != '-');
    assert forall|j: int| 0 <= j < name.len() implies !is_whitespace(#[trigger] name[j]) by {
    }
}

/// The castling text is a dash or letters of `KQkq`.
proof fn lemma_castling_text(c: CastlingRights)
    ensures
        no_whitespace(c.spec_to_fen()),
        c.spec_to_fen().len() >= 1,
{
    let t = c.spec_to_fen();
    assert forall|j: int| 0 <= j < t.len() implies !is_whitespace(#[trigger] t[j]) by {
        assert(t[j] == 'K' || t[j] == 'Q' || t[j] == 'k' || t[j] == 'q' || t[j] == '-');
    }
}

/// The six fields that FEN writes for a position.
pub open spec fn fen_fields(m: PositionModel) -> Seq<Seq<char>> {
    seq![
        board_text(m.board, 8),
        seq![m.side_to_move.spec_fen_symbol()],
        m.castling_rights.spec_to_fen(),
        en_passant_text(m.en_passant_target),
        decimal(m.halfmove_clock as nat),
        decimal(m.fullmove_number as nat),
    ]
}

proof fn lemma_spaced_six(t0: Seq<char>, t1: Seq<char>, t2: Seq<char>, t3: Seq<char>, t4: Seq<char>, t5: Seq<char>)
    ensures
        spaced(seq![t0, t1, t2, t3, t4, t5]) == t0 + seq![' '] + (t1 + seq![' '] + (t2 + seq![' '] + (t3
            + seq![' '] + (t4 + seq![' '] + t5)))),
{
    let ts = seq![t0, t1, t2, t3, t4, t5];
    let s5 = seq![t5];
    let s4 = seq![t4, t5];
    let s3 = seq![t3, t4, t5];
    let s2 = seq![t2, t3, t4, t5];
    let s1 = seq![t1, t2, t3, t4, t5];
    assert(spaced(s5) == t5);
    assert(s4.drop_first() =~= s5);
    assert(spaced(s4) == t4 + seq![' '] + t5);
    assert(s3.drop_first() =~= s4);
    assert(spaced(s3) == t3 + seq![' '] + spaced(s4));
    assert(s2.drop_first() =~= s3);
    assert(spaced(s2) == t2 + seq![' '] + spaced(s3));
    assert(s1.drop_first() =~= s2);
    assert(spaced(s1) == t1 + seq![' '] + spaced(s2));
    assert(ts.drop_first() =~= s1);
    assert(spaced(ts) == t0 + seq![' '] + spaced(s1));
}

proof fn lemma_concat_assoc(a: Seq<char>, b: Seq<char>, c: Seq<char>)
    ensures
        a + b + c == a + (b + c),
{
    assert(a + b + c =~= a + (b + c));
}

proof fn lemma_fen_text_spaced(m: PositionModel)
    ensures
        spaced(fen_fields(m)) == fen_text(m),
{
    let ts = fen_fields(m);
    let sp = seq![' '];
    let (t0, t1, t2, t3, t4, t5) = (ts[0], ts[1], ts[2], ts[3], ts[4], ts[5]);
    assert(ts =~= seq![t0, t1, t2, t3, t4, t5]);
    lemma_spaced_six(t0, t1, t2, t3, t4, t5);
    let r4 = t4 + sp + t5;
    let r3 = t3 + sp + r4;
    let r2 = t2 + sp + r3;
    let r1 = t1 + sp + r2;
    // fold the right-nested joins into the left-nested text one field at a time
    lemma_concat_assoc(t0 + sp + t1 + sp + t2 + sp + t3, sp, r4);
    lemma_concat_assoc(t0 + sp + t1 + sp + t2 + sp + t3, sp + t4, sp + t5);
    lemma_concat_assoc(t0 + sp + t1 + sp + t2, sp, r3);
    lemma_concat_assoc(t0 + sp + t1 + sp + t2 + sp, t3, sp + r4);
    lemma_concat_assoc(t0 + sp + t1 + sp + t2, sp + t3, sp + r4);
    lemma_concat_assoc(t0 + sp + t1, sp, r2);
    lemma_concat_assoc(t0 + sp + t1 + sp, t2, sp + r3);
    lemma_concat_assoc(t0 + sp + t1, sp + t2, sp + r3);
    lemma_concat_assoc(t0, sp, r1);
    lemma_concat_assoc(t0 + sp, t1, sp + r2);
    lemma_concat_assoc(t0, sp + t1, sp + r2);
    lemma_concat_assoc(t4, sp, t5);
    lemma_concat_assoc(t3, sp, r4);
    lemma_concat_assoc(t2, sp, r3);
    lemma_concat_assoc(t1, sp, r2);
    lemma_concat_assoc(t0 + sp + t1 + sp + t2 + sp + t3 + sp, t4, sp + t5);
    lemma_concat_assoc(t0 + sp + t1 + sp + t2 + sp, t3, sp + t4 + sp + t5);
    assert(sp + t1 + sp =~= seq![' ', m.side_to_move.spec_fen_symbol(), ' ']);
    assert(t0 + sp + t1 + sp =~= t0 + seq![' ', m.side_to_move.spec_fen_symbol(), ' ']);
}

proof fn lemma_fen_fields_tokens(m: PositionModel)
    requires
        well_formed(m),
    ensures
        ws_tokens(fen_text(m)) == fen_fields(m),
{
    let ts = fen_fields(m);
    lemma_board_text_chars(m.board, 8);
    lemma_castling_text(m.castling_rights);
    lemma_decimal_u16(m.halfmove_clock);
    lemma_decimal_u16(m.fullmove_number);
    match m.en_passant_target {
        Some(s) => {
            lemma_square_chars(s);
        },
        None => {
            let t3 = ts[3];
            assert forall|j: int| 0 <= j < t3.len() implies !is_whitespace(#[trigger] t3[j]) by {
            }
        },
    }
    let t1 = ts[1];
    assert forall|j: int| 0 <= j < t1.len() implies !is_whitespace(#[trigger] t1[j]) by {
    }
    assert forall|k: int| 0 <= k < ts.len() implies (#[trigger] ts[k]).len() >= 1 && no_whitespace(ts[k]) by {
    }
    lemma_fen_text_spaced(m);
    lemma_ws_tokens_spaced(ts);
}

proof fn lemma_parse_fields(s: Seq<char>, m: PositionModel)
    requires
        ws_tokens(s) == fen_fields(m),
        parse_u16_spec(decimal(m.halfmove_clock as nat)) == Some(m.halfmove_clock),
        parse_u16_spec(decimal(m.fullmove_number as nat)) == Some(m.fullmove_number),
        Color::spec_from_fen_symbol(m.side_to_move.spec_fen_symbol()) == Some(m.side_to_move),
        CastlingRights::spec_from_fen(m.castling_rights.spec_to_fen()) == Some(m.castling_rights),
        m.en_passant_target matches Some(q) ==> square_from_chars(q.spec_name()) == Some(q)
            && q.spec_name() != seq!['-'],
        split_on(board_text(m.board, 8), '/').len() == 8,
        read_ranks(split_on(board_text(m.board, 8), '/'), 0, Seq::new(64, |i: int| None::<Piece>))
            == Ok::<Seq<Option<Piece>>, FenError>(m.board),
    ensures
        parse_fen(s) == Ok::<PositionModel, FenError>(m),
{
    let t = ws_tokens(s);
    assert(t[1][0] == m.side_to_move.spec_fen_symbol());
    assert(t[1].len() == 1);
}

/// What FEN writes of a position reads back as that position.
pub proof fn lemma_fen_round_trip(m: PositionModel)
    requires
        well_formed(m),
    ensures
        parse_fen(fen_text(m)) == Ok::<PositionModel, FenError>(m),
{
    lemma_fen_fields_tokens(m);
    lemma_decimal_u16(m.halfmove_clock);
    lemma_decimal_u16(m.fullmove_number);
    if let Some(q) = m.en_passant_target {
        lemma_square_chars(q);
    }
    lemma_split_board_text(m.board, 8);
    lemma_board_read_back(m.board, split_on(board_text(m.board, 8), '/'));
    super::laws::lemma_castling_round_trip(m.castling_rights);
    super::laws::lemma_color_symbol_round_trip(m.side_to_move);
    lemma_parse_fields(fen_text(m), m);
}

} // verus!
