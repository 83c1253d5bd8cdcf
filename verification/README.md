# garuda

A chess engine and a collection of integer utilities, with the rules of the game and the
arithmetic proved correct by Verus.

## Layout

- `src/` — the verified library.
  - `chess/` — squares, pieces, moves and positions (`mod.rs`), the abstract rules of the
    game as spec functions (`rules.rs`), attack detection, move generation, making moves,
    game status and repetition keys, FEN reading and writing, and standard algebraic
    notation. Every position keeps 64 squares and an en-passant target on the board (a type
    invariant that the getters report), and the FEN that `to_fen` writes reads back as the
    same position. `laws.rs`, `fen_laws.rs` and `move_laws.rs` hold the other proved laws:
    symbol, square, castling-field and FEN round trips, the UCI round trip for every move
    that does not promote to a king or a pawn, the legality of generated moves, and how a
    game ends.
  - `numeric/` — sums and series, number theory (gcd, primes, factorisation, divisor
    functions, modular inverses), combinatorics, digit manipulation, bit tricks and string
    measures over machine integers; `divisor_counting.rs` proves that the trial-division
    products are the number of divisors and Euler's totient.
  - `cli.rs` — argument parsing and result formatting used by the command-line front end.
  - `rng.rs` — the xorshift generator.
  - `blockchain.rs`, `p2p.rs` — a hash-linked chain of blocks and a peer registry with
    broadcasts and nullifiers.
  - `domains/`, `analysis.rs`, `analysis_mod.rs` — integer, boolean, pointer and interval
    abstract domains and the settings and summaries of an analysis.
- `tests/` — tests of the library on concrete values.
- `app/` — the command-line program: UCI matches against external engines, PGN output,
  the floating-point evaluation and search, training, and the floating-point statistics.
