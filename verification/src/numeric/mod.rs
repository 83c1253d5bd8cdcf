//! Integer arithmetic, number theory and combinatorics over machine integers.
pub mod series;
pub mod number_theory;
pub mod combinatorics;
pub mod digits;
pub mod bits;
pub mod strings;
pub mod divisor_counting;
