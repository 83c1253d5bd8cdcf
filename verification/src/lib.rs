pub mod text;
pub mod chess;
pub mod blockchain;
pub mod p2p;
pub mod domains;
pub mod analysis;
pub mod analysis_mod;
pub mod numeric;
pub mod cli;
pub mod rng;

pub use numeric::series::{
    aggregate, analyze, batch_process, clamp, compute_stats, confusion_matrix, cumulative_sum,
    filter_values, merge_results, process_data, range_check, rolling_window, transform_values,
};
pub use numeric::number_theory::{
    divisor_count, divisor_sum, euler_totient, gcd, is_abundant, is_coprime, is_deficient,
    is_perfect, is_prime, lcm, modular_inverse, prime_factors, sieve_of_eratosthenes,
};
pub use numeric::combinatorics::{
    bell_number, combinations, eulerian_number, factorial, fibonacci, hexagonal_number,
    is_triangle_number, partitions, partitions_gen, pentagonal_number, permutations,
    stirling_second, sum_of_cubes, sum_of_squares, triangle_number,
};
pub use numeric::digits::{
    digits, format_number, is_armstrong, is_harshad, is_palindrome, parse_number,
    reverse_number, sum_of_digits,
};
pub use numeric::bits::{bit_count, is_power_of_2, next_power_of_2};
pub use numeric::strings::{
    boyer_moore_search, edit_distance, kmp_search, levenshtein_distance,
    longest_common_subsequence, longest_common_substring, rabin_karp_search,
};
