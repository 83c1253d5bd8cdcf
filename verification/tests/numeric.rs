use garuda::numeric::combinatorics::{
    bell_number, combinations, eulerian_number, factorial, fibonacci, hexagonal_number,
    is_triangle_number, partitions, partitions_gen, pentagonal_number, permutations,
    stirling_second, sum_of_cubes, sum_of_squares, triangle_number,
};
use garuda::numeric::digits::{
    digits, format_number, is_armstrong, is_harshad, is_palindrome, parse_number, reverse_number,
    sum_of_digits,
};
use garuda::numeric::number_theory::{
    divisor_count, divisor_sum, euler_totient, gcd, is_abundant, is_coprime, is_deficient,
    is_perfect, is_prime, lcm, modular_inverse, prime_factors, sieve_of_eratosthenes,
};
use garuda::numeric::bits::{bit_count, is_power_of_2, next_power_of_2};
use garuda::numeric::strings::{
    boyer_moore_search, edit_distance, kmp_search, levenshtein_distance,
    longest_common_subsequence, longest_common_substring, rabin_karp_search,
};

#[test]
fn gcd_uses_absolute_values() {
    assert_eq!(gcd(48, 18), 6);
    assert_eq!(gcd(-48, 18), 6);
    assert_eq!(gcd(-12, -18), 6);
    assert_eq!(gcd(7, 0), 7);
    assert_eq!(gcd(0, -5), 5);
    assert_eq!(gcd(0, 0), 0);
    assert_eq!(gcd(i64::MIN, 2), 2);
}

#[test]
fn gcd_divides_both_arguments() {
    for (a, b) in [(84i64, 36i64), (-35, 21), (17, 5), (0, 9)] {
        let g = gcd(a, b);
        assert_eq!(a % g, 0);
        assert_eq!(b % g, 0);
    }
}

#[test]
fn lcm_and_coprime() {
    assert_eq!(lcm(4, 6), 12);
    assert_eq!(lcm(-4, 6), 12);
    assert_eq!(lcm(0, 5), 0);
    assert!(is_coprime(8, 15));
    assert!(!is_coprime(8, 12));
}

#[test]
fn primality_by_trial_division() {
    let small: Vec<i64> = (-2..40).filter(|&n| is_prime(n)).collect();
    assert_eq!(small, vec![2, 3, 5, 7, 11, 13, 17, 19, 23, 29, 31, 37]);
    assert!(is_prime(7919));
    assert!(!is_prime(7917));
    assert!(!is_prime(1));
    assert!(!is_prime(25));
}

#[test]
fn prime_factors_keep_one_two_and_odd_multiplicities() {
    assert_eq!(prime_factors(12), vec![2, 3]);
    assert_eq!(prime_factors(45), vec![3, 3, 5]);
    assert_eq!(prime_factors(-360), vec![2, 3, 3, 5]);
    assert_eq!(prime_factors(97), vec![97]);
    assert_eq!(prime_factors(1), Vec::<i64>::new());
    assert_eq!(prime_factors(1024), vec![2]);
    assert_eq!(prime_factors(2 * 2 * 3 * 3 * 3 * 5 * 7 * 7 * 11), vec![2, 3, 3, 3, 5, 7, 7, 11]);
}

#[test]
fn sieve_lists_primes() {
    assert_eq!(sieve_of_eratosthenes(30), vec![2, 3, 5, 7, 11, 13, 17, 19, 23, 29]);
    assert_eq!(sieve_of_eratosthenes(1), Vec::<usize>::new());
    assert_eq!(sieve_of_eratosthenes(2), vec![2]);
    assert_eq!(sieve_of_eratosthenes(49).len(), 15);
}

#[test]
fn modular_inverse_solves_congruence() {
    assert_eq!(modular_inverse(3, 11), Some(4));
    assert_eq!(modular_inverse(10, 17), Some(12));
    assert_eq!(modular_inverse(6, 9), None);
    assert_eq!(modular_inverse(7, 1), Some(0));
    let x = modular_inverse(10, 17).unwrap();
    assert_eq!((10 * x) % 17, 1);
}

#[test]
fn divisor_functions() {
    assert_eq!(euler_totient(1), 1);
    assert_eq!(euler_totient(9), 6);
    assert_eq!(euler_totient(36), 12);
    assert_eq!(euler_totient(97), 96);
    assert_eq!(euler_totient(100), 40);
    assert_eq!(euler_totient(0), 0);
    assert_eq!(divisor_count(1), 1);
    assert_eq!(divisor_count(12), 6);
    assert_eq!(divisor_count(36), 9);
    assert_eq!(divisor_count(360), 24);
    assert_eq!(divisor_count(-4), 0);
    assert_eq!(divisor_sum(1), 1);
    assert_eq!(divisor_sum(6), 12);
    assert_eq!(divisor_sum(16), 31);
    assert_eq!(divisor_sum(28), 56);
    assert_eq!(divisor_sum(-3), 0);
}

#[test]
fn divisor_count_counts_divisors() {
    for n in 1i64..=300 {
        let expected = (1..=n).filter(|d| n % d == 0).count() as i64;
        assert_eq!(divisor_count(n), expected, "n = {}", n);
    }
}

#[test]
fn totient_counts_coprime_numbers() {
    for n in 1i64..=300 {
        let expected = (1..=n).filter(|k| gcd(*k, n) == 1).count() as i64;
        assert_eq!(euler_totient(n), expected, "n = {}", n);
    }
}

#[test]
fn perfect_abundant_deficient() {
    assert!(is_perfect(6));
    assert!(is_perfect(28));
    assert!(!is_perfect(12));
    // the divisor sum counts the number itself
    assert!(is_abundant(12));
    assert!(is_abundant(13));
    assert!(!is_abundant(1));
    assert!(!is_deficient(13));
    assert!(!is_deficient(1));
    assert!(!is_deficient(0));
}

#[test]
fn factorial_and_fibonacci() {
    assert_eq!(factorial(0), 1);
    assert_eq!(factorial(10), 3_628_800);
    assert_eq!(factorial(20), 2_432_902_008_176_640_000);
    assert_eq!(fibonacci(0), 0);
    assert_eq!(fibonacci(1), 1);
    assert_eq!(fibonacci(10), 55);
    assert_eq!(fibonacci(93), 12_200_160_415_121_876_738);
}

#[test]
fn binomials_and_arrangements() {
    assert_eq!(combinations(5, 2), 10);
    assert_eq!(combinations(10, 3), 120);
    assert_eq!(combinations(52, 5), 2_598_960);
    assert_eq!(combinations(3, 5), 0);
    assert_eq!(combinations(0, 0), 1);
    assert_eq!(combinations(60, 30), 118_264_581_564_861_424);
    assert_eq!(combinations(10, 7), combinations(10, 3));
    assert_eq!(permutations(5, 2), 20);
    assert_eq!(permutations(10, 3), 720);
    assert_eq!(permutations(3, 5), 0);
    assert_eq!(permutations(4, 0), 1);
}

#[test]
fn figurate_numbers() {
    assert_eq!(triangle_number(4), 10);
    assert_eq!(triangle_number(-3), 3);
    assert_eq!(sum_of_squares(3), 14);
    assert_eq!(sum_of_squares(10), 385);
    assert_eq!(sum_of_squares(-2), -1);
    assert_eq!(sum_of_cubes(3), 36);
    assert_eq!(sum_of_cubes(10), 3025);
    assert_eq!(sum_of_cubes(10), (1..=10).map(|k: i64| k * k * k).sum::<i64>());
    assert_eq!(pentagonal_number(4), 22);
    assert_eq!(pentagonal_number(-2), 7);
    assert_eq!(hexagonal_number(3), 15);
    let triangles: Vec<i64> = (-3..30).filter(|&n| is_triangle_number(n)).collect();
    assert_eq!(triangles, vec![0, 1, 3, 6, 10, 15, 21, 28]);
}

#[test]
fn stirling_eulerian_bell_partitions() {
    assert_eq!(stirling_second(5, 2), 15);
    assert_eq!(stirling_second(5, 3), 25);
    assert_eq!(stirling_second(10, 4), 34_105);
    assert_eq!(stirling_second(4, 0), 1);
    assert_eq!(stirling_second(4, 4), 1);
    assert_eq!(stirling_second(3, 5), 0);
    assert_eq!(eulerian_number(4, 0), 6);
    assert_eq!(eulerian_number(4, 1), 11);
    assert_eq!(eulerian_number(5, 2), 35);
    assert_eq!(eulerian_number(4, 4), 0);
    assert_eq!(eulerian_number(1, 0), 1);
    assert_eq!(bell_number(0), 1);
    assert_eq!(bell_number(5), 0);
    assert_eq!(bell_number(20), 0);
    assert_eq!(partitions(5), 7);
    assert_eq!(partitions(10), 42);
    assert_eq!(partitions_gen(10), vec![1, 1, 2, 3, 5, 7, 11, 15, 22, 30, 42]);
}

#[test]
fn numerals_in_bases() {
    assert_eq!(format_number(255, 16), "ff");
    assert_eq!(format_number(10, 2), "1010");
    assert_eq!(format_number(35, 36), "z");
    assert_eq!(format_number(0, 10), "0");
    assert_eq!(format_number(-5, 10), "");
    assert_eq!(format_number(299, 300), "\u{82}");
    assert_eq!(format_number(23, usize::MAX - 9), "3");
    assert_eq!(format_number(7, usize::MAX), "0");
    assert_eq!(parse_number("ff", 16), Some(255));
    assert_eq!(parse_number("FF", 16), Some(255));
    assert_eq!(parse_number("zz", 36), Some(1295));
    assert_eq!(parse_number("1010", 2), Some(10));
    assert_eq!(parse_number("12a", 10), None);
    assert_eq!(parse_number("-1", 10), None);
    assert_eq!(parse_number("", 10), Some(0));
    assert_eq!(parse_number(&format_number(123_456, 7), 7), Some(123_456));
}

#[test]
fn decimal_digit_functions() {
    assert_eq!(digits(-12345), 5);
    assert_eq!(digits(0), 1);
    assert_eq!(sum_of_digits(-123), 6);
    assert!(is_harshad(18));
    assert!(!is_harshad(19));
    assert!(!is_harshad(0));
    assert!(is_armstrong(153));
    assert!(is_armstrong(9474));
    assert!(is_armstrong(0));
    assert!(!is_armstrong(10));
    assert!(is_palindrome(12321));
    assert!(is_palindrome(-121));
    assert!(!is_palindrome(10));
    assert_eq!(reverse_number(123), 321);
    assert_eq!(reverse_number(-120), -21);
    assert_eq!(reverse_number(0), 0);
    assert_eq!(reverse_number(8_999_999_999_999_999_999), 0);
}

#[test]
fn bit_functions() {
    assert!(is_power_of_2(1));
    assert!(is_power_of_2(64));
    assert!(is_power_of_2(1 << 62));
    assert!(!is_power_of_2(0));
    assert!(!is_power_of_2(-8));
    assert!(!is_power_of_2(6));
    assert_eq!(next_power_of_2(0), 1);
    assert_eq!(next_power_of_2(-5), 1);
    assert_eq!(next_power_of_2(1), 1);
    assert_eq!(next_power_of_2(5), 8);
    assert_eq!(next_power_of_2(64), 64);
    assert_eq!(next_power_of_2(65), 128);
    assert_eq!(next_power_of_2(1 << 62), 1 << 62);
    assert_eq!(next_power_of_2((1 << 62) + 1), i64::MIN);
    assert_eq!(bit_count(0), 0);
    assert_eq!(bit_count(7), 3);
    assert_eq!(bit_count(-1), 64);
    assert_eq!(bit_count(i64::MIN), 1);
}

#[test]
fn string_measures_and_searches() {
    assert_eq!(levenshtein_distance("kitten", "sitting"), 7);
    assert_eq!(levenshtein_distance("h\u{e9}llo", ""), 6);
    assert_eq!(edit_distance("ab", "abcd"), 4);
    assert_eq!(longest_common_subsequence("abc", "abd"), "");
    assert_eq!(longest_common_substring("abc", "abd"), "");
    assert!(kmp_search("abcabc", "abc").is_empty());
    assert!(boyer_moore_search("abcabc", "abc").is_empty());
    assert!(rabin_karp_search("abcabc", "abc").is_empty());
}
