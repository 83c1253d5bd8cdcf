use garuda::chess::{Color, GameStatus, Position};
use garuda::cli::{match_over, play_engine_move, EngineMoveError};
use garuda::cli::{
    civil_from_days, format_pgn_moves, format_pgn_result, format_status, parse_color,
    parse_optional_plies_arg, parse_u64_arg, parse_usize_arg, summarize_bo_result,
};
use garuda::numeric::series::{
    aggregate, analyze, batch_process, clamp, compute_stats, confusion_matrix, cumulative_sum,
    filter_values, merge_results, process_data, range_check, rolling_window, transform_values,
};
use garuda::rng::XorShift64;

fn double_plus_one(x: i64) -> i64 {
    x * 2 + 1
}

#[test]
fn element_wise_maps() {
    assert_eq!(analyze(21), 42);
    assert_eq!(garuda::analysis_mod::analyze(-4), -8);
    assert_eq!(process_data(&[1, -1, 41]), vec![2, 0, 42]);
    assert_eq!(transform_values(&[1, 2, 3], |x| x * 10), vec![10, 20, 30]);
    assert_eq!(transform_values(&[0, 5], double_plus_one), vec![1, 11]);
    assert_eq!(filter_values(&[1, 5, 3, 7], 3), vec![5, 7]);
    assert!(filter_values(&[1, 2], 9).is_empty());
}

#[test]
fn stats_sums_and_windows() {
    assert_eq!(compute_stats(&[4, -2, 7]), (9, -2, 7));
    assert_eq!(compute_stats(&[]), (0, 0, 0));
    assert_eq!(cumulative_sum(&[1, 2, 3]), vec![1, 3, 6]);
    assert_eq!(rolling_window(&[1, 2, 3, 4], 2), vec![3, 5, 7]);
    assert!(rolling_window(&[1, 2, 3, 4], 0).is_empty());
    assert!(rolling_window(&[1, 2, 3, 4], 5).is_empty());
    assert_eq!(rolling_window(&[1, 2, 3], 3), vec![6]);
}

#[test]
fn aggregate_by_operation_name() {
    assert_eq!(aggregate(&[3, 1, 2], "sum"), 6);
    assert_eq!(aggregate(&[3, 1, 2], "min"), 1);
    assert_eq!(aggregate(&[3, 1, 2], "max"), 3);
    assert_eq!(aggregate(&[3, 1, 2], "avg"), 2);
    assert_eq!(aggregate(&[-7, 0], "avg"), -3);
    assert_eq!(aggregate(&[3, 1, 2], "median"), 0);
    assert_eq!(aggregate(&[], "min"), 0);
    assert_eq!(aggregate(&[], "avg"), 0);
}

#[test]
fn ranges_and_clamping() {
    assert!(range_check(3, 1, 5));
    assert!(!range_check(6, 1, 5));
    assert_eq!(clamp(5, 0, 3), 3);
    assert_eq!(clamp(-1, 0, 3), 0);
    assert_eq!(clamp(2, 0, 3), 2);
    assert_eq!(clamp(5, 10, 3), 10);
}

#[test]
fn merging_and_batching() {
    assert_eq!(merge_results(&[3, 1, 3], &[2, 1]), vec![1, 2, 3]);
    assert!(merge_results(&[], &[]).is_empty());
    assert_eq!(batch_process(&[1, 2, 3, 4, 5], 2), vec![vec![1, 2], vec![3, 4], vec![5]]);
    assert_eq!(batch_process(&[1, 2, 3, 4], 2), vec![vec![1, 2], vec![3, 4]]);
    assert!(batch_process(&[], 3).is_empty());
    assert_eq!(confusion_matrix(&[1], &[1], 3), vec![vec![0; 3]; 3]);
}

#[test]
fn colors_and_statuses_from_the_command_line() {
    assert_eq!(parse_color("w"), Ok(Color::White));
    assert_eq!(parse_color("white"), Ok(Color::White));
    assert_eq!(parse_color("b"), Ok(Color::Black));
    assert_eq!(parse_color("black"), Ok(Color::Black));
    assert_eq!(parse_color("x"), Err("invalid color: x".to_string()));
    assert_eq!(format_status(GameStatus::Ongoing), "ongoing");
    assert_eq!(format_status(GameStatus::Checkmate { loser: Color::Black }), "checkmate:black-loses");
    assert_eq!(
        format_status(GameStatus::Stalemate { side_to_move: Color::White }),
        "stalemate:white-to-move"
    );
    assert_eq!(format_status(GameStatus::DrawByFiftyMoveRule), "draw:fifty-move-rule");
    assert_eq!(format_status(GameStatus::DrawByRepetition), "draw:threefold-repetition");
    assert_eq!(format_pgn_result(GameStatus::Checkmate { loser: Color::White }), "0-1");
    assert_eq!(format_pgn_result(GameStatus::Checkmate { loser: Color::Black }), "1-0");
    assert_eq!(format_pgn_result(GameStatus::DrawByRepetition), "1/2-1/2");
}

#[test]
fn numeric_arguments() {
    assert_eq!(parse_usize_arg(Some("42".to_string()), 7), 42);
    assert_eq!(parse_usize_arg(Some("+5".to_string()), 7), 5);
    assert_eq!(parse_usize_arg(Some("abc".to_string()), 7), 7);
    assert_eq!(parse_usize_arg(Some("".to_string()), 7), 7);
    assert_eq!(parse_usize_arg(None, 7), 7);
    assert_eq!(parse_u64_arg(Some("18446744073709551615".to_string()), 1), u64::MAX);
    assert_eq!(parse_u64_arg(Some("18446744073709551616".to_string()), 1), 1);
    assert_eq!(parse_optional_plies_arg(Some("0".to_string()), Some(3)), None);
    assert_eq!(parse_optional_plies_arg(Some("12".to_string()), Some(3)), Some(12));
    assert_eq!(parse_optional_plies_arg(Some("x".to_string()), Some(3)), Some(3));
    assert_eq!(parse_optional_plies_arg(None, None), None);
}

#[test]
fn pgn_move_text() {
    let moves = vec!["e4".to_string(), "e5".to_string(), "Nf3".to_string()];
    assert_eq!(format_pgn_moves(&moves, "1-0"), "1. e4 e5 2. Nf3 1-0");
    assert_eq!(format_pgn_moves(&[], "1/2-1/2"), "1/2-1/2");
}

#[test]
fn civil_dates() {
    assert_eq!(civil_from_days(0), "1970.01.01");
    assert_eq!(civil_from_days(19_723), "2024.01.01");
    assert_eq!(civil_from_days(-1), "1969.12.31");
    assert_eq!(civil_from_days(11_016), "2000.02.29");
    assert_eq!(civil_from_days(-719_468), "0000.03.01");
    assert_eq!(civil_from_days(-800_000), "-221.09.04");
    assert_eq!(civil_from_days(2_932_896), "9999.12.31");
    assert_eq!(civil_from_days(3_000_000), "10183.09.21");
}

#[test]
fn match_tally() {
    let (mut garuda_wins, mut uci_wins, mut draws) = (0usize, 0usize, 0usize);
    let mate_white = GameStatus::Checkmate { loser: Color::White };
    assert_eq!(
        summarize_bo_result(mate_white, Color::White, &mut garuda_wins, &mut uci_wins, &mut draws),
        "uci-win"
    );
    assert_eq!(
        summarize_bo_result(mate_white, Color::Black, &mut garuda_wins, &mut uci_wins, &mut draws),
        "garuda-win"
    );
    assert_eq!(
        summarize_bo_result(GameStatus::Ongoing, Color::Black, &mut garuda_wins, &mut uci_wins, &mut draws),
        "draw"
    );
    assert_eq!((garuda_wins, uci_wins, draws), (1, 1, 1));
}

#[test]
fn xorshift_sequence() {
    let mut rng = XorShift64::new(1);
    assert_eq!(rng.next_u64(), 1_082_269_761);
    assert_eq!(rng.next_u64(), 1_152_992_998_833_853_505);
    assert_eq!(rng.next_u64(), 11_177_516_664_432_764_457);
    let mut zero = XorShift64::new(0);
    let mut one = XorShift64::new(1);
    assert_eq!(zero.next_u64(), one.next_u64());
}

#[test]
fn engine_moves_are_played_by_their_uci_text() {
    let start = Position::starting_position();
    let mut history = vec![start.repetition_key()];
    let (next, san) = play_engine_move(&start, "g1f3", &mut history).unwrap();
    assert_eq!(san, "Nf3");
    assert_eq!(next.to_fen(), "rnbqkbnr/pppppppp/8/8/8/5N2/PPPPPPPP/RNBQKB1R b KQkq - 1 1");
    assert_eq!(history, vec![start.repetition_key(), next.repetition_key()]);
    assert_eq!(play_engine_move(&next, "e2e4", &mut history).err(), Some(EngineMoveError::Illegal));
    assert_eq!(play_engine_move(&next, "E7E5", &mut history).err(), Some(EngineMoveError::Illegal));
    assert_eq!(history.len(), 2);
    assert!(!match_over(&next, &history, 1, None));
    assert!(match_over(&next, &history, 1, Some(1)));
    let mate = Position::from_fen("7k/6Q1/6K1/8/8/8/8/8 b - - 0 1").unwrap();
    assert!(match_over(&mate, &[mate.repetition_key()], 0, None));
}
