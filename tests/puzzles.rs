use advent_kit::list_distance;
use advent_kit::reports;
use advent_kit::similarity;
use advent_kit::word_search;
use advent_kit::word_search::neighborhood;
use advent_kit::word_search::next_char_in_xmas;
use advent_kit::word_search::search;

fn grid(rows: &[&str]) -> Vec<Vec<char>> {
    rows.iter().map(|r| r.to_owned().chars().collect()).collect()
}

#[test]
fn test_example() {
    let raw_input = vec![(3, 4), (4, 3), (2, 5), (1, 3), (3, 9), (3, 3)];
    let result = list_distance::run(&raw_input);
    assert_eq!(11, result);
}

#[test]
fn test_example_day1_part2() {
    let raw_input = vec![(3, 4), (4, 3), (2, 5), (1, 3), (3, 9), (3, 3)];
    let result = similarity::run(&raw_input);
    assert_eq!(31, result);
}

#[test]
fn main_test_example_day2_part1() {
    let raw_input = vec![
        vec![7, 6, 4, 2, 1],
        vec![1, 2, 7, 8, 9],
        vec![9, 7, 6, 2, 1],
        vec![1, 3, 2, 4, 5],
        vec![8, 6, 4, 4, 1],
        vec![1, 3, 6, 7, 9],
    ];
    let result = reports::run(&raw_input);
    assert_eq!(2, result);
}

#[test]
fn test_example_day2_part1() {
    let raw_input = grid(&[
        "MMMSXXMASM",
        "MSAMXMSMSA",
        "AMXSXMAAMM",
        "MSAMASMSMX",
        "XMASAMXAMM",
        "XXAMMXXAMA",
        "SMSMSASXSS",
        "SAXAMASAAA",
        "MAMMMXMMMM",
        "MXMXAXMASX",
    ]);
    let result = word_search::run(&raw_input);
    assert_eq!(18, result);
}

#[test]
fn test_neighbourhood() {
    assert_eq!(
        vec![(-1, -1), (-1, 0), (-1, 1), (0, -1), (0, 1), (1, -1), (1, 0), (1, 1)],
        neighborhood()
    );
}

#[test]
fn list_distance_empty_is_zero() {
    assert_eq!(0, list_distance::run(&vec![]));
}

#[test]
fn list_distance_pairs_after_sorting() {
    // sorted: [1, 5, 10] and [2, 2, 20] -> 1 + 3 + 10
    assert_eq!(14, list_distance::run(&vec![(10, 2), (1, 20), (5, 2)]));
}

#[test]
fn similarity_without_common_values_is_zero() {
    assert_eq!(0, similarity::run(&vec![(1, 2), (3, 4)]));
}

#[test]
fn similarity_counts_repeats() {
    // 7 occurs three times on the right, and twice on the left
    assert_eq!(42, similarity::run(&vec![(7, 7), (7, 7), (1, 7)]));
}

#[test]
fn reports_edge_cases() {
    let raw_input = vec![vec![], vec![5], vec![1, 4], vec![1, 5], vec![3, 3], vec![9, 6, 3]];
    // empty, single, +3, +4 (too far), equal, -3 -3
    assert_eq!(4, reports::run(&raw_input));
}

#[test]
fn next_char_follows_xmas() {
    assert_eq!(Some('M'), next_char_in_xmas('X'));
    assert_eq!(Some('A'), next_char_in_xmas('M'));
    assert_eq!(Some('S'), next_char_in_xmas('A'));
    assert_eq!(None, next_char_in_xmas('S'));
    assert_eq!(None, next_char_in_xmas('q'));
}

#[test]
fn search_follows_one_direction() {
    let g = grid(&["XMAS", "....", "SAMX"]);
    assert_eq!(1, search(&g, 'X', 0, 0, 0, 1, 3, 4));
    assert_eq!(0, search(&g, 'X', 0, 0, 1, 0, 3, 4));
    assert_eq!(1, search(&g, 'X', 2, 3, 0, -1, 3, 4));
    assert_eq!(0, search(&g, 'X', 0, 3, 0, 1, 3, 4));
    assert_eq!(0, search(&g, 'X', -1, 0, 0, 1, 3, 4));
}

#[test]
fn word_search_counts_all_directions() {
    let g = grid(&["XMAS", "MM..", "A.A.", "S..S"]);
    // right, down, and the diagonal
    assert_eq!(3, word_search::run(&g));
}

#[test]
fn word_search_single_cell() {
    assert_eq!(0, word_search::run(&grid(&["X"])));
}
