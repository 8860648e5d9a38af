use today_puzzle::bitboard::BitBoard;
use today_puzzle::board::Solution;
use today_puzzle::date::CalendarDate;
use today_puzzle::variants::{
    weekday_bitboard_from_date, PuzzleKind, BITBOARD_STANDARD, BITBOARD_TETROMINO, CreaMakerspace, DragonFjord, JarringWords, Tetromino, Variant,
    Weekday,
};

fn test_date() -> CalendarDate {
    CalendarDate::from_ymd(2020, 12, 1).unwrap()
}

fn ymd(year: i32, month: u32, day: u32) -> CalendarDate {
    CalendarDate::from_ymd(year, month, day).unwrap()
}

fn assert_solution(solution: Solution, range: impl Iterator<Item = char>) {
    for letter in range {
        assert!(
            solution.to_string().contains(letter),
            "\n{}\nsolution missing piece {letter}",
            solution.to_string()
        )
    }
}

#[test]
fn dragon_fjord() {
    let solution = DragonFjord::solve_once(&test_date()).expect("did not find solution");
    assert_solution(solution, 'A'..='H')
}

#[test]
fn jarring_words() {
    let solution = JarringWords::solve_once(&test_date()).expect("did not find solution");
    assert_solution(solution, 'A'..='H')
}

#[test]
fn crea_makerspace() {
    let solution = CreaMakerspace::solve_once(&test_date()).expect("did not find solution");
    assert_solution(solution, 'A'..='H')
}

#[test]
fn tetromino() {
    let solution = Tetromino::solve_once(&test_date()).expect("did not find solution");
    assert_solution(solution, 'A'..='I')
}

#[test]
fn weekday() {
    let solution = Weekday::solve_once(&test_date()).expect("did not find solution");
    assert_solution(solution, 'A'..='J')
}

#[test]
fn weekday_board() {
    assert_eq!(
        !weekday_bitboard_from_date(&ymd(2022, 1, 8)),
        BitBoard(0x8000008000000002)
    ); // Sat
    assert_eq!(
        !weekday_bitboard_from_date(&ymd(2020, 1, 8)),
        BitBoard(0x8000008000000200)
    ); // Wed
}

#[test]
fn dragon_fjord_letters_stop_at_h() {
    let solution = DragonFjord::solve_once(&test_date()).expect("did not find solution");
    let text = solution.to_string();
    for letter in 'I'..='Z' {
        assert!(!text.contains(letter));
    }
    assert_eq!(text.chars().filter(|c| c.is_ascii_uppercase()).count(), 64 - 23);
}

/// Union of the blocked cells and the pieces, checking that no two overlap.
fn cover(blocked: u64, solution: &Solution) -> u64 {
    let mut all = blocked;
    for piece in &solution.0 {
        assert_eq!(all & piece.0, 0, "pieces overlap");
        all |= piece.0;
    }
    all
}

#[test]
fn first_solutions_cover_the_board() {
    // Every day of a leap year.
    let days_in_month = [31, 29, 31, 30, 31, 30, 31, 31, 30, 31, 30, 31];
    for (m, &days) in days_in_month.iter().enumerate() {
        for day in 1..=days {
            let date = ymd(2020, m as u32 + 1, day);
            let board = DragonFjord::board(&date);
            let solution = DragonFjord::solve_once(&date).expect("did not find solution");
            assert_eq!(solution.0.len(), 8);
            assert_eq!(cover(board.combined.0, &solution), u64::MAX);
        }
    }
}

#[test]
fn repeated_search_gives_the_same_first_solution() {
    let date = ymd(2020, 3, 17);
    let first = DragonFjord::solve_once(&date);
    let second = DragonFjord::solve_once(&date);
    assert!(first.is_some());
    assert_eq!(first, second);
}

#[test]
fn board_of_a_date_leaves_month_and_day_open() {
    let board = DragonFjord::board(&ymd(2020, 12, 1));
    // December is row 1, column 5; the 1st is row 2, column 0.
    let date_cells = (1u64 << (63 - 13)) | (1u64 << (63 - 16));
    assert_eq!(board.combined.0, BITBOARD_STANDARD | date_cells);
    assert_eq!(board.combined.0.count_ones(), 23);
    assert_eq!(board.piece_count, 0);
}

#[test]
fn tetromino_board_moves_the_last_days() {
    let board = Tetromino::board(&ymd(2021, 1, 30));
    // The 30th stands in row 6, column 5 of the Tetromino board.
    assert_eq!(board.combined.0, BITBOARD_TETROMINO | (1u64 << 63) | (1u64 << (63 - 53)));
    let board = Tetromino::board(&ymd(2021, 1, 28));
    assert_eq!(board.combined.0, BITBOARD_TETROMINO | (1u64 << 63) | (1u64 << (63 - 46)));
}

#[test]
fn weekday_from_chrono() {
    assert_eq!(ymd(2022, 1, 8).weekday, 6);
    assert_eq!(ymd(2020, 1, 8).weekday, 3);
    assert_eq!(ymd(2020, 12, 1).weekday, 2);
    assert_eq!(ymd(2023, 1, 1).weekday, 0);
}

#[test]
fn invalid_dates_are_refused() {
    assert!(CalendarDate::from_ymd(2021, 2, 29).is_none());
    assert!(CalendarDate::from_ymd(2020, 2, 29).is_some());
    assert!(CalendarDate::from_ymd(2020, 13, 1).is_none());
    assert!(CalendarDate::from_ymd(2020, 4, 31).is_none());
    assert!(CalendarDate::from_ymd(2020, 1, 0).is_none());
    assert!(CalendarDate::from_ymd(262143, 1, 1).is_none());
    assert!(CalendarDate::from_ymd(262142, 1, 1).is_some());
}

#[test]
fn puzzle_kind_by_index() {
    assert_eq!(PuzzleKind::from_index(0), Some(PuzzleKind::DragonFjord));
    assert_eq!(PuzzleKind::from_index(3), Some(PuzzleKind::Tetromino));
    assert_eq!(PuzzleKind::from_index(4), Some(PuzzleKind::Weekday));
    assert_eq!(PuzzleKind::from_index(5), None);
}

#[test]
fn puzzle_kind_solves_like_its_variant() {
    let date = ymd(2021, 7, 4);
    let first = PuzzleKind::Weekday.solve(&date, true);
    assert_eq!(first.len(), 1);
    assert_eq!(Some(first[0].clone()), Weekday::solve_once(&date));
    let first = PuzzleKind::CreaMakerspace.solve(&date, true);
    assert_eq!(Some(first[0].clone()), CreaMakerspace::solve_once(&date));
}
