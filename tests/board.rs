use sudoku::{CreateSudokuError, PopulateError, Sudoku, SudokuSecIter};

const SOLVED_4X4: &str = "1 2 3 4\n3 4 1 2\n2 1 4 3\n4 3 2 1";

fn classic() -> Sudoku {
    let mut s = Sudoku::new(9, 3, 3).unwrap();
    s.populate_from_str(
        "_ _ 3 _ 2 _ 6 _ _\n9 _ _ 3 _ 5 _ _ 1\n_ _ 1 8 _ 6 4 _ _\n_ _ 8 1 _ 2 9 _ _\n7 _ _ _ _ _ _ _ 8\n_ _ 6 7 _ 8 2 _ _\n_ _ 2 6 _ 9 5 _ _\n8 _ _ 2 _ 3 _ _ 9\n_ _ 5 _ 1 _ 3 _ _",
    )
    .unwrap();
    s
}

#[test]
fn construction_succeeds_on_valid_dimensions() {
    for (size, w, h) in [(1, 1, 1), (4, 2, 2), (6, 3, 2), (6, 2, 3), (9, 3, 3), (12, 4, 3), (5, 5, 1)] {
        let s = Sudoku::new(size, w, h).unwrap();
        assert_eq!(s.size(), size);
        assert_eq!(s.sec_width(), w);
        assert_eq!(s.sec_height(), h);
        assert_eq!(s.width(), size);
        assert_eq!(s.height(), size);
        for row in 0..size {
            for col in 0..size {
                assert_eq!(s.get(col, row), None);
            }
        }
    }
}

#[test]
fn construction_errors_in_order() {
    assert_eq!(Sudoku::new(0, 0, 0).err(), Some(CreateSudokuError::InvalidSize));
    assert_eq!(Sudoku::new(0, 3, 3).err(), Some(CreateSudokuError::InvalidSize));
    assert_eq!(Sudoku::new(9, 0, 0).err(), Some(CreateSudokuError::InvalidSecWidth));
    assert_eq!(Sudoku::new(9, 0, 3).err(), Some(CreateSudokuError::InvalidSecWidth));
    assert_eq!(Sudoku::new(9, 3, 0).err(), Some(CreateSudokuError::InvalidSecHeight));
    assert_eq!(Sudoku::new(9, 3, 2).err(), Some(CreateSudokuError::InvalidCombination));
    assert_eq!(Sudoku::new(9, 9, 9).err(), Some(CreateSudokuError::InvalidCombination));
    assert_eq!(
        Sudoku::new(4, usize::MAX, 2).err(),
        Some(CreateSudokuError::InvalidCombination)
    );
}

#[test]
fn error_messages() {
    assert_eq!(CreateSudokuError::InvalidSize.message(), "'size' must be a positive integer");
    assert_eq!(
        CreateSudokuError::InvalidSecWidth.message(),
        "'sec_width' must be a positive integer"
    );
    assert_eq!(
        CreateSudokuError::InvalidSecHeight.message(),
        "'sec_height' must be a positive integer"
    );
    assert_eq!(
        CreateSudokuError::InvalidCombination.message(),
        "'size' must be equal to 'sec_width' * 'sec_height'"
    );
}

#[test]
fn set_then_get() {
    let mut s = Sudoku::new(4, 2, 2).unwrap();
    s.set(3, 1, Some(4));
    assert_eq!(s.get(3, 1), Some(4));
    assert_eq!(s.get(1, 3), None);
    s.set(0, 0, Some(1));
    assert_eq!(s.get(0, 0), Some(1));
    assert_eq!(s.get(3, 1), Some(4));
    s.set(3, 1, None);
    assert_eq!(s.get(3, 1), None);
    assert_eq!(s.get(0, 0), Some(1));
}

#[test]
fn rows_and_columns_are_index_ranges() {
    let s = Sudoku::new(6, 3, 2).unwrap();
    assert_eq!(s.rows(), vec![0, 1, 2, 3, 4, 5]);
    assert_eq!(s.columns(), vec![0, 1, 2, 3, 4, 5]);
}

#[test]
fn views_of_a_corner_section() {
    let s = classic();
    assert_eq!(
        s.sec_iter(8, 8).collect(),
        vec![Some(5), None, None, None, None, Some(9), Some(3), None, None]
    );
    assert_eq!(
        s.sec_iter(0, 0).collect(),
        vec![None, None, Some(3), Some(9), None, None, None, None, Some(1)]
    );
    assert_eq!(
        s.row_iter(0),
        vec![None, None, Some(3), None, Some(2), None, Some(6), None, None]
    );
    assert_eq!(
        s.col_iter(8),
        vec![None, Some(1), None, None, Some(8), None, None, Some(9), None]
    );
}

#[test]
fn rectangular_sections() {
    let mut s = Sudoku::new(6, 3, 2).unwrap();
    s.populate_from_str("1 2 3 4 5 6\n4 5 6 1 2 3\n2 3 1 5 6 4\n5 6 4 2 3 1\n3 1 2 6 4 5\n6 4 5 3 1 2")
        .unwrap();
    assert_eq!(
        s.sec_iter(4, 3).collect(),
        vec![Some(5), Some(6), Some(4), Some(2), Some(3), Some(1)]
    );
    assert!(s.is_solved());
}

#[test]
fn section_iterator_steps_and_ends() {
    let mut s = Sudoku::new(4, 2, 2).unwrap();
    s.set(2, 2, Some(1));
    s.set(3, 3, Some(2));
    let mut it = SudokuSecIter::new(2, 2, &s);
    assert_eq!(it.next(), Some(Some(1)));
    assert_eq!(it.next(), Some(None));
    assert_eq!(it.next(), Some(None));
    assert_eq!(it.next(), Some(Some(2)));
    assert_eq!(it.next(), None);
    assert_eq!(it.next(), None);
    let it = s.sec_iter(3, 2);
    assert_eq!(it.collect(), vec![Some(1), None, None, Some(2)]);
}

#[test]
fn counts_in_views() {
    let s = classic();
    assert_eq!(s.count_in_row(0, 3), 1);
    assert_eq!(s.count_in_row(0, 9), 0);
    assert_eq!(s.count_in_col(0, 9), 1);
    assert_eq!(s.count_in_col(0, 8), 1);
    assert_eq!(s.count_in_sec(4, 4, 8), 1);
    assert_eq!(s.count_in_sec(4, 4, 4), 0);
    let mut t = Sudoku::new(4, 2, 2).unwrap();
    t.populate_from_str("2 2 2 2\n_ _ _ _\n_ _ _ _\n_ _ _ _").unwrap();
    assert_eq!(t.count_in_row(0, 2), 4);
    assert_eq!(t.count_in_sec(1, 1, 2), 2);
    assert_eq!(t.count_in_col(3, 2), 1);
}

#[test]
fn can_place_where_value_already_stands() {
    let s = classic();
    assert_eq!(s.get(2, 0), Some(3));
    assert!(s.can_place_value(2, 0, 3));
    let mut t = Sudoku::new(4, 2, 2).unwrap();
    t.populate_from_str("1 1 _ _\n_ _ _ _\n_ _ _ _\n_ _ _ _").unwrap();
    assert!(t.can_place_value(0, 0, 1));
    assert!(!t.can_place_value(2, 0, 1));
}

#[test]
fn can_place_checks_row_column_and_section() {
    let s = classic();
    // row 0 holds 3
    assert!(!s.can_place_value(0, 0, 3));
    // column 0 holds 9
    assert!(!s.can_place_value(0, 2, 9));
    // the top-left section holds 1, but row 0 and column 1 do not
    assert!(!s.can_place_value(1, 0, 1));
    assert!(s.can_place_value(0, 0, 5));
    assert!(s.can_place_value(1, 1, 4));
}

#[test]
fn place_if_possible_places_or_leaves_unchanged() {
    let mut s = classic();
    assert_eq!(s.place_if_possible(0, 0, 3), Err(()));
    assert_eq!(s.get(0, 0), None);
    assert_eq!(s.place_if_possible(0, 0, 5), Ok(()));
    assert_eq!(s.get(0, 0), Some(5));
    assert_eq!(s.place_if_possible(0, 0, 5), Ok(()));
    assert_eq!(s.place_if_possible(1, 0, 5), Err(()));
    assert_eq!(s.get(1, 0), None);
}

#[test]
fn solved_boards() {
    let mut s = Sudoku::new(4, 2, 2).unwrap();
    assert!(!s.is_solved());
    s.populate_from_str(SOLVED_4X4).unwrap();
    assert!(s.is_solved());
    s.set(0, 0, None);
    assert!(!s.is_solved());
    let one = {
        let mut b = Sudoku::new(1, 1, 1).unwrap();
        b.set(0, 0, Some(1));
        b
    };
    assert!(one.is_solved());
}

#[test]
fn full_board_with_a_duplicate_is_not_solved() {
    let mut s = Sudoku::new(4, 2, 2).unwrap();
    // every row and column is a permutation, but the sections repeat values
    s.populate_from_str("1 2 3 4\n2 3 4 1\n3 4 1 2\n4 1 2 3").unwrap();
    assert!(!s.is_solved());
}

#[test]
fn populate_reads_tokens_row_by_row() {
    let mut s = Sudoku::new(4, 2, 2).unwrap();
    assert_eq!(s.populate_from_str("  1 _ _ 4\n_\t_ _ _ \r\n_ 3 _ _\n_ _ _ 02"), Ok(()));
    assert_eq!(s.row_iter(0), vec![Some(1), None, None, Some(4)]);
    assert_eq!(s.row_iter(1), vec![None, None, None, None]);
    assert_eq!(s.row_iter(2), vec![None, Some(3), None, None]);
    assert_eq!(s.row_iter(3), vec![None, None, None, Some(2)]);
}

#[test]
fn populate_errors_leave_board_unchanged() {
    let mut s = Sudoku::new(4, 2, 2).unwrap();
    s.set(1, 1, Some(2));
    let cases = [
        ("1 2 3 4\n_ _ _ _\n_ _ _ _", PopulateError::LineCount),
        ("1 2 3 4\n_ _ _ _\n_ _ _ _\n_ _ _ _\n", PopulateError::LineCount),
        ("1 2 3 4\n_ _ _\n_ _ _ _\n_ _ _ _", PopulateError::TokenCount),
        ("1 2 3 4 1\n_ _ _ _\n_ _ _ _\n_ _ _ _", PopulateError::TokenCount),
        ("1 2 x 4\n_ _ _ _\n_ _ _ _\n_ _ _ _", PopulateError::NotANumber),
        ("1 2 __ 4\n_ _ _ _\n_ _ _ _\n_ _ _ _", PopulateError::NotANumber),
        ("1 2 -3 4\n_ _ _ _\n_ _ _ _\n_ _ _ _", PopulateError::NotANumber),
        ("1 2 + 4\n_ _ _ _\n_ _ _ _\n_ _ _ _", PopulateError::NotANumber),
        ("1 2 ++3 4\n_ _ _ _\n_ _ _ _\n_ _ _ _", PopulateError::NotANumber),
        ("1 2 3+ 4\n_ _ _ _\n_ _ _ _\n_ _ _ _", PopulateError::NotANumber),
        ("1 2 5 4\n_ _ _ _\n_ _ _ _\n_ _ _ _", PopulateError::OutOfRange),
        ("1 2 0 4\n_ _ _ _\n_ _ _ _\n_ _ _ _", PopulateError::OutOfRange),
        ("1 2 3 4\n_ _ _ _\n_ _ _ 99999999999999999999\n_ _ _ _", PopulateError::OutOfRange),
        // the first error in reading order wins
        ("1 9 x 4\n_ _ _\n_ _ _ _\n_ _ _ _", PopulateError::OutOfRange),
        ("1 2 3 4\n_ _ _\n_ _ x _\n_ _ _ _", PopulateError::TokenCount),
    ];
    for (text, err) in cases {
        assert_eq!(s.populate_from_str(text), Err(err), "{:?}", text);
        assert_eq!(s.get(1, 1), Some(2));
        assert_eq!(s.get(0, 0), None);
    }
}

#[test]
fn render_small_board() {
    let mut s = Sudoku::new(4, 2, 2).unwrap();
    s.populate_from_str("1 _ _ 4\n_ _ _ _\n_ 3 _ _\n_ _ _ 2").unwrap();
    assert_eq!(
        s.render(),
        "┌─────┬─────┐\n│ 1 ─ │ ─ 4 │\n│ ─ ─ │ ─ ─ │\n├─────┼─────┤\n│ ─ 3 │ ─ ─ │\n│ ─ ─ │ ─ 2 │\n└─────┴─────┘\n"
    );
}

#[test]
fn render_rectangular_sections() {
    let mut s = Sudoku::new(6, 3, 2).unwrap();
    s.set(0, 0, Some(6));
    s.set(5, 5, Some(1));
    assert_eq!(
        s.render(),
        "┌───────┬───────┐\n│ 6 ─ ─ │ ─ ─ ─ │\n│ ─ ─ ─ │ ─ ─ ─ │\n├───────┼───────┤\n│ ─ ─ ─ │ ─ ─ ─ │\n│ ─ ─ ─ │ ─ ─ ─ │\n├───────┼───────┤\n│ ─ ─ ─ │ ─ ─ ─ │\n│ ─ ─ ─ │ ─ ─ 1 │\n└───────┴───────┘\n"
    );
}

#[test]
fn render_two_digit_fields() {
    let mut s = Sudoku::new(12, 4, 3).unwrap();
    s.set(0, 0, Some(12));
    s.set(1, 0, Some(3));
    s.set(4, 1, Some(7));
    let text = s.render();
    let lines: Vec<&str> = text.split('\n').collect();
    assert_eq!(lines.len(), 12 + 4 + 1 + 1);
    assert_eq!(lines[0], "┌─────────────┬─────────────┬─────────────┐");
    assert_eq!(lines[1], "│ 12  3 ── ── │ ── ── ── ── │ ── ── ── ── │");
    assert_eq!(lines[2], "│ ── ── ── ── │  7 ── ── ── │ ── ── ── ── │");
    assert_eq!(lines[4], "├─────────────┼─────────────┼─────────────┤");
    assert_eq!(lines[16], "└─────────────┴─────────────┴─────────────┘");
    assert_eq!(lines[17], "");
}

#[test]
fn render_single_cell() {
    let mut s = Sudoku::new(1, 1, 1).unwrap();
    assert_eq!(s.render(), "┌───┐\n│ ─ │\n└───┘\n");
    s.set(0, 0, Some(1));
    assert_eq!(s.render(), "┌───┐\n│ 1 │\n└───┘\n");
}

#[test]
fn render_then_reparse_gives_the_same_values() {
    let s = classic();
    let text = s.render();
    let rows: Vec<String> = text
        .lines()
        .filter(|l| l.starts_with('│'))
        .map(|l| {
            l.split_whitespace()
                .filter(|t| *t != "│")
                .map(|t| if t.chars().all(|c| c == '─') { "_".to_string() } else { t.to_string() })
                .collect::<Vec<_>>()
                .join(" ")
        })
        .collect();
    assert_eq!(rows.len(), 9);
    let mut t = Sudoku::new(9, 3, 3).unwrap();
    t.populate_from_str(&rows.join("\n")).unwrap();
    for row in 0..9 {
        assert_eq!(t.row_iter(row), s.row_iter(row));
    }
}

#[test]
fn populate_accepts_a_leading_plus() {
    let mut s = Sudoku::new(4, 2, 2).unwrap();
    assert_eq!(s.populate_from_str("+1 _ _ _\n_ _ _ _\n_ _ _ _\n_ _ _ +004"), Ok(()));
    assert_eq!(s.get(0, 0), Some(1));
    assert_eq!(s.get(3, 3), Some(4));
}

#[test]
fn rendered_fields_read_back_per_cell() {
    let mut s = Sudoku::new(12, 4, 3).unwrap();
    s.set(0, 0, Some(12));
    s.set(1, 0, Some(3));
    s.set(11, 0, Some(10));
    let text = s.render();
    let row0: Vec<char> = text.split('\n').nth(1).unwrap().chars().collect();
    // fields of width 2 start at 2, then every 3 columns, plus 2 at each section start
    let field = |col: usize| -> String {
        let start = 2 + col * 3 + 2 * (col / 4);
        row0[start..start + 2].iter().collect()
    };
    assert_eq!(field(0), "12");
    assert_eq!(field(1), " 3");
    assert_eq!(field(2), "──");
    assert_eq!(field(11), "10");
}
