use daily_puzzles::wordle::{find_wordle_answer, format_date, wordle_answer, TableCell, TableRow};

fn cell(text: &str, spans: &[&str]) -> TableCell {
    TableCell { text: text.to_string(), hidden_spans: spans.iter().map(|s| s.to_string()).collect() }
}

fn row(cells: Vec<TableCell>) -> TableRow {
    TableRow { cells }
}

#[test]
fn only_the_row_with_a_hidden_word_answers() {
    let rows = vec![
        row(vec![cell("Today", &[]), cell("#1300", &[]), cell("?????", &["no"])]),
        row(vec![cell("Yesterday", &[]), cell(" 1299\n", &[]), cell("C R A N E", &["crane"])]),
        row(vec![cell("Older", &[]), cell("#1298", &[]), cell("SLATE", &["slate"])]),
    ];
    let d = find_wordle_answer(&rows, "2024-05-06").unwrap();
    assert_eq!(d.word, "CRANE");
    assert_eq!(d.puzzle, "Wordle #1299");
    assert_eq!(d.date, "2024-05-06");
}

#[test]
fn first_qualifying_span_in_a_cell_wins() {
    let rows = vec![row(vec![
        cell("Today", &[]),
        cell("Wordle   #5", &[]),
        cell("", &["x", "toolong", "Pl-ant", "house"]),
    ])];
    let d = find_wordle_answer(&rows, "d").unwrap();
    assert_eq!(d.word, "PLANT");
    assert_eq!(d.puzzle, "Wordle #5");
}

#[test]
fn no_qualifying_row_is_not_found() {
    let rows = vec![
        row(vec![]),
        row(vec![cell("Today", &[])]),
        row(vec![cell("Today", &[]), cell("#1", &[])]),
        row(vec![cell("Today", &[]), cell("#2", &[]), cell("", &[])]),
        row(vec![cell("Today", &[]), cell("#3", &[]), cell("", &["four", "sixsix"])]),
    ];
    let e = find_wordle_answer(&rows, "2024-01-01").unwrap_err();
    assert_eq!(e, "Could not find Wordle answer on page");
    let e2 = find_wordle_answer(&Vec::new(), "2024-01-01").unwrap_err();
    assert_eq!(e2, "Could not find Wordle answer on page");
}

#[test]
fn missing_puzzle_cell_reads_as_default_label() {
    let rows = vec![row(vec![cell("Today", &[]), cell("   ", &[]), cell("", &["mango"])])];
    let d = find_wordle_answer(&rows, "t").unwrap();
    assert_eq!(d.puzzle, "Wordle");
    assert_eq!(d.word, "MANGO");
}

#[test]
fn answer_today_is_dated_in_iso_form() {
    let rows = vec![row(vec![cell("Today", &[]), cell("#9", &[]), cell("", &["ghost"])])];
    let d = wordle_answer(&rows).unwrap();
    assert_eq!(d.word, "GHOST");
    let b: Vec<char> = d.date.chars().collect();
    assert_eq!(b.len(), 10);
    assert_eq!(b[4], '-');
    assert_eq!(b[7], '-');
    assert!(b.iter().enumerate().all(|(i, c)| i == 4 || i == 7 || c.is_ascii_digit()));
}

#[test]
fn dates_are_zero_padded() {
    assert_eq!(format_date(2024, 3, 7), "2024-03-07");
    assert_eq!(format_date(987, 12, 31), "0987-12-31");
    assert_eq!(format_date(12345, 1, 1), "+12345-01-01");
    assert_eq!(format_date(-44, 3, 15), "-0044-03-15");
}
