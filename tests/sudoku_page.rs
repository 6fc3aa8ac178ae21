use daily_puzzles::json::Json;
use daily_puzzles::sudoku::{board_from_json, extract_game_data_blob, sudoku_from_game_data};
use daily_puzzles::SudokuData;

fn to_json(v: &serde_json::Value) -> Json {
    match v {
        serde_json::Value::Null => Json::Null,
        serde_json::Value::Bool(b) => Json::Bool(*b),
        serde_json::Value::Number(n) => match n.as_i64() {
            Some(i) => Json::Int(i),
            None => Json::OtherNumber,
        },
        serde_json::Value::String(s) => Json::Str(s.clone()),
        serde_json::Value::Array(a) => Json::Array(a.iter().map(to_json).collect()),
        serde_json::Value::Object(m) => {
            Json::Object(m.iter().map(|(k, v)| (k.clone(), to_json(v))).collect())
        }
    }
}

fn parse(text: &str) -> Json {
    to_json(&serde_json::from_str::<serde_json::Value>(text).unwrap())
}

fn ints(v: &[i64]) -> Json {
    Json::Array(v.iter().map(|n| Json::Int(*n)).collect())
}

fn digits81() -> Vec<i64> {
    (0..81).map(|i| (i % 10) as i64).collect()
}

fn list(v: &[i64]) -> String {
    let parts: Vec<String> = v.iter().map(|n| n.to_string()).collect();
    format!("[{}]", parts.join(","))
}

fn page(game_data: &str) -> String {
    format!(
        "<html><head><script>var x = 1;</script><script>window.gameData = {};\n</script></head><body></body></html>",
        game_data
    )
}

fn full_game_data() -> String {
    let puzzle = digits81();
    let solution: Vec<i64> = (0..81).map(|i| (i % 9 + 1) as i64).collect();
    format!(
        "{{\"displayDate\":\"May 6, 2024\",\"hard\":{{\"difficulty\":\"hard\",\"print_date\":\"2024-05-06\",\"puzzle_data\":{{\"puzzle\":{},\"solution\":{}}}}}}}",
        list(&puzzle),
        list(&solution)
    )
}

fn from_page(html: &str) -> Result<SudokuData, String> {
    let blob = extract_game_data_blob(html)?;
    sudoku_from_game_data(&parse(&blob))
}

#[test]
fn blob_is_cut_between_marker_and_script_end() {
    let html = "<p>x</p><script>window.gameData = {\"a\":1};</script><p>y</p>";
    assert_eq!(extract_game_data_blob(html).unwrap(), "{\"a\":1}");
}

#[test]
fn blob_loses_only_one_trailing_semicolon() {
    let html = "window.gameData =  \n {\"a\":1} ;; \n</script>";
    assert_eq!(extract_game_data_blob(html).unwrap(), "{\"a\":1} ;");
}

#[test]
fn blob_uses_first_marker_and_next_script_end() {
    let html = "</script>window.gameData = [1]</script>window.gameData = [2]</script>";
    assert_eq!(extract_game_data_blob(html).unwrap(), "[1]");
}

#[test]
fn blob_without_marker_fails() {
    let e = extract_game_data_blob("<script>window.gameData={}</script>").unwrap_err();
    assert_eq!(e, "window.gameData marker not found");
}

#[test]
fn blob_without_script_end_fails() {
    let e = extract_game_data_blob("</script> window.gameData = {}").unwrap_err();
    assert_eq!(e, "Unable to find </script> following window.gameData");
}

#[test]
fn board_keeps_row_major_order() {
    let cells = digits81();
    let g = board_from_json(&ints(&cells), "puzzle").unwrap();
    assert_eq!(g.len(), 9);
    for r in 0..9 {
        assert_eq!(g[r].len(), 9);
        for c in 0..9 {
            assert_eq!(g[r][c] as i64, cells[9 * r + c]);
        }
    }
    assert_eq!(g[1], vec![9, 0, 1, 2, 3, 4, 5, 6, 7]);
}

#[test]
fn board_of_wrong_length_reports_count() {
    let mut cells = digits81();
    cells.pop();
    let e = board_from_json(&ints(&cells), "puzzle").unwrap_err();
    assert_eq!(e, "Sudoku puzzle expected 81 entries but found 80");
    let mut cells = digits81();
    cells.push(1);
    let e = board_from_json(&ints(&cells), "solution").unwrap_err();
    assert_eq!(e, "Sudoku solution expected 81 entries but found 82");
}

#[test]
fn board_with_out_of_range_digit_names_it() {
    let mut cells = digits81();
    cells[40] = 10;
    let e = board_from_json(&ints(&cells), "puzzle").unwrap_err();
    assert_eq!(e, "Invalid Sudoku digit 10 in puzzle");
    let mut cells = digits81();
    cells[3] = -1;
    cells[50] = 12;
    let e = board_from_json(&ints(&cells), "solution").unwrap_err();
    assert_eq!(e, "Invalid Sudoku digit -1 in solution");
}

#[test]
fn board_with_non_numeric_cell_fails() {
    let mut cells: Vec<Json> = digits81().into_iter().map(Json::Int).collect();
    cells[7] = Json::Str("5".to_string());
    let e = board_from_json(&Json::Array(cells), "puzzle").unwrap_err();
    assert_eq!(e, "Encountered non-numeric value in puzzle");
    let e = board_from_json(&parse("[1.5]"), "puzzle").unwrap_err();
    assert_eq!(e, "Sudoku puzzle expected 81 entries but found 1");
}

#[test]
fn board_that_is_no_array_fails() {
    let e = board_from_json(&Json::Null, "puzzle").unwrap_err();
    assert_eq!(e, "Sudoku puzzle data is not an array");
}

#[test]
fn page_yields_full_puzzle() {
    let d = from_page(&page(&full_game_data())).unwrap();
    assert_eq!(d.display_date, "May 6, 2024");
    assert_eq!(d.print_date, "2024-05-06");
    assert_eq!(d.difficulty, "hard");
    assert_eq!(d.puzzle.len(), 9);
    assert_eq!(d.solution.len(), 9);
    assert!(d.puzzle.iter().all(|r| r.len() == 9 && r.iter().all(|c| *c <= 9)));
    assert!(d.solution.iter().all(|r| r.len() == 9 && r.iter().all(|c| *c <= 9)));
    assert_eq!(d.solution[0], vec![1, 2, 3, 4, 5, 6, 7, 8, 9]);
}

#[test]
fn page_without_hard_block_fails() {
    let game_data = format!(
        "{{\"displayDate\":\"May 6, 2024\",\"easy\":{{\"puzzle_data\":{{\"puzzle\":{}}}}}}}",
        list(&digits81())
    );
    let e = from_page(&page(&game_data)).unwrap_err();
    assert_eq!(e, "Missing hard puzzle block");
}

#[test]
fn missing_metadata_takes_defaults() {
    let game_data = format!(
        "{{\"displayDate\":\"D\",\"hard\":{{\"difficulty\":3,\"puzzle_data\":{{\"puzzle\":{p},\"solution\":{p}}}}}}}",
        p = list(&digits81())
    );
    let d = from_page(&page(&game_data)).unwrap();
    assert_eq!(d.difficulty, "Hard");
    assert_eq!(d.print_date, "D");
    let game_data = format!(
        "{{\"hard\":{{\"puzzle_data\":{{\"puzzle\":{p},\"solution\":{p}}}}}}}",
        p = list(&digits81())
    );
    let d = from_page(&page(&game_data)).unwrap();
    assert_eq!(d.display_date, "");
    assert_eq!(d.print_date, "");
}

#[test]
fn each_missing_part_has_its_message() {
    let e = from_page(&page("{\"hard\":{}}")).unwrap_err();
    assert_eq!(e, "Missing puzzle_data block");
    let e = from_page(&page("{\"hard\":{\"puzzle_data\":{}}}")).unwrap_err();
    assert_eq!(e, "Missing puzzle array");
    let game_data = format!("{{\"hard\":{{\"puzzle_data\":{{\"puzzle\":{}}}}}}}", list(&digits81()));
    let e = from_page(&page(&game_data)).unwrap_err();
    assert_eq!(e, "Missing solution array");
    let game_data = format!(
        "{{\"hard\":{{\"puzzle_data\":{{\"puzzle\":{},\"solution\":[]}}}}}}",
        list(&digits81())
    );
    let e = from_page(&page(&game_data)).unwrap_err();
    assert_eq!(e, "Sudoku solution expected 81 entries but found 0");
}
