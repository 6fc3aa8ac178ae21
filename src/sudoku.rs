//! The number-puzzle pipeline: carving the game-data blob out of a page,
//! and reading the puzzle, its solution and their metadata out of the
//! parsed blob.
use vstd::prelude::*;
use vstd::string::StringExecFns;
use crate::digits::{decimal, push_decimal, push_signed_decimal, signed_decimal};
use crate::json::{lookup, str_or, Json};
use crate::text::{chars_of, find_from, first_at, occurs_at, string_of, trim_bounds, trimmed};

verus! {

/// The text that introduces the blob in a page.
pub open spec fn blob_marker() -> Seq<char> {
    "window.gameData = "@
}

/// The text that ends the script holding the blob.
pub open spec fn script_end() -> Seq<char> {
    "</script>"@
}

/// The blob text between the marker and the script end: trimmed, without
/// one trailing ';', and trimmed again.
pub open spec fn blob_body(raw: Seq<char>) -> Seq<char> {
    let t = trimmed(raw);
    if t.len() > 0 && t.last() == ';' {
        trimmed(t.drop_last())
    } else {
        t
    }
}

pub open spec fn no_marker_message() -> Seq<char> {
    "window.gameData marker not found"@
}

pub open spec fn no_script_end_message() -> Seq<char> {
    "Unable to find </script> following window.gameData"@
}

/// Finds the game-data blob in a page: the text after the first
/// `window.gameData = ` up to the next `</script>`, trimmed, with one
/// trailing ';' taken off.
pub fn extract_game_data_blob(html: &str) -> (r: Result<String, String>)
    ensures
        !(exists|k: int| occurs_at(html@, blob_marker(), k)) ==> (r matches Err(e) && e@
            == no_marker_message()),
        forall|k: int|
            #[trigger] first_at(html@, blob_marker(), 0, k) ==> {
                let start = k + blob_marker().len();
                &&& !(exists|e: int| start <= e && occurs_at(html@, script_end(), e)) ==> (r matches Err(
                    m,
                ) && m@ == no_script_end_message())
                &&& forall|e: int|
                    #[trigger] first_at(html@, script_end(), start, e) ==> (r matches Ok(b) && b@
                        == blob_body(html@.subrange(start, e)))
            },
{
    let v = chars_of(html);
    let marker = chars_of("window.gameData = ");
    let end = chars_of("</script>");
    let k = match find_from(&v, &marker, 0) {
        Some(k) => k,
        None => {
            return Err(String::from_str("window.gameData marker not found"));
        },
    };
    assert(first_at(v@, marker@, 0, k as int));
    assert(occurs_at(html@, blob_marker(), k as int));
    assert(k + marker@.len() <= v@.len());
    assert forall|kk: int| first_at(html@, blob_marker(), 0, kk) implies kk == k by {
        if kk < k {
            assert(!occurs_at(v@, marker@, kk));
        } else if kk > k {
            assert(!occurs_at(html@, blob_marker(), k as int));
        }
    }
    assert(k + marker.len() <= v.len());
    let start: usize = k + marker.len();
    let e = match find_from(&v, &end, start) {
        Some(e) => e,
        None => {
            assert(forall|j: int| 0 <= j < k ==> !occurs_at(v@, marker@, j));
            return Err(String::from_str("Unable to find </script> following window.gameData"));
        },
    };
    assert(forall|j: int| 0 <= j < k ==> !occurs_at(v@, marker@, j));
    assert(forall|j: int| start <= j < e ==> !occurs_at(v@, end@, j));
    assert forall|ee: int| first_at(html@, script_end(), start as int, ee) implies ee == e by {
        if ee < e {
            assert(!occurs_at(v@, end@, ee));
        } else if ee > e {
            assert(!occurs_at(html@, script_end(), e as int));
        }
    }
    assert(first_at(v@, end@, start as int, e as int));
    assert(occurs_at(html@, script_end(), e as int));
    let (a, b) = trim_bounds(&v, start, e);
    if b > a && v[b - 1] == ';' {
        let (a2, b2) = trim_bounds(&v, a, b - 1);
        assert(v@.subrange(a as int, b as int).drop_last() == v@.subrange(a as int, b - 1));
        Ok(string_of(&v, a2, b2))
    } else {
        Ok(string_of(&v, a, b))
    }
}


/// A cell that holds a digit from 0 to 9.
pub open spec fn is_digit_cell(c: Json) -> bool {
    c matches Json::Int(n) && 0 <= n <= 9
}

pub open spec fn cell_value(c: Json) -> int {
    match c {
        Json::Int(n) => n as int,
        _ => 0,
    }
}

pub open spec fn not_array_message(label: Seq<char>) -> Seq<char> {
    "Sudoku "@ + label + " data is not an array"@
}

pub open spec fn count_message(label: Seq<char>, n: nat) -> Seq<char> {
    "Sudoku "@ + label + " expected 81 entries but found "@ + decimal(n)
}

/// The message for a cell that is not a digit from 0 to 9.
pub open spec fn cell_message(label: Seq<char>, c: Json) -> Seq<char> {
    match c {
        Json::Int(n) => "Invalid Sudoku digit "@ + signed_decimal(n as int) + " in "@ + label,
        _ => "Encountered non-numeric value in "@ + label,
    }
}

/// The message for the first cell of `cells` that is not a digit, if any.
pub open spec fn first_bad_cell(cells: Seq<Json>, label: Seq<char>) -> Option<Seq<char>>
    decreases cells.len(),
{
    if cells.len() == 0 {
        None
    } else if !is_digit_cell(cells[0]) {
        Some(cell_message(label, cells[0]))
    } else {
        first_bad_cell(cells.drop_first(), label)
    }
}

/// The 9x9 grid read row by row out of 81 cells.
pub open spec fn grid_of(cells: Seq<Json>) -> Seq<Seq<u8>> {
    Seq::new(9, |r: int| Seq::new(9, |c: int| cell_value(cells[9 * r + c]) as u8))
}

/// What 81 cells give: the grid, or the message of the first bad cell.
pub open spec fn cells_outcome(cells: Seq<Json>, label: Seq<char>) -> Result<
    Seq<Seq<u8>>,
    Seq<char>,
> {
    match first_bad_cell(cells, label) {
        Some(m) => Err(m),
        None => Ok(grid_of(cells)),
    }
}

/// What decoding `v` as a board gives: the grid, or the message of the
/// first expectation that fails.
pub open spec fn board_outcome(v: Json, label: Seq<char>) -> Result<Seq<Seq<u8>>, Seq<char>> {
    match v {
        Json::Array(cells) => if cells@.len() != 81 {
            Err(count_message(label, cells@.len()))
        } else {
            cells_outcome(cells@, label)
        },
        _ => Err(not_array_message(label)),
    }
}

fn message2(a: &str, b: &str) -> (r: String)
    ensures
        r@ == a@ + b@,
{
    let mut r = String::from_str(a);
    r.append(b);
    r
}

/// Decodes an array of 81 digits into a 9x9 grid, row by row; `label`
/// names the board in the error messages.
pub fn board_from_json(value: &Json, label: &str) -> (r: Result<Vec<Vec<u8>>, String>)
    ensures
        match r {
            Ok(g) => board_outcome(*value, label@) == Ok::<Seq<Seq<u8>>, Seq<char>>(g.deep_view()),
            Err(e) => board_outcome(*value, label@) == Err::<Seq<Seq<u8>>, Seq<char>>(e@),
        },
{
    let cells = match value {
        Json::Array(cells) => cells,
        _ => {
            let mut m = message2("Sudoku ", label);
            m.append(" data is not an array");
            return Err(m);
        },
    };
    if cells.len() != 81 {
        let mut m = message2("Sudoku ", label);
        m.append(" expected 81 entries but found ");
        push_decimal(&mut m, cells.len() as u64);
        return Err(m);
    }
    let mut i: usize = 0;
    assert(cells@.subrange(0, 81) == cells@);
    assert(board_outcome(*value, label@) == cells_outcome(cells@, label@));
    while i < 81
        invariant
            cells@.len() == 81,
            board_outcome(*value, label@) == cells_outcome(cells@, label@),
            i <= 81,
            first_bad_cell(cells@, label@) == first_bad_cell(cells@.subrange(i as int, 81), label@),
            forall|j: int| 0 <= j < i ==> is_digit_cell(#[trigger] cells@[j]),
        decreases 81 - i,
    {
        let ghost rest = cells@.subrange(i as int, 81);
        assert(rest[0] == cells@[i as int]);
        assert(rest.drop_first() == cells@.subrange(i + 1, 81));
        match &cells[i] {
            Json::Int(n) => {
                if *n < 0 || *n > 9 {
                    let mut m = String::from_str("Invalid Sudoku digit ");
                    push_signed_decimal(&mut m, *n);
                    m.append(" in ");
                    m.append(label);
                    return Err(m);
                }
            },
            _ => {
                return Err(message2("Encountered non-numeric value in ", label));
            },
        }
        i += 1;
    }
    assert(cells@.subrange(81, 81).len() == 0);
    let mut g: Vec<Vec<u8>> = Vec::new();
    let mut r: usize = 0;
    while r < 9
        invariant
            cells@.len() == 81,
            board_outcome(*value, label@) == cells_outcome(cells@, label@),
            first_bad_cell(cells@, label@) is None,
            r <= 9,
            g@.len() == r,
            forall|j: int| 0 <= j < 81 ==> is_digit_cell(#[trigger] cells@[j]),
            forall|k: int| 0 <= k < r ==> (#[trigger] g@[k])@ == grid_of(cells@)[k],
        decreases 9 - r,
    {
        let mut row: Vec<u8> = Vec::new();
        let mut c: usize = 0;
        while c < 9
            invariant
                cells@.len() == 81,
                r < 9,
                c <= 9,
                row@.len() == c,
                forall|j: int| 0 <= j < 81 ==> is_digit_cell(#[trigger] cells@[j]),
                forall|k: int| 0 <= k < c ==> row@[k] == cell_value(cells@[9 * r + k]) as u8,
            decreases 9 - c,
        {
            assert(is_digit_cell(cells@[9 * r + c]));
            match &cells[9 * r + c] {
                Json::Int(n) => {
                    row.push(*n as u8);
                },
                _ => {
                    row.push(0);
                },
            }
            c += 1;
        }
        assert(row@ == grid_of(cells@)[r as int]);
        g.push(row);
        r += 1;
    }
    assert forall|k: int| 0 <= k < 9 implies #[trigger] g.deep_view()[k] == grid_of(cells@)[k] by {
        assert(g.deep_view()[k] == g@[k].deep_view());
        assert(g@[k].deep_view() == g@[k]@);
    }
    assert(g.deep_view() == grid_of(cells@));
    Ok(g)
}


/// One day's number puzzle: its dates, difficulty, the puzzle grid (0 for
/// a blank) and the solution grid, each 9 rows of 9 digits.
#[derive(Debug, Clone)]
pub struct SudokuData {
    pub display_date: String,
    pub print_date: String,
    pub difficulty: String,
    pub puzzle: Vec<Vec<u8>>,
    pub solution: Vec<Vec<u8>>,
}

impl View for SudokuData {
    type V = (Seq<char>, Seq<char>, Seq<char>, Seq<Seq<u8>>, Seq<Seq<u8>>);

    open spec fn view(&self) -> Self::V {
        (
            self.display_date@,
            self.print_date@,
            self.difficulty@,
            self.puzzle.deep_view(),
            self.solution.deep_view(),
        )
    }
}

pub open spec fn with_solution(
    meta: (Seq<char>, Seq<char>, Seq<char>),
    puzzle: Seq<Seq<u8>>,
    data: Json,
) -> Result<(Seq<char>, Seq<char>, Seq<char>, Seq<Seq<u8>>, Seq<Seq<u8>>), Seq<char>> {
    match lookup(data, "solution"@) {
        None => Err("Missing solution array"@),
        Some(v) => match board_outcome(v, "solution"@) {
            Err(m) => Err(m),
            Ok(g) => Ok((meta.0, meta.1, meta.2, puzzle, g)),
        },
    }
}

/// What the game data gives: the puzzle record in view form, or the
/// message of the first expectation that fails.
pub open spec fn sudoku_outcome(root: Json) -> Result<
    (Seq<char>, Seq<char>, Seq<char>, Seq<Seq<u8>>, Seq<Seq<u8>>),
    Seq<char>,
> {
    let display = str_or(lookup(root, "displayDate"@), seq![]);
    match lookup(root, "hard"@) {
        None => Err("Missing hard puzzle block"@),
        Some(hard) => {
            let meta = (
                display,
                str_or(lookup(hard, "print_date"@), display),
                str_or(lookup(hard, "difficulty"@), "Hard"@),
            );
            match lookup(hard, "puzzle_data"@) {
                None => Err("Missing puzzle_data block"@),
                Some(data) => match lookup(data, "puzzle"@) {
                    None => Err("Missing puzzle array"@),
                    Some(p) => match board_outcome(p, "puzzle"@) {
                        Err(m) => Err(m),
                        Ok(g) => with_solution(meta, g, data),
                    },
                },
            }
        },
    }
}

/// Reads the hard puzzle out of the parsed game data: `displayDate`, and
/// under `hard` the `difficulty`, `print_date` and the `puzzle_data`
/// boards `puzzle` and `solution`.
pub fn sudoku_from_game_data(root: &Json) -> (r: Result<SudokuData, String>)
    ensures
        match r {
            Ok(d) => sudoku_outcome(*root) == Ok::<_, Seq<char>>(d@),
            Err(e) => sudoku_outcome(*root) == Err::<
                (Seq<char>, Seq<char>, Seq<char>, Seq<Seq<u8>>, Seq<Seq<u8>>),
                Seq<char>,
            >(e@),
        },
{
    let display_date = root.get_str_or("displayDate", "");
    proof {
        reveal_strlit("");
    }
    assert(display_date@ == str_or(lookup(*root, "displayDate"@), seq![]));
    let hard = match root.get("hard") {
        Some(h) => h,
        None => {
            return Err(String::from_str("Missing hard puzzle block"));
        },
    };
    let difficulty = hard.get_str_or("difficulty", "Hard");
    let print_date = hard.get_str_or("print_date", display_date.as_str());
    let data = match hard.get("puzzle_data") {
        Some(d) => d,
        None => {
            return Err(String::from_str("Missing puzzle_data block"));
        },
    };
    let puzzle_value = match data.get("puzzle") {
        Some(p) => p,
        None => {
            return Err(String::from_str("Missing puzzle array"));
        },
    };
    let puzzle = board_from_json(puzzle_value, "puzzle")?;
    let solution_value = match data.get("solution") {
        Some(p) => p,
        None => {
            return Err(String::from_str("Missing solution array"));
        },
    };
    let solution = board_from_json(solution_value, "solution")?;
    Ok(SudokuData { display_date, print_date, difficulty, puzzle, solution })
}


proof fn lemma_all_digits(cells: Seq<Json>, label: Seq<char>)
    requires
        forall|j: int| 0 <= j < cells.len() ==> is_digit_cell(#[trigger] cells[j]),
    ensures
        first_bad_cell(cells, label) is None,
    decreases cells.len(),
{
    if cells.len() > 0 {
        let rest = cells.drop_first();
        assert forall|j: int| 0 <= j < rest.len() implies is_digit_cell(#[trigger] rest[j]) by {
            assert(rest[j] == cells[j + 1]);
        }
        lemma_all_digits(rest, label);
    }
}

/// 81 cells, each a digit from 0 to 9.
pub open spec fn is_digit_array(cells: Seq<Json>) -> bool {
    cells.len() == 81 && forall|j: int| 0 <= j < 81 ==> is_digit_cell(#[trigger] cells[j])
}

/// `g` is 9 rows of 9 values taken from `cells` in row-major order.
pub open spec fn is_row_major(g: Seq<Seq<u8>>, cells: Seq<Json>) -> bool {
    &&& g.len() == 9
    &&& forall|r: int| 0 <= r < 9 ==> (#[trigger] g[r]).len() == 9
    &&& forall|r: int, c: int|
        0 <= r < 9 && 0 <= c < 9 ==> #[trigger] g[r][c] == cell_value(cells[9 * r + c])
}

/// An array of exactly 81 digits decodes to 9 rows of 9, cell `9 * r + c`
/// going to row `r`, column `c`; an array of any other length fails with
/// the count it has.
pub proof fn lemma_board_shape(cells: Vec<Json>, label: Seq<char>)
    ensures
        is_digit_array(cells@) ==> (board_outcome(Json::Array(cells), label) matches Ok(g)
            && is_row_major(g, cells@)),
        cells@.len() != 81 ==> board_outcome(Json::Array(cells), label) == Err::<
            Seq<Seq<u8>>,
            Seq<char>,
        >(count_message(label, cells@.len())),
{
    if is_digit_array(cells@) {
        lemma_all_digits(cells@, label);
        let g = grid_of(cells@);
        assert forall|r: int, c: int| 0 <= r < 9 && 0 <= c < 9 implies #[trigger] g[r][c]
            == cell_value(cells@[9 * r + c]) by {
            assert(0 <= 9 * r + c < 81);
            assert(is_digit_cell(cells@[9 * r + c]));
        }
    }
}

} // verus!
