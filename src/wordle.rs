//! The word-game pipeline: finding the day's answer in an answers table.
//!
//! The table is assumed to list the newest puzzle first, so the first row
//! that yields a word wins. If that order ever changed, a stale answer would
//! come back rather than a failure.
use vstd::prelude::*;
use vstd::string::StringExecFns;
use crate::digits::{push_zero_padded, zero_padded};
use crate::label::{format_puzzle_label, puzzle_label};
use crate::text::{collapse, collapsed, extract_hidden_word, hidden_word};

verus! {

/// One cell of an answers table: its whole text content, and the text of
/// each element in it hidden by an inline `display:none` style, in
/// document order.
#[derive(Debug, Clone)]
pub struct TableCell {
    pub text: String,
    pub hidden_spans: Vec<String>,
}

/// One body row of an answers table.
#[derive(Debug, Clone)]
pub struct TableRow {
    pub cells: Vec<TableCell>,
}

/// The day's word-game answer: the date it was fetched, the five-letter
/// word in upper case, and the puzzle's display label.
#[derive(Debug, Clone)]
pub struct WordleData {
    pub date: String,
    pub word: String,
    pub puzzle: String,
}

impl View for WordleData {
    type V = (Seq<char>, Seq<char>, Seq<char>);

    open spec fn view(&self) -> Self::V {
        (self.date@, self.word@, self.puzzle@)
    }
}

/// The first hidden text among `spans` that reads as a word.
pub open spec fn first_word(spans: Seq<String>) -> Option<Seq<char>>
    decreases spans.len(),
{
    if spans.len() == 0 {
        None
    } else {
        match hidden_word(spans[0]@) {
            Some(w) => Some(w),
            None => first_word(spans.drop_first()),
        }
    }
}

/// The word a row yields: from the hidden spans of its third cell.
pub open spec fn row_word(row: TableRow) -> Option<Seq<char>> {
    if row.cells@.len() >= 3 {
        first_word(row.cells@[2].hidden_spans@)
    } else {
        None
    }
}

/// The display label of a row: from the collapsed text of its second cell.
pub open spec fn row_label(row: TableRow) -> Seq<char> {
    if row.cells@.len() >= 2 {
        puzzle_label(collapsed(row.cells@[1].text@))
    } else {
        puzzle_label(seq![])
    }
}

pub open spec fn not_found_message() -> Seq<char> {
    "Could not find Wordle answer on page"@
}

/// What the table gives: the first row that yields a word, dated `today`,
/// or the not-found message.
pub open spec fn answer_outcome(rows: Seq<TableRow>, today: Seq<char>) -> Result<
    (Seq<char>, Seq<char>, Seq<char>),
    Seq<char>,
>
    decreases rows.len(),
{
    if rows.len() == 0 {
        Err(not_found_message())
    } else {
        match row_word(rows[0]) {
            Some(w) => Ok((today, w, row_label(rows[0]))),
            None => answer_outcome(rows.drop_first(), today),
        }
    }
}

/// The first of `spans` whose text reads as a word.
fn first_hidden_word(spans: &Vec<String>) -> (r: Option<String>)
    ensures
        match r {
            Some(w) => first_word(spans@) == Some(w@),
            None => first_word(spans@) is None,
        },
{
    let mut i: usize = 0;
    assert(spans@.subrange(0, spans.len() as int) == spans@);
    while i < spans.len()
        invariant
            i <= spans.len(),
            first_word(spans@) == first_word(spans@.subrange(i as int, spans.len() as int)),
        decreases spans.len() - i,
    {
        let ghost rest = spans@.subrange(i as int, spans.len() as int);
        assert(rest[0] == spans@[i as int]);
        assert(rest.drop_first() == spans@.subrange(i + 1, spans.len() as int));
        match extract_hidden_word(spans[i].as_str()) {
            Some(w) => {
                return Some(w);
            },
            None => {},
        }
        i += 1;
    }
    None
}

/// Scans the rows in order and returns the first one's answer: the word
/// hidden in its third cell, the label made from its second cell, and
/// `today` as the date. Fails when no row has such a word.
pub fn find_wordle_answer(rows: &Vec<TableRow>, today: &str) -> (r: Result<WordleData, String>)
    ensures
        match r {
            Ok(d) => answer_outcome(rows@, today@) == Ok::<_, Seq<char>>(d@),
            Err(e) => answer_outcome(rows@, today@) == Err::<
                (Seq<char>, Seq<char>, Seq<char>),
                Seq<char>,
            >(e@),
        },
{
    let mut i: usize = 0;
    assert(rows@.subrange(0, rows.len() as int) == rows@);
    while i < rows.len()
        invariant
            i <= rows.len(),
            answer_outcome(rows@, today@) == answer_outcome(
                rows@.subrange(i as int, rows.len() as int),
                today@,
            ),
        decreases rows.len() - i,
    {
        let ghost rest = rows@.subrange(i as int, rows.len() as int);
        assert(rest[0] == rows@[i as int]);
        assert(rest.drop_first() == rows@.subrange(i + 1, rows.len() as int));
        let row = &rows[i];
        if row.cells.len() >= 3 {
            match first_hidden_word(&row.cells[2].hidden_spans) {
                Some(word) => {
                    let puzzle_text = collapse(row.cells[1].text.as_str());
                    let puzzle = format_puzzle_label(puzzle_text.as_str());
                    return Ok(WordleData { date: today.to_owned(), word, puzzle });
                },
                None => {},
            }
        }
        i += 1;
    }
    Err(String::from_str("Could not find Wordle answer on page"))
}

/// A calendar date as `YYYY-MM-DD`; a year outside 0 to 9999 gets a sign.
pub open spec fn date_text(year: int, month: nat, day: nat) -> Seq<char> {
    let y = if 0 <= year <= 9999 {
        zero_padded(year as nat, 4)
    } else if year < 0 {
        seq!['-'] + zero_padded((-year) as nat, 4)
    } else {
        seq!['+'] + zero_padded(year as nat, 4)
    };
    y + seq!['-'] + zero_padded(month, 2) + seq!['-'] + zero_padded(day, 2)
}

/// Writes a date as `YYYY-MM-DD`.
pub fn format_date(year: i32, month: u32, day: u32) -> (r: String)
    ensures
        r@ == date_text(year as int, month as nat, day as nat),
{
    let mut r = String::new();
    if year < 0 {
        r.push('-');
        push_zero_padded(&mut r, (0i64 - year as i64) as u64, 4);
    } else if year > 9999 {
        r.push('+');
        push_zero_padded(&mut r, year as u64, 4);
    } else {
        push_zero_padded(&mut r, year as u64, 4);
    }
    r.push('-');
    push_zero_padded(&mut r, month as u64, 2);
    r.push('-');
    push_zero_padded(&mut r, day as u64, 2);
    r
}

/// Relies on chrono's `Local::now` and its `Datelike` accessors: today's
/// date in the machine's time zone, with a month from 1 to 12 and a day
/// from 1 to 31.
#[verifier::external_body]
fn local_today() -> (r: (i32, u32, u32))
    ensures
        1 <= r.1 <= 12,
        1 <= r.2 <= 31,
{
    let d = chrono::Local::now().date_naive();
    (chrono::Datelike::year(&d), chrono::Datelike::month(&d), chrono::Datelike::day(&d))
}

/// Today's local date as `YYYY-MM-DD`.
pub fn today_text() -> (r: String)
    ensures
        exists|y: int, m: nat, d: nat| 1 <= m <= 12 && 1 <= d <= 31 && r@ == date_text(y, m, d),
{
    let (y, m, d) = local_today();
    format_date(y, m, d)
}

/// The answer of the first row that yields a word, dated today.
pub fn wordle_answer(rows: &Vec<TableRow>) -> (r: Result<WordleData, String>)
    ensures
        match r {
            Ok(d) => answer_outcome(rows@, d.date@) == Ok::<_, Seq<char>>(d@),
            Err(e) => forall|t: Seq<char>|
                answer_outcome(rows@, t) == Err::<(Seq<char>, Seq<char>, Seq<char>), Seq<char>>(
                    e@,
                ),
        },
{
    let today = today_text();
    let r = find_wordle_answer(rows, today.as_str());
    proof {
        lemma_outcome_date(rows@, today@, today@);
        assert forall|t: Seq<char>|
            answer_outcome(rows@, today@) is Err implies #[trigger] answer_outcome(rows@, t)
                == answer_outcome(rows@, today@) by {
            lemma_outcome_date(rows@, today@, t);
        }
    }
    r
}

proof fn lemma_outcome_date(rows: Seq<TableRow>, today: Seq<char>, other: Seq<char>)
    ensures
        answer_outcome(rows, today) is Err ==> answer_outcome(rows, other) == answer_outcome(
            rows,
            today,
        ),
        answer_outcome(rows, today) matches Ok(x) ==> x.0 == today,
    decreases rows.len(),
{
    if rows.len() > 0 {
        lemma_outcome_date(rows.drop_first(), today, other);
    }
}

} // verus!
