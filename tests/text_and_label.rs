use daily_puzzles::label::format_puzzle_label;
use daily_puzzles::text::{collapse, extract_hidden_word};

#[test]
fn collapse_joins_runs_with_single_spaces() {
    assert_eq!(collapse("  Wordle \n\t #1234  "), "Wordle #1234");
    assert_eq!(collapse("a\u{a0}\u{3000}b"), "a b");
}

#[test]
fn collapse_of_empty_and_blank_is_empty() {
    assert_eq!(collapse(""), "");
    assert_eq!(collapse(" \n\t "), "");
}

#[test]
fn collapse_output_is_compact() {
    let inputs = ["  x  y\n\n z ", "\tone", "two\r\n", "a  b   c", "  "];
    for s in inputs {
        let out = collapse(s);
        assert!(!out.starts_with(char::is_whitespace));
        assert!(!out.ends_with(char::is_whitespace));
        let chars: Vec<char> = out.chars().collect();
        for w in chars.windows(2) {
            assert!(!(w[0].is_whitespace() && w[1].is_whitespace()));
        }
    }
}

#[test]
fn hidden_word_strips_and_uppercases() {
    assert_eq!(extract_hidden_word("  sT-o#rM "), Some("STORM".to_string()));
    assert_eq!(extract_hidden_word("crane"), Some("CRANE".to_string()));
}

#[test]
fn hidden_word_needs_exactly_five_letters() {
    assert_eq!(extract_hidden_word("toolong"), None);
    assert_eq!(extract_hidden_word("four"), None);
    assert_eq!(extract_hidden_word(""), None);
    assert_eq!(extract_hidden_word("1234567"), None);
    assert_eq!(extract_hidden_word("a1b2c3d4e"), Some("ABCDE".to_string()));
}

#[test]
fn label_of_blank_is_default() {
    assert_eq!(format_puzzle_label(""), "Wordle");
    assert_eq!(format_puzzle_label("   "), "Wordle");
}

#[test]
fn label_with_hash_gets_prefix() {
    assert_eq!(format_puzzle_label("#1234"), "Wordle #1234");
    assert_eq!(format_puzzle_label("  #77 "), "Wordle #77");
}

#[test]
fn label_of_bare_number_gets_hash() {
    assert_eq!(format_puzzle_label("1234"), "Wordle #1234");
}

#[test]
fn label_naming_the_game_is_kept() {
    assert_eq!(format_puzzle_label("Wordle #999"), "Wordle #999");
    assert_eq!(format_puzzle_label("  WORDLE 12 "), "WORDLE 12");
}
