//! Display labels of word-game puzzles.
use vstd::prelude::*;
use crate::text::{
    ascii_lower, chars_of, contains, contains_chars, string_of, to_ascii_lower, trim_bounds,
    trimmed,
};

verus! {

/// The label used when the source gives no puzzle number.
pub open spec fn default_label() -> Seq<char> {
    seq!['W', 'o', 'r', 'd', 'l', 'e']
}

/// The game's name in lower case, looked for inside a label.
pub open spec fn game_name() -> Seq<char> {
    seq!['w', 'o', 'r', 'd', 'l', 'e']
}

/// The display label for a raw puzzle-number text.
pub open spec fn puzzle_label(raw: Seq<char>) -> Seq<char> {
    let t = trimmed(raw);
    if t.len() == 0 {
        default_label()
    } else if contains(t.map_values(|c: char| ascii_lower(c)), game_name()) {
        t
    } else if t[0] == '#' {
        default_label() + seq![' '] + t
    } else {
        default_label() + seq![' ', '#'] + t
    }
}

fn push_all(r: &mut String, v: &Vec<char>)
    ensures
        final(r)@ == old(r)@ + v@,
{
    let mut i: usize = 0;
    while i < v.len()
        invariant
            i <= v.len(),
            r@ == old(r)@ + v@.take(i as int),
        decreases v.len() - i,
    {
        assert(v@.take(i as int + 1) == v@.take(i as int).push(v@[i as int]));
        r.push(v[i]);
        i += 1;
    }
    assert(v@.take(v.len() as int) == v@);
}

/// Turns a raw puzzle-number text into a display label: "Wordle" when it is
/// blank, the trimmed text when it already names the game, and otherwise the
/// number after "Wordle " (adding a '#' when it has none).
pub fn format_puzzle_label(raw: &str) -> (r: String)
    ensures
        r@ == puzzle_label(raw@),
{
    let v = chars_of(raw);
    let (a, b) = trim_bounds(&v, 0, v.len());
    assert(v@.subrange(0, v.len() as int) == raw@);
    let t = string_of(&v, a, b);
    let mut r = String::new();
    r.push('W');
    r.push('o');
    r.push('r');
    r.push('d');
    r.push('l');
    r.push('e');
    if a == b {
        return r;
    }
    let mut lower: Vec<char> = Vec::new();
    let mut i: usize = a;
    while i < b
        invariant
            a <= i <= b <= v.len(),
            lower@ == v@.subrange(a as int, i as int).map_values(|c: char| ascii_lower(c)),
        decreases b - i,
    {
        lower.push(to_ascii_lower(v[i]));
        i += 1;
        assert(lower@ == v@.subrange(a as int, i as int).map_values(|c: char| ascii_lower(c)));
    }
    let name = vec!['w', 'o', 'r', 'd', 'l', 'e'];
    if contains_chars(&lower, &name) {
        return t;
    }
    let tv = chars_of(t.as_str());
    if v[a] == '#' {
        r.push(' ');
    } else {
        r.push(' ');
        r.push('#');
    }
    push_all(&mut r, &tv);
    r
}

} // verus!
