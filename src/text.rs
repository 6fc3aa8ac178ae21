//! Character-level helpers: whitespace, ASCII letters, building strings.
use vstd::prelude::*;

verus! {

/// Relies on `String::push`: the character is appended at the end.
pub assume_specification[ String::push ](s: &mut String, ch: char)
    ensures
        final(s)@ == old(s)@.push(ch),
;

/// The Unicode `White_Space` property, the set that `char::is_whitespace`
/// documents.
pub open spec fn is_ws(c: char) -> bool {
    let u = c as u32;
    (9 <= u && u <= 13) || u == 32 || u == 0x85 || u == 0xa0 || u == 0x1680 || (0x2000 <= u
        && u <= 0x200a) || u == 0x2028 || u == 0x2029 || u == 0x202f || u == 0x205f || u
        == 0x3000
}

pub fn is_whitespace(c: char) -> (r: bool)
    ensures
        r == is_ws(c),
{
    let u = c as u32;
    (9 <= u && u <= 13) || u == 32 || u == 0x85 || u == 0xa0 || u == 0x1680 || (0x2000 <= u
        && u <= 0x200a) || u == 0x2028 || u == 0x2029 || u == 0x202f || u == 0x205f || u
        == 0x3000
}

pub open spec fn is_ascii_letter(c: char) -> bool {
    ('a' <= c && c <= 'z') || ('A' <= c && c <= 'Z')
}

/// The ASCII upper-case form of a letter; other characters are kept.
pub open spec fn ascii_upper(c: char) -> char {
    if 'a' <= c && c <= 'z' {
        (((c as u32) - 32) as u8) as char
    } else {
        c
    }
}

pub open spec fn ascii_lower(c: char) -> char {
    if 'A' <= c && c <= 'Z' {
        (((c as u32) + 32) as u8) as char
    } else {
        c
    }
}

pub fn to_ascii_upper(c: char) -> (r: char)
    ensures
        r == ascii_upper(c),
{
    if 'a' <= c && c <= 'z' {
        (((c as u32) - 32) as u8) as char
    } else {
        c
    }
}

pub fn to_ascii_lower(c: char) -> (r: char)
    ensures
        r == ascii_lower(c),
{
    if 'A' <= c && c <= 'Z' {
        (((c as u32) + 32) as u8) as char
    } else {
        c
    }
}

/// The characters of a string, in order.
pub fn chars_of(s: &str) -> (r: Vec<char>)
    ensures
        r@ == s@,
{
    let mut v: Vec<char> = Vec::new();
    for c in it: s.chars()
        invariant
            it.seq() == s@,
            v@ == it.seq().take(it.index() as int),
    {
        v.push(c);
    }
    v
}

/// A string made of the characters `v[from..to]`.
pub fn string_of(v: &Vec<char>, from: usize, to: usize) -> (r: String)
    requires
        from <= to <= v.len(),
    ensures
        r@ == v@.subrange(from as int, to as int),
{
    let mut r = String::new();
    let mut i: usize = from;
    while i < to
        invariant
            from <= i <= to <= v.len(),
            r@ == v@.subrange(from as int, i as int),
        decreases to - i,
    {
        r.push(v[i]);
        i += 1;
    }
    r
}


/// The maximal runs of non-whitespace characters of `s`, in order.
pub open spec fn words(s: Seq<char>) -> Seq<Seq<char>>
    decreases s.len(),
{
    if s.len() == 0 {
        seq![]
    } else {
        let w = words(s.drop_last());
        let c = s.last();
        if is_ws(c) {
            w
        } else if s.len() >= 2 && !is_ws(s[s.len() - 2]) {
            w.update(w.len() - 1, w.last().push(c))
        } else {
            w.push(seq![c])
        }
    }
}

/// The words joined with one space between neighbours.
pub open spec fn join(ws: Seq<Seq<char>>) -> Seq<char>
    decreases ws.len(),
{
    if ws.len() == 0 {
        seq![]
    } else if ws.len() == 1 {
        ws[0]
    } else {
        join(ws.drop_last()) + seq![' '] + ws.last()
    }
}

/// `s` with every whitespace run made one space, and none at either end.
pub open spec fn collapsed(s: Seq<char>) -> Seq<char> {
    join(words(s))
}

/// No whitespace at either end, and no two whitespace characters side by side.
pub open spec fn is_compact(t: Seq<char>) -> bool {
    &&& t.len() > 0 ==> !is_ws(t[0]) && !is_ws(t.last())
    &&& forall|j: int| 0 <= j < t.len() - 1 ==> !(is_ws(#[trigger] t[j]) && is_ws(t[j + 1]))
}

pub open spec fn clean_words(ws: Seq<Seq<char>>) -> bool {
    forall|k: int|
        0 <= k < ws.len() ==> (#[trigger] ws[k]).len() > 0 && forall|m: int|
            0 <= m < ws[k].len() ==> !is_ws(#[trigger] ws[k][m])
}

proof fn lemma_words_clean(s: Seq<char>)
    ensures
        clean_words(words(s)),
        s.len() > 0 && !is_ws(s.last()) ==> words(s).len() > 0,
    decreases s.len(),
{
    if s.len() > 0 {
        lemma_words_clean(s.drop_last());
        let w = words(s.drop_last());
        let c = s.last();
        if !is_ws(c) && s.len() >= 2 && !is_ws(s[s.len() - 2]) {
            assert(s.drop_last().last() == s[s.len() - 2]);
            let w2 = w.update(w.len() - 1, w.last().push(c));
            assert forall|k: int| 0 <= k < w2.len() implies (#[trigger] w2[k]).len() > 0
                && forall|m: int| 0 <= m < w2[k].len() ==> !is_ws(#[trigger] w2[k][m]) by {
                if k == w.len() - 1 {
                    assert forall|m: int| 0 <= m < w2[k].len() implies !is_ws(
                        #[trigger] w2[k][m],
                    ) by {
                        if m < w.last().len() {
                            assert(w2[k][m] == w[k][m]);
                        }
                    }
                }
            }
        } else if !is_ws(c) {
            let w2 = w.push(seq![c]);
            assert forall|k: int| 0 <= k < w2.len() implies (#[trigger] w2[k]).len() > 0
                && forall|m: int| 0 <= m < w2[k].len() ==> !is_ws(#[trigger] w2[k][m]) by {
                if k < w.len() {
                    assert(w2[k] == w[k]);
                }
            }
        }
    }
}

proof fn lemma_join_compact(ws: Seq<Seq<char>>)
    requires
        clean_words(ws),
    ensures
        is_compact(join(ws)),
        ws.len() > 0 ==> join(ws).len() > 0,
    decreases ws.len(),
{
    if ws.len() == 1 {
        assert(ws[0].len() > 0);
        assert(ws[0].last() == ws[0][ws[0].len() - 1]);
    } else if ws.len() >= 2 {
        let p = ws.drop_last();
        assert(clean_words(p)) by {
            assert forall|k: int| 0 <= k < p.len() implies (#[trigger] p[k]).len() > 0
                && forall|m: int| 0 <= m < p[k].len() ==> !is_ws(#[trigger] p[k][m]) by {
                assert(p[k] == ws[k]);
            }
        }
        lemma_join_compact(p);
        let a = join(p);
        let b = ws.last();
        assert(b == ws[ws.len() - 1]);
        let t = a + seq![' '] + b;
        assert(t == join(ws));
        assert(b.len() > 0);
        assert(t[0] == a[0]);
        assert(t.last() == b[b.len() - 1]);
        assert forall|j: int| 0 <= j < t.len() - 1 implies !(is_ws(#[trigger] t[j]) && is_ws(
            t[j + 1],
        )) by {
            if j < a.len() - 1 {
                assert(t[j] == a[j] && t[j + 1] == a[j + 1]);
            } else if j == a.len() - 1 {
                assert(t[j] == a.last());
            } else if j == a.len() {
                assert(t[j + 1] == b[0]);
            } else {
                assert(t[j] == b[j - a.len() - 1]);
            }
        }
    }
}

/// The collapsed form of any text has no whitespace at either end and no
/// two whitespace characters in a row.
pub proof fn lemma_collapsed_is_compact(s: Seq<char>)
    ensures
        is_compact(collapsed(s)),
{
    lemma_words_clean(s);
    lemma_join_compact(words(s));
}

/// Splits `s` on whitespace runs and joins the pieces with single spaces.
pub fn collapse(s: &str) -> (r: String)
    ensures
        r@ == collapsed(s@),
{
    let v = chars_of(s);
    let mut r = String::new();
    let mut any: bool = false;
    let mut i: usize = 0;
    while i < v.len()
        invariant
            i <= v.len(),
            v@ == s@,
            r@ == join(words(v@.take(i as int))),
            any == (words(v@.take(i as int)).len() > 0),
        decreases v.len() - i,
    {
        let c = v[i];
        let ghost t = v@.take(i as int + 1);
        let ghost w = words(v@.take(i as int));
        assert(t.drop_last() == v@.take(i as int));
        assert(t.last() == c);
        if is_whitespace(c) {
        } else if i >= 1 && !is_whitespace(v[i - 1]) {
            assert(t[t.len() - 2] == v@[i - 1]);
            assert(v@.take(i as int).last() == v@[i - 1]);
            proof {
                lemma_words_clean(v@.take(i as int));
            }
            let ghost w2 = w.update(w.len() - 1, w.last().push(c));
            assert(words(t) == w2);
            proof {
                if w.len() >= 2 {
                    assert(w2.drop_last() == w.drop_last());
                }
            }
            r.push(c);
            assert(join(w2) == join(w).push(c));
        } else {
            let ghost w2 = w.push(seq![c]);
            assert(words(t) == w2);
            assert(w2.drop_last() == w);
            if any {
                r.push(' ');
            }
            r.push(c);
            any = true;
        }
        i += 1;
    }
    assert(v@.take(v.len() as int) == v@);
    r
}

/// The ASCII letters of `s`, in order, each in upper case.
pub open spec fn upper_letters(s: Seq<char>) -> Seq<char>
    decreases s.len(),
{
    if s.len() == 0 {
        seq![]
    } else if is_ascii_letter(s.last()) {
        upper_letters(s.drop_last()).push(ascii_upper(s.last()))
    } else {
        upper_letters(s.drop_last())
    }
}

/// The text of a hidden span read as a word: its ASCII letters, upper-cased,
/// when there are exactly five of them.
pub open spec fn hidden_word(s: Seq<char>) -> Option<Seq<char>> {
    if upper_letters(s).len() == 5 {
        Some(upper_letters(s))
    } else {
        None
    }
}

/// Keeps the ASCII letters of `s`, upper-cased; yields them when there are
/// exactly five.
pub fn extract_hidden_word(s: &str) -> (r: Option<String>)
    ensures
        r is Some <==> upper_letters(s@).len() == 5,
        r matches Some(w) ==> w@ == upper_letters(s@),
        r matches Some(w) ==> Some(w@) == hidden_word(s@),
{
    let v = chars_of(s);
    let mut r = String::new();
    let mut i: usize = 0;
    while i < v.len()
        invariant
            i <= v.len(),
            v@ == s@,
            r@ == upper_letters(v@.take(i as int)),
        decreases v.len() - i,
    {
        let c = v[i];
        assert(v@.take(i as int + 1).drop_last() == v@.take(i as int));
        if ('a' <= c && c <= 'z') || ('A' <= c && c <= 'Z') {
            r.push(to_ascii_upper(c));
        }
        i += 1;
    }
    assert(v@.take(v.len() as int) == v@);
    if r.as_str().unicode_len() == 5 {
        Some(r)
    } else {
        None
    }
}


/// `n` stands in `h` starting at position `k`.
pub open spec fn occurs_at(h: Seq<char>, n: Seq<char>, k: int) -> bool {
    0 <= k && k + n.len() <= h.len() && h.subrange(k, k + n.len()) == n
}

/// `n` stands somewhere in `h`.
pub open spec fn contains(h: Seq<char>, n: Seq<char>) -> bool {
    exists|k: int| occurs_at(h, n, k)
}

/// Position `k` is the leftmost place at or after `from` where `n` stands in `h`.
pub open spec fn first_at(h: Seq<char>, n: Seq<char>, from: int, k: int) -> bool {
    &&& from <= k
    &&& occurs_at(h, n, k)
    &&& forall|j: int| from <= j < k ==> !occurs_at(h, n, j)
}

pub fn matches_at(h: &Vec<char>, n: &Vec<char>, k: usize) -> (r: bool)
    ensures
        r == occurs_at(h@, n@, k as int),
{
    if k > h.len() || n.len() > h.len() - k {
        return false;
    }
    let mut i: usize = 0;
    while i < n.len()
        invariant
            k + n.len() <= h.len(),
            i <= n.len(),
            forall|j: int| 0 <= j < i ==> h@[k + j] == n@[j],
        decreases n.len() - i,
    {
        if h[k + i] != n[i] {
            assert(h@.subrange(k as int, k + n.len())[i as int] != n@[i as int]);
            return false;
        }
        i += 1;
    }
    assert(h@.subrange(k as int, k + n.len()) == n@);
    true
}

/// The leftmost position at or after `from` where `n` stands in `h`.
pub fn find_from(h: &Vec<char>, n: &Vec<char>, from: usize) -> (r: Option<usize>)
    ensures
        r matches Some(k) ==> first_at(h@, n@, from as int, k as int),
        r is None ==> forall|j: int| from <= j ==> !occurs_at(h@, n@, j),
{
    if n.len() > h.len() || from > h.len() - n.len() {
        return None;
    }
    let last: usize = h.len() - n.len();
    let mut k: usize = from;
    while k < last
        invariant
            from <= k <= last,
            last + n.len() == h.len(),
            forall|j: int| from <= j < k ==> !occurs_at(h@, n@, j),
        decreases last - k,
    {
        if matches_at(h, n, k) {
            return Some(k);
        }
        k += 1;
    }
    if matches_at(h, n, last) {
        Some(last)
    } else {
        None
    }
}

pub fn contains_chars(h: &Vec<char>, n: &Vec<char>) -> (r: bool)
    ensures
        r == contains(h@, n@),
{
    match find_from(h, n, 0) {
        Some(k) => true,
        None => {
            assert(forall|j: int| 0 <= j ==> !occurs_at(h@, n@, j));
            false
        },
    }
}

/// `s` without its leading whitespace.
pub open spec fn trim_start(s: Seq<char>) -> Seq<char>
    decreases s.len(),
{
    if s.len() > 0 && is_ws(s[0]) {
        trim_start(s.drop_first())
    } else {
        s
    }
}

/// `s` without its trailing whitespace.
pub open spec fn trim_end(s: Seq<char>) -> Seq<char>
    decreases s.len(),
{
    if s.len() > 0 && is_ws(s.last()) {
        trim_end(s.drop_last())
    } else {
        s
    }
}

/// `s` without whitespace at either end.
pub open spec fn trimmed(s: Seq<char>) -> Seq<char> {
    trim_end(trim_start(s))
}

/// The bounds of `v[from..to]` with its outer whitespace left out.
pub fn trim_bounds(v: &Vec<char>, from: usize, to: usize) -> (r: (usize, usize))
    requires
        from <= to <= v.len(),
    ensures
        from <= r.0 <= r.1 <= to,
        v@.subrange(r.0 as int, r.1 as int) == trimmed(v@.subrange(from as int, to as int)),
{
    let mut a: usize = from;
    while a < to && is_whitespace(v[a])
        invariant
            from <= a <= to <= v.len(),
            trim_start(v@.subrange(from as int, to as int)) == trim_start(
                v@.subrange(a as int, to as int),
            ),
        decreases to - a,
    {
        assert(v@.subrange(a as int, to as int).drop_first() == v@.subrange(
            a + 1,
            to as int,
        ));
        a += 1;
    }
    let mut b: usize = to;
    while b > a && is_whitespace(v[b - 1])
        invariant
            from <= a <= b <= to <= v.len(),
            trim_end(v@.subrange(a as int, to as int)) == trim_end(v@.subrange(a as int, b as int)),
        decreases b - a,
    {
        assert(v@.subrange(a as int, b as int).drop_last() == v@.subrange(a as int, b - 1));
        b -= 1;
    }
    (a, b)
}

} // verus!
