//! Decimal text of integers.
use vstd::prelude::*;

verus! {

pub open spec fn digit_char(d: nat) -> char {
    if d == 0 { '0' } else if d == 1 { '1' } else if d == 2 { '2' } else if d == 3 { '3' }
    else if d == 4 { '4' } else if d == 5 { '5' } else if d == 6 { '6' } else if d == 7 { '7' }
    else if d == 8 { '8' } else { '9' }
}

/// The decimal digits of `n`, most significant first, without leading zeros.
pub open spec fn decimal(n: nat) -> Seq<char>
    decreases n,
{
    if n < 10 {
        seq![digit_char(n)]
    } else {
        decimal(n / 10).push(digit_char(n % 10))
    }
}

/// The decimal text of `n`, with a leading '-' when it is negative.
pub open spec fn signed_decimal(n: int) -> Seq<char> {
    if n < 0 {
        seq!['-'] + decimal((-n) as nat)
    } else {
        decimal(n as nat)
    }
}

/// The digits of `n`, with zeros in front up to `width` characters.
pub open spec fn zero_padded(n: nat, width: nat) -> Seq<char> {
    let d = decimal(n);
    if d.len() < width {
        Seq::new((width - d.len()) as nat, |i: int| '0') + d
    } else {
        d
    }
}

fn digit(d: u64) -> (c: char)
    requires
        d < 10,
    ensures
        c == digit_char(d as nat),
{
    if d == 0 { '0' } else if d == 1 { '1' } else if d == 2 { '2' } else if d == 3 { '3' }
    else if d == 4 { '4' } else if d == 5 { '5' } else if d == 6 { '6' } else if d == 7 { '7' }
    else if d == 8 { '8' } else { '9' }
}

pub fn push_decimal(r: &mut String, n: u64)
    ensures
        final(r)@ == old(r)@ + decimal(n as nat),
    decreases n,
{
    if n < 10 {
        r.push(digit(n));
    } else {
        push_decimal(r, n / 10);
        r.push(digit(n % 10));
        assert(decimal(n as nat) == decimal((n / 10) as nat).push(digit_char((n % 10) as nat)));
    }
}

pub fn push_signed_decimal(r: &mut String, n: i64)
    ensures
        final(r)@ == old(r)@ + signed_decimal(n as int),
{
    if n < 0 {
        r.push('-');
        let m: u64 = (0i128 - n as i128) as u64;
        push_decimal(r, m);
        assert(old(r)@.push('-') + decimal(m as nat) == old(r)@ + (seq!['-'] + decimal(m as nat)));
    } else {
        push_decimal(r, n as u64);
    }
}

pub fn push_zero_padded(r: &mut String, n: u64, width: usize)
    requires
        width <= 4,
    ensures
        final(r)@ == old(r)@ + zero_padded(n as nat, width as nat),
{
    let mut probe = String::new();
    push_decimal(&mut probe, n);
    let len = probe.as_str().unicode_len();
    let ghost d = decimal(n as nat);
    let mut k: usize = len;
    while k < width
        invariant
            len == d.len(),
            len <= k,
            k <= width || k == len,
            r@ == old(r)@ + Seq::new((k - len) as nat, |i: int| '0'),
        decreases width - k,
    {
        r.push('0');
        assert(Seq::new((k + 1 - len) as nat, |i: int| '0') == Seq::new(
            (k - len) as nat,
            |i: int| '0',
        ).push('0'));
        k += 1;
    }
    push_decimal(r, n);
    if len < width {
        assert(old(r)@ + Seq::new((width - len) as nat, |i: int| '0') + d == old(r)@ + (Seq::new(
            (width - len) as nat,
            |i: int| '0',
        ) + d));
    } else {
        assert(Seq::new((k - len) as nat, |i: int| '0') == Seq::<char>::empty());
        assert(old(r)@ + Seq::<char>::empty() == old(r)@);
    }
}

} // verus!
