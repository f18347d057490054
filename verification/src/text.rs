//! Specifications of the `String` operations the library builds texts with.

use vstd::prelude::*;

verus! {

/// `String::push` appends one character.
pub assume_specification[ String::push ](s: &mut String, ch: char)
    ensures
        final(s)@ == old(s)@.push(ch),
;

/// `String::push_str` appends a text.
pub assume_specification[ String::push_str ](s: &mut String, other: &str)
    ensures
        final(s)@ == old(s)@ + other@,
;

/// `String::pop` removes and returns the last character, or returns `None` on an empty
/// string.
pub assume_specification[ String::pop ](s: &mut String) -> (c: Option<char>)
    ensures
        old(s)@.len() > 0 ==> c == Some(old(s)@.last()) && final(s)@ == old(s)@.drop_last(),
        old(s)@.len() == 0 ==> c.is_none() && final(s)@ == old(s)@,
;

/// The digit of value `d`, in upper case past nine.
pub open spec fn digit_char(d: nat) -> char {
    if d == 0 { '0' } else if d == 1 { '1' } else if d == 2 { '2' } else if d == 3 { '3' }
    else if d == 4 { '4' } else if d == 5 { '5' } else if d == 6 { '6' } else if d == 7 { '7' }
    else if d == 8 { '8' } else if d == 9 { '9' } else if d == 10 { 'A' } else if d == 11 { 'B' }
    else if d == 12 { 'C' } else if d == 13 { 'D' } else if d == 14 { 'E' } else { 'F' }
}

/// The digits of `n` in base `b`, most significant first, without leading zeros (`0` is
/// written as one digit).
pub open spec fn digits(n: nat, b: nat) -> Seq<char>
    recommends
        2 <= b <= 16,
    decreases n,
{
    if n < b || b < 2 {
        seq![digit_char(n)]
    } else {
        proof {
            assert(n / b < n) by (nonlinear_arith)
                requires
                    b >= 2,
                    n >= b,
            ;
        }
        digits(n / b, b).push(digit_char(n % b))
    }
}

/// The decimal text of `n`.
pub open spec fn decimal(n: nat) -> Seq<char> {
    digits(n, 10)
}

/// The decimal text of a signed number: a minus sign before the digits of a negative one.
pub open spec fn signed_decimal(v: int) -> Seq<char> {
    if v < 0 {
        seq!['-'] + decimal((-v) as nat)
    } else {
        decimal(v as nat)
    }
}

/// The upper-case hexadecimal digits of `n`, padded with zeros to at least four.
pub open spec fn hex4(n: nat) -> Seq<char> {
    let h = digits(n, 16);
    if h.len() < 4 {
        Seq::new((4 - h.len()) as nat, |i: int| '0') + h
    } else {
        h
    }
}

fn digit_of(d: u128) -> (c: char)
    requires
        d < 16,
    ensures
        c == digit_char(d as nat),
{
    match d {
        0 => '0', 1 => '1', 2 => '2', 3 => '3', 4 => '4', 5 => '5', 6 => '6', 7 => '7',
        8 => '8', 9 => '9', 10 => 'A', 11 => 'B', 12 => 'C', 13 => 'D', 14 => 'E', _ => 'F',
    }
}

/// Appends the digits of `n` in base `base`.
pub fn push_digits(out: &mut String, n: u128, base: u128)
    requires
        2 <= base <= 16,
    ensures
        final(out)@ == old(out)@ + digits(n as nat, base as nat),
    decreases n,
{
    if n >= base {
        assert(n / base < n) by (nonlinear_arith)
            requires
                base >= 2,
                n >= base,
        ;
        push_digits(out, n / base, base);
        out.push(digit_of(n % base));
    } else {
        out.push(digit_of(n));
    }
}

/// Appends the decimal text of `n`.
pub fn push_decimal(out: &mut String, n: u128)
    ensures
        final(out)@ == old(out)@ + decimal(n as nat),
{
    push_digits(out, n, 10);
}

/// Appends the decimal text of a signed number.
pub fn push_signed_decimal(out: &mut String, v: i128)
    ensures
        final(out)@ == old(out)@ + signed_decimal(v as int),
{
    if v < 0 {
        out.push('-');
        let magnitude: u128 = ((-(v + 1)) as u128) + 1;
        let ghost before = out@;
        push_decimal(out, magnitude);
        assert(out@ == old(out)@ + (seq!['-'] + decimal((-v) as nat)));
    } else {
        push_decimal(out, v as u128);
    }
}

proof fn lemma_hex_len(n: nat)
    ensures
        n < 0x10 ==> digits(n, 16).len() == 1,
        0x10 <= n < 0x100 ==> digits(n, 16).len() == 2,
        0x100 <= n < 0x1000 ==> digits(n, 16).len() == 3,
        0x1000 <= n ==> digits(n, 16).len() >= 4,
    decreases n,
{
    if n >= 16 {
        lemma_hex_len(n / 16);
    }
    assert(digits(n, 16).len() == if n < 16 { 1 } else { digits(n / 16, 16).len() + 1 });
}

/// Appends the upper-case hexadecimal digits of `n`, padded to four.
pub fn push_hex4(out: &mut String, n: u32)
    ensures
        final(out)@ == old(out)@ + hex4(n as nat),
{
    proof {
        lemma_hex_len(n as nat);
    }
    let ghost start = out@;
    let ghost h = digits(n as nat, 16);
    if n < 0x10 {
        out.push_str("000");
    } else if n < 0x100 {
        out.push_str("00");
    } else if n < 0x1000 {
        out.push_str("0");
    }
    proof {
        reveal_strlit("000");
        reveal_strlit("00");
        reveal_strlit("0");
    }
    let ghost padded = out@;
    push_digits(out, n as u128, 16);
    proof {
        if h.len() < 4 {
            assert(padded =~= start + Seq::new((4 - h.len()) as nat, |i: int| '0'));
        } else {
            assert(padded == start);
        }
        assert(out@ =~= start + hex4(n as nat));
    }
}

} // verus!
