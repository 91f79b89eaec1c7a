//! Decimal notation for integers, as written by numeric output.

use vstd::prelude::*;

verus! {

/// The character for a single decimal digit.
pub open spec fn digit(d: int) -> char
    recommends
        0 <= d < 10,
{
    if d == 0 {
        '0'
    } else if d == 1 {
        '1'
    } else if d == 2 {
        '2'
    } else if d == 3 {
        '3'
    } else if d == 4 {
        '4'
    } else if d == 5 {
        '5'
    } else if d == 6 {
        '6'
    } else if d == 7 {
        '7'
    } else if d == 8 {
        '8'
    } else {
        '9'
    }
}

/// The decimal digits of a natural number, most significant first and
/// without leading zeros; zero is written `0`.
pub open spec fn decimal_nat(n: nat) -> Seq<char>
    decreases n,
{
    if n < 10 {
        seq![digit(n as int)]
    } else {
        decimal_nat(n / 10).push(digit((n % 10) as int))
    }
}

/// The decimal notation of an integer: a minus sign for a negative number,
/// then the digits of its magnitude.
pub open spec fn decimal(v: int) -> Seq<char> {
    if v < 0 {
        seq!['-'] + decimal_nat((-v) as nat)
    } else {
        decimal_nat(v as nat)
    }
}

fn digit_char(d: u32) -> (c: char)
    requires
        d < 10,
    ensures
        c == digit(d as int),
{
    match d {
        0 => '0',
        1 => '1',
        2 => '2',
        3 => '3',
        4 => '4',
        5 => '5',
        6 => '6',
        7 => '7',
        8 => '8',
        _ => '9',
    }
}

/// Appends the decimal notation of `v` to `out`.
pub fn push_decimal(out: &mut Vec<char>, v: i32)
    ensures
        final(out)@ == old(out)@ + decimal(v as int),
{
    let magnitude: u32 = if v < 0 {
        out.push('-');
        (-(v as i64)) as u32
    } else {
        v as u32
    };
    // Digits are produced least significant first.
    let mut low_first: Vec<char> = Vec::new();
    let mut rest: u32 = magnitude;
    while rest >= 10
        invariant
            decimal_nat(magnitude as nat) == decimal_nat(rest as nat) + low_first@.reverse(),
        decreases rest,
    {
        let d: u32 = rest % 10;
        proof {
            let grown = low_first@.push(digit(d as int));
            assert(decimal_nat(rest as nat) + low_first@.reverse() =~= decimal_nat(
                (rest / 10) as nat,
            ) + grown.reverse());
        }
        low_first.push(digit_char(d));
        rest = rest / 10;
    }
    out.push(digit_char(rest));
    let mut k: usize = low_first.len();
    while k > 0
        invariant
            k <= low_first.len(),
            out@ == old(out)@ + decimal(v as int).take(decimal(v as int).len() - k),
            decimal(v as int).len() >= low_first.len(),
            forall|j: int|
                0 <= j < low_first.len() ==> decimal(v as int)[decimal(v as int).len() - 1 - j]
                    == low_first[j],
        decreases k,
    {
        k = k - 1;
        out.push(low_first[k]);
    }
}

} // verus!
