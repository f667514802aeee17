//! Rendering of numbers and character buffers into strings, shared by the
//! `to_string` methods of the geometry types and the grid.

use vstd::prelude::*;

verus! {

/// The digit character for `d`, which must lie between 0 and 9.
pub open spec fn spec_digit_char(d: int) -> char {
    if d == 0 {
        '0'
    } else if d == 1 {
        '1'
    } else if d == 2 {
        '2'
    } else if d == 3 {
        '3'
    } else if d == 4 {
        '4'
    } else if d == 5 {
        '5'
    } else if d == 6 {
        '6'
    } else if d == 7 {
        '7'
    } else if d == 8 {
        '8'
    } else {
        '9'
    }
}

/// The decimal digits of `n`, most significant first, with no sign and no
/// leading zeros (a single `0` for zero).
pub open spec fn spec_decimal(n: nat) -> Seq<char>
    decreases n,
{
    if n < 10 {
        seq![spec_digit_char(n as int)]
    } else {
        spec_decimal(n / 10).push(spec_digit_char((n % 10) as int))
    }
}

/// The decimal rendering of `x`: a leading `-` for negative values, then
/// the digits of the magnitude.
pub open spec fn spec_decimal_int(x: int) -> Seq<char> {
    if x < 0 {
        seq!['-'] + spec_decimal((-x) as nat)
    } else {
        spec_decimal(x as nat)
    }
}

/// The rendering of a point: `(x, y)`.
pub open spec fn spec_point_string(x: int, y: int) -> Seq<char> {
    seq!['('] + spec_decimal_int(x) + seq![',', ' '] + spec_decimal_int(y) + seq![')']
}

/// The executable counterpart of [`spec_digit_char`].
fn digit_char(d: u32) -> (c: char)
    requires
        d < 10,
    ensures
        c == spec_digit_char(d as int),
{
    match d {
        0 => '0',
        1 => '1',
        2 => '2',
        3 => '3',
        4 => '4',
        5 => '5',
        6 => '6',
        7 => '7',
        8 => '8',
        _ => '9',
    }
}

/// Append the decimal digits of `n` to `out`.
pub fn push_decimal(out: &mut Vec<char>, n: u32)
    ensures
        final(out)@ == old(out)@ + spec_decimal(n as nat),
    decreases n,
{
    if n < 10 {
        out.push(digit_char(n));
        proof {
            assert(final(out)@ =~= old(out)@ + spec_decimal(n as nat));
        }
    } else {
        push_decimal(out, n / 10);
        out.push(digit_char(n % 10));
        proof {
            assert((n / 10) as nat == (n as nat) / 10);
            assert((n % 10) as nat == (n as nat) % 10);
            assert(final(out)@ =~= old(out)@ + spec_decimal(n as nat));
        }
    }
}

/// Append the decimal rendering of `x` to `out`, sign included.
pub fn push_decimal_signed(out: &mut Vec<char>, x: i32)
    ensures
        final(out)@ == old(out)@ + spec_decimal_int(x as int),
{
    if x >= 0 {
        push_decimal(out, x as u32);
    } else {
        out.push('-');
        let wide: i64 = x as i64;
        let magnitude: u32 = (-wide) as u32;
        proof {
            assert(magnitude == -(x as int));
        }
        push_decimal(out, magnitude);
        proof {
            assert(final(out)@ =~= old(out)@ + spec_decimal_int(x as int));
        }
    }
}

/// Relies on `String`'s `FromIterator` implementation for `char` (through
/// `Iterator::collect`): the returned string holds exactly the characters
/// of `v`, in order.
#[verifier::external_body]
pub fn chars_to_string(v: &Vec<char>) -> (s: String)
    ensures
        s@ == v@,
{
    v.iter().collect()
}

/// Render a point as `(x, y)`.
pub fn point_string(x: i32, y: i32) -> (s: String)
    ensures
        s@ == spec_point_string(x as int, y as int),
{
    let mut out: Vec<char> = Vec::new();
    out.push('(');
    push_decimal_signed(&mut out, x);
    out.push(',');
    out.push(' ');
    push_decimal_signed(&mut out, y);
    out.push(')');
    proof {
        assert(out@ =~= spec_point_string(x as int, y as int));
    }
    chars_to_string(&out)
}

} // verus!
