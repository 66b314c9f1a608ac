//! The arithmetic of the terminal report: byte counts written for a human.
//! The printing itself stays with the program around the library.

use vstd::prelude::*;

use crate::rounding::{nearest, nearest_u128, round_significant, rounded};
use crate::text::{decimal, decimal_string, str_to_string};

verus! {

/// `n` as the nearest binary floating-point number of 53 significant bits
/// (an `f64`), halves to the even neighbour.
pub open spec fn as_double(n: nat) -> nat {
    rounded(n, 53)
}

/// A number of tenths written with one decimal: `12` is `1.2`.
pub open spec fn one_decimal(tenths: nat) -> Seq<char> {
    decimal(tenths / 10) + "."@ + decimal(tenths % 10)
}

/// A byte count as a human reads it: `o` below 1024, then `Kio` and `Mio`
/// with one decimal.
pub open spec fn human_size_text(bytes: nat) -> Seq<char> {
    if bytes < 1024 {
        decimal(bytes) + " o"@
    } else if bytes < 1_048_576 {
        one_decimal(nearest(bytes * 10, 1024)) + " Kio"@
    } else {
        one_decimal(nearest(as_double(bytes) * 10, 1_048_576)) + " Mio"@
    }
}

/// Writes a number of tenths with one decimal.
fn one_decimal_string(tenths: u64) -> (s: String)
    ensures
        s@ == one_decimal(tenths as nat),
{
    let mut s = decimal_string(tenths / 10);
    s.append(".");
    let digit = decimal_string(tenths % 10);
    s.append(digit.as_str());
    s
}

/// Size readable by a human (o, Kio, Mio).
pub fn human_size(bytes: usize) -> (s: String)
    ensures
        s@ == human_size_text(bytes as nat),
{
    if bytes < 1024 {
        let mut s = decimal_string(bytes as u64);
        s.append(" o");
        s
    } else if bytes < 1_048_576 {
        let t = nearest_u128(bytes as u128 * 10, 1024);
        let mut s = one_decimal_string(t as u64);
        s.append(" Kio");
        s
    } else {
        let v = round_significant(bytes as u128, 53);
        let t = nearest_u128(v * 10, 1_048_576);
        let mut s = one_decimal_string(t as u64);
        s.append(" Mio");
        s
    }
}

} // verus!
