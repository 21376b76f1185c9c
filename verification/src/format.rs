//! Human-readable byte counts.

use crate::text::{decimal, decimal_text};
use vstd::prelude::*;
use vstd::string::StringExecFns;

verus! {

/// `n / d` rounded to the nearest integer, a tie going to the even neighbour.
pub open spec fn round_half_even(n: nat, d: nat) -> nat {
    let q = n / d;
    let r = n % d;
    if 2 * r < d {
        q
    } else if 2 * r > d {
        q + 1
    } else if q % 2 == 0 {
        q
    } else {
        q + 1
    }
}

/// The spacing of the double-precision numbers around `n`: 1 below 2^53,
/// doubling with every further binary digit.
pub open spec fn double_spacing(n: nat) -> nat
    decreases n,
{
    if n < 0x20_0000_0000_0000 {
        1
    } else {
        2 * double_spacing(n / 2)
    }
}

/// The double-precision number nearest to `n`. Byte counts are scaled as such
/// numbers, so a count of more than 53 binary digits is first rounded to one.
pub open spec fn nearest_double(n: nat) -> nat {
    round_half_even(n, double_spacing(n)) * double_spacing(n)
}

/// The unit in which a count is shown: 0 for bytes, then KB, MB, GB, and 4
/// for TB, the largest.
pub open spec fn unit_index(n: nat) -> nat {
    if n < 0x400 {
        0
    } else if n < 0x10_0000 {
        1
    } else if n < 0x4000_0000 {
        2
    } else if n < 0x100_0000_0000 {
        3
    } else {
        4
    }
}

/// The number of bytes in one unit.
pub open spec fn unit_size(k: nat) -> nat {
    if k == 0 {
        1
    } else if k == 1 {
        0x400
    } else if k == 2 {
        0x10_0000
    } else if k == 3 {
        0x4000_0000
    } else {
        0x100_0000_0000
    }
}

/// The name of a unit, with the space that separates it from the number.
pub open spec fn unit_suffix(k: nat) -> Seq<char> {
    if k == 0 {
        " B"@
    } else if k == 1 {
        " KB"@
    } else if k == 2 {
        " MB"@
    } else if k == 3 {
        " GB"@
    } else {
        " TB"@
    }
}

/// The text of a byte count: below 1024 the count itself and `B`; from there
/// on the count in the largest unit that it reaches, rounded to one decimal
/// place (ties to even).
pub open spec fn formatted_bytes(bytes: nat) -> Seq<char> {
    if bytes < 0x400 {
        decimal(bytes) + unit_suffix(0)
    } else {
        let scaled = nearest_double(bytes);
        let k = unit_index(scaled);
        let tenths = round_half_even(10 * scaled, unit_size(k));
        decimal(tenths / 10) + "."@ + decimal(tenths % 10) + unit_suffix(k)
    }
}

/// Computes `round_half_even`.
fn rounded_quotient(n: u128, d: u128) -> (q: u128)
    requires
        0 < d <= 0x1_0000_0000_0000_0000,
        n <= 0x100_0000_0000_0000_0000,
    ensures
        q == round_half_even(n as nat, d as nat),
{
    let q = n / d;
    let r = n % d;
    if 2 * r < d {
        q
    } else if 2 * r > d {
        q + 1
    } else if q % 2 == 0 {
        q
    } else {
        q + 1
    }
}

/// Computes `double_spacing`.
fn spacing_of(bytes: u64) -> (u: u128)
    ensures
        u == double_spacing(bytes as nat),
        1 <= u <= 4096,
{
    let mut m: u64 = bytes;
    let mut u: u128 = 1;
    while m >= 0x20_0000_0000_0000
        invariant
            1 <= u <= 4096,
            m * u <= bytes,
            double_spacing(bytes as nat) == u * double_spacing(m as nat),
        decreases m,
    {
        proof {
            let (mi, ui, bi) = (m as int, u as int, bytes as int);
            assert(ui < 2048) by (nonlinear_arith)
                requires
                    mi * ui <= bi,
                    mi >= 0x20_0000_0000_0000,
                    bi < 0x1_0000_0000_0000_0000,
                    ui >= 1,
            ;
            assert((mi / 2) * (2 * ui) <= mi * ui) by (nonlinear_arith)
                requires
                    mi >= 0,
                    ui >= 1,
            ;
            let s = double_spacing((m / 2) as nat) as int;
            assert(ui * (2 * s) == (2 * ui) * s) by (nonlinear_arith);
        }
        m = m / 2;
        u = 2 * u;
    }
    assert(u * 1 == u);
    u
}

/// Formats a byte count for people: `0 B`, `1.5 KB`, `1.0 TB`.
pub fn format_bytes(bytes: u64) -> (text: String)
    ensures
        text@ == formatted_bytes(bytes as nat),
{
    if bytes < 0x400 {
        return decimal_text(bytes as u128).concat(" B");
    }
    let spacing = spacing_of(bytes);
    let steps = rounded_quotient(bytes as u128, spacing);
    proof {
        let (bi, ui, si) = (bytes as int, spacing as int, steps as int);
        assert(bi / 1 == bi && bi % 1 == 0);
        assert(bi - ui < (bi / ui) * ui <= bi) by (nonlinear_arith)
            requires
                bi >= 0,
                ui >= 1,
        ;
        assert(si * ui <= (bi / ui) * ui + ui && (bi / ui) * ui <= si * ui) by (nonlinear_arith)
            requires
                bi / ui <= si <= bi / ui + 1,
                ui >= 1,
        ;
    }
    let scaled: u128 = steps * spacing;
    let (size, suffix): (u128, &'static str) = if scaled < 0x10_0000 {
        (0x400, " KB")
    } else if scaled < 0x4000_0000 {
        (0x10_0000, " MB")
    } else if scaled < 0x100_0000_0000 {
        (0x4000_0000, " GB")
    } else {
        (0x100_0000_0000, " TB")
    };
    let tenths = rounded_quotient(10 * scaled, size);
    let whole = decimal_text(tenths / 10);
    let fraction = decimal_text(tenths % 10);
    whole.concat(".").concat(fraction.as_str()).concat(suffix)
}

} // verus!
