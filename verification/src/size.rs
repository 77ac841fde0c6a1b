//! Sizes in binary units, written the way a float with two decimals is.

use vstd::prelude::*;
use crate::number::{decimal, digit_char, digit_of, push_decimal};
use crate::text::{push_str, string_of};

verus! {

pub const KB: u64 = 1024;

pub const MB: u64 = 1048576;

pub const GB: u64 = 1073741824;

/// `n / d`, rounded to the nearest whole number; a half goes to the even neighbour.
pub open spec fn round_half_even(n: nat, d: nat) -> nat {
    let q = n / d;
    let r = n % d;
    if 2 * r > d || (2 * r == d && q % 2 == 1) {
        q + 1
    } else {
        q
    }
}

/// The distance between neighbouring double-precision floats around `n`:
/// 1 below 2^53, and twice as much with each further bit.
pub open spec fn float_ulp(n: nat) -> nat
    decreases n,
{
    if n < 0x20_0000_0000_0000 {
        1
    } else {
        2 * float_ulp(n / 2)
    }
}

/// The double-precision float nearest to `n`, which is a whole number.
pub open spec fn nearest_float(n: nat) -> nat {
    round_half_even(n, float_ulp(n)) * float_ulp(n)
}

/// `bytes / unit` in hundredths: the float nearest to `bytes`, divided by
/// `unit` and rounded to two decimals.
pub open spec fn hundredths(bytes: nat, unit: nat) -> nat {
    round_half_even(nearest_float(bytes) * 100, unit)
}

/// `h` hundredths written with two decimals.
pub open spec fn fixed2(h: nat) -> Seq<char> {
    decimal(h / 100) + seq!['.', digit_char(h / 10 % 10), digit_char(h % 10)]
}

/// A size in bytes for a reader: in GB, MB or KB (units of 1024) with two
/// decimals from the first unit that the size reaches, else in whole bytes.
pub open spec fn size_text(bytes: nat) -> Seq<char> {
    if bytes >= GB {
        fixed2(hundredths(bytes, GB as nat)) + " GB"@
    } else if bytes >= MB {
        fixed2(hundredths(bytes, MB as nat)) + " MB"@
    } else if bytes >= KB {
        fixed2(hundredths(bytes, KB as nat)) + " KB"@
    } else {
        decimal(bytes) + " B"@
    }
}

fn round_div(n: u128, d: u128) -> (q: u128)
    requires
        0 < d < 0x1_0000_0000_0000_0000,
        n < 0x1_0000_0000_0000_0000_0000_0000,
    ensures
        q == round_half_even(n as nat, d as nat),
        q <= n + 1,
{
    let q = n / d;
    let r = n % d;
    proof {
        assert(n / d <= n && n % d < d) by (nonlinear_arith)
            requires
                0 < d,
                0 <= n,
        ;
    }
    if 2 * r > d || (2 * r == d && q % 2 == 1) {
        q + 1
    } else {
        q
    }
}

fn ulp_of(n: u64) -> (u: u64)
    ensures
        u == float_ulp(n as nat),
        1 <= u <= 2048,
{
    proof {
        reveal_with_fuel(float_ulp, 13);
    }
    if n < 0x20_0000_0000_0000 {
        1
    } else if n < 0x40_0000_0000_0000 {
        2
    } else if n < 0x80_0000_0000_0000 {
        4
    } else if n < 0x100_0000_0000_0000 {
        8
    } else if n < 0x200_0000_0000_0000 {
        16
    } else if n < 0x400_0000_0000_0000 {
        32
    } else if n < 0x800_0000_0000_0000 {
        64
    } else if n < 0x1000_0000_0000_0000 {
        128
    } else if n < 0x2000_0000_0000_0000 {
        256
    } else if n < 0x4000_0000_0000_0000 {
        512
    } else if n < 0x8000_0000_0000_0000 {
        1024
    } else {
        2048
    }
}

fn hundredths_of(bytes: u64, unit: u64) -> (h: u128)
    requires
        unit > 0,
    ensures
        h == hundredths(bytes as nat, unit as nat),
{
    let u = ulp_of(bytes);
    let q = round_div(bytes as u128, u as u128);
    proof {
        assert(q * u <= 0x1_0000_0000_0000_0001 * 2048) by (nonlinear_arith)
            requires
                q <= 0x1_0000_0000_0000_0001,
                1 <= u <= 2048,
        ;
    }
    let f: u128 = q * (u as u128);
    round_div(f * 100, unit as u128)
}

fn push_fixed2(out: &mut Vec<char>, h: u128)
    ensures
        final(out)@ == old(out)@ + fixed2(h as nat),
{
    push_decimal(out, h / 100);
    out.push('.');
    out.push(digit_of(h / 10 % 10));
    out.push(digit_of(h % 10));
    proof {
        assert(final(out)@ == old(out)@ + (decimal((h / 100) as nat) + seq![
            '.',
            digit_char((h / 10 % 10) as nat),
            digit_char((h % 10) as nat),
        ]));
    }
}

/// Writes a size in bytes for a reader, in the largest binary unit that it reaches.
pub fn format_size(bytes: u64) -> (out: String)
    ensures
        out@ == size_text(bytes as nat),
{
    let mut out: Vec<char> = Vec::new();
    if bytes >= GB {
        push_fixed2(&mut out, hundredths_of(bytes, GB));
        push_str(&mut out, " GB");
    } else if bytes >= MB {
        push_fixed2(&mut out, hundredths_of(bytes, MB));
        push_str(&mut out, " MB");
    } else if bytes >= KB {
        push_fixed2(&mut out, hundredths_of(bytes, KB));
        push_str(&mut out, " KB");
    } else {
        push_decimal(&mut out, bytes as u128);
        push_str(&mut out, " B");
    }
    string_of(&out)
}

} // verus!
