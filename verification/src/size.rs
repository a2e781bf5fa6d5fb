//! Human-readable size labels. The label is the one that floating-point
//! division and `{:.1}` formatting give: the byte count is first rounded to
//! the nearest `f64` (ties to even), divided by 1024 per unit step (exact for
//! powers of two), and the quotient is rounded to one decimal, ties to even.
//! Everything here is exact integer arithmetic.

use vstd::prelude::*;
use vstd::arithmetic::div_mod::lemma_div_denominator;
use crate::text::{decimal, digit_char, push_char, push_decimal};

verus! {

/// `2^53`: every integer below it is an `f64`.
pub open spec fn f64_exact_limit() -> nat {
    0x20000000000000
}

/// The spacing of the `f64` values around `n`: the least power of two `p`
/// with `n / p < 2^53`.
pub open spec fn f64_spacing(n: nat) -> nat
    decreases n,
{
    if n < f64_exact_limit() {
        1
    } else {
        2 * f64_spacing(n / 2)
    }
}

/// `a / d` rounded to the nearest integer, ties to the even one.
pub open spec fn round_half_even(a: nat, d: nat) -> nat {
    let q = a / d;
    let r = a % d;
    if r > d - r || (r == d - r && q % 2 == 1) {
        q + 1
    } else {
        q
    }
}

/// The `f64` nearest to `n` (ties to even), that is, `n as f64`.
pub open spec fn nearest_f64(n: nat) -> nat {
    round_half_even(n, f64_spacing(n)) * f64_spacing(n)
}

/// `1024^k`.
pub open spec fn pow1024(k: nat) -> nat
    decreases k,
{
    if k == 0 {
        1
    } else {
        1024 * pow1024((k - 1) as nat)
    }
}

/// The unit of the label: 0 for B, 1 for KB, up to 4 for TB, the largest
/// unit not above `bytes`.
pub open spec fn size_unit(bytes: nat) -> nat {
    if bytes < 1024 {
        0
    } else if bytes < 1048576 {
        1
    } else if bytes < 1073741824 {
        2
    } else if bytes < 1099511627776 {
        3
    } else {
        4
    }
}

/// The name of unit `u`.
pub open spec fn unit_name(u: nat) -> Seq<char> {
    if u == 0 {
        seq!['B']
    } else if u == 1 {
        seq!['K', 'B']
    } else if u == 2 {
        seq!['M', 'B']
    } else if u == 3 {
        seq!['G', 'B']
    } else {
        seq!['T', 'B']
    }
}

/// The size in tenths of its unit, rounded as `{:.1}` rounds the `f64`
/// quotient.
pub open spec fn size_tenths(bytes: nat) -> nat {
    round_half_even(nearest_f64(bytes) * 10, pow1024(size_unit(bytes)))
}

/// The label of `bytes`: `"{bytes} B"` below 1024, else the size in its unit
/// with one decimal, a space and the unit name.
pub open spec fn size_label(bytes: nat) -> Seq<char> {
    if size_unit(bytes) == 0 {
        decimal(bytes) + seq![' ', 'B']
    } else {
        let t = size_tenths(bytes);
        decimal(t / 10) + seq!['.', digit_char(t % 10), ' '] + unit_name(size_unit(bytes))
    }
}

fn round_half_even_u128(a: u128, d: u128) -> (r: u128)
    requires
        d > 0,
        a < 0xffff_ffff_ffff_ffff_ffff_ffff,
    ensures
        r == round_half_even(a as nat, d as nat),
{
    let q = a / d;
    let rem = a % d;
    proof {
        lemma_div_denominator(a as int, 1, d as int);
        assert(q <= a) by (nonlinear_arith)
            requires
                q == a / d,
                d > 0,
        ;
    }
    if rem > d - rem || (rem == d - rem && q % 2 == 1) {
        q + 1
    } else {
        q
    }
}

/// `n as f64`, as an exact integer.
fn nearest_f64_u128(n: u64) -> (r: u128)
    ensures
        r == nearest_f64(n as nat),
        r <= 0x2_0000_0000_0000_0000,
{
    let mut m: u64 = n;
    let mut p: u128 = 1;
    while m >= 0x20000000000000
        invariant
            0 < p < 4096,
            m as nat == n as nat / p as nat,
            f64_spacing(n as nat) == p * f64_spacing(m as nat),
        decreases m,
    {
        let ghost m0 = m;
        let ghost p0 = p;
        proof {
            lemma_div_denominator(n as int, p as int, 2);
            assert(p * 0x20000000000000 <= n) by (nonlinear_arith)
                requires
                    m as nat == n as nat / p as nat,
                    m >= 0x20000000000000,
                    p > 0,
            ;
        }
        m = m / 2;
        p = p * 2;
        proof {
            assert(f64_spacing(m0 as nat) == 2 * f64_spacing(m as nat));
            assert(f64_spacing(n as nat) == p * f64_spacing(m as nat)) by (nonlinear_arith)
                requires
                    f64_spacing(n as nat) == p0 * f64_spacing(m0 as nat),
                    f64_spacing(m0 as nat) == 2 * f64_spacing(m as nat),
                    p == p0 * 2,
            ;
        }
    }
    assert(f64_spacing(m as nat) == 1);
    assert(f64_spacing(n as nat) == p) by (nonlinear_arith)
        requires
            f64_spacing(n as nat) == p * f64_spacing(m as nat),
            f64_spacing(m as nat) == 1,
    ;
    let k = round_half_even_u128(n as u128, p);
    proof {
        assert(k <= 0x20000000000000);
        assert(k * p <= 0x2_0000_0000_0000_0000) by (nonlinear_arith)
            requires
                k <= 0x20000000000000,
                p < 4096,
        ;
    }
    k * p
}

fn size_unit_of(bytes: u64) -> (u: u64)
    ensures
        u == size_unit(bytes as nat),
{
    if bytes < 1024 {
        0
    } else if bytes < 1048576 {
        1
    } else if bytes < 1073741824 {
        2
    } else if bytes < 1099511627776 {
        3
    } else {
        4
    }
}

fn pow1024_u128(k: u64) -> (r: u128)
    requires
        k <= 4,
    ensures
        r == pow1024(k as nat),
        r > 0,
{
    reveal_with_fuel(pow1024, 5);
    if k == 0 {
        1
    } else if k == 1 {
        1024
    } else if k == 2 {
        1048576
    } else if k == 3 {
        1073741824
    } else {
        1099511627776
    }
}

fn push_unit_name(out: &mut String, u: u64)
    requires
        1 <= u <= 4,
    ensures
        final(out)@ == old(out)@ + unit_name(u as nat),
{
    if u == 1 {
        push_char(out, 'K');
    } else if u == 2 {
        push_char(out, 'M');
    } else if u == 3 {
        push_char(out, 'G');
    } else {
        push_char(out, 'T');
    }
    push_char(out, 'B');
    assert(out@ =~= old(out)@ + unit_name(u as nat));
}

/// The human-readable label of a byte count, such as `"512 B"` or
/// `"1.5 KB"`.
pub fn format_size(bytes: u64) -> (r: String)
    ensures
        r@ == size_label(bytes as nat),
{
    let unit = size_unit_of(bytes);
    let mut r = String::new();
    if unit == 0 {
        push_decimal(&mut r, bytes as u128);
        push_char(&mut r, ' ');
        push_char(&mut r, 'B');
        assert(r@ =~= size_label(bytes as nat));
        return r;
    }
    let fb = nearest_f64_u128(bytes);
    let tenths = round_half_even_u128(fb * 10, pow1024_u128(unit));
    push_decimal(&mut r, tenths / 10);
    push_char(&mut r, '.');
    let d: u8 = (tenths % 10) as u8;
    push_char(&mut r, (48u8 + d) as char);
    push_char(&mut r, ' ');
    push_unit_name(&mut r, unit);
    assert(r@ =~= size_label(bytes as nat));
    r
}

/// Below one KiB the label is the exact byte count followed by ` B`.
pub proof fn small_sizes_are_exact(bytes: nat)
    requires
        bytes < 1024,
    ensures
        size_label(bytes) == decimal(bytes) + seq![' ', 'B'],
{
}

} // verus!
