//! Decimal and upper-case hexadecimal renderings of unsigned integers, as
//! ASCII bytes.
use vstd::prelude::*;

verus! {

/// ASCII byte of a digit below sixteen: `0`-`9`, then `A`-`F`.
pub open spec fn digit_byte(d: nat) -> u8 {
    if d < 10 { (48 + d) as u8 } else { (55 + d) as u8 }
}

/// Decimal text of `n`, without leading zeros.
pub open spec fn decimal(n: nat) -> Seq<u8>
    decreases n,
{
    if n < 10 {
        seq![digit_byte(n)]
    } else {
        decimal(n / 10).push(digit_byte(n % 10))
    }
}

/// Upper-case hexadecimal text of `n`, without leading zeros.
pub open spec fn hex_upper(n: nat) -> Seq<u8>
    decreases n,
{
    if n < 16 {
        seq![digit_byte(n)]
    } else {
        hex_upper(n / 16).push(digit_byte(n % 16))
    }
}

fn digit(d: u64) -> (r: u8)
    requires
        d < 16,
    ensures
        r == digit_byte(d as nat),
{
    if d < 10 {
        (48 + d) as u8
    } else {
        (55 + d) as u8
    }
}

/// Renders `n` in decimal.
pub fn decimal_bytes(n: u64) -> (r: Vec<u8>)
    ensures
        r@ == decimal(n as nat),
    decreases n,
{
    if n < 10 {
        let mut v: Vec<u8> = Vec::new();
        v.push(digit(n));
        proof {
            assert(v@ =~= seq![digit_byte(n as nat)]);
        }
        v
    } else {
        let mut v = decimal_bytes(n / 10);
        v.push(digit(n % 10));
        v
    }
}

/// Renders `n` in upper-case hexadecimal.
pub fn hex_upper_bytes(n: u64) -> (r: Vec<u8>)
    ensures
        r@ == hex_upper(n as nat),
    decreases n,
{
    if n < 16 {
        let mut v: Vec<u8> = Vec::new();
        v.push(digit(n));
        proof {
            assert(v@ =~= seq![digit_byte(n as nat)]);
        }
        v
    } else {
        let mut v = hex_upper_bytes(n / 16);
        v.push(digit(n % 16));
        v
    }
}

} // verus!
