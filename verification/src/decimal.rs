//! Decimal and hexadecimal rendering of integers as ASCII bytes.

use vstd::prelude::*;

verus! {

/// ASCII decimal digits of `n`, most significant first, without leading zeros.
pub open spec fn dec(n: nat) -> Seq<u8>
    decreases n,
{
    if n < 10 {
        seq![(48 + n) as u8]
    } else {
        dec(n / 10).push((48 + n % 10) as u8)
    }
}

/// Lowercase hexadecimal digit for a value below 16.
pub open spec fn hex_digit(v: nat) -> u8 {
    if v < 10 {
        (48 + v) as u8
    } else {
        (87 + v) as u8
    }
}

/// Two lowercase hex digits of a byte (`{:02x}`).
pub open spec fn hex2(b: u8) -> Seq<u8> {
    seq![hex_digit((b / 16) as nat), hex_digit((b % 16) as nat)]
}

/// Every digit produced by `dec` is an ASCII digit.
pub proof fn lemma_dec_digits(n: nat)
    ensures
        dec(n).len() >= 1,
        dec(n).len() <= n + 1,
        forall|i: int| 0 <= i < dec(n).len() ==> 48 <= #[trigger] dec(n)[i] <= 57,
    decreases n,
{
    if n >= 10 {
        lemma_dec_digits(n / 10);
    }
}

/// Append the decimal rendering of `n` to `out`.
pub fn push_dec(out: &mut Vec<u8>, n: u64)
    ensures
        final(out)@ == old(out)@ + dec(n as nat),
    decreases n,
{
    if n >= 10 {
        push_dec(out, n / 10);
    }
    let d = (n % 10) as u8;
    out.push(48 + d);
    proof {
        if n >= 10 {
            assert(dec(n as nat) == dec((n / 10) as nat).push((48 + n % 10) as u8));
        }
    }
}

/// Append the two-digit lowercase hex rendering of `b` to `out`.
pub fn push_hex2(out: &mut Vec<u8>, b: u8)
    ensures
        final(out)@ == old(out)@ + hex2(b),
{
    let hi = b / 16;
    let lo = b % 16;
    let h = if hi < 10 { 48 + hi } else { 87 + hi };
    let l = if lo < 10 { 48 + lo } else { 87 + lo };
    out.push(h);
    out.push(l);
    assert(final(out)@ =~= old(out)@ + hex2(b));
}

} // verus!
