//! Byte-level text helpers: decimal and hexadecimal digits, string
//! comparison and appending to a byte buffer.
//!
//! All text in this crate is handled as UTF-8 bytes; a literal `s`
//! stands for `s.spec_bytes()` in contracts.

use vstd::prelude::*;
use vstd::string::StringSliceAdditionalSpecFns;

verus! {

/// The ASCII digit for `d < 10`.
pub open spec fn digit(d: nat) -> u8 {
    (48 + d) as u8
}

/// The decimal digits of `n`, most significant first, without leading
/// zeros (`0` is one digit).
pub open spec fn decimal(n: nat) -> Seq<u8>
    decreases n,
{
    if n < 10 {
        seq![digit(n)]
    } else {
        decimal(n / 10).push(digit(n % 10))
    }
}

/// The decimal text of `v`, with a leading `-` when negative.
pub open spec fn signed_decimal(v: int) -> Seq<u8> {
    if v < 0 {
        seq![45u8] + decimal((-v) as nat)
    } else {
        decimal(v as nat)
    }
}

/// The upper-case hexadecimal digit for `d < 16`.
pub open spec fn hex_digit(d: u32) -> u8 {
    if d < 10 {
        (48 + d) as u8
    } else {
        (55 + d) as u8
    }
}

/// Six upper-case hexadecimal digits of the low 24 bits of `v`.
pub open spec fn hex6(v: u32) -> Seq<u8> {
    seq![
        hex_digit((v >> 20u32) & 15u32),
        hex_digit((v >> 16u32) & 15u32),
        hex_digit((v >> 12u32) & 15u32),
        hex_digit((v >> 8u32) & 15u32),
        hex_digit((v >> 4u32) & 15u32),
        hex_digit(v & 15u32),
    ]
}

/// Appends the bytes of `s`.
pub fn push_str(out: &mut Vec<u8>, s: &str)
    ensures
        final(out)@ == old(out)@ + s.spec_bytes(),
{
    let b = s.as_bytes();
    push_bytes(out, b);
}

/// Appends `b`.
pub fn push_bytes(out: &mut Vec<u8>, b: &[u8])
    ensures
        final(out)@ == old(out)@ + b@,
{
    let ghost o = out@;
    let mut i: usize = 0;
    while i < b.len()
        invariant
            o == old(out)@,
            i <= b@.len(),
            out@ == o + b@.subrange(0, i as int),
        decreases b@.len() - i,
    {
        out.push(b[i]);
        i = i + 1;
        proof {
            assert(b@.subrange(0, i as int) =~= b@.subrange(0, i - 1).push(b@[i - 1]));
        }
    }
    proof {
        assert(b@.subrange(0, b@.len() as int) =~= b@);
    }
}

/// Appends the decimal digits of `n`.
pub fn push_decimal(out: &mut Vec<u8>, n: u64)
    ensures
        final(out)@ == old(out)@ + decimal(n as nat),
    decreases n,
{
    if n >= 10 {
        push_decimal(out, n / 10);
    }
    let d = (n % 10) as u8;
    out.push(48 + d);
    proof {
        if n >= 10 {
            assert(decimal(n as nat) == decimal((n / 10) as nat).push(digit((n % 10) as nat)));
        }
        assert(final(out)@ =~= old(out)@ + decimal(n as nat));
    }
}

/// Appends the decimal text of `v`, with `-` when negative.
pub fn push_signed(out: &mut Vec<u8>, v: i64)
    ensures
        final(out)@ == old(out)@ + signed_decimal(v as int),
{
    if v < 0 {
        out.push(45);
        let m = (-(v + 1)) as u64 + 1;
        push_decimal(out, m);
        proof {
            assert(final(out)@ =~= old(out)@ + signed_decimal(v as int));
        }
    } else {
        push_decimal(out, v as u64);
    }
}

/// Appends six upper-case hexadecimal digits of the low 24 bits of `v`.
pub fn push_hex6(out: &mut Vec<u8>, v: u32)
    ensures
        final(out)@ == old(out)@ + hex6(v),
{
    let ghost o = out@;
    let mut k: u32 = 0;
    while k < 6
        invariant
            o == old(out)@,
            k <= 6,
            out@ == o + hex6(v).subrange(0, k as int),
        decreases 6 - k,
    {
        let shift: u32 = 20 - 4 * k;
        let d = (v >> shift) & 15;
        assert(d < 16) by (bit_vector)
            requires
                d == (v >> shift) & 15u32,
        ;
        let b: u8 = if d < 10 { 48 + d as u8 } else { 55 + d as u8 };
        proof {
            assert(hex6(v)[k as int] == hex_digit((v >> shift) & 15u32)) by {
                if k == 0 {
                    assert(shift == 20);
                } else if k == 1 {
                    assert(shift == 16);
                } else if k == 2 {
                    assert(shift == 12);
                } else if k == 3 {
                    assert(shift == 8);
                } else if k == 4 {
                    assert(shift == 4);
                } else {
                    assert(shift == 0);
                    assert(v >> 0u32 == v) by (bit_vector);
                }
            }
            assert(b == hex_digit(d));
        }
        out.push(b);
        k = k + 1;
        proof {
            assert(hex6(v).subrange(0, k as int) =~= hex6(v).subrange(0, k - 1).push(b));
        }
    }
    proof {
        assert(hex6(v).subrange(0, 6) =~= hex6(v));
    }
}

/// Byte equality of two strings.
pub fn str_eq(a: &str, b: &str) -> (r: bool)
    ensures
        r == (a.spec_bytes() == b.spec_bytes()),
{
    bytes_eq(a.as_bytes(), b.as_bytes())
}

/// Equality of two byte slices.
pub fn bytes_eq(a: &[u8], b: &[u8]) -> (r: bool)
    ensures
        r == (a@ == b@),
{
    if a.len() != b.len() {
        return false;
    }
    let mut i: usize = 0;
    while i < a.len()
        invariant
            a@.len() == b@.len(),
            i <= a@.len(),
            forall|j: int| 0 <= j < i ==> a@[j] == b@[j],
        decreases a@.len() - i,
    {
        if a[i] != b[i] {
            return false;
        }
        i = i + 1;
    }
    proof {
        assert(a@ =~= b@);
    }
    true
}

} // verus!
