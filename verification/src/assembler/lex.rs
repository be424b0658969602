//! Text handling for the assembler, on the UTF-8 bytes of the source:
//! scanning for a byte class, whitespace trimming, identifiers and
//! decimal numbers.

use crate::tokenize::{digits_value, is_digit, is_ident_byte, is_lower, is_upper, lemma_digits_grow, lemma_digits_value_push};
use vstd::prelude::*;

verus! {

/// `u8::is_ascii_whitespace`: space, tab, line feed, form feed,
/// carriage return.
pub open spec fn is_ascii_ws(c: u8) -> bool {
    c == 32 || c == 9 || c == 10 || c == 12 || c == 13
}

/// A three-byte encoding of a whitespace character: U+1680,
/// U+2000..U+200A, U+2028, U+2029, U+202F, U+205F, U+3000.
pub open spec fn is_ws3(x: u8, y: u8, z: u8) -> bool {
    ||| (x == 0xE1 && y == 0x9A && z == 0x80)
    ||| (x == 0xE2 && y == 0x80 && ((0x80 <= z && z <= 0x8A) || z == 0xA8 || z == 0xA9 || z == 0xAF))
    ||| (x == 0xE2 && y == 0x81 && z == 0x9F)
    ||| (x == 0xE3 && y == 0x80 && z == 0x80)
}

/// The byte length of the whitespace character (`char::is_whitespace`)
/// that opens `b`, or 0 when `b` does not open with one.
pub open spec fn ws_head(b: Seq<u8>) -> nat {
    if b.len() >= 1 && (is_ascii_ws(b[0]) || b[0] == 11) {
        1
    } else if b.len() >= 2 && b[0] == 0xC2 && (b[1] == 0x85 || b[1] == 0xA0) {
        2
    } else if b.len() >= 3 && is_ws3(b[0], b[1], b[2]) {
        3
    } else {
        0
    }
}

/// The byte length of the whitespace character that closes `b`, or 0.
pub open spec fn ws_tail(b: Seq<u8>) -> nat {
    let n = b.len() as int;
    if n >= 1 && (is_ascii_ws(b[n - 1]) || b[n - 1] == 11) {
        1
    } else if n >= 2 && b[n - 2] == 0xC2 && (b[n - 1] == 0x85 || b[n - 1] == 0xA0) {
        2
    } else if n >= 3 && is_ws3(b[n - 3], b[n - 2], b[n - 1]) {
        3
    } else {
        0
    }
}

/// `str::trim_start`.
pub open spec fn trim_start(b: Seq<u8>) -> Seq<u8>
    decreases b.len(),
{
    if ws_head(b) > 0 {
        trim_start(b.skip(ws_head(b) as int))
    } else {
        b
    }
}

/// `str::trim_end`.
pub open spec fn trim_end(b: Seq<u8>) -> Seq<u8>
    decreases b.len(),
{
    if ws_tail(b) > 0 {
        trim_end(b.take(b.len() - ws_tail(b)))
    } else {
        b
    }
}

/// `str::trim`.
pub open spec fn trim(b: Seq<u8>) -> Seq<u8> {
    trim_end(trim_start(b))
}

/// A class of bytes a scan stops at.
#[derive(Clone, Copy)]
pub enum Stop {
    /// This byte.
    Byte(u8),
    /// ASCII whitespace.
    Ws,
    /// Anything but ASCII whitespace.
    NonWs,
    /// ASCII whitespace or a comma.
    Sep,
    /// Anything but a space, a tab or a comma.
    NotLead,
}

pub open spec fn stops(k: Stop, c: u8) -> bool {
    match k {
        Stop::Byte(x) => c == x,
        Stop::Ws => is_ascii_ws(c),
        Stop::NonWs => !is_ascii_ws(c),
        Stop::Sep => is_ascii_ws(c) || c == 44,
        Stop::NotLead => !(c == 32 || c == 9 || c == 44),
    }
}

/// The index of the first byte of `b` in class `k`, or `b.len()`.
pub open spec fn first_stop(b: Seq<u8>, k: Stop) -> nat
    decreases b.len(),
{
    if b.len() == 0 {
        0
    } else if stops(k, b[0]) {
        0
    } else {
        1 + first_stop(b.skip(1), k)
    }
}

/// `first_stop` is the least index in class `k`.
pub proof fn lemma_first_stop(b: Seq<u8>, k: Stop, r: int)
    requires
        0 <= r <= b.len(),
        forall|j: int| 0 <= j < r ==> !stops(k, #[trigger] b[j]),
        r == b.len() || stops(k, b[r]),
    ensures
        first_stop(b, k) == r,
    decreases r,
{
    if r > 0 {
        let t = b.skip(1);
        assert forall|j: int| 0 <= j < r - 1 implies !stops(k, #[trigger] t[j]) by {
            assert(t[j] == b[j + 1]);
        }
        if r - 1 < t.len() {
            assert(t[r - 1] == b[r]);
        }
        lemma_first_stop(t, k, r - 1);
    }
}

/// A scan stops within the bytes.
pub proof fn lemma_first_stop_le(b: Seq<u8>, k: Stop)
    ensures
        first_stop(b, k) <= b.len(),
    decreases b.len(),
{
    if b.len() > 0 && !stops(k, b[0]) {
        lemma_first_stop_le(b.skip(1), k);
    }
}

/// `b` opens with `p`.
pub open spec fn starts_with(b: Seq<u8>, p: Seq<u8>) -> bool {
    b.len() >= p.len() && b.take(p.len() as int) == p
}

/// `b` closes with `p`.
pub open spec fn ends_with(b: Seq<u8>, p: Seq<u8>) -> bool {
    b.len() >= p.len() && b.skip(b.len() - p.len()) == p
}

/// An identifier: a letter or `_`, then letters, digits and `_`.
pub open spec fn is_ident(s: Seq<u8>) -> bool {
    &&& s.len() > 0
    &&& (is_lower(s[0]) || is_upper(s[0]) || s[0] == 95)
    &&& forall|i: int| 1 <= i < s.len() ==> is_ident_byte(#[trigger] s[i])
}

/// A mnemonic: one or more upper-case letters, digits and `_`.
pub open spec fn is_mnemonic(s: Seq<u8>) -> bool {
    &&& s.len() > 0
    &&& forall|i: int| 0 <= i < s.len() ==> (is_upper(#[trigger] s[i]) || is_digit(s[i]) || s[i] == 95)
}

pub open spec fn all_digits(d: Seq<u8>) -> bool {
    forall|i: int| 0 <= i < d.len() ==> is_digit(#[trigger] d[i])
}

/// The digits of `t` after an optional sign: `t` is neither empty nor
/// a sign alone, and `-` counts as a sign only where `signed`.
pub open spec fn unsigned_part(t: Seq<u8>, signed: bool) -> Option<Seq<u8>> {
    if t.len() == 0 || t == seq![43u8] || t == seq![45u8] {
        None
    } else if t[0] == 43 || (signed && t[0] == 45) {
        Some(t.skip(1))
    } else {
        Some(t)
    }
}

/// `str::parse` of an unsigned integer type whose largest value is
/// `max`: an optional `+`, then decimal digits.
pub open spec fn parse_unsigned(t: Seq<u8>, max: nat) -> Option<nat> {
    match unsigned_part(t, false) {
        Some(d) => if all_digits(d) && digits_value(d) <= max {
            Some(digits_value(d))
        } else {
            None
        },
        None => None,
    }
}

/// `str::parse::<i32>`: an optional `+` or `-`, then decimal digits,
/// in range.
pub open spec fn parse_i32_spec(t: Seq<u8>) -> Option<int> {
    match unsigned_part(t, true) {
        Some(d) => if t[0] == 45 {
            if all_digits(d) && digits_value(d) <= 0x8000_0000 {
                Some(-(digits_value(d) as int))
            } else {
                None
            }
        } else if all_digits(d) && digits_value(d) <= 0x7FFF_FFFF {
            Some(digits_value(d) as int)
        } else {
            None
        },
        None => None,
    }
}

/// `t[i..j]`.
pub fn slice_of<'a>(t: &'a [u8], i: usize, j: usize) -> (r: &'a [u8])
    requires
        i <= j <= t@.len(),
    ensures
        r@ == t@.subrange(i as int, j as int),
{
    &t[i..j]
}

fn stops_at(k: Stop, c: u8) -> (r: bool)
    ensures
        r == stops(k, c),
{
    match k {
        Stop::Byte(x) => c == x,
        Stop::Ws => c == 32 || c == 9 || c == 10 || c == 12 || c == 13,
        Stop::NonWs => !(c == 32 || c == 9 || c == 10 || c == 12 || c == 13),
        Stop::Sep => c == 32 || c == 9 || c == 10 || c == 12 || c == 13 || c == 44,
        Stop::NotLead => !(c == 32 || c == 9 || c == 44),
    }
}

/// The index of the first byte of `t` in class `k`, or its length.
pub fn find_stop(t: &[u8], k: Stop) -> (r: usize)
    ensures
        r == first_stop(t@, k),
        r <= t@.len(),
{
    let mut i: usize = 0;
    while i < t.len()
        invariant
            i <= t@.len(),
            forall|j: int| 0 <= j < i ==> !stops(k, #[trigger] t@[j]),
        decreases t@.len() - i,
    {
        if stops_at(k, t[i]) {
            proof {
                lemma_first_stop(t@, k, i as int);
            }
            return i;
        }
        i = i + 1;
    }
    proof {
        lemma_first_stop(t@, k, i as int);
    }
    i
}

fn ws_head_at(t: &[u8], i: usize) -> (r: usize)
    requires
        i <= t@.len(),
    ensures
        r == ws_head(t@.skip(i as int)),
        r <= t@.len() - i,
{
    let n = t.len() - i;
    if n >= 1 {
        let c = t[i];
        if c == 32 || c == 9 || c == 10 || c == 12 || c == 13 || c == 11 {
            return 1;
        }
    }
    if n >= 2 && t[i] == 0xC2 && (t[i + 1] == 0x85 || t[i + 1] == 0xA0) {
        return 2;
    }
    if n >= 3 && ws3(t[i], t[i + 1], t[i + 2]) {
        return 3;
    }
    0
}

fn ws3(x: u8, y: u8, z: u8) -> (r: bool)
    ensures
        r == is_ws3(x, y, z),
{
    (x == 0xE1 && y == 0x9A && z == 0x80) || (x == 0xE2 && y == 0x80 && ((0x80 <= z && z <= 0x8A) || z == 0xA8
        || z == 0xA9 || z == 0xAF)) || (x == 0xE2 && y == 0x81 && z == 0x9F) || (x == 0xE3 && y == 0x80 && z
        == 0x80)
}

fn ws_tail_at(t: &[u8], n: usize) -> (r: usize)
    requires
        n <= t@.len(),
    ensures
        r == ws_tail(t@.take(n as int)),
        r <= n,
{
    if n >= 1 {
        let c = t[n - 1];
        if c == 32 || c == 9 || c == 10 || c == 12 || c == 13 || c == 11 {
            return 1;
        }
    }
    if n >= 2 && t[n - 2] == 0xC2 && (t[n - 1] == 0x85 || t[n - 1] == 0xA0) {
        return 2;
    }
    if n >= 3 && ws3(t[n - 3], t[n - 2], t[n - 1]) {
        return 3;
    }
    0
}

/// `str::trim_start`.
pub fn trim_start_bytes<'a>(t: &'a [u8]) -> (r: &'a [u8])
    ensures
        r@ == trim_start(t@),
{
    let mut i: usize = 0;
    let len = t.len();
    let mut k = ws_head_at(t, 0);
    proof {
        assert(t@.skip(0) =~= t@);
    }
    while k > 0
        invariant
            len == t@.len(),
            i <= t@.len(),
            k == ws_head(t@.skip(i as int)),
            k <= t@.len() - i,
            trim_start(t@) == trim_start(t@.skip(i as int)),
        decreases t@.len() - i,
    {
        proof {
            assert(t@.skip(i as int).skip(k as int) =~= t@.skip(i + k));
        }
        i = i + k;
        k = ws_head_at(t, i);
    }
    proof {
        assert(t@.subrange(i as int, t@.len() as int) =~= t@.skip(i as int));
    }
    slice_of(t, i, t.len())
}

/// `str::trim_end`.
pub fn trim_end_bytes<'a>(t: &'a [u8]) -> (r: &'a [u8])
    ensures
        r@ == trim_end(t@),
{
    let mut n: usize = t.len();
    let mut k = ws_tail_at(t, n);
    proof {
        assert(t@.take(n as int) =~= t@);
    }
    while k > 0
        invariant
            n <= t@.len(),
            k == ws_tail(t@.take(n as int)),
            k <= n,
            trim_end(t@) == trim_end(t@.take(n as int)),
        decreases n,
    {
        proof {
            assert(t@.take(n as int).take(n - k) =~= t@.take(n - k));
        }
        n = n - k;
        k = ws_tail_at(t, n);
    }
    proof {
        assert(t@.subrange(0, n as int) =~= t@.take(n as int));
    }
    slice_of(t, 0, n)
}

/// `str::trim`.
pub fn trim_bytes<'a>(t: &'a [u8]) -> (r: &'a [u8])
    ensures
        r@ == trim(t@),
{
    trim_end_bytes(trim_start_bytes(t))
}

/// `t` opens with `p`.
pub fn starts_with_bytes(t: &[u8], p: &[u8]) -> (r: bool)
    ensures
        r == starts_with(t@, p@),
{
    if t.len() < p.len() {
        return false;
    }
    let mut i: usize = 0;
    while i < p.len()
        invariant
            p@.len() <= t@.len(),
            i <= p@.len(),
            forall|j: int| 0 <= j < i ==> t@[j] == p@[j],
        decreases p@.len() - i,
    {
        if t[i] != p[i] {
            proof {
                assert(t@.take(p@.len() as int)[i as int] != p@[i as int]);
            }
            return false;
        }
        i = i + 1;
    }
    proof {
        assert(t@.take(p@.len() as int) =~= p@);
    }
    true
}

pub fn is_ident_bytes(s: &[u8]) -> (r: bool)
    ensures
        r == is_ident(s@),
{
    if s.len() == 0 {
        return false;
    }
    let c = s[0];
    if !((97 <= c && c <= 122) || (65 <= c && c <= 90) || c == 95) {
        return false;
    }
    let mut i: usize = 1;
    while i < s.len()
        invariant
            1 <= i <= s@.len(),
            forall|j: int| 1 <= j < i ==> is_ident_byte(#[trigger] s@[j]),
        decreases s@.len() - i,
    {
        let c = s[i];
        if !((48 <= c && c <= 57) || (97 <= c && c <= 122) || (65 <= c && c <= 90) || c == 95) {
            assert(!is_ident_byte(s@[i as int]));
            return false;
        }
        i = i + 1;
    }
    true
}

pub fn is_mnemonic_bytes(s: &[u8]) -> (r: bool)
    ensures
        r == is_mnemonic(s@),
{
    if s.len() == 0 {
        return false;
    }
    let mut i: usize = 0;
    while i < s.len()
        invariant
            i <= s@.len(),
            forall|j: int| 0 <= j < i ==> (is_upper(#[trigger] s@[j]) || is_digit(s@[j]) || s@[j] == 95),
        decreases s@.len() - i,
    {
        let c = s[i];
        if !((65 <= c && c <= 90) || (48 <= c && c <= 57) || c == 95) {
            return false;
        }
        i = i + 1;
    }
    true
}

/// The value of the digits `d` when they are all digits and it is at
/// most `limit`.
fn digits_upto(d: &[u8], limit: u64) -> (r: Option<u64>)
    requires
        9 <= limit <= 0x1_0000_0000,
    ensures
        match r {
            Some(v) => all_digits(d@) && digits_value(d@) <= limit && v == digits_value(d@),
            None => !(all_digits(d@) && digits_value(d@) <= limit),
        },
{
    let mut v: u64 = 0;
    let mut i: usize = 0;
    proof {
        assert(d@.subrange(0, 0) =~= Seq::<u8>::empty());
    }
    while i < d.len()
        invariant
            i <= d@.len(),
            9 <= limit <= 0x1_0000_0000,
            v <= limit,
            forall|j: int| 0 <= j < i ==> is_digit(#[trigger] d@[j]),
            v == digits_value(d@.subrange(0, i as int)),
        decreases d@.len() - i,
    {
        let c = d[i];
        if !(48 <= c && c <= 57) {
            assert(!is_digit(d@[i as int]));
            return None;
        }
        let x = (c - 48) as u64;
        proof {
            lemma_digits_value_push(d@.subrange(0, i as int), c);
            assert(d@.subrange(0, i + 1) =~= d@.subrange(0, i as int).push(c));
        }
        if v > (limit - x) / 10 {
            proof {
                assert(v * 10 + x > limit) by (nonlinear_arith)
                    requires
                        v > (limit - x) / 10,
                        x <= 9,
                        x <= limit,
                ;
                if all_digits(d@) {
                    lemma_digits_grow(d@, 0, i + 1, d@.len() as int);
                    assert(d@.subrange(0, d@.len() as int) =~= d@);
                }
            }
            return None;
        }
        proof {
            assert(v * 10 + x <= limit) by (nonlinear_arith)
                requires
                    v <= (limit - x) / 10,
                    x <= limit,
            ;
        }
        v = v * 10 + x;
        i = i + 1;
    }
    proof {
        assert(d@.subrange(0, d@.len() as int) =~= d@);
    }
    Some(v)
}

/// The digits after an optional sign.
fn unsigned_part_bytes<'a>(t: &'a [u8], signed: bool) -> (r: Option<&'a [u8]>)
    ensures
        match unsigned_part(t@, signed) {
            Some(d) => r is Some && r->0@ == d,
            None => r is None,
        },
{
    if t.len() == 0 {
        return None;
    }
    if t.len() == 1 && (t[0] == 43 || t[0] == 45) {
        proof {
            if t[0] == 43 {
                assert(t@ =~= seq![43u8]);
            } else {
                assert(t@ =~= seq![45u8]);
            }
        }
        return None;
    }
    proof {
        if t@ == seq![43u8] || t@ == seq![45u8] {
            assert(t@.len() == 1 && t@[0] == t[0]);
        }
    }
    if t[0] == 43 || (signed && t[0] == 45) {
        proof {
            assert(t@.subrange(1, t@.len() as int) =~= t@.skip(1));
        }
        Some(slice_of(t, 1, t.len()))
    } else {
        Some(t)
    }
}

/// `str::parse::<u32>`.
pub fn parse_u32_bytes(t: &[u8]) -> (r: Option<u32>)
    ensures
        match parse_unsigned(t@, u32::MAX as nat) {
            Some(v) => r == Some(v as u32),
            None => r is None,
        },
{
    match unsigned_part_bytes(t, false) {
        Some(d) => match digits_upto(d, 0xFFFF_FFFF) {
            Some(v) => Some(v as u32),
            None => None,
        },
        None => None,
    }
}

/// `str::parse::<usize>`.
pub fn parse_usize_bytes(t: &[u8]) -> (r: Option<usize>)
    ensures
        match parse_unsigned(t@, usize::MAX as nat) {
            Some(v) => r == Some(v as usize),
            None => r is None,
        },
{
    match unsigned_part_bytes(t, false) {
        Some(d) => match digits_upto_usize(d) {
            Some(v) => Some(v),
            None => None,
        },
        None => None,
    }
}

/// The value of the digits `d` when they are all digits and it fits a
/// `usize`.
fn digits_upto_usize(d: &[u8]) -> (r: Option<usize>)
    ensures
        match r {
            Some(v) => all_digits(d@) && digits_value(d@) <= usize::MAX && v == digits_value(d@),
            None => !(all_digits(d@) && digits_value(d@) <= usize::MAX),
        },
{
    let limit: usize = usize::MAX;
    let mut v: usize = 0;
    let mut i: usize = 0;
    proof {
        assert(d@.subrange(0, 0) =~= Seq::<u8>::empty());
    }
    while i < d.len()
        invariant
            i <= d@.len(),
            limit == usize::MAX,
            forall|j: int| 0 <= j < i ==> is_digit(#[trigger] d@[j]),
            v == digits_value(d@.subrange(0, i as int)),
        decreases d@.len() - i,
    {
        let c = d[i];
        if !(48 <= c && c <= 57) {
            assert(!is_digit(d@[i as int]));
            return None;
        }
        let x = (c - 48) as usize;
        proof {
            lemma_digits_value_push(d@.subrange(0, i as int), c);
            assert(d@.subrange(0, i + 1) =~= d@.subrange(0, i as int).push(c));
        }
        if v > (limit - x) / 10 {
            proof {
                assert(v * 10 + x > limit) by (nonlinear_arith)
                    requires
                        v > (limit - x) / 10,
                        x <= 9,
                        x <= limit,
                ;
                if all_digits(d@) {
                    lemma_digits_grow(d@, 0, i + 1, d@.len() as int);
                    assert(d@.subrange(0, d@.len() as int) =~= d@);
                }
            }
            return None;
        }
        proof {
            assert(v * 10 + x <= limit) by (nonlinear_arith)
                requires
                    v <= (limit - x) / 10,
                    x <= limit,
            ;
        }
        v = v * 10 + x;
        i = i + 1;
    }
    proof {
        assert(d@.subrange(0, d@.len() as int) =~= d@);
    }
    Some(v)
}

/// `str::parse::<u8>`.
pub fn parse_u8_bytes(t: &[u8]) -> (r: Option<u8>)
    ensures
        match parse_unsigned(t@, u8::MAX as nat) {
            Some(v) => r == Some(v as u8),
            None => r is None,
        },
{
    match unsigned_part_bytes(t, false) {
        Some(d) => match digits_upto(d, 255) {
            Some(v) => Some(v as u8),
            None => None,
        },
        None => None,
    }
}

/// `str::parse::<i32>`.
pub fn parse_i32_bytes(t: &[u8]) -> (r: Option<i32>)
    ensures
        match parse_i32_spec(t@) {
            Some(v) => r == Some(v as i32),
            None => r is None,
        },
{
    match unsigned_part_bytes(t, true) {
        Some(d) => {
            if t[0] == 45 {
                match digits_upto(d, 0x8000_0000) {
                    Some(v) => {
                        if v == 0x8000_0000 {
                            Some(i32::MIN)
                        } else {
                            Some(-(v as i32))
                        }
                    },
                    None => None,
                }
            } else {
                match digits_upto(d, 0x7FFF_FFFF) {
                    Some(v) => Some(v as i32),
                    None => None,
                }
            }
        },
        None => None,
    }
}

} // verus!
