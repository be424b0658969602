//! Lexical analysis for the Prolog subset.
//!
//! A scanner over the bytes of the source. A top-level loop skips
//! whitespace and comments (`% ...` to end of line, `/* ... */`), then
//! reads one token by its first byte: `:-`, `?-`, `\+`, a negative
//! integer (`-` directly followed by a digit), punctuation and the
//! infix operators `+ - < > =`, an integer, an atom (lower-case start)
//! or a variable (upper-case or `_` start). The stream ends with `Eof`.
//!
//! `lex_spec` states the whole scan over bytes; `tokenize` computes it.

use crate::port::bounded_str::{ascii_bytes, lemma_ascii_valid_utf8};
use crate::port::{BoundedArr, BoundedStr};
use vstd::prelude::*;
use vstd::string::StringSliceAdditionalSpecFns;

verus! {

pub const MAX_TOKENS: usize = 512;
pub const ATOM_CAP: usize = 32;

#[derive(Clone, Copy, Debug, PartialEq, Eq)]
pub enum Token {
    Atom(BoundedStr<ATOM_CAP>),
    Var(BoundedStr<ATOM_CAP>),
    Int(i32),
    LParen,
    RParen,
    LBracket,
    RBracket,
    Comma,
    Dot,
    Pipe,
    Neck,
    Cut,
    Not,
    Query,
    Lt,
    Gt,
    Eq,
    Plus,
    Minus,
    Eof,
}

/// A token with its names as bytes.
pub enum TokenV {
    Atom(Seq<u8>),
    Var(Seq<u8>),
    Int(i32),
    LParen,
    RParen,
    LBracket,
    RBracket,
    Comma,
    Dot,
    Pipe,
    Neck,
    Cut,
    Not,
    Query,
    Lt,
    Gt,
    Eq,
    Plus,
    Minus,
    Eof,
}

impl View for Token {
    type V = TokenV;

    open spec fn view(&self) -> TokenV {
        match self {
            Token::Atom(s) => TokenV::Atom(s@),
            Token::Var(s) => TokenV::Var(s@),
            Token::Int(n) => TokenV::Int(*n),
            Token::LParen => TokenV::LParen,
            Token::RParen => TokenV::RParen,
            Token::LBracket => TokenV::LBracket,
            Token::RBracket => TokenV::RBracket,
            Token::Comma => TokenV::Comma,
            Token::Dot => TokenV::Dot,
            Token::Pipe => TokenV::Pipe,
            Token::Neck => TokenV::Neck,
            Token::Cut => TokenV::Cut,
            Token::Not => TokenV::Not,
            Token::Query => TokenV::Query,
            Token::Lt => TokenV::Lt,
            Token::Gt => TokenV::Gt,
            Token::Eq => TokenV::Eq,
            Token::Plus => TokenV::Plus,
            Token::Minus => TokenV::Minus,
            Token::Eof => TokenV::Eof,
        }
    }
}

#[derive(Debug, Clone, Copy, PartialEq, Eq, Structural)]
pub enum TokenizeError {
    UnterminatedBlockComment { pos: usize },
    InvalidChar { ch: char, pos: usize },
    BadInt { pos: usize },
    IntOverflow { pos: usize },
    IdentTooLong { pos: usize },
    Overflow,
}

pub open spec fn is_ws(c: u8) -> bool {
    c == 32 || c == 9 || c == 10 || c == 13
}

pub open spec fn is_digit(c: u8) -> bool {
    48 <= c <= 57
}

pub open spec fn is_lower(c: u8) -> bool {
    97 <= c <= 122
}

pub open spec fn is_upper(c: u8) -> bool {
    65 <= c <= 90
}

pub open spec fn is_ident_byte(c: u8) -> bool {
    is_digit(c) || is_lower(c) || is_upper(c) || c == 95
}

/// The byte after `pos`, if any.
pub open spec fn byte_after(b: Seq<u8>, pos: nat) -> Option<u8> {
    if pos + 1 < b.len() {
        Some(b[(pos + 1) as int])
    } else {
        None
    }
}

/// Where the scan stands while skipping.
pub enum SkipMode {
    Code,
    Line,
    Block,
}

/// The first position at or after `pos` that starts a token, or the
/// end; `start` is where the open block comment, if any, began.
pub open spec fn skip_spec(b: Seq<u8>, pos: nat, mode: SkipMode, start: nat) -> Result<nat, TokenizeError>
    decreases b.len() - pos,
{
    if pos >= b.len() {
        match mode {
            SkipMode::Block => Err(TokenizeError::UnterminatedBlockComment { pos: start as usize }),
            _ => Ok(pos),
        }
    } else {
        let c = b[pos as int];
        match mode {
            SkipMode::Code => if is_ws(c) {
                skip_spec(b, pos + 1, SkipMode::Code, start)
            } else if c == 37 {
                skip_spec(b, pos + 1, SkipMode::Line, start)
            } else if c == 47 && byte_after(b, pos) == Some(42u8) {
                skip_spec(b, pos + 2, SkipMode::Block, pos)
            } else {
                Ok(pos)
            },
            SkipMode::Line => if c == 10 {
                skip_spec(b, pos + 1, SkipMode::Code, start)
            } else {
                skip_spec(b, pos + 1, SkipMode::Line, start)
            },
            SkipMode::Block => if c == 42 && byte_after(b, pos) == Some(47u8) {
                skip_spec(b, pos + 2, SkipMode::Code, start)
            } else {
                skip_spec(b, pos + 1, SkipMode::Block, start)
            },
        }
    }
}

/// The end of the run of bytes satisfying `ident` (or `digits`) from
/// `pos`.
pub open spec fn run_end(b: Seq<u8>, pos: nat, digits: bool) -> nat
    decreases b.len() - pos,
{
    if pos >= b.len() {
        pos
    } else if (digits && is_digit(b[pos as int])) || (!digits && is_ident_byte(b[pos as int])) {
        run_end(b, pos + 1, digits)
    } else {
        pos
    }
}

/// The value of a run of decimal digits.
pub open spec fn digits_value(d: Seq<u8>) -> nat
    decreases d.len(),
{
    if d.len() == 0 {
        0
    } else {
        digits_value(d.drop_last()) * 10 + (d.last() - 48) as nat
    }
}

/// The integer token starting at `pos` (an optional `-`, then digits).
pub open spec fn int_spec(b: Seq<u8>, pos: nat) -> Result<(TokenV, nat), TokenizeError> {
    let neg = b[pos as int] == 45;
    let ds = if neg { pos + 1 } else { pos };
    let end = run_end(b, ds, true);
    if end == ds {
        Err(TokenizeError::BadInt { pos: pos as usize })
    } else {
        let m = digits_value(b.subrange(ds as int, end as int));
        let v: int = if neg { -(m as int) } else { m as int };
        if i32::MIN <= v <= i32::MAX {
            Ok((TokenV::Int(v as i32), end))
        } else {
            Err(TokenizeError::IntOverflow { pos: pos as usize })
        }
    }
}

/// The one-byte punctuation and operator tokens.
pub open spec fn punct_spec(c: u8) -> Option<TokenV> {
    if c == 40 {
        Some(TokenV::LParen)
    } else if c == 41 {
        Some(TokenV::RParen)
    } else if c == 91 {
        Some(TokenV::LBracket)
    } else if c == 93 {
        Some(TokenV::RBracket)
    } else if c == 44 {
        Some(TokenV::Comma)
    } else if c == 46 {
        Some(TokenV::Dot)
    } else if c == 124 {
        Some(TokenV::Pipe)
    } else if c == 33 {
        Some(TokenV::Cut)
    } else if c == 60 {
        Some(TokenV::Lt)
    } else if c == 62 {
        Some(TokenV::Gt)
    } else if c == 61 {
        Some(TokenV::Eq)
    } else if c == 43 {
        Some(TokenV::Plus)
    } else if c == 45 {
        Some(TokenV::Minus)
    } else {
        None
    }
}

/// An atom or variable name from `pos`.
pub open spec fn ident_spec(b: Seq<u8>, pos: nat, atom: bool) -> Result<(TokenV, nat), TokenizeError> {
    let end = run_end(b, pos, false);
    if end - pos > ATOM_CAP {
        Err(TokenizeError::IdentTooLong { pos: pos as usize })
    } else {
        let name = b.subrange(pos as int, end as int);
        Ok((if atom { TokenV::Atom(name) } else { TokenV::Var(name) }, end))
    }
}

/// The token that starts at `pos` and the position after it.
pub open spec fn next_spec(b: Seq<u8>, pos: nat) -> Result<(TokenV, nat), TokenizeError> {
    let c = b[pos as int];
    let nx = byte_after(b, pos);
    if c == 58 && nx == Some(45u8) {
        Ok((TokenV::Neck, pos + 2))
    } else if c == 63 && nx == Some(45u8) {
        Ok((TokenV::Query, pos + 2))
    } else if c == 92 && nx == Some(43u8) {
        Ok((TokenV::Not, pos + 2))
    } else if c == 45 && nx is Some && is_digit(nx->0) {
        int_spec(b, pos)
    } else if punct_spec(c) is Some {
        Ok((punct_spec(c)->0, pos + 1))
    } else if is_digit(c) {
        int_spec(b, pos)
    } else if is_lower(c) {
        ident_spec(b, pos, true)
    } else if is_upper(c) || c == 95 {
        ident_spec(b, pos, false)
    } else {
        Err(TokenizeError::InvalidChar { ch: c as char, pos: pos as usize })
    }
}

/// Scanning from `pos` with tokens `acc` so far; `fuel` bounds the
/// number of tokens still to read (one per byte is enough).
pub open spec fn lex_spec(b: Seq<u8>, pos: nat, acc: Seq<TokenV>, fuel: nat) -> Result<Seq<TokenV>, TokenizeError>
    decreases fuel,
{
    match skip_spec(b, pos, SkipMode::Code, 0) {
        Err(e) => Err(e),
        Ok(p) => if p >= b.len() {
            if acc.len() >= MAX_TOKENS {
                Err(TokenizeError::Overflow)
            } else {
                Ok(acc.push(TokenV::Eof))
            }
        } else if fuel == 0 {
            Ok(acc)
        } else {
            match next_spec(b, p) {
                Err(e) => Err(e),
                Ok((t, p2)) => if acc.len() >= MAX_TOKENS {
                    Err(TokenizeError::Overflow)
                } else {
                    lex_spec(b, p2, acc.push(t), (fuel - 1) as nat)
                },
            }
        },
    }
}

/// The tokens of `src`, ending with `Eof`, or the first error.
pub open spec fn tokens_of(src: Seq<u8>) -> Result<Seq<TokenV>, TokenizeError> {
    lex_spec(src, 0, Seq::empty(), src.len() + 1)
}

/// The views of a token array.
pub open spec fn token_views(a: BoundedArr<Token, MAX_TOKENS>) -> Seq<TokenV> {
    a@.map_values(|t: Token| t@)
}

pub fn tokenize(src: &str) -> (r: Result<BoundedArr<Token, MAX_TOKENS>, TokenizeError>)
    ensures
        match tokens_of(src.spec_bytes()) {
            Ok(ts) => r is Ok && token_views(r->Ok_0) == ts,
            Err(e) => r == Err::<BoundedArr<Token, MAX_TOKENS>, TokenizeError>(e),
        },
        r matches Ok(a) ==> token_views(a).len() > 0 && token_views(a).last() == TokenV::Eof,
{
    let b = src.as_bytes();
    let ghost total = b@.len() + 1;
    let mut out: BoundedArr<Token, MAX_TOKENS> = BoundedArr::new();
    let mut pos: usize = 0;
    let ghost mut fuel: nat = total;
    proof {
        assert(token_views(out) =~= Seq::<TokenV>::empty());
    }
    loop
        invariant
            b@ == src.spec_bytes(),
            total == b@.len() + 1,
            pos <= b@.len(),
            fuel >= b@.len() - pos + 1,
            out.wf(),
            lex_spec(b@, pos as nat, token_views(out), fuel) == tokens_of(b@),
        decreases b@.len() - pos,
    {
        let p = match skip_ws_and_comments(b, pos) {
            Ok(p) => p,
            Err(e) => return Err(e),
        };
        if p >= b.len() {
            let ghost before = token_views(out);
            proof {
                assert(lex_spec(b@, pos as nat, before, fuel) == (if before.len() >= MAX_TOKENS {
                    Err(TokenizeError::Overflow)
                } else {
                    Ok(before.push(TokenV::Eof))
                }));
            }
            match out.push(Token::Eof) {
                Ok(()) => {},
                Err(_) => return Err(TokenizeError::Overflow),
            }
            proof {
                assert(token_views(out) =~= before.push(TokenV::Eof));
            }
            return Ok(out);
        }
        let (tok, p2) = match next_token(b, p) {
            Ok(x) => x,
            Err(e) => return Err(e),
        };
        let ghost before = token_views(out);
        proof {
            assert(fuel > 0);
            assert(lex_spec(b@, pos as nat, before, fuel) == (if before.len() >= MAX_TOKENS {
                Err(TokenizeError::Overflow)
            } else {
                lex_spec(b@, p2 as nat, before.push(tok@), (fuel - 1) as nat)
            }));
        }
        match out.push(tok) {
            Ok(()) => {},
            Err(_) => return Err(TokenizeError::Overflow),
        }
        proof {
            assert(token_views(out) =~= before.push(tok@));
            fuel = (fuel - 1) as nat;
        }
        pos = p2;
    }
}

fn skip_ws_and_comments(b: &[u8], pos: usize) -> (r: Result<usize, TokenizeError>)
    requires
        pos <= b@.len(),
    ensures
        match r {
            Ok(p) => skip_spec(b@, pos as nat, SkipMode::Code, 0) == Ok::<nat, TokenizeError>(p as nat)
                && pos <= p <= b@.len(),
            Err(e) => skip_spec(b@, pos as nat, SkipMode::Code, 0) == Err::<nat, TokenizeError>(e),
        },
{
    let mut p = pos;
    let mut mode: u8 = 0;
    let mut start: usize = 0;
    while p < b.len()
        invariant
            pos <= p <= b@.len(),
            mode <= 2,
            start <= b@.len(),
            skip_spec(b@, p as nat, mode_of(mode), start as nat) == skip_spec(b@, pos as nat, SkipMode::Code, 0),
        decreases b@.len() - p,
    {
        let c = b[p];
        let nx_star = p + 1 < b.len() && b[p + 1] == 42;
        let nx_slash = p + 1 < b.len() && b[p + 1] == 47;
        if mode == 0 {
            if c == 32 || c == 9 || c == 10 || c == 13 {
                p = p + 1;
            } else if c == 37 {
                p = p + 1;
                mode = 1;
            } else if c == 47 && nx_star {
                start = p;
                p = p + 2;
                mode = 2;
            } else {
                return Ok(p);
            }
        } else if mode == 1 {
            if c == 10 {
                mode = 0;
            }
            p = p + 1;
        } else {
            if c == 42 && nx_slash {
                p = p + 2;
                mode = 0;
            } else {
                p = p + 1;
            }
        }
    }
    if mode == 2 {
        return Err(TokenizeError::UnterminatedBlockComment { pos: start });
    }
    Ok(p)
}

pub open spec fn mode_of(m: u8) -> SkipMode {
    if m == 0 {
        SkipMode::Code
    } else if m == 1 {
        SkipMode::Line
    } else {
        SkipMode::Block
    }
}

fn is_digit_byte(c: u8) -> (r: bool)
    ensures
        r == is_digit(c),
{
    48 <= c && c <= 57
}

fn punct_token(c: u8) -> (r: Option<Token>)
    ensures
        match punct_spec(c) {
            Some(t) => r is Some && r->0@ == t,
            None => r is None,
        },
{
    if c == 40 {
        Some(Token::LParen)
    } else if c == 41 {
        Some(Token::RParen)
    } else if c == 91 {
        Some(Token::LBracket)
    } else if c == 93 {
        Some(Token::RBracket)
    } else if c == 44 {
        Some(Token::Comma)
    } else if c == 46 {
        Some(Token::Dot)
    } else if c == 124 {
        Some(Token::Pipe)
    } else if c == 33 {
        Some(Token::Cut)
    } else if c == 60 {
        Some(Token::Lt)
    } else if c == 62 {
        Some(Token::Gt)
    } else if c == 61 {
        Some(Token::Eq)
    } else if c == 43 {
        Some(Token::Plus)
    } else if c == 45 {
        Some(Token::Minus)
    } else {
        None
    }
}

fn next_token(b: &[u8], pos: usize) -> (r: Result<(Token, usize), TokenizeError>)
    requires
        pos < b@.len(),
    ensures
        match next_spec(b@, pos as nat) {
            Ok((t, p)) => r is Ok && r->Ok_0.0@ == t && r->Ok_0.1 == p && pos < p <= b@.len(),
            Err(e) => r == Err::<(Token, usize), TokenizeError>(e),
        },
{
    let c = b[pos];
    let has_nx = pos + 1 < b.len();
    let nx: u8 = if has_nx { b[pos + 1] } else { 0 };
    if c == 58 && has_nx && nx == 45 {
        return Ok((Token::Neck, pos + 2));
    }
    if c == 63 && has_nx && nx == 45 {
        return Ok((Token::Query, pos + 2));
    }
    if c == 92 && has_nx && nx == 43 {
        return Ok((Token::Not, pos + 2));
    }
    if c == 45 && has_nx && is_digit_byte(nx) {
        return scan_int(b, pos);
    }
    if let Some(t) = punct_token(c) {
        return Ok((t, pos + 1));
    }
    if is_digit_byte(c) {
        return scan_int(b, pos);
    }
    if 97 <= c && c <= 122 {
        return scan_ident(b, pos, true);
    }
    if (65 <= c && c <= 90) || c == 95 {
        return scan_ident(b, pos, false);
    }
    Err(TokenizeError::InvalidChar { ch: c as char, pos })
}

fn is_run_byte(c: u8, digits: bool) -> (r: bool)
    ensures
        r == ((digits && is_digit(c)) || (!digits && is_ident_byte(c))),
{
    if digits {
        48 <= c && c <= 57
    } else {
        (48 <= c && c <= 57) || (97 <= c && c <= 122) || (65 <= c && c <= 90) || c == 95
    }
}

/// A run ends at or after where it starts.
proof fn lemma_run_end_ge(b: Seq<u8>, p: nat, digits: bool)
    ensures
        run_end(b, p, digits) >= p,
    decreases b.len() - p,
{
    if p < b.len() {
        lemma_run_end_ge(b, p + 1, digits);
    }
}

/// The end of the run from `pos` of identifier bytes, or of digits.
fn scan_run(b: &[u8], pos: usize, digits: bool) -> (r: usize)
    requires
        pos <= b@.len(),
    ensures
        r == run_end(b@, pos as nat, digits),
        pos <= r <= b@.len(),
        forall|i: int| pos <= i < r ==> (if digits { is_digit(#[trigger] b@[i]) } else { is_ident_byte(b@[i]) }),
{
    let mut p = pos;
    while p < b.len() && is_run_byte(b[p], digits)
        invariant
            pos <= p <= b@.len(),
            run_end(b@, p as nat, digits) == run_end(b@, pos as nat, digits),
            forall|i: int| pos <= i < p ==> (if digits { is_digit(#[trigger] b@[i]) } else { is_ident_byte(b@[i]) }),
        decreases b@.len() - p,
    {
        p = p + 1;
    }
    p
}

fn scan_ident(b: &[u8], pos: usize, atom: bool) -> (r: Result<(Token, usize), TokenizeError>)
    requires
        pos < b@.len(),
        is_ident_byte(b@[pos as int]),
    ensures
        match ident_spec(b@, pos as nat, atom) {
            Ok((t, p)) => r is Ok && r->Ok_0.0@ == t && r->Ok_0.1 == p && pos < p <= b@.len(),
            Err(e) => r == Err::<(Token, usize), TokenizeError>(e),
        },
{
    let end = scan_run(b, pos, false);
    proof {
        lemma_run_end_ge(b@, (pos + 1) as nat, false);
    }
    if end - pos > ATOM_CAP {
        return Err(TokenizeError::IdentTooLong { pos });
    }
    proof {
        let name = b@.subrange(pos as int, end as int);
        assert(ascii_bytes(name)) by {
            assert forall|i: int| 0 <= i < name.len() implies #[trigger] name[i] < 0x80 by {
                assert(name[i] == b@[pos + i]);
                assert(is_ident_byte(b@[pos + i]));
            }
        }
        lemma_ascii_valid_utf8(name);
    }
    let name = match BoundedStr::<ATOM_CAP>::from_bytes(b, pos, end) {
        Ok(s) => s,
        Err(_) => return Err(TokenizeError::IdentTooLong { pos }),
    };
    if atom {
        Ok((Token::Atom(name), end))
    } else {
        Ok((Token::Var(name), end))
    }
}

pub proof fn lemma_digits_value_push(d: Seq<u8>, c: u8)
    ensures
        digits_value(d.push(c)) == digits_value(d) * 10 + (c - 48) as nat,
{
    assert(d.push(c).drop_last() =~= d);
}

fn scan_int(b: &[u8], pos: usize) -> (r: Result<(Token, usize), TokenizeError>)
    requires
        pos < b@.len(),
    ensures
        match int_spec(b@, pos as nat) {
            Ok((t, p)) => r is Ok && r->Ok_0.0@ == t && r->Ok_0.1 == p && pos < p <= b@.len(),
            Err(e) => r == Err::<(Token, usize), TokenizeError>(e),
        },
{
    let neg = b[pos] == 45;
    let ds = if neg { pos + 1 } else { pos };
    let end = scan_run(b, ds, true);
    if end == ds {
        return Err(TokenizeError::BadInt { pos });
    }
    let limit: u64 = if neg { 2147483648 } else { 2147483647 };
    let mut v: u64 = 0;
    let mut i = ds;
    while i < end
        invariant
            ds <= i <= end <= b@.len(),
            forall|j: int| ds <= j < end ==> is_digit(#[trigger] b@[j]),
            v <= limit,
            2147483647 <= limit <= 2147483648,
            pos < b@.len(),
            neg == (b@[pos as int] == 45),
            ds == (if neg { pos + 1 } else { pos as int }),
            end == run_end(b@, ds as nat, true),
            end > ds,
            limit == (if neg { 2147483648u64 } else { 2147483647u64 }),
            v == digits_value(b@.subrange(ds as int, i as int)),
        decreases end - i,
    {
        assert(is_digit(b@[i as int]));
        let d = (b[i] - 48) as u64;
        proof {
            lemma_digits_value_push(b@.subrange(ds as int, i as int), b@[i as int]);
            assert(b@.subrange(ds as int, i + 1) =~= b@.subrange(ds as int, i as int).push(b@[i as int]));
        }
        if v > (limit - d) / 10 {
            proof {
                assert(v * 10 + d > limit) by (nonlinear_arith)
                    requires
                        v > (limit - d) / 10,
                        d <= 9,
                        d <= limit,
                ;
                lemma_digits_grow(b@, ds as int, (i + 1) as int, end as int);
                let m = digits_value(b@.subrange(ds as int, end as int));
                assert(digits_value(b@.subrange(ds as int, i + 1)) == v * 10 + d);
                assert(m > limit);
                if neg {
                    assert(-(m as int) < i32::MIN);
                } else {
                    assert(m > i32::MAX);
                }
                let sds: nat = if b@[pos as int] == 45 { (pos + 1) as nat } else { pos as nat };
                assert(sds == ds);
                assert(run_end(b@, sds, true) == end);
                assert(int_spec(b@, pos as nat) == Err::<(TokenV, nat), TokenizeError>(TokenizeError::IntOverflow { pos }));
            }
            return Err(TokenizeError::IntOverflow { pos });
        }
        proof {
            assert(v * 10 + d <= limit) by (nonlinear_arith)
                requires
                    v <= (limit - d) / 10,
                    d <= limit,
            ;
        }
        v = v * 10 + d;
        i = i + 1;
    }
    let val: i32 = if neg {
        if v == 2147483648 {
            i32::MIN
        } else {
            -(v as i32)
        }
    } else {
        v as i32
    };
    Ok((Token::Int(val), end))
}

/// A digit run's value only grows as it gets longer.
pub proof fn lemma_digits_grow(b: Seq<u8>, ds: int, i: int, end: int)
    requires
        0 <= ds <= i <= end <= b.len(),
        forall|j: int| ds <= j < end ==> is_digit(#[trigger] b[j]),
    ensures
        digits_value(b.subrange(ds, i)) <= digits_value(b.subrange(ds, end)),
    decreases end - i,
{
    if i < end {
        lemma_digits_grow(b, ds, i + 1, end);
        lemma_digits_value_push(b.subrange(ds, i), b[i]);
        assert(b.subrange(ds, i + 1) =~= b.subrange(ds, i).push(b[i]));
        assert(is_digit(b[i]));
        assert(digits_value(b.subrange(ds, i)) <= digits_value(b.subrange(ds, i)) * 10 + (b[i] - 48) as nat)
            by (nonlinear_arith);
    }
}

} // verus!
