//! Mnemonics, operands and the cells of one instruction.
//!
//! An instruction cell is `(opcode << 16) | (op1 << 8) | op2`; a
//! two-cell instruction follows it with an immediate: a label address,
//! a tagged atom `(2 << 21) | id` or a tagged integer
//! `(1 << 21) | (n & 0x1F_FFFF)`.

use super::lex::{
    all_digits, first_stop, lemma_first_stop_le, find_stop, parse_i32_spec, parse_i32_bytes, parse_u32_bytes, parse_u8_bytes,
    parse_unsigned, slice_of, starts_with, starts_with_bytes, trim, trim_bytes, Stop,
};
use super::table::{tab_lookup, SymTab, TabV};
use super::AsmError;
use crate::emit::sb;
use crate::text::bytes_eq;
use crate::tokenize::is_digit;
use vstd::prelude::*;

verus! {

/// The tag bits of an atom immediate.
pub const TAG_ATOM_BITS: u32 = 0x40_0000;

/// The tag bits of an integer immediate.
pub const TAG_INT_BITS: u32 = 0x20_0000;

/// The low bits an integer immediate keeps.
pub const IMM_MASK: u32 = 0x1F_FFFF;

/// The opcode of a mnemonic.
pub open spec fn opcode_spec(m: Seq<u8>) -> Option<u8> {
    if m == sb("NOP") { Some(0) }
    else if m == sb("HALT") { Some(1) }
    else if m == sb("CALL") { Some(2) }
    else if m == sb("EXECUTE") { Some(3) }
    else if m == sb("PROCEED") { Some(4) }
    else if m == sb("FAIL") { Some(5) }
    else if m == sb("TRY") { Some(6) }
    else if m == sb("RETRY") { Some(7) }
    else if m == sb("TRUST") { Some(8) }
    else if m == sb("CUT") { Some(9) }
    else if m == sb("PUT_VAR") { Some(10) }
    else if m == sb("PUT_VAL") { Some(11) }
    else if m == sb("PUT_CONST") { Some(12) }
    else if m == sb("PUT_Y_VAL") { Some(13) }
    else if m == sb("GET_VAR") { Some(16) }
    else if m == sb("GET_VAL") { Some(17) }
    else if m == sb("GET_CONST") { Some(18) }
    else if m == sb("GET_STRUCT") { Some(19) }
    else if m == sb("GET_Y_VAR") { Some(20) }
    else if m == sb("UNIFY_VAR") { Some(22) }
    else if m == sb("UNIFY_VAL") { Some(23) }
    else if m == sb("UNIFY_CONST") { Some(24) }
    else if m == sb("ALLOCATE") { Some(28) }
    else if m == sb("DEALLOCATE") { Some(29) }
    else if m == sb("B_WRITE") { Some(32) }
    else if m == sb("B_NL") { Some(33) }
    else if m == sb("B_IS_ADD") { Some(34) }
    else if m == sb("B_IS_SUB") { Some(35) }
    else if m == sb("B_LT") { Some(36) }
    else if m == sb("B_GT") { Some(37) }
    else { None }
}

/// Mnemonics that take a second cell.
pub open spec fn two_cell_spec(m: Seq<u8>) -> bool {
    m == sb("CALL") || m == sb("EXECUTE") || m == sb("TRY") || m == sb("RETRY") || m == sb("PUT_CONST")
        || m == sb("GET_CONST") || m == sb("GET_STRUCT") || m == sb("UNIFY_CONST")
}

/// The cell width of a mnemonic.
pub open spec fn width_spec(m: Seq<u8>, line: u32) -> Result<u32, AsmError> {
    if opcode_spec(m) is None {
        Err(AsmError::UnknownOpcode { line })
    } else if two_cell_spec(m) {
        Ok(2)
    } else {
        Ok(1)
    }
}

/// The operand shape of a mnemonic.
#[derive(Clone, Copy, PartialEq, Eq, Structural)]
pub enum Shape {
    NoOp,
    Lbl,
    AiConst,
    AiStruct,
    XnAi,
    YiAi,
    Alloc,
    Reg1,
    ConstOnly,
}

pub open spec fn shape_spec(m: Seq<u8>) -> Shape {
    if m == sb("CALL") || m == sb("EXECUTE") || m == sb("TRY") || m == sb("RETRY") {
        Shape::Lbl
    } else if m == sb("PUT_CONST") || m == sb("GET_CONST") {
        Shape::AiConst
    } else if m == sb("GET_STRUCT") {
        Shape::AiStruct
    } else if m == sb("PUT_VAR") || m == sb("PUT_VAL") || m == sb("GET_VAR") || m == sb("GET_VAL") {
        Shape::XnAi
    } else if m == sb("PUT_Y_VAL") || m == sb("GET_Y_VAR") {
        Shape::YiAi
    } else if m == sb("ALLOCATE") {
        Shape::Alloc
    } else if m == sb("B_WRITE") || m == sb("UNIFY_VAR") || m == sb("UNIFY_VAL") {
        Shape::Reg1
    } else if m == sb("UNIFY_CONST") {
        Shape::ConstOnly
    } else {
        Shape::NoOp
    }
}

/// The comma-separated operands of `ops` from index `p`: each trimmed,
/// empty ones dropped.
pub open spec fn args_from(ops: Seq<u8>, p: int) -> Seq<Seq<u8>>
    decreases ops.len() + 1 - p,
{
    if p < 0 || p > ops.len() {
        Seq::empty()
    } else {
        proof {
            lemma_first_stop_le(ops.skip(p), Stop::Byte(44));
        }
        let e = p + first_stop(ops.skip(p), Stop::Byte(44));
        let t = trim(ops.subrange(p, e));
        let rest = args_from(ops, e + 1);
        if t.len() == 0 {
            rest
        } else {
            seq![t] + rest
        }
    }
}

/// The operands of an instruction.
pub open spec fn args_of(ops: Seq<u8>) -> Seq<Seq<u8>> {
    args_from(ops, 0)
}

/// A register operand: `A0`..`A7` are 0..7, `X0`..`X7` are 8..15 and
/// `Y0`..`Y7` are 0..7 with the flag set.
pub open spec fn reg_spec(tok: Seq<u8>, line: u32) -> Result<(u8, bool), AsmError> {
    if tok.len() != 2 || !is_digit(tok[1]) || tok[1] - 48 > 7 {
        Err(AsmError::BadOperand { line })
    } else {
        let idx = (tok[1] - 48) as u8;
        if tok[0] == 65 {
            Ok((idx, false))
        } else if tok[0] == 88 {
            Ok(((idx + 8) as u8, false))
        } else if tok[0] == 89 {
            Ok((idx, true))
        } else {
            Err(AsmError::BadOperand { line })
        }
    }
}

/// `name(inner)`: the inner text.
pub open spec fn call_inner(tok: Seq<u8>, name: Seq<u8>) -> Option<Seq<u8>> {
    if tok.len() >= name.len() + 2 && starts_with(tok, name) && tok[name.len() as int] == 40 && tok.last() == 41 {
        Some(tok.subrange(name.len() + 1 as int, tok.len() - 1 as int))
    } else {
        None
    }
}

/// A constant operand: `atom(name)` of a declared atom, or `int(n)`.
pub open spec fn const_spec(tok: Seq<u8>, atoms: TabV, line: u32) -> Result<u32, AsmError> {
    match call_inner(tok, sb("atom")) {
        Some(inner) => match tab_lookup(atoms, inner) {
            Some(aid) => Ok(TAG_ATOM_BITS | aid),
            None => Err(AsmError::UndeclaredAtom { line }),
        },
        None => match call_inner(tok, sb("int")) {
            Some(inner) => match parse_i32_spec(inner) {
                Some(n) => Ok(TAG_INT_BITS | ((n as i32) as u32 & IMM_MASK)),
                None => Err(AsmError::BadOperand { line }),
            },
            None => Err(AsmError::BadOperand { line }),
        },
    }
}

/// The index of the last `/` in `b`.
pub open spec fn last_slash(b: Seq<u8>) -> Option<nat>
    decreases b.len(),
{
    if b.len() == 0 {
        None
    } else if b.last() == 47 {
        Some((b.len() - 1) as nat)
    } else {
        last_slash(b.drop_last())
    }
}

/// `name/arity`, split at the last `/`.
pub open spec fn slash_spec(tok: Seq<u8>) -> Option<(Seq<u8>, u8)> {
    match last_slash(tok) {
        Some(j) => match parse_unsigned(tok.skip(j + 1 as int), 255) {
            Some(a) => Some((tok.take(j as int), a as u8)),
            None => None,
        },
        None => None,
    }
}

/// An instruction cell.
pub open spec fn cell(opc: u8, op1: u8, op2: u8) -> u32 {
    (opc * 65536 + op1 * 256 + op2) as u32
}

/// The cells of an instruction with operands `a`.
pub open spec fn shape_cells(shape: Shape, opc: u8, a: Seq<Seq<u8>>, line: u32, atoms: TabV, labels: TabV) -> Result<Seq<u32>, AsmError> {
    let arity_err = Err(AsmError::BadArity { line });
    match shape {
        Shape::NoOp => if a.len() != 0 { arity_err } else { Ok(seq![cell(opc, 0, 0)]) },
        Shape::Lbl => if a.len() != 1 {
            arity_err
        } else {
            match tab_lookup(labels, a[0]) {
                Some(addr) => Ok(seq![cell(opc, 0, 0), addr]),
                None => Err(AsmError::UndefinedLabel { line }),
            }
        },
        Shape::AiConst => if a.len() != 2 {
            arity_err
        } else {
            match reg_spec(a[0], line) {
                Err(e) => Err(e),
                Ok((r1, _)) => match const_spec(a[1], atoms, line) {
                    Err(e) => Err(e),
                    Ok(imm) => Ok(seq![cell(opc, r1, 0), imm]),
                },
            }
        },
        Shape::AiStruct => if a.len() != 2 {
            arity_err
        } else {
            match reg_spec(a[0], line) {
                Err(e) => Err(e),
                Ok((r1, _)) => match slash_spec(a[1]) {
                    None => Err(AsmError::BadOperand { line }),
                    Some((name, arity)) => match tab_lookup(atoms, name) {
                        None => Err(AsmError::UndeclaredAtom { line }),
                        Some(aid) => Ok(seq![cell(opc, r1, arity), TAG_ATOM_BITS | aid]),
                    },
                },
            }
        },
        Shape::XnAi | Shape::YiAi => if a.len() != 2 {
            arity_err
        } else {
            match reg_spec(a[0], line) {
                Err(e) => Err(e),
                Ok((r1, is_y)) => match reg_spec(a[1], line) {
                    Err(e) => Err(e),
                    Ok((r2, _)) => if shape == Shape::YiAi && !is_y {
                        Err(AsmError::BadOperand { line })
                    } else {
                        Ok(seq![cell(opc, r1, r2)])
                    },
                },
            }
        },
        Shape::Alloc => if a.len() != 1 {
            arity_err
        } else {
            match parse_unsigned(a[0], u32::MAX as nat) {
                Some(n) => if n > 255 {
                    Err(AsmError::BadOperand { line })
                } else {
                    Ok(seq![cell(opc, n as u8, 0)])
                },
                None => Err(AsmError::BadOperand { line }),
            }
        },
        Shape::Reg1 => if a.len() != 1 {
            arity_err
        } else {
            match reg_spec(a[0], line) {
                Err(e) => Err(e),
                Ok((r1, _)) => Ok(seq![cell(opc, r1, 0)]),
            }
        },
        Shape::ConstOnly => if a.len() != 1 {
            arity_err
        } else {
            match const_spec(a[0], atoms, line) {
                Err(e) => Err(e),
                Ok(imm) => Ok(seq![cell(opc, 0, 0), imm]),
            }
        },
    }
}

/// The cells of the instruction `mnem ops`.
#[verifier::opaque]
pub open spec fn encode_spec(mnem: Seq<u8>, ops: Seq<u8>, line: u32, atoms: TabV, labels: TabV) -> Result<Seq<u32>, AsmError> {
    match opcode_spec(mnem) {
        None => Err(AsmError::UnknownOpcode { line }),
        Some(opc) => shape_cells(shape_spec(mnem), opc, args_of(ops), line, atoms, labels),
    }
}

fn is(m: &[u8], s: &str) -> (r: bool)
    ensures
        r == (m@ == sb(s)),
{
    bytes_eq(m, s.as_bytes())
}

/// The opcode of a mnemonic.
pub fn opcode_of(m: &[u8]) -> (r: Option<u8>)
    ensures
        r == opcode_spec(m@),
{
    if is(m, "NOP") { Some(0) }
    else if is(m, "HALT") { Some(1) }
    else if is(m, "CALL") { Some(2) }
    else if is(m, "EXECUTE") { Some(3) }
    else if is(m, "PROCEED") { Some(4) }
    else if is(m, "FAIL") { Some(5) }
    else if is(m, "TRY") { Some(6) }
    else if is(m, "RETRY") { Some(7) }
    else if is(m, "TRUST") { Some(8) }
    else if is(m, "CUT") { Some(9) }
    else if is(m, "PUT_VAR") { Some(10) }
    else if is(m, "PUT_VAL") { Some(11) }
    else if is(m, "PUT_CONST") { Some(12) }
    else if is(m, "PUT_Y_VAL") { Some(13) }
    else if is(m, "GET_VAR") { Some(16) }
    else if is(m, "GET_VAL") { Some(17) }
    else if is(m, "GET_CONST") { Some(18) }
    else if is(m, "GET_STRUCT") { Some(19) }
    else if is(m, "GET_Y_VAR") { Some(20) }
    else if is(m, "UNIFY_VAR") { Some(22) }
    else if is(m, "UNIFY_VAL") { Some(23) }
    else if is(m, "UNIFY_CONST") { Some(24) }
    else if is(m, "ALLOCATE") { Some(28) }
    else if is(m, "DEALLOCATE") { Some(29) }
    else if is(m, "B_WRITE") { Some(32) }
    else if is(m, "B_NL") { Some(33) }
    else if is(m, "B_IS_ADD") { Some(34) }
    else if is(m, "B_IS_SUB") { Some(35) }
    else if is(m, "B_LT") { Some(36) }
    else if is(m, "B_GT") { Some(37) }
    else { None }
}

fn is_two_cell(m: &[u8]) -> (r: bool)
    ensures
        r == two_cell_spec(m@),
{
    is(m, "CALL") || is(m, "EXECUTE") || is(m, "TRY") || is(m, "RETRY") || is(m, "PUT_CONST") || is(m, "GET_CONST")
        || is(m, "GET_STRUCT") || is(m, "UNIFY_CONST")
}

/// The cell width of a mnemonic.
pub fn width_of(m: &[u8], line: u32) -> (r: Result<u32, AsmError>)
    ensures
        r == width_spec(m@, line),
{
    if opcode_of(m).is_none() {
        return Err(AsmError::UnknownOpcode { line });
    }
    Ok(if is_two_cell(m) { 2 } else { 1 })
}

fn shape_of(m: &[u8]) -> (r: Shape)
    ensures
        r == shape_spec(m@),
{
    if is(m, "CALL") || is(m, "EXECUTE") || is(m, "TRY") || is(m, "RETRY") {
        Shape::Lbl
    } else if is(m, "PUT_CONST") || is(m, "GET_CONST") {
        Shape::AiConst
    } else if is(m, "GET_STRUCT") {
        Shape::AiStruct
    } else if is(m, "PUT_VAR") || is(m, "PUT_VAL") || is(m, "GET_VAR") || is(m, "GET_VAL") {
        Shape::XnAi
    } else if is(m, "PUT_Y_VAL") || is(m, "GET_Y_VAR") {
        Shape::YiAi
    } else if is(m, "ALLOCATE") {
        Shape::Alloc
    } else if is(m, "B_WRITE") || is(m, "UNIFY_VAR") || is(m, "UNIFY_VAL") {
        Shape::Reg1
    } else if is(m, "UNIFY_CONST") {
        Shape::ConstOnly
    } else {
        Shape::NoOp
    }
}

/// The operands of an instruction.
fn split_args<'a>(ops: &'a [u8]) -> (r: Vec<&'a [u8]>)
    ensures
        r@.len() == args_of(ops@).len(),
        forall|i: int| 0 <= i < r@.len() ==> #[trigger] r@[i]@ == args_of(ops@)[i],
{
    let mut out: Vec<&'a [u8]> = Vec::new();
    let ghost done: Seq<Seq<u8>> = Seq::empty();
    let mut p: usize = 0;
    let n = ops.len();
    loop
        invariant
            n == ops@.len(),
            p <= n,
            out@.len() == done.len(),
            forall|i: int| 0 <= i < out@.len() ==> #[trigger] out@[i]@ == done[i],
            args_of(ops@) == done + args_from(ops@, p as int),
        decreases n - p,
    {
        let rest = slice_of(ops, p, n);
        let k = find_stop(rest, Stop::Byte(44));
        proof {
            assert(rest@ =~= ops@.skip(p as int));
        }
        let e = p + k;
        let t = trim_bytes(slice_of(ops, p, e));
        let ghost rest_args = args_from(ops@, e + 1);
        if t.len() != 0 {
            out.push(t);
            proof {
                assert(args_from(ops@, p as int) == seq![t@] + rest_args);
                done = done.push(t@);
                assert(args_of(ops@) =~= done + rest_args);
            }
        } else {
            proof {
                assert(args_from(ops@, p as int) == rest_args);
            }
        }
        if e >= n {
            proof {
                assert(args_from(ops@, e + 1) == Seq::<Seq<u8>>::empty());
                assert(args_of(ops@) =~= done);
            }
            return out;
        }
        p = e + 1;
    }
}

fn parse_reg(tok: &[u8], line: u32) -> (r: Result<(u8, bool), AsmError>)
    ensures
        r == reg_spec(tok@, line),
{
    if tok.len() != 2 {
        return Err(AsmError::BadOperand { line });
    }
    let kind = tok[0];
    let digit = tok[1];
    if !(48 <= digit && digit <= 57) {
        return Err(AsmError::BadOperand { line });
    }
    let idx = digit - 48;
    if idx > 7 {
        return Err(AsmError::BadOperand { line });
    }
    if kind == 65 {
        Ok((idx, false))
    } else if kind == 88 {
        Ok((8 + idx, false))
    } else if kind == 89 {
        Ok((idx, true))
    } else {
        Err(AsmError::BadOperand { line })
    }
}

fn strip_call<'a>(tok: &'a [u8], name: &str) -> (r: Option<&'a [u8]>)
    ensures
        match call_inner(tok@, sb(name)) {
            Some(inner) => r is Some && r->0@ == inner,
            None => r is None,
        },
{
    let nb = name.as_bytes();
    let n = tok.len();
    if n >= 2 && nb.len() <= n - 2 && starts_with_bytes(tok, nb) && tok[nb.len()] == 40 && tok[n - 1] == 41 {
        Some(slice_of(tok, nb.len() + 1, n - 1))
    } else {
        None
    }
}

fn parse_const(tok: &[u8], atoms: &SymTab, line: u32) -> (r: Result<u32, AsmError>)
    ensures
        r == const_spec(tok@, atoms@, line),
{
    match strip_call(tok, "atom") {
        Some(inner) => match atoms.get(inner) {
            Some(aid) => Ok(TAG_ATOM_BITS | aid),
            None => Err(AsmError::UndeclaredAtom { line }),
        },
        None => match strip_call(tok, "int") {
            Some(inner) => match parse_i32_bytes(inner) {
                Some(n) => Ok(TAG_INT_BITS | ((n as u32) & IMM_MASK)),
                None => Err(AsmError::BadOperand { line }),
            },
            None => Err(AsmError::BadOperand { line }),
        },
    }
}

fn find_last_slash(t: &[u8]) -> (r: Option<usize>)
    ensures
        match last_slash(t@) {
            Some(j) => r == Some(j as usize),
            None => r is None,
        },
        r matches Some(j) ==> j < t@.len(),
        last_slash(t@) matches Some(j) ==> j < t@.len(),
{
    let mut i: usize = t.len();
    proof {
        assert(t@.take(i as int) =~= t@);
    }
    while i > 0
        invariant
            i <= t@.len(),
            last_slash(t@) == last_slash(t@.take(i as int)),
        decreases i,
    {
        if t[i - 1] == 47 {
            return Some(i - 1);
        }
        proof {
            assert(t@.take(i as int).drop_last() =~= t@.take(i - 1));
        }
        i = i - 1;
    }
    None
}

fn split_slash<'a>(tok: &'a [u8]) -> (r: Option<(&'a [u8], u8)>)
    ensures
        match slash_spec(tok@) {
            Some((name, a)) => r is Some && (r->0).0@ == name && (r->0).1 == a,
            None => r is None,
        },
{
    let n = tok.len();
    match find_last_slash(tok) {
        Some(j) => {
            let arity_s = slice_of(tok, j + 1, n);
            let name = slice_of(tok, 0, j);
            proof {
                assert(arity_s@ =~= tok@.skip(j + 1 as int));
                assert(name@ =~= tok@.take(j as int));
            }
            match parse_u8_bytes(arity_s) {
                Some(a) => Some((name, a)),
                None => None,
            }
        },
        None => None,
    }
}

/// The cells of the instruction `mnem ops`.
pub fn encode(mnem: &[u8], ops: &[u8], line: u32, atoms: &SymTab, labels: &SymTab) -> (r: Result<Vec<u32>, AsmError>)
    ensures
        match encode_spec(mnem@, ops@, line, atoms@, labels@) {
            Ok(c) => r is Ok && r->Ok_0@ == c,
            Err(e) => r == Err::<Vec<u32>, AsmError>(e),
        },
{
    proof {
        reveal(encode_spec);
    }
    let opc = match opcode_of(mnem) {
        Some(o) => o,
        None => return Err(AsmError::UnknownOpcode { line }),
    };
    let args = split_args(ops);
    let ghost a = args_of(ops@);
    let shape = shape_of(mnem);
    let arity_err = Err(AsmError::BadArity { line });
    let base: u32 = (opc as u32) * 65536;
    match shape {
        Shape::NoOp => {
            if args.len() != 0 {
                return arity_err;
            }
            Ok(vec![base])
        },
        Shape::Lbl => {
            if args.len() != 1 {
                return arity_err;
            }
            match labels.get(args[0]) {
                Some(addr) => Ok(vec![base, addr]),
                None => Err(AsmError::UndefinedLabel { line }),
            }
        },
        Shape::AiConst => {
            if args.len() != 2 {
                return arity_err;
            }
            let (r1, _) = match parse_reg(args[0], line) {
                Ok(x) => x,
                Err(e) => return Err(e),
            };
            let imm = match parse_const(args[1], atoms, line) {
                Ok(x) => x,
                Err(e) => return Err(e),
            };
            Ok(vec![base + (r1 as u32) * 256, imm])
        },
        Shape::AiStruct => {
            if args.len() != 2 {
                return arity_err;
            }
            let (r1, _) = match parse_reg(args[0], line) {
                Ok(x) => x,
                Err(e) => return Err(e),
            };
            let (name, arity) = match split_slash(args[1]) {
                Some(x) => x,
                None => return Err(AsmError::BadOperand { line }),
            };
            let aid = match atoms.get(name) {
                Some(x) => x,
                None => return Err(AsmError::UndeclaredAtom { line }),
            };
            Ok(vec![base + (r1 as u32) * 256 + arity as u32, TAG_ATOM_BITS | aid])
        },
        Shape::XnAi | Shape::YiAi => {
            if args.len() != 2 {
                return arity_err;
            }
            let (r1, is_y) = match parse_reg(args[0], line) {
                Ok(x) => x,
                Err(e) => return Err(e),
            };
            let (r2, _) = match parse_reg(args[1], line) {
                Ok(x) => x,
                Err(e) => return Err(e),
            };
            if shape == Shape::YiAi && !is_y {
                return Err(AsmError::BadOperand { line });
            }
            Ok(vec![base + (r1 as u32) * 256 + r2 as u32])
        },
        Shape::Alloc => {
            if args.len() != 1 {
                return arity_err;
            }
            let n = match parse_u32_bytes(args[0]) {
                Some(x) => x,
                None => return Err(AsmError::BadOperand { line }),
            };
            if n > 0xFF {
                return Err(AsmError::BadOperand { line });
            }
            Ok(vec![base + n * 256])
        },
        Shape::Reg1 => {
            if args.len() != 1 {
                return arity_err;
            }
            let (r1, _) = match parse_reg(args[0], line) {
                Ok(x) => x,
                Err(e) => return Err(e),
            };
            Ok(vec![base + (r1 as u32) * 256])
        },
        Shape::ConstOnly => {
            if args.len() != 1 {
                return arity_err;
            }
            let imm = match parse_const(args[0], atoms, line) {
                Ok(x) => x,
                Err(e) => return Err(e),
            };
            Ok(vec![base, imm])
        },
    }
}

} // verus!
