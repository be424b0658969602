//! `.lam` text emitter: formats a compiled instruction stream.
//!
//! Output discipline: four-space indent for instructions, no trailing
//! whitespace, atom directives first (in the order compile emits them),
//! labels unindented with a colon. A blank line separates the atom
//! directives from what follows and precedes each section label
//! (`*_body`, `*_entry`, `query`).
//!
//! `emit_spec` states the text; `emit` produces it.

use crate::compile::{instr_views, Instr, InstrV, MAX_INSTR};
use crate::parse::{AtomId, AtomTable};
use crate::port::bounded_str::str_of_utf8;
use crate::port::BoundedArr;
use crate::text::{bytes_eq, decimal, push_decimal, push_signed, push_str, signed_decimal};
use vstd::prelude::*;
use vstd::string::StringSliceAdditionalSpecFns;
use vstd::utf8::{encode_utf8, is_ascii_chars_encode_utf8, valid_utf8};

verus! {

#[derive(Debug, Clone, Copy, PartialEq, Eq, Structural)]
pub enum EmitError {
    UnknownAtom,
    Fmt,
}

pub open spec fn sb(s: &str) -> Seq<u8> {
    s.spec_bytes()
}

/// `name` ends with `suffix`.
pub open spec fn ends_with(name: Seq<u8>, suffix: Seq<u8>) -> bool {
    name.len() >= suffix.len() && name.subrange(name.len() - suffix.len(), name.len() as int) == suffix
}

/// Labels that open a section get a blank line before them.
pub open spec fn is_section(name: Seq<u8>) -> bool {
    name == sb("query") || ends_with(name, sb("_entry")) || ends_with(name, sb("_body"))
}

/// A blank line goes before instruction `i`.
pub open spec fn needs_blank(instrs: Seq<InstrV>, i: int) -> bool {
    i > 0 && (((instrs[i - 1] is AtomDir) && !(instrs[i] is AtomDir)) || (match instrs[i] {
        InstrV::Label(l) => is_section(l),
        _ => false,
    }))
}

/// `    OP X<x>, A<a>`.
pub open spec fn xa(op: &str, x: u8, a: u8) -> Seq<u8> {
    sb("    ") + sb(op) + sb(" X") + decimal(x as nat) + sb(", A") + decimal(a as nat)
}

/// `    OP Y<y>, A<a>`.
pub open spec fn ya(op: &str, y: u8, a: u8) -> Seq<u8> {
    sb("    ") + sb(op) + sb(" Y") + decimal(y as nat) + sb(", A") + decimal(a as nat)
}

/// `    OP <label>`.
pub open spec fn op_label(op: &str, l: Seq<u8>) -> Seq<u8> {
    sb("    ") + sb(op) + sb(" ") + l
}

/// `    OP` alone.
pub open spec fn bare(op: &str) -> Seq<u8> {
    sb("    ") + sb(op)
}

/// The text of one instruction, without its newline.
pub open spec fn line_spec(i: InstrV, atoms: Seq<Seq<u8>>) -> Result<Seq<u8>, EmitError> {
    let name = |id: AtomId| if (id as int) < atoms.len() { Some(atoms[id as int]) } else { None };
    match i {
        InstrV::AtomDir { id, name: n } => Ok(sb(".atom ") + decimal(id as nat) + sb(" ") + n),
        InstrV::Label(l) => Ok(l + sb(":")),
        InstrV::PutConst { ai, atom } => match name(atom) {
            Some(n) => Ok(sb("    PUT_CONST A") + decimal(ai as nat) + sb(", atom(") + n + sb(")")),
            None => Err(EmitError::UnknownAtom),
        },
        InstrV::PutInt { ai, value } => Ok(sb("    PUT_CONST A") + decimal(ai as nat) + sb(", int(") + signed_decimal(value as int) + sb(")")),
        InstrV::PutVar { ai, xi } => Ok(xa("PUT_VAR", xi, ai)),
        InstrV::PutVal { ai, xi } => Ok(xa("PUT_VAL", xi, ai)),
        InstrV::PutYVal { ai, yi } => Ok(ya("PUT_Y_VAL", yi, ai)),
        InstrV::GetVar { ai, xi } => Ok(xa("GET_VAR", xi, ai)),
        InstrV::GetVal { ai, xi } => Ok(xa("GET_VAL", xi, ai)),
        InstrV::GetYVar { ai, yi } => Ok(ya("GET_Y_VAR", yi, ai)),
        InstrV::GetConst { ai, atom } => match name(atom) {
            Some(n) => Ok(sb("    GET_CONST A") + decimal(ai as nat) + sb(", atom(") + n + sb(")")),
            None => Err(EmitError::UnknownAtom),
        },
        InstrV::GetInt { ai, value } => Ok(sb("    GET_CONST A") + decimal(ai as nat) + sb(", int(") + signed_decimal(value as int) + sb(")")),
        InstrV::GetStruct { ai, atom, arity } => match name(atom) {
            Some(n) => Ok(sb("    GET_STRUCT A") + decimal(ai as nat) + sb(", ") + n + sb("/") + decimal(arity as nat)),
            None => Err(EmitError::UnknownAtom),
        },
        InstrV::UnifyVar { xi } => Ok(sb("    UNIFY_VAR X") + decimal(xi as nat)),
        InstrV::UnifyVal { xi } => Ok(sb("    UNIFY_VAL X") + decimal(xi as nat)),
        InstrV::UnifyConst { atom } => match name(atom) {
            Some(n) => Ok(sb("    UNIFY_CONST atom(") + n + sb(")")),
            None => Err(EmitError::UnknownAtom),
        },
        InstrV::UnifyInt { value } => Ok(sb("    UNIFY_CONST int(") + signed_decimal(value as int) + sb(")")),
        InstrV::Allocate { n } => Ok(sb("    ALLOCATE ") + decimal(n as nat)),
        InstrV::Deallocate => Ok(bare("DEALLOCATE")),
        InstrV::Call { label } => Ok(op_label("CALL", label)),
        InstrV::Execute { label } => Ok(op_label("EXECUTE", label)),
        InstrV::Proceed => Ok(bare("PROCEED")),
        InstrV::Try { label } => Ok(op_label("TRY", label)),
        InstrV::Retry { label } => Ok(op_label("RETRY", label)),
        InstrV::Trust { .. } => Ok(bare("TRUST")),
        InstrV::Cut => Ok(bare("CUT")),
        InstrV::Fail => Ok(bare("FAIL")),
        InstrV::BWrite { ai } => Ok(sb("    B_WRITE A") + decimal(ai as nat)),
        InstrV::BNl => Ok(bare("B_NL")),
        InstrV::BIsAdd { .. } => Ok(bare("B_IS_ADD")),
        InstrV::BIsSub { .. } => Ok(bare("B_IS_SUB")),
        InstrV::BLt { .. } => Ok(bare("B_LT")),
        InstrV::BGt { .. } => Ok(bare("B_GT")),
        InstrV::Halt => Ok(bare("HALT")),
    }
}

/// The text of instructions `i..`, appended to `acc`.
pub open spec fn emit_from(instrs: Seq<InstrV>, atoms: Seq<Seq<u8>>, i: nat, acc: Seq<u8>) -> Result<Seq<u8>, EmitError>
    decreases instrs.len() - i,
{
    if i >= instrs.len() {
        Ok(acc)
    } else {
        let acc1 = if needs_blank(instrs, i as int) { acc + sb("\n") } else { acc };
        match line_spec(instrs[i as int], atoms) {
            Err(e) => Err(e),
            Ok(l) => emit_from(instrs, atoms, i + 1, acc1 + l + sb("\n")),
        }
    }
}

/// The `.lam` text of `instrs`: each instruction on its own line.
pub open spec fn emit_spec(instrs: Seq<InstrV>, atoms: Seq<Seq<u8>>) -> Result<Seq<u8>, EmitError> {
    emit_from(instrs, atoms, 0, Seq::empty())
}

/// What `emit` returns: the text of `emit_spec`, or `Fmt` where those
/// bytes would not form a string.
pub open spec fn emit_result(instrs: Seq<InstrV>, atoms: Seq<Seq<u8>>) -> Result<Seq<u8>, EmitError> {
    match emit_spec(instrs, atoms) {
        Ok(b) => if valid_utf8(b) { Ok(b) } else { Err(EmitError::Fmt) },
        Err(e) => Err(e),
    }
}

/// The bytes of a line break.
proof fn lemma_newline()
    ensures
        sb("\n") == seq![10u8],
{
    reveal_strlit("\n");
    is_ascii_chars_encode_utf8("\n"@);
    assert(sb("\n") =~= seq![10u8]);
}

/// Formats `instrs` as `.lam` text, one instruction per line.
pub fn emit(instrs: &BoundedArr<Instr, MAX_INSTR>, atoms: &AtomTable) -> (r: Result<String, EmitError>)
    ensures
        match emit_result(instr_views(*instrs), atoms@) {
            Ok(b) => r is Ok && encode_utf8(r->Ok_0@) == b,
            Err(e) => r == Err::<String, EmitError>(e),
        },
{
    let ghost iv = instr_views(*instrs);
    let mut out: Vec<u8> = Vec::new();
    let n = instrs.len();
    let mut i: usize = 0;
    while i < n
        invariant
            n == instrs@.len(),
            iv == instr_views(*instrs),
            iv.len() == n,
            i <= n,
            emit_spec(iv, atoms@) == emit_from(iv, atoms@, i as nat, out@),
        decreases n - i,
    {
        let cur = instrs.get(i).unwrap();
        let ghost acc = out@;
        if needs_blank_at(i, instrs) {
            out.push(10u8);
        }
        let ghost acc1 = out@;
        match emit_line(cur, atoms, &mut out) {
            Ok(()) => {},
            Err(e) => {
                return Err(e);
            },
        }
        let ghost lined = out@;
        out.push(10u8);
        proof {
            lemma_newline();
            assert(iv[i as int] == cur@);
            if needs_blank(iv, i as int) {
                assert(acc1 =~= acc + sb("\n"));
            }
            let l = line_spec(iv[i as int], atoms@)->Ok_0;
            assert(lined == acc1 + l);
            assert(out@ =~= acc1 + l + sb("\n"));
        }
        i = i + 1;
    }
    match str_of_utf8(out.as_slice()) {
        Some(s) => Ok(s.to_owned()),
        None => Err(EmitError::Fmt),
    }
}

fn ends_with_bytes(name: &[u8], suffix: &str) -> (r: bool)
    ensures
        r == ends_with(name@, suffix.spec_bytes()),
{
    let s = suffix.as_bytes();
    if name.len() < s.len() {
        return false;
    }
    let start = name.len() - s.len();
    let tail = slice_from(name, start);
    bytes_eq(tail, s)
}

fn slice_from(b: &[u8], start: usize) -> (r: &[u8])
    requires
        start <= b@.len(),
    ensures
        r@ == b@.subrange(start as int, b@.len() as int),
{
    &b[start..b.len()]
}

fn is_section_label(name: &str) -> (r: bool)
    ensures
        r == is_section(name.spec_bytes()),
{
    let b = name.as_bytes();
    bytes_eq(b, "query".as_bytes()) || ends_with_bytes(b, "_entry") || ends_with_bytes(b, "_body")
}

fn needs_blank_at(i: usize, instrs: &BoundedArr<Instr, MAX_INSTR>) -> (r: bool)
    requires
        i < instrs@.len(),
    ensures
        r == needs_blank(instr_views(*instrs), i as int),
{
    if i == 0 {
        return false;
    }
    let prev = instrs.get(i - 1).unwrap();
    let cur = instrs.get(i).unwrap();
    if matches!(prev, Instr::AtomDir { .. }) && !matches!(cur, Instr::AtomDir { .. }) {
        return true;
    }
    match cur {
        Instr::Label(l) => is_section_label(l.as_str()),
        _ => false,
    }
}

fn atom_name(atoms: &AtomTable, id: AtomId) -> (r: Option<&str>)
    ensures
        (id as int) < atoms@.len() ==> r is Some && r->0.spec_bytes() == atoms@[id as int],
        (id as int) >= atoms@.len() ==> r is None,
{
    match atoms.name(id) {
        Some(n) => Some(n.as_str()),
        None => None,
    }
}

fn push_xa(out: &mut Vec<u8>, op: &str, x: u8, a: u8)
    ensures
        final(out)@ == old(out)@ + xa(op, x, a),
{
    push_str(out, "    ");
    push_str(out, op);
    push_str(out, " X");
    push_decimal(out, x as u64);
    push_str(out, ", A");
    push_decimal(out, a as u64);
    proof {
        assert(final(out)@ =~= old(out)@ + xa(op, x, a));
    }
}

fn push_ya(out: &mut Vec<u8>, op: &str, y: u8, a: u8)
    ensures
        final(out)@ == old(out)@ + ya(op, y, a),
{
    push_str(out, "    ");
    push_str(out, op);
    push_str(out, " Y");
    push_decimal(out, y as u64);
    push_str(out, ", A");
    push_decimal(out, a as u64);
    proof {
        assert(final(out)@ =~= old(out)@ + ya(op, y, a));
    }
}

fn push_op_label(out: &mut Vec<u8>, op: &str, l: &str)
    ensures
        final(out)@ == old(out)@ + op_label(op, l.spec_bytes()),
{
    push_str(out, "    ");
    push_str(out, op);
    push_str(out, " ");
    push_str(out, l);
    proof {
        assert(final(out)@ =~= old(out)@ + op_label(op, l.spec_bytes()));
    }
}

fn push_bare(out: &mut Vec<u8>, op: &str)
    ensures
        final(out)@ == old(out)@ + bare(op),
{
    push_str(out, "    ");
    push_str(out, op);
    proof {
        assert(final(out)@ =~= old(out)@ + bare(op));
    }
}

/// `<prefix><a><mid><name><end>` with `name` the name of `atom`.
fn push_atom_form(out: &mut Vec<u8>, prefix: &str, a: u8, mid: &str, name: &str, end: &str)
    ensures
        final(out)@ == old(out)@ + sb(prefix) + decimal(a as nat) + sb(mid) + name.spec_bytes() + sb(end),
{
    push_str(out, prefix);
    push_decimal(out, a as u64);
    push_str(out, mid);
    push_str(out, name);
    push_str(out, end);
    proof {
        assert(final(out)@ =~= old(out)@ + sb(prefix) + decimal(a as nat) + sb(mid) + name.spec_bytes() + sb(end));
    }
}

/// `<prefix><a><mid><value>)` with a signed value.
fn push_int_form(out: &mut Vec<u8>, prefix: &str, a: u8, mid: &str, value: i32)
    ensures
        final(out)@ == old(out)@ + sb(prefix) + decimal(a as nat) + sb(mid) + signed_decimal(value as int) + sb(")"),
{
    push_str(out, prefix);
    push_decimal(out, a as u64);
    push_str(out, mid);
    push_signed(out, value as i64);
    push_str(out, ")");
    proof {
        assert(final(out)@ =~= old(out)@ + sb(prefix) + decimal(a as nat) + sb(mid) + signed_decimal(value as int) + sb(")"));
    }
}

#[verifier::rlimit(60)]
fn emit_line(instr: &Instr, atoms: &AtomTable, out: &mut Vec<u8>) -> (r: Result<(), EmitError>)
    ensures
        match line_spec(instr@, atoms@) {
            Ok(l) => r is Ok && final(out)@ == old(out)@ + l,
            Err(e) => r == Err::<(), EmitError>(e),
        },
{
    match instr {
        Instr::AtomDir { id, name } => {
            push_str(out, ".atom ");
            push_decimal(out, *id as u64);
            push_str(out, " ");
            push_str(out, name.as_str());
            proof {
                assert(final(out)@ =~= old(out)@ + (sb(".atom ") + decimal(*id as nat) + sb(" ") + name@));
            }
            Ok(())
        },
        Instr::Label(l) => {
            push_str(out, l.as_str());
            push_str(out, ":");
            proof {
                assert(final(out)@ =~= old(out)@ + (l@ + sb(":")));
            }
            Ok(())
        },
        Instr::PutConst { ai, atom } => match atom_name(atoms, *atom) {
            Some(n) => {
                push_atom_form(out, "    PUT_CONST A", *ai, ", atom(", n, ")");
                proof {
                    assert(final(out)@ =~= old(out)@ + (sb("    PUT_CONST A") + decimal(*ai as nat) + sb(", atom(") + n.spec_bytes() + sb(")")));
                }
                Ok(())
            },
            None => Err(EmitError::UnknownAtom),
        },
        Instr::GetConst { ai, atom } => match atom_name(atoms, *atom) {
            Some(n) => {
                push_atom_form(out, "    GET_CONST A", *ai, ", atom(", n, ")");
                proof {
                    assert(final(out)@ =~= old(out)@ + (sb("    GET_CONST A") + decimal(*ai as nat) + sb(", atom(") + n.spec_bytes() + sb(")")));
                }
                Ok(())
            },
            None => Err(EmitError::UnknownAtom),
        },
        Instr::GetStruct { ai, atom, arity } => match atom_name(atoms, *atom) {
            Some(n) => {
                push_str(out, "    GET_STRUCT A");
                push_decimal(out, *ai as u64);
                push_str(out, ", ");
                push_str(out, n);
                push_str(out, "/");
                push_decimal(out, *arity as u64);
                proof {
                    assert(final(out)@ =~= old(out)@ + (sb("    GET_STRUCT A") + decimal(*ai as nat) + sb(", ") + n.spec_bytes() + sb("/") + decimal(*arity as nat)));
                }
                Ok(())
            },
            None => Err(EmitError::UnknownAtom),
        },
        Instr::UnifyConst { atom } => match atom_name(atoms, *atom) {
            Some(n) => {
                push_str(out, "    UNIFY_CONST atom(");
                push_str(out, n);
                push_str(out, ")");
                proof {
                    assert(final(out)@ =~= old(out)@ + (sb("    UNIFY_CONST atom(") + n.spec_bytes() + sb(")")));
                }
                Ok(())
            },
            None => Err(EmitError::UnknownAtom),
        },
        Instr::PutInt { ai, value } => {
            push_int_form(out, "    PUT_CONST A", *ai, ", int(", *value);
            Ok(())
        },
        Instr::GetInt { ai, value } => {
            push_int_form(out, "    GET_CONST A", *ai, ", int(", *value);
            Ok(())
        },
        Instr::UnifyInt { value } => {
            push_str(out, "    UNIFY_CONST int(");
            push_signed(out, *value as i64);
            push_str(out, ")");
            proof {
                assert(final(out)@ =~= old(out)@ + (sb("    UNIFY_CONST int(") + signed_decimal(*value as int) + sb(")")));
            }
            Ok(())
        },
        _ => {
            emit_plain(instr, out);
            Ok(())
        },
    }
}

/// The instructions whose text needs no atom name.
fn emit_plain(instr: &Instr, out: &mut Vec<u8>)
    requires
        !(instr@ is AtomDir || instr@ is Label || instr@ is PutConst || instr@ is GetConst || instr@ is GetStruct
            || instr@ is UnifyConst || instr@ is PutInt || instr@ is GetInt || instr@ is UnifyInt),
    ensures
        line_spec(instr@, Seq::empty()) matches Ok(l) && final(out)@ == old(out)@ + l,
{
    match instr {
        Instr::PutVar { ai, xi } => push_xa(out, "PUT_VAR", *xi, *ai),
        Instr::PutVal { ai, xi } => push_xa(out, "PUT_VAL", *xi, *ai),
        Instr::PutYVal { ai, yi } => push_ya(out, "PUT_Y_VAL", *yi, *ai),
        Instr::GetVar { ai, xi } => push_xa(out, "GET_VAR", *xi, *ai),
        Instr::GetVal { ai, xi } => push_xa(out, "GET_VAL", *xi, *ai),
        Instr::GetYVar { ai, yi } => push_ya(out, "GET_Y_VAR", *yi, *ai),
        Instr::UnifyVar { xi } => {
            push_str(out, "    UNIFY_VAR X");
            push_decimal(out, *xi as u64);
            proof {
                assert(final(out)@ =~= old(out)@ + (sb("    UNIFY_VAR X") + decimal(*xi as nat)));
            }
        },
        Instr::UnifyVal { xi } => {
            push_str(out, "    UNIFY_VAL X");
            push_decimal(out, *xi as u64);
            proof {
                assert(final(out)@ =~= old(out)@ + (sb("    UNIFY_VAL X") + decimal(*xi as nat)));
            }
        },
        Instr::Allocate { n } => {
            push_str(out, "    ALLOCATE ");
            push_decimal(out, *n as u64);
            proof {
                assert(final(out)@ =~= old(out)@ + (sb("    ALLOCATE ") + decimal(*n as nat)));
            }
        },
        Instr::BWrite { ai } => {
            push_str(out, "    B_WRITE A");
            push_decimal(out, *ai as u64);
            proof {
                assert(final(out)@ =~= old(out)@ + (sb("    B_WRITE A") + decimal(*ai as nat)));
            }
        },
        Instr::Call { label } => push_op_label(out, "CALL", label.as_str()),
        Instr::Execute { label } => push_op_label(out, "EXECUTE", label.as_str()),
        Instr::Try { label } => push_op_label(out, "TRY", label.as_str()),
        Instr::Retry { label } => push_op_label(out, "RETRY", label.as_str()),
        Instr::Deallocate => push_bare(out, "DEALLOCATE"),
        Instr::Proceed => push_bare(out, "PROCEED"),
        Instr::Trust { .. } => push_bare(out, "TRUST"),
        Instr::Cut => push_bare(out, "CUT"),
        Instr::Fail => push_bare(out, "FAIL"),
        Instr::BNl => push_bare(out, "B_NL"),
        Instr::BIsAdd { .. } => push_bare(out, "B_IS_ADD"),
        Instr::BIsSub { .. } => push_bare(out, "B_IS_SUB"),
        Instr::BLt { .. } => push_bare(out, "B_LT"),
        Instr::BGt { .. } => push_bare(out, "B_GT"),
        Instr::Halt => push_bare(out, "HALT"),
        _ => {},
    }
}

} // verus!
