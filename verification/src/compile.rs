//! WAM-style compilation: `Clause` stream to `Instr` stream.
//!
//! 1. **Chunk-based variable classification.** A clause body of `n`
//!    goals has `max(1, n)` chunks: chunk 0 is the head with the first
//!    goal, and chunk `k >= 1` is goal `k`. A variable that
//!    occurs in more than one chunk is *permanent* (a Y register in the
//!    environment frame, surviving a CALL); otherwise it is *temporary*
//!    (an X register).
//! 2. **Register assignment.** Walking the head, then the body, in
//!    order, permanent variables get Y indices and temporaries X
//!    indices by first occurrence. X register `n_temp` is a scratch.
//! 3. **Code emission.** A clause with permanent variables opens with
//!    `ALLOCATE`. Head arguments use `GET_*`, body arguments `PUT_*`;
//!    non-final goals `CALL`, the final goal `DEALLOCATE` (with an
//!    environment) then `EXECUTE`. Inline builtins (`write/1`, `nl`,
//!    `fail`, `!`, `is/2`, `</2`, `>/2`, `=/2`, `\+/1`) compile to VM
//!    instructions.
//!
//! Labels: `pred_cK_body` per clause, `pred_entry` per predicate with a
//! `TRY` / `RETRY` / `TRUST` chain through `pred_cK`, and `query`.
//!
//! The spec functions state the emitted stream; each exec function
//! computes its spec function. Walking a term through the clause's
//! arena carries a depth budget (the arena's size plus one), which a
//! clause from the parser never exhausts.

use crate::parse::{
    find_from, AtomId, AtomTable, Clause, ClauseKind, ClauseV, Term, TermIdx, TermV, VarSlot,
    MAX_ARGS, MAX_BODY, MAX_CLAUSES, MAX_CLAUSE_VARS, NAME_CAP,
};
use crate::port::bounded_str::{ascii_bytes, lemma_ascii_valid_utf8, str_of_utf8};
use crate::port::{BoundedArr, BoundedStr};
use crate::text::{decimal, str_eq};
use vstd::prelude::*;
use vstd::string::StringSliceAdditionalSpecFns;
use vstd::utf8::{encode_utf8_valid_utf8, is_ascii_chars_encode_utf8, valid_utf8, valid_utf8_concat};

verus! {

pub const MAX_INSTR: usize = 2048;
pub const LABEL_CAP: usize = 48;
pub const REG_CAP: u8 = 8;

pub type LabelId = BoundedStr<LABEL_CAP>;

#[derive(Clone, Copy, Debug, PartialEq, Eq)]
pub enum Instr {
    PutConst { ai: u8, atom: AtomId },
    PutInt { ai: u8, value: i32 },
    PutVar { ai: u8, xi: u8 },
    PutVal { ai: u8, xi: u8 },
    PutYVal { ai: u8, yi: u8 },
    GetVar { ai: u8, xi: u8 },
    GetVal { ai: u8, xi: u8 },
    GetYVar { ai: u8, yi: u8 },
    GetConst { ai: u8, atom: AtomId },
    GetInt { ai: u8, value: i32 },
    GetStruct { ai: u8, atom: AtomId, arity: u8 },
    UnifyVar { xi: u8 },
    UnifyVal { xi: u8 },
    UnifyConst { atom: AtomId },
    UnifyInt { value: i32 },
    Allocate { n: u8 },
    Deallocate,
    Call { label: LabelId },
    Execute { label: LabelId },
    Proceed,
    Try { label: LabelId },
    Retry { label: LabelId },
    Trust { label: LabelId },
    Cut,
    Fail,
    BWrite { ai: u8 },
    BNl,
    BIsAdd { dst: u8, a: u8, b: u8 },
    BIsSub { dst: u8, a: u8, b: u8 },
    BLt { a: u8, b: u8 },
    BGt { a: u8, b: u8 },
    Halt,
    Label(LabelId),
    AtomDir { id: AtomId, name: BoundedStr<NAME_CAP> },
}

/// An instruction with its labels and names as bytes.
pub enum InstrV {
    PutConst { ai: u8, atom: AtomId },
    PutInt { ai: u8, value: i32 },
    PutVar { ai: u8, xi: u8 },
    PutVal { ai: u8, xi: u8 },
    PutYVal { ai: u8, yi: u8 },
    GetVar { ai: u8, xi: u8 },
    GetVal { ai: u8, xi: u8 },
    GetYVar { ai: u8, yi: u8 },
    GetConst { ai: u8, atom: AtomId },
    GetInt { ai: u8, value: i32 },
    GetStruct { ai: u8, atom: AtomId, arity: u8 },
    UnifyVar { xi: u8 },
    UnifyVal { xi: u8 },
    UnifyConst { atom: AtomId },
    UnifyInt { value: i32 },
    Allocate { n: u8 },
    Deallocate,
    Call { label: Seq<u8> },
    Execute { label: Seq<u8> },
    Proceed,
    Try { label: Seq<u8> },
    Retry { label: Seq<u8> },
    Trust { label: Seq<u8> },
    Cut,
    Fail,
    BWrite { ai: u8 },
    BNl,
    BIsAdd { dst: u8, a: u8, b: u8 },
    BIsSub { dst: u8, a: u8, b: u8 },
    BLt { a: u8, b: u8 },
    BGt { a: u8, b: u8 },
    Halt,
    Label(Seq<u8>),
    AtomDir { id: AtomId, name: Seq<u8> },
}

impl View for Instr {
    type V = InstrV;

    open spec fn view(&self) -> InstrV {
        match *self {
            Instr::PutConst { ai, atom } => InstrV::PutConst { ai, atom },
            Instr::PutInt { ai, value } => InstrV::PutInt { ai, value },
            Instr::PutVar { ai, xi } => InstrV::PutVar { ai, xi },
            Instr::PutVal { ai, xi } => InstrV::PutVal { ai, xi },
            Instr::PutYVal { ai, yi } => InstrV::PutYVal { ai, yi },
            Instr::GetVar { ai, xi } => InstrV::GetVar { ai, xi },
            Instr::GetVal { ai, xi } => InstrV::GetVal { ai, xi },
            Instr::GetYVar { ai, yi } => InstrV::GetYVar { ai, yi },
            Instr::GetConst { ai, atom } => InstrV::GetConst { ai, atom },
            Instr::GetInt { ai, value } => InstrV::GetInt { ai, value },
            Instr::GetStruct { ai, atom, arity } => InstrV::GetStruct { ai, atom, arity },
            Instr::UnifyVar { xi } => InstrV::UnifyVar { xi },
            Instr::UnifyVal { xi } => InstrV::UnifyVal { xi },
            Instr::UnifyConst { atom } => InstrV::UnifyConst { atom },
            Instr::UnifyInt { value } => InstrV::UnifyInt { value },
            Instr::Allocate { n } => InstrV::Allocate { n },
            Instr::Deallocate => InstrV::Deallocate,
            Instr::Call { label } => InstrV::Call { label: label@ },
            Instr::Execute { label } => InstrV::Execute { label: label@ },
            Instr::Proceed => InstrV::Proceed,
            Instr::Try { label } => InstrV::Try { label: label@ },
            Instr::Retry { label } => InstrV::Retry { label: label@ },
            Instr::Trust { label } => InstrV::Trust { label: label@ },
            Instr::Cut => InstrV::Cut,
            Instr::Fail => InstrV::Fail,
            Instr::BWrite { ai } => InstrV::BWrite { ai },
            Instr::BNl => InstrV::BNl,
            Instr::BIsAdd { dst, a, b } => InstrV::BIsAdd { dst, a, b },
            Instr::BIsSub { dst, a, b } => InstrV::BIsSub { dst, a, b },
            Instr::BLt { a, b } => InstrV::BLt { a, b },
            Instr::BGt { a, b } => InstrV::BGt { a, b },
            Instr::Halt => InstrV::Halt,
            Instr::Label(l) => InstrV::Label(l@),
            Instr::AtomDir { id, name } => InstrV::AtomDir { id, name: name@ },
        }
    }
}

#[derive(Debug, Clone, Copy, PartialEq, Eq, Structural)]
pub enum CompileError {
    InstrOverflow,
    LabelOverflow,
    UnknownAtom,
    BadHead,
    BadGoal,
    NoQuery,
    MultipleQueries,
    BadSubterm,
    TooManyVars,
    TooManyXRegs,
    TooManyYRegs,
    QueryShape,
    HeadVarRepeat,
    StructArg,
    IntArg,
    EmptyBody,
}

/// The views of an instruction array.
pub open spec fn instr_views(a: BoundedArr<Instr, MAX_INSTR>) -> Seq<InstrV> {
    a@.map_values(|i: Instr| i@)
}

/// Appending one instruction.
pub open spec fn push_spec(out: Seq<InstrV>, i: InstrV) -> Result<Seq<InstrV>, CompileError> {
    if out.len() >= MAX_INSTR {
        Err(CompileError::InstrOverflow)
    } else {
        Ok(out.push(i))
    }
}

fn push_i(out: &mut BoundedArr<Instr, MAX_INSTR>, i: Instr) -> (r: Result<(), CompileError>)
    ensures
        match push_spec(instr_views(*old(out)), i@) {
            Ok(o) => r is Ok && instr_views(*final(out)) == o,
            Err(e) => r == Err::<(), CompileError>(e) && instr_views(*final(out)) == instr_views(*old(out)),
        },
{
    let ghost before = instr_views(*out);
    match out.push(i) {
        Ok(()) => {
            proof {
                assert(instr_views(*out) =~= before.push(i@));
            }
            Ok(())
        },
        Err(_) => Err(CompileError::InstrOverflow),
    }
}

/// The concatenation of `parts` as a label, when it fits.
pub open spec fn label_spec(parts: Seq<Seq<u8>>) -> Result<Seq<u8>, CompileError> {
    let s = parts.fold_left(Seq::<u8>::empty(), |acc: Seq<u8>, p: Seq<u8>| acc + p);
    if s.len() > LABEL_CAP {
        Err(CompileError::LabelOverflow)
    } else {
        Ok(s)
    }
}

/// The bytes of each part.
pub open spec fn parts_bytes(parts: Seq<&str>) -> Seq<Seq<u8>> {
    parts.map_values(|p: &str| p.spec_bytes())
}

/// The concatenation of string bytes is valid UTF-8.
proof fn lemma_concat_valid(parts: Seq<&str>, n: int)
    requires
        0 <= n <= parts.len(),
    ensures
        valid_utf8(parts_bytes(parts).subrange(0, n).fold_left(Seq::<u8>::empty(), |acc: Seq<u8>, p: Seq<u8>| acc + p)),
    decreases n,
{
    let pb = parts_bytes(parts);
    if n == 0 {
        assert(pb.subrange(0, 0) =~= Seq::<Seq<u8>>::empty());
        assert(valid_utf8(Seq::<u8>::empty()));
    } else {
        lemma_concat_valid(parts, n - 1);
        let sub = pb.subrange(0, n);
        assert(sub.drop_last() =~= pb.subrange(0, n - 1));
        let a = pb.subrange(0, n - 1).fold_left(Seq::<u8>::empty(), |acc: Seq<u8>, p: Seq<u8>| acc + p);
        encode_utf8_valid_utf8(parts[n - 1]@);
        valid_utf8_concat(a, sub.last());
    }
}

/// Concatenates `parts` into a label of at most `LABEL_CAP` bytes.
pub fn build_label(parts: &[&str]) -> (r: Result<LabelId, CompileError>)
    ensures
        match label_spec(parts_bytes(parts@)) {
            Ok(s) => r is Ok && r->Ok_0@ == s,
            Err(e) => r == Err::<LabelId, CompileError>(e),
        },
{
    let ghost pb = parts_bytes(parts@);
    let mut buf: Vec<u8> = Vec::new();
    let mut i: usize = 0;
    while i < parts.len()
        invariant
            i <= parts@.len(),
            pb == parts_bytes(parts@),
            buf@ == pb.subrange(0, i as int).fold_left(Seq::<u8>::empty(), |acc: Seq<u8>, p: Seq<u8>| acc + p),
            buf@.len() <= LABEL_CAP,
        decreases parts@.len() - i,
    {
        let b = parts[i].as_bytes();
        proof {
            let sub = pb.subrange(0, i + 1);
            assert(sub.drop_last() =~= pb.subrange(0, i as int));
            assert(sub.last() == b@);
        }
        if b.len() > LABEL_CAP - buf.len() {
            proof {
                lemma_fold_len_grows(pb, i as int);
            }
            return Err(CompileError::LabelOverflow);
        }
        let mut j: usize = 0;
        let ghost b0 = buf@;
        while j < b.len()
            invariant
                j <= b@.len(),
                buf@ == b0 + b@.subrange(0, j as int),
                b0.len() + b@.len() <= LABEL_CAP,
            decreases b@.len() - j,
        {
            buf.push(b[j]);
            j = j + 1;
            proof {
                assert(b@.subrange(0, j as int) =~= b@.subrange(0, j - 1).push(b@[j - 1]));
            }
        }
        proof {
            assert(b@.subrange(0, b@.len() as int) =~= b@);
        }
        i = i + 1;
    }
    proof {
        assert(pb.subrange(0, pb.len() as int) =~= pb);
        lemma_concat_valid(parts@, parts@.len() as int);
        assert(buf@.subrange(0, buf@.len() as int) =~= buf@);
    }
    match BoundedStr::<LABEL_CAP>::from_bytes(buf.as_slice(), 0, buf.len()) {
        Ok(s) => Ok(s),
        Err(_) => Err(CompileError::LabelOverflow),
    }
}

/// A concatenation only grows as parts are added.
proof fn lemma_fold_len_grows(pb: Seq<Seq<u8>>, i: int)
    requires
        0 <= i < pb.len(),
    ensures
        pb.fold_left(Seq::<u8>::empty(), |acc: Seq<u8>, p: Seq<u8>| acc + p).len()
            >= pb.subrange(0, i).fold_left(Seq::<u8>::empty(), |acc: Seq<u8>, p: Seq<u8>| acc + p).len()
                + pb[i].len(),
    decreases pb.len() - i,
{
    if i == pb.len() - 1 {
        assert(pb.drop_last() =~= pb.subrange(0, i));
    } else {
        lemma_fold_len_grows(pb.drop_last(), i);
        assert(pb.drop_last().subrange(0, i) =~= pb.subrange(0, i));
    }
}

/// Writes the decimal digits of `n` into `buf` and gives them back as
/// a string.
pub fn u8_to_decimal(n: u8, buf: &mut [u8; 4]) -> (r: &str)
    ensures
        r.spec_bytes() == decimal(n as nat),
{
    let len: usize;
    if n < 10 {
        buf[0] = 48 + n;
        len = 1;
    } else if n < 100 {
        buf[0] = 48 + n / 10;
        buf[1] = 48 + n % 10;
        len = 2;
    } else {
        buf[0] = 48 + n / 100;
        buf[1] = 48 + (n / 10) % 10;
        buf[2] = 48 + n % 10;
        len = 3;
    }
    proof {
        reveal_with_fuel(decimal, 3);
        let d = buf@.subrange(0, len as int);
        assert(d =~= decimal(n as nat));
        assert(ascii_bytes(d));
        lemma_ascii_valid_utf8(d);
    }
    str_of_utf8(&buf.as_slice()[0..len]).unwrap()
}

pub open spec fn entry_label(pname: Seq<u8>) -> Result<Seq<u8>, CompileError> {
    label_spec(seq![pname, "_entry".spec_bytes()])
}

pub open spec fn clause_label(pname: Seq<u8>, k: u8) -> Result<Seq<u8>, CompileError> {
    label_spec(seq![pname, "_c".spec_bytes(), decimal(k as nat)])
}

pub open spec fn body_label(pname: Seq<u8>, k: u8) -> Result<Seq<u8>, CompileError> {
    label_spec(seq![pname, "_c".spec_bytes(), decimal(k as nat), "_body".spec_bytes()])
}

pub open spec fn neg_label(pname: Seq<u8>, cidx: u8, k: u8) -> Result<Seq<u8>, CompileError> {
    label_spec(seq![pname, "_c".spec_bytes(), decimal(cidx as nat), "_neg".spec_bytes(), decimal(k as nat)])
}

pub open spec fn query_label() -> Result<Seq<u8>, CompileError> {
    label_spec(seq!["query".spec_bytes()])
}

fn lbl_query() -> (r: Result<LabelId, CompileError>)
    ensures
        match query_label() {
            Ok(s) => r is Ok && r->Ok_0@ == s,
            Err(e) => r == Err::<LabelId, CompileError>(e),
        },
{
    let parts: [&str; 1] = ["query"];
    proof {
        assert(parts_bytes(parts@) =~= seq!["query".spec_bytes()]);
    }
    build_label(&parts)
}

fn lbl_entry(pname: &BoundedStr<NAME_CAP>) -> (r: Result<LabelId, CompileError>)
    ensures
        match entry_label(pname@) {
            Ok(s) => r is Ok && r->Ok_0@ == s,
            Err(e) => r == Err::<LabelId, CompileError>(e),
        },
{
    let parts: [&str; 2] = [pname.as_str(), "_entry"];
    proof {
        assert(parts_bytes(parts@) =~= seq![pname@, "_entry".spec_bytes()]);
    }
    build_label(&parts)
}

fn lbl_clause(pname: &BoundedStr<NAME_CAP>, k: u8) -> (r: Result<LabelId, CompileError>)
    ensures
        match clause_label(pname@, k) {
            Ok(s) => r is Ok && r->Ok_0@ == s,
            Err(e) => r == Err::<LabelId, CompileError>(e),
        },
{
    let mut dbuf = [0u8; 4];
    let ks = u8_to_decimal(k, &mut dbuf);
    let parts: [&str; 3] = [pname.as_str(), "_c", ks];
    proof {
        assert(parts_bytes(parts@) =~= seq![pname@, "_c".spec_bytes(), decimal(k as nat)]);
    }
    build_label(&parts)
}

fn lbl_clause_body(pname: &BoundedStr<NAME_CAP>, k: u8) -> (r: Result<LabelId, CompileError>)
    ensures
        match body_label(pname@, k) {
            Ok(s) => r is Ok && r->Ok_0@ == s,
            Err(e) => r == Err::<LabelId, CompileError>(e),
        },
{
    let mut dbuf = [0u8; 4];
    let ks = u8_to_decimal(k, &mut dbuf);
    let parts: [&str; 4] = [pname.as_str(), "_c", ks, "_body"];
    proof {
        assert(parts_bytes(parts@) =~= seq![pname@, "_c".spec_bytes(), decimal(k as nat), "_body".spec_bytes()]);
    }
    build_label(&parts)
}

#[derive(Clone, Copy, Debug, PartialEq, Eq, Structural)]
pub enum Class {
    Unused,
    Temp,
    Perm,
}

#[derive(Clone, Copy, Debug, PartialEq, Eq, Structural)]
pub enum VarRole {
    Unused,
    Temp { xi: u8, seen: bool },
    Perm { yi: u8, seen: bool },
}

/// Register assignment of one clause, as values.
pub struct RmV {
    pub roles: Seq<VarRole>,
    pub n_temp: u8,
    pub n_perm: u8,
    pub pname: Seq<u8>,
    pub clause_idx: u8,
    pub neg_ix: u8,
}

struct RegMap {
    roles: [VarRole; MAX_CLAUSE_VARS],
    n_temp: u8,
    n_perm: u8,
    pname: BoundedStr<NAME_CAP>,
    clause_idx: u8,
    neg_ix: u8,
}

impl View for RegMap {
    type V = RmV;

    closed spec fn view(&self) -> RmV {
        RmV {
            roles: self.roles@,
            n_temp: self.n_temp,
            n_perm: self.n_perm,
            pname: self.pname@,
            clause_idx: self.clause_idx,
            neg_ix: self.neg_ix,
        }
    }
}

/// The register map before any variable is seen.
pub open spec fn empty_rm() -> RmV {
    RmV {
        roles: Seq::new(MAX_CLAUSE_VARS as nat, |i: int| VarRole::Unused),
        n_temp: 0,
        n_perm: 0,
        pname: Seq::empty(),
        clause_idx: 0,
        neg_ix: 0,
    }
}

/// The role of `slot`, if it is a slot.
pub open spec fn role_of(rm: RmV, slot: VarSlot) -> Option<VarRole> {
    if (slot as int) < rm.roles.len() {
        Some(rm.roles[slot as int])
    } else {
        None
    }
}

pub open spec fn mark_seen_spec(rm: RmV, slot: VarSlot) -> RmV {
    RmV {
        roles: rm.roles.update(
            slot as int,
            match rm.roles[slot as int] {
                VarRole::Temp { xi, .. } => VarRole::Temp { xi, seen: true },
                VarRole::Perm { yi, .. } => VarRole::Perm { yi, seen: true },
                VarRole::Unused => VarRole::Unused,
            },
        ),
        ..rm
    }
}

pub type Emit = Result<(Seq<InstrV>, RmV), CompileError>;

/// Appending one instruction, the register map unchanged.
pub open spec fn emit1(out: Seq<InstrV>, rm: RmV, i: InstrV) -> Emit {
    match push_spec(out, i) {
        Ok(o) => Ok((o, rm)),
        Err(e) => Err(e),
    }
}

/// Marks `slot` seen after a successful emission.
pub open spec fn then_mark(r: Emit, slot: VarSlot) -> Emit {
    match r {
        Ok((o, m)) => Ok((o, mark_seen_spec(m, slot))),
        Err(e) => Err(e),
    }
}

pub open spec fn emits(r: Result<(), CompileError>, out: Seq<InstrV>, rm: RmV, s: Emit) -> bool {
    match s {
        Ok((o, m)) => r is Ok && out == o && rm == m,
        Err(e) => r == Err::<(), CompileError>(e),
    }
}

pub open spec fn sub_of(c: ClauseV, ti: TermIdx) -> Option<TermV> {
    if (ti as int) < c.subterms.len() {
        Some(c.subterms[ti as int])
    } else {
        None
    }
}

pub open spec fn name_of(atoms: Seq<Seq<u8>>, id: AtomId) -> Option<Seq<u8>> {
    if (id as int) < atoms.len() {
        Some(atoms[id as int])
    } else {
        None
    }
}

/// The id of the atom named `s`.
pub open spec fn find_atom(atoms: Seq<Seq<u8>>, s: Seq<u8>) -> Option<AtomId> {
    match find_from(atoms, s, 0) {
        Some(i) => Some(i as AtomId),
        None => None,
    }
}

pub open spec fn sb(s: &str) -> Seq<u8> {
    s.spec_bytes()
}

/// `goal` compiles to VM instructions rather than a call.
pub open spec fn is_inline_spec(goal: TermV, atoms: Seq<Seq<u8>>) -> bool {
    match goal {
        TermV::Atom(id) => match name_of(atoms, id) {
            Some(n) => n == sb("nl") || n == sb("fail") || n == sb("!"),
            None => false,
        },
        TermV::Struct { functor, args } => match name_of(atoms, functor) {
            Some(n) => ((n == sb("write") || n == sb("\\+")) && args.len() == 1) || ((n == sb("is")
                || n == sb("<") || n == sb(">") || n == sb("=")) && args.len() == 2),
            None => false,
        },
        _ => false,
    }
}

pub open spec fn put_var_spec(out: Seq<InstrV>, rm: RmV, ai: u8, slot: VarSlot) -> Emit {
    match role_of(rm, slot) {
        None => Err(CompileError::TooManyVars),
        Some(VarRole::Unused) => Err(CompileError::TooManyVars),
        Some(VarRole::Temp { xi, seen }) => if !seen {
            then_mark(emit1(out, rm, InstrV::PutVar { ai, xi }), slot)
        } else {
            emit1(out, rm, InstrV::PutVal { ai, xi })
        },
        Some(VarRole::Perm { yi, seen }) => if !seen {
            if rm.n_temp >= REG_CAP {
                Err(CompileError::TooManyXRegs)
            } else {
                match emit1(out, rm, InstrV::PutVar { ai, xi: rm.n_temp }) {
                    Err(e) => Err(e),
                    Ok((o, m)) => then_mark(emit1(o, m, InstrV::GetYVar { ai, yi }), slot),
                }
            }
        } else {
            emit1(out, rm, InstrV::PutYVal { ai, yi })
        },
    }
}

pub open spec fn unify_var_spec(out: Seq<InstrV>, rm: RmV, slot: VarSlot) -> Emit {
    match role_of(rm, slot) {
        None => Err(CompileError::TooManyVars),
        Some(VarRole::Unused) => Err(CompileError::TooManyVars),
        Some(VarRole::Temp { xi, seen }) => if !seen {
            then_mark(emit1(out, rm, InstrV::UnifyVar { xi }), slot)
        } else {
            emit1(out, rm, InstrV::UnifyVal { xi })
        },
        Some(VarRole::Perm { .. }) => Err(CompileError::StructArg),
    }
}

pub open spec fn head_var_spec(out: Seq<InstrV>, rm: RmV, ai: u8, slot: VarSlot) -> Emit {
    match role_of(rm, slot) {
        None => Err(CompileError::TooManyVars),
        Some(VarRole::Unused) => Err(CompileError::TooManyVars),
        Some(VarRole::Temp { xi, seen }) => if !seen {
            then_mark(emit1(out, rm, InstrV::GetVar { ai, xi }), slot)
        } else {
            emit1(out, rm, InstrV::GetVal { ai, xi })
        },
        Some(VarRole::Perm { yi, seen }) => if !seen {
            then_mark(emit1(out, rm, InstrV::GetYVar { ai, yi }), slot)
        } else {
            Err(CompileError::HeadVarRepeat)
        },
    }
}

pub open spec fn eval_leaf_spec(out: Seq<InstrV>, rm: RmV, ai: u8, t: TermV) -> Emit {
    match t {
        TermV::Int(n) => emit1(out, rm, InstrV::PutInt { ai, value: n }),
        TermV::Var(slot) => put_var_spec(out, rm, ai, slot),
        _ => Err(CompileError::BadGoal),
    }
}

pub open spec fn bind_a0_spec(out: Seq<InstrV>, rm: RmV, lhs: TermV) -> Emit {
    match lhs {
        TermV::Int(n) => emit1(out, rm, InstrV::GetInt { ai: 0, value: n }),
        TermV::Var(slot) => head_var_spec(out, rm, 0, slot),
        _ => Err(CompileError::BadGoal),
    }
}

pub open spec fn eval_expr_spec(out: Seq<InstrV>, rm: RmV, c: ClauseV, atoms: Seq<Seq<u8>>, e: TermV) -> Emit {
    match e {
        TermV::Int(n) => emit1(out, rm, InstrV::PutInt { ai: 0, value: n }),
        TermV::Var(slot) => put_var_spec(out, rm, 0, slot),
        TermV::Struct { functor, args } => if args.len() != 2 {
            Err(CompileError::BadGoal)
        } else {
            match name_of(atoms, functor) {
                None => Err(CompileError::UnknownAtom),
                Some(n) => if n != sb("+") && n != sb("-") {
                    Err(CompileError::BadGoal)
                } else {
                    match (sub_of(c, args[0]), sub_of(c, args[1])) {
                        (Some(a), Some(b)) => match eval_leaf_spec(out, rm, 1, a) {
                            Err(e) => Err(e),
                            Ok((o1, m1)) => match eval_leaf_spec(o1, m1, 2, b) {
                                Err(e) => Err(e),
                                Ok((o2, m2)) => emit1(
                                    o2,
                                    m2,
                                    if n == sb("+") {
                                        InstrV::BIsAdd { dst: 0, a: 1, b: 2 }
                                    } else {
                                        InstrV::BIsSub { dst: 0, a: 1, b: 2 }
                                    },
                                ),
                            },
                        },
                        _ => Err(CompileError::BadSubterm),
                    }
                },
            }
        },
        _ => Err(CompileError::BadGoal),
    }
}

/// Both arguments of a two-argument builtin.
pub open spec fn two_subs(c: ClauseV, args: Seq<TermIdx>) -> Option<(TermV, TermV)> {
    match (sub_of(c, args[0]), sub_of(c, args[1])) {
        (Some(a), Some(b)) => Some((a, b)),
        _ => None,
    }
}

pub open spec fn is_spec(out: Seq<InstrV>, rm: RmV, c: ClauseV, atoms: Seq<Seq<u8>>, args: Seq<TermIdx>) -> Emit {
    match two_subs(c, args) {
        None => Err(CompileError::BadSubterm),
        Some((lhs, rhs)) => match eval_expr_spec(out, rm, c, atoms, rhs) {
            Err(e) => Err(e),
            Ok((o, m)) => bind_a0_spec(o, m, lhs),
        },
    }
}

pub open spec fn order_test_spec(out: Seq<InstrV>, rm: RmV, c: ClauseV, args: Seq<TermIdx>, lt: bool) -> Emit {
    match two_subs(c, args) {
        None => Err(CompileError::BadSubterm),
        Some((a, b)) => match eval_leaf_spec(out, rm, 0, a) {
            Err(e) => Err(e),
            Ok((o1, m1)) => match eval_leaf_spec(o1, m1, 1, b) {
                Err(e) => Err(e),
                Ok((o2, m2)) => emit1(o2, m2, if lt { InstrV::BLt { a: 0, b: 1 } } else { InstrV::BGt { a: 0, b: 1 } }),
            },
        },
    }
}

pub open spec fn list_element_spec(out: Seq<InstrV>, rm: RmV, atoms: Seq<Seq<u8>>, t: TermV) -> Emit {
    match t {
        TermV::Atom(id) => emit1(out, rm, InstrV::UnifyConst { atom: id }),
        TermV::Nil => match find_atom(atoms, sb("[]")) {
            None => Err(CompileError::UnknownAtom),
            Some(nil) => emit1(out, rm, InstrV::UnifyConst { atom: nil }),
        },
        TermV::Var(slot) => unify_var_spec(out, rm, slot),
        TermV::Int(_) => Err(CompileError::IntArg),
        TermV::Struct { .. } => Err(CompileError::StructArg),
    }
}

/// The cons cells of a list argument after the first, written with
/// `GET_STRUCT` on `ai`, threading the cursor register.
pub open spec fn spine_spec(
    out: Seq<InstrV>,
    rm: RmV,
    c: ClauseV,
    atoms: Seq<Seq<u8>>,
    ai: u8,
    hti: TermIdx,
    tti: TermIdx,
    cursor: u8,
    dot: AtomId,
    nil: AtomId,
) -> Emit
    decreases MAX_INSTR - out.len(),
{
    match emit1(out, rm, InstrV::GetStruct { ai, atom: dot, arity: 2 }) {
        Err(e) => Err(e),
        Ok((o1, m1)) => match (sub_of(c, hti), sub_of(c, tti)) {
            (Some(head), Some(tail)) => match list_element_spec(o1, m1, atoms, head) {
                Err(e) => Err(e),
                Ok((o2, m2)) => match tail {
                    TermV::Nil => emit1(o2, m2, InstrV::UnifyConst { atom: nil }),
                    TermV::Struct { functor, args } => if functor == dot && args.len() == 2 {
                        match emit1(o2, m2, InstrV::UnifyVar { xi: cursor }) {
                            Err(e) => Err(e),
                            Ok((o3, m3)) => match emit1(o3, m3, InstrV::PutVal { ai, xi: cursor }) {
                                Err(e) => Err(e),
                                Ok((o4, m4)) => if out.len() < o4.len() <= MAX_INSTR {
                                    spine_spec(o4, m4, c, atoms, ai, args[0], args[1], cursor, dot, nil)
                                } else {
                                    Err(CompileError::StructArg)
                                },
                            },
                        }
                    } else {
                        Err(CompileError::StructArg)
                    },
                    _ => Err(CompileError::StructArg),
                },
            },
            _ => Err(CompileError::BadSubterm),
        },
    }
}

pub open spec fn build_list_spec(
    out: Seq<InstrV>,
    rm: RmV,
    c: ClauseV,
    atoms: Seq<Seq<u8>>,
    ai: u8,
    functor: AtomId,
    args: Seq<TermIdx>,
) -> Emit {
    match (find_atom(atoms, sb(".")), find_atom(atoms, sb("[]"))) {
        (Some(dot), Some(nil)) => if functor != dot || args.len() != 2 {
            Err(CompileError::StructArg)
        } else if rm.n_temp + 1 >= REG_CAP {
            Err(CompileError::TooManyXRegs)
        } else {
            match emit1(out, rm, InstrV::PutVar { ai, xi: rm.n_temp }) {
                Err(e) => Err(e),
                Ok((o1, m1)) => match spine_spec(o1, m1, c, atoms, ai, args[0], args[1], (rm.n_temp + 1) as u8, dot, nil) {
                    Err(e) => Err(e),
                    Ok((o2, m2)) => emit1(o2, m2, InstrV::PutVal { ai, xi: rm.n_temp }),
                },
            }
        },
        _ => Err(CompileError::UnknownAtom),
    }
}

pub open spec fn put_arg_spec(out: Seq<InstrV>, rm: RmV, c: ClauseV, atoms: Seq<Seq<u8>>, ai: u8, arg: TermV) -> Emit {
    match arg {
        TermV::Atom(id) => emit1(out, rm, InstrV::PutConst { ai, atom: id }),
        TermV::Nil => match find_atom(atoms, sb("[]")) {
            None => Err(CompileError::UnknownAtom),
            Some(nil) => emit1(out, rm, InstrV::PutConst { ai, atom: nil }),
        },
        TermV::Var(slot) => put_var_spec(out, rm, ai, slot),
        TermV::Int(n) => emit1(out, rm, InstrV::PutInt { ai, value: n }),
        TermV::Struct { functor, args } => build_list_spec(out, rm, c, atoms, ai, functor, args),
    }
}

pub open spec fn put_args_spec(out: Seq<InstrV>, rm: RmV, c: ClauseV, atoms: Seq<Seq<u8>>, args: Seq<TermIdx>, i: nat) -> Emit
    decreases args.len() - i,
{
    if i >= args.len() {
        Ok((out, rm))
    } else {
        match sub_of(c, args[i as int]) {
            None => Err(CompileError::BadSubterm),
            Some(t) => match put_arg_spec(out, rm, c, atoms, i as u8, t) {
                Err(e) => Err(e),
                Ok((o, m)) => put_args_spec(o, m, c, atoms, args, i + 1),
            },
        }
    }
}

pub open spec fn eq_spec(out: Seq<InstrV>, rm: RmV, c: ClauseV, atoms: Seq<Seq<u8>>, args: Seq<TermIdx>) -> Emit {
    match two_subs(c, args) {
        None => Err(CompileError::BadSubterm),
        Some((l, r)) => match put_arg_spec(out, rm, c, atoms, 0, l) {
            Err(e) => Err(e),
            Ok((o1, m1)) => if m1.n_temp >= REG_CAP {
                Err(CompileError::TooManyXRegs)
            } else {
                match emit1(o1, m1, InstrV::GetVar { ai: 0, xi: m1.n_temp }) {
                    Err(e) => Err(e),
                    Ok((o2, m2)) => match put_arg_spec(o2, m2, c, atoms, 1, r) {
                        Err(e) => Err(e),
                        Ok((o3, m3)) => emit1(o3, m3, InstrV::GetVal { ai: 1, xi: m1.n_temp }),
                    },
                }
            },
        },
    }
}

/// The entry label of the predicate that `goal` calls, after its
/// arguments are put.
pub open spec fn call_target_spec(out: Seq<InstrV>, rm: RmV, c: ClauseV, atoms: Seq<Seq<u8>>, goal: TermV) -> Result<(Seq<InstrV>, RmV, Seq<u8>), CompileError> {
    let pre: Result<(Seq<InstrV>, RmV, AtomId), CompileError> = match goal {
        TermV::Atom(id) => Ok((out, rm, id)),
        TermV::Struct { functor, args } => match put_args_spec(out, rm, c, atoms, args, 0) {
            Err(e) => Err(e),
            Ok((o, m)) => Ok((o, m, functor)),
        },
        _ => Err(CompileError::BadGoal),
    };
    match pre {
        Err(e) => Err(e),
        Ok((o, m, fid)) => match name_of(atoms, fid) {
            None => Err(CompileError::UnknownAtom),
            Some(pname) => match entry_label(pname) {
                Err(e) => Err(e),
                Ok(l) => Ok((o, m, l)),
            },
        },
    }
}

/// An inline builtin goal; `fuel` bounds nested negations.
pub open spec fn inline_spec(out: Seq<InstrV>, rm: RmV, c: ClauseV, atoms: Seq<Seq<u8>>, goal: TermV, fuel: nat) -> Emit
    decreases fuel, 2nat,
{
    match goal {
        TermV::Atom(id) => match name_of(atoms, id) {
            None => Err(CompileError::UnknownAtom),
            Some(n) => if n == sb("nl") {
                emit1(out, rm, InstrV::BNl)
            } else if n == sb("fail") {
                emit1(out, rm, InstrV::Fail)
            } else if n == sb("!") {
                emit1(out, rm, InstrV::Cut)
            } else {
                Err(CompileError::BadGoal)
            },
        },
        TermV::Struct { functor, args } => match name_of(atoms, functor) {
            None => Err(CompileError::UnknownAtom),
            Some(n) => if n == sb("write") && args.len() == 1 {
                match sub_of(c, args[0]) {
                    None => Err(CompileError::BadSubterm),
                    Some(a) => match put_arg_spec(out, rm, c, atoms, 0, a) {
                        Err(e) => Err(e),
                        Ok((o, m)) => emit1(o, m, InstrV::BWrite { ai: 0 }),
                    },
                }
            } else if n == sb("is") && args.len() == 2 {
                is_spec(out, rm, c, atoms, args)
            } else if n == sb("<") && args.len() == 2 {
                order_test_spec(out, rm, c, args, true)
            } else if n == sb(">") && args.len() == 2 {
                order_test_spec(out, rm, c, args, false)
            } else if n == sb("=") && args.len() == 2 {
                eq_spec(out, rm, c, atoms, args)
            } else if n == sb("\\+") && args.len() == 1 {
                negation_spec(out, rm, c, atoms, args, fuel)
            } else {
                Err(CompileError::BadGoal)
            },
        },
        _ => Err(CompileError::BadGoal),
    }
}

/// `\+ G`: try G, and on success cut back and fail; else go on.
pub open spec fn negation_spec(out: Seq<InstrV>, rm: RmV, c: ClauseV, atoms: Seq<Seq<u8>>, args: Seq<TermIdx>, fuel: nat) -> Emit
    decreases fuel, 1nat,
{
    let k = rm.neg_ix;
    let m0 = RmV { neg_ix: if k < 255 { (k + 1) as u8 } else { 255 }, ..rm };
    match neg_label(rm.pname, rm.clause_idx, k) {
        Err(e) => Err(e),
        Ok(l) => match sub_of(c, args[0]) {
            None => Err(CompileError::BadSubterm),
            Some(g) => neg_body_spec(out, m0, c, atoms, l, g, fuel),
        },
    }
}

/// `TRY alt`, the negated goal, then the tail.
pub open spec fn neg_body_spec(out: Seq<InstrV>, rm: RmV, c: ClauseV, atoms: Seq<Seq<u8>>, l: Seq<u8>, g: TermV, fuel: nat) -> Emit
    decreases fuel, 0nat,
{
    if fuel == 0 {
        Err(CompileError::BadSubterm)
    } else {
        match emit1(out, rm, InstrV::Try { label: l }) {
            Err(e) => Err(e),
            Ok((o1, m1)) => match neg_inner_spec(o1, m1, c, atoms, g, (fuel - 1) as nat) {
                Err(e) => Err(e),
                Ok((o2, m2)) => neg_tail_spec(o2, m2, l),
            },
        }
    }
}

/// After the negated goal: `TRUST`, `FAIL`, the alternative label and
/// its `TRUST`.
pub open spec fn neg_tail_spec(out: Seq<InstrV>, rm: RmV, l: Seq<u8>) -> Emit {
    match emit1(out, rm, InstrV::Trust { label: l }) {
        Err(e) => Err(e),
        Ok((o3, m3)) => match emit1(o3, m3, InstrV::Fail) {
            Err(e) => Err(e),
            Ok((o4, m4)) => match emit1(o4, m4, InstrV::Label(l)) {
                Err(e) => Err(e),
                Ok((o5, m5)) => emit1(o5, m5, InstrV::Trust { label: l }),
            },
        },
    }
}

/// The goal under `\+`: a builtin inline, else a call.
pub open spec fn neg_inner_spec(out: Seq<InstrV>, rm: RmV, c: ClauseV, atoms: Seq<Seq<u8>>, goal: TermV, fuel: nat) -> Emit
    decreases fuel, 3nat,
{
    if is_inline_spec(goal, atoms) {
        inline_spec(out, rm, c, atoms, goal, fuel)
    } else {
        match call_target_spec(out, rm, c, atoms, goal) {
            Err(e) => Err(e),
            Ok((o, m, l)) => emit1(o, m, InstrV::Call { label: l }),
        }
    }
}

/// `DEALLOCATE` when the clause has an environment, then `last`.
pub open spec fn ret_spec(out: Seq<InstrV>, rm: RmV, last: InstrV) -> Emit {
    if rm.n_perm > 0 {
        match emit1(out, rm, InstrV::Deallocate) {
            Err(e) => Err(e),
            Ok((o2, m2)) => emit1(o2, m2, last),
        }
    } else {
        emit1(out, rm, last)
    }
}

pub open spec fn inline_goal_spec(out: Seq<InstrV>, rm: RmV, c: ClauseV, atoms: Seq<Seq<u8>>, goal: TermV, is_last: bool, fuel: nat) -> Emit {
    match inline_spec(out, rm, c, atoms, goal, fuel) {
        Err(e) => Err(e),
        Ok((o, m)) => if is_last {
            ret_spec(o, m, InstrV::Proceed)
        } else {
            Ok((o, m))
        },
    }
}

pub open spec fn call_goal_spec(out: Seq<InstrV>, rm: RmV, c: ClauseV, atoms: Seq<Seq<u8>>, goal: TermV, is_last: bool) -> Emit {
    match call_target_spec(out, rm, c, atoms, goal) {
        Err(e) => Err(e),
        Ok((o, m, l)) => if is_last {
            ret_spec(o, m, InstrV::Execute { label: l })
        } else {
            emit1(o, m, InstrV::Call { label: l })
        },
    }
}

/// One body goal; the last one returns (`PROCEED` / `EXECUTE`).
pub open spec fn goal_spec(out: Seq<InstrV>, rm: RmV, c: ClauseV, atoms: Seq<Seq<u8>>, goal: TermV, is_last: bool, fuel: nat) -> Emit {
    if is_inline_spec(goal, atoms) {
        inline_goal_spec(out, rm, c, atoms, goal, is_last, fuel)
    } else {
        call_goal_spec(out, rm, c, atoms, goal, is_last)
    }
}

pub open spec fn body_goals_spec(out: Seq<InstrV>, rm: RmV, c: ClauseV, atoms: Seq<Seq<u8>>, i: nat, fuel: nat) -> Emit
    decreases c.body.len() - i,
{
    if i >= c.body.len() {
        Ok((out, rm))
    } else {
        match goal_spec(out, rm, c, atoms, c.body[i as int], i + 1 == c.body.len(), fuel) {
            Err(e) => Err(e),
            Ok((o, m)) => body_goals_spec(o, m, c, atoms, i + 1, fuel),
        }
    }
}

pub open spec fn unify_term_spec(out: Seq<InstrV>, rm: RmV, t: TermV) -> Emit {
    match t {
        TermV::Var(slot) => unify_var_spec(out, rm, slot),
        TermV::Int(_) => Err(CompileError::IntArg),
        _ => Err(CompileError::StructArg),
    }
}

pub open spec fn unify_args_spec(out: Seq<InstrV>, rm: RmV, c: ClauseV, args: Seq<TermIdx>, i: nat) -> Emit
    decreases args.len() - i,
{
    if i >= args.len() {
        Ok((out, rm))
    } else {
        match sub_of(c, args[i as int]) {
            None => Err(CompileError::BadSubterm),
            Some(t) => match unify_term_spec(out, rm, t) {
                Err(e) => Err(e),
                Ok((o, m)) => unify_args_spec(o, m, c, args, i + 1),
            },
        }
    }
}

pub open spec fn head_arg_spec(out: Seq<InstrV>, rm: RmV, c: ClauseV, atoms: Seq<Seq<u8>>, ai: u8, arg: TermV) -> Emit {
    match arg {
        TermV::Atom(id) => emit1(out, rm, InstrV::GetConst { ai, atom: id }),
        TermV::Nil => match find_atom(atoms, sb("[]")) {
            None => Err(CompileError::UnknownAtom),
            Some(nil) => emit1(out, rm, InstrV::GetConst { ai, atom: nil }),
        },
        TermV::Var(slot) => head_var_spec(out, rm, ai, slot),
        TermV::Int(n) => emit1(out, rm, InstrV::GetInt { ai, value: n }),
        TermV::Struct { functor, args } => match emit1(out, rm, InstrV::GetStruct { ai, atom: functor, arity: args.len() as u8 }) {
            Err(e) => Err(e),
            Ok((o, m)) => unify_args_spec(o, m, c, args, 0),
        },
    }
}

pub open spec fn head_args_spec(out: Seq<InstrV>, rm: RmV, c: ClauseV, atoms: Seq<Seq<u8>>, args: Seq<TermIdx>, i: nat) -> Emit
    decreases args.len() - i,
{
    if i >= args.len() {
        Ok((out, rm))
    } else {
        match sub_of(c, args[i as int]) {
            None => Err(CompileError::BadSubterm),
            Some(t) => match head_arg_spec(out, rm, c, atoms, i as u8, t) {
                Err(e) => Err(e),
                Ok((o, m)) => head_args_spec(o, m, c, atoms, args, i + 1),
            },
        }
    }
}

pub open spec fn head_spec(out: Seq<InstrV>, rm: RmV, c: ClauseV, atoms: Seq<Seq<u8>>) -> Emit {
    match c.head {
        TermV::Atom(_) => Ok((out, rm)),
        TermV::Struct { args, .. } => head_args_spec(out, rm, c, atoms, args, 0),
        _ => Err(CompileError::BadHead),
    }
}

/// The depth budget for walking the terms of `c`.
pub open spec fn fuel_of(c: ClauseV) -> nat {
    c.subterms.len() + 1
}

/// The number of chunk boundaries before goal `i`: every non-final goal
/// ends a chunk, so chunk 0 is the head with the first goal and goal
/// `k >= 1` is chunk `k`.
pub open spec fn chunks_before(c: ClauseV, i: nat) -> nat
    decreases i,
{
    if i == 0 {
        0
    } else {
        let j = (i - 1) as nat;
        chunks_before(c, j) + if j + 1 != c.body.len() {
            1nat
        } else {
            0nat
        }
    }
}

pub open spec fn no_hits() -> Seq<Seq<bool>> {
    Seq::new(MAX_CLAUSE_VARS as nat, |i: int| Seq::new(MAX_BODY as nat, |j: int| false))
}

/// Marks each variable of `t` as occurring in `chunk`.
pub open spec fn mark_vars_spec(t: TermV, c: ClauseV, hits: Seq<Seq<bool>>, chunk: nat, fuel: nat) -> Result<Seq<Seq<bool>>, CompileError>
    decreases fuel, 0nat, 0nat,
{
    match t {
        TermV::Var(s) => if s >= MAX_CLAUSE_VARS {
            Err(CompileError::TooManyVars)
        } else {
            Ok(hits.update(s as int, hits[s as int].update(chunk as int, true)))
        },
        TermV::Struct { args, .. } => if fuel == 0 {
            Err(CompileError::BadSubterm)
        } else {
            mark_args_spec(args, 0, c, hits, chunk, (fuel - 1) as nat)
        },
        _ => Ok(hits),
    }
}

pub open spec fn mark_args_spec(args: Seq<TermIdx>, i: nat, c: ClauseV, hits: Seq<Seq<bool>>, chunk: nat, fuel: nat) -> Result<Seq<Seq<bool>>, CompileError>
    decreases fuel, 1nat, args.len() - i,
{
    if i >= args.len() {
        Ok(hits)
    } else {
        match sub_of(c, args[i as int]) {
            None => Err(CompileError::BadSubterm),
            Some(t) => match mark_vars_spec(t, c, hits, chunk, fuel) {
                Err(e) => Err(e),
                Ok(h) => mark_args_spec(args, i + 1, c, h, chunk, fuel),
            },
        }
    }
}

pub open spec fn mark_goals_spec(c: ClauseV, atoms: Seq<Seq<u8>>, i: nat, hits: Seq<Seq<bool>>, fuel: nat) -> Result<Seq<Seq<bool>>, CompileError>
    decreases c.body.len() - i,
{
    if i >= c.body.len() {
        Ok(hits)
    } else {
        match mark_vars_spec(c.body[i as int], c, hits, chunks_before(c, i), fuel) {
            Err(e) => Err(e),
            Ok(h) => mark_goals_spec(c, atoms, i + 1, h, fuel),
        }
    }
}

/// How many of the first `k` chunks `row` marks.
pub open spec fn count_hits(row: Seq<bool>, k: nat) -> nat
    decreases k,
{
    if k == 0 {
        0
    } else {
        count_hits(row, (k - 1) as nat) + if row[k - 1] { 1nat } else { 0nat }
    }
}

pub open spec fn class_of(n: nat) -> Class {
    if n == 0 {
        Class::Unused
    } else if n == 1 {
        Class::Temp
    } else {
        Class::Perm
    }
}

/// The class of each variable slot of `c`.
pub open spec fn classify_spec(c: ClauseV, atoms: Seq<Seq<u8>>) -> Result<Seq<Class>, CompileError> {
    match mark_vars_spec(c.head, c, no_hits(), 0, fuel_of(c)) {
        Err(e) => Err(e),
        Ok(h1) => match mark_goals_spec(c, atoms, 0, h1, fuel_of(c)) {
            Err(e) => Err(e),
            Ok(h2) => {
                let n_chunks = chunks_before(c, c.body.len()) + 1;
                Ok(Seq::new(MAX_CLAUSE_VARS as nat, |s: int| class_of(count_hits(h2[s], n_chunks))))
            },
        },
    }
}

pub open spec fn assign_slot_spec(s: VarSlot, classes: Seq<Class>, rm: RmV) -> Result<RmV, CompileError> {
    if s >= MAX_CLAUSE_VARS {
        Err(CompileError::TooManyVars)
    } else if rm.roles[s as int] != VarRole::Unused {
        Ok(rm)
    } else {
        match classes[s as int] {
            Class::Unused => Ok(rm),
            Class::Temp => if rm.n_temp >= REG_CAP {
                Err(CompileError::TooManyXRegs)
            } else {
                Ok(RmV {
                    roles: rm.roles.update(s as int, VarRole::Temp { xi: rm.n_temp, seen: false }),
                    n_temp: (rm.n_temp + 1) as u8,
                    ..rm
                })
            },
            Class::Perm => if rm.n_perm >= REG_CAP {
                Err(CompileError::TooManyYRegs)
            } else {
                Ok(RmV {
                    roles: rm.roles.update(s as int, VarRole::Perm { yi: rm.n_perm, seen: false }),
                    n_perm: (rm.n_perm + 1) as u8,
                    ..rm
                })
            },
        }
    }
}

pub open spec fn walk_spec(t: TermV, c: ClauseV, classes: Seq<Class>, rm: RmV, fuel: nat) -> Result<RmV, CompileError>
    decreases fuel, 0nat, 0nat,
{
    match t {
        TermV::Var(s) => assign_slot_spec(s, classes, rm),
        TermV::Struct { args, .. } => if fuel == 0 {
            Err(CompileError::BadSubterm)
        } else {
            walk_args_spec(args, 0, c, classes, rm, (fuel - 1) as nat)
        },
        _ => Ok(rm),
    }
}

pub open spec fn walk_args_spec(args: Seq<TermIdx>, i: nat, c: ClauseV, classes: Seq<Class>, rm: RmV, fuel: nat) -> Result<RmV, CompileError>
    decreases fuel, 1nat, args.len() - i,
{
    if i >= args.len() {
        Ok(rm)
    } else {
        match sub_of(c, args[i as int]) {
            None => Err(CompileError::BadSubterm),
            Some(t) => match walk_spec(t, c, classes, rm, fuel) {
                Err(e) => Err(e),
                Ok(m) => walk_args_spec(args, i + 1, c, classes, m, fuel),
            },
        }
    }
}

pub open spec fn walk_goals_spec(c: ClauseV, classes: Seq<Class>, i: nat, rm: RmV) -> Result<RmV, CompileError>
    decreases c.body.len() - i,
{
    if i >= c.body.len() {
        Ok(rm)
    } else {
        match walk_spec(c.body[i as int], c, classes, rm, fuel_of(c)) {
            Err(e) => Err(e),
            Ok(m) => walk_goals_spec(c, classes, i + 1, m),
        }
    }
}

/// Registers for the variables of `c`, by first occurrence.
pub open spec fn assign_spec(classes: Seq<Class>, c: ClauseV) -> Result<RmV, CompileError> {
    match walk_spec(c.head, c, classes, empty_rm(), fuel_of(c)) {
        Err(e) => Err(e),
        Ok(m) => walk_goals_spec(c, classes, 0, m),
    }
}

/// The register map of `c` before emission, if classification and
/// assignment succeed.
pub open spec fn regs_spec(c: ClauseV, atoms: Seq<Seq<u8>>) -> Result<RmV, CompileError> {
    match classify_spec(c, atoms) {
        Err(e) => Err(e),
        Ok(cl) => assign_spec(cl, c),
    }
}

/// `ALLOCATE` when the clause has permanent variables.
pub open spec fn allocate_spec(out: Seq<InstrV>, rm: RmV) -> Emit {
    if rm.n_perm > 0 {
        emit1(out, rm, InstrV::Allocate { n: rm.n_perm })
    } else {
        Ok((out, rm))
    }
}

/// The code of clause number `idx` of predicate `pname`.
pub open spec fn clause_body_spec(out: Seq<InstrV>, c: ClauseV, atoms: Seq<Seq<u8>>, pname: Seq<u8>, idx: u8) -> Result<Seq<InstrV>, CompileError> {
    match body_label(pname, idx) {
        Err(e) => Err(e),
        Ok(l) => match push_spec(out, InstrV::Label(l)) {
            Err(e) => Err(e),
            Ok(o1) => match regs_spec(c, atoms) {
                Err(e) => Err(e),
                Ok(rm) => match allocate_spec(o1, RmV { pname, clause_idx: idx, ..rm }) {
                    Err(e) => Err(e),
                    Ok((o2, m2)) => match head_spec(o2, m2, c, atoms) {
                        Err(e) => Err(e),
                        Ok((o3, m3)) => match c.kind {
                            ClauseKind::Fact => push_spec(o3, InstrV::Proceed),
                            ClauseKind::Rule => if c.body.len() == 0 {
                                Err(CompileError::EmptyBody)
                            } else {
                                match body_goals_spec(o3, m3, c, atoms, 0, fuel_of(c)) {
                                    Err(e) => Err(e),
                                    Ok((o4, _)) => Ok(o4),
                                }
                            },
                            ClauseKind::Query => Err(CompileError::BadHead),
                        },
                    },
                },
            },
        },
    }
}

pub open spec fn query_goal_spec(out: Seq<InstrV>, rm: RmV, c: ClauseV, atoms: Seq<Seq<u8>>, goal: TermV) -> Emit {
    if is_inline_spec(goal, atoms) {
        inline_spec(out, rm, c, atoms, goal, fuel_of(c))
    } else {
        match call_target_spec(out, rm, c, atoms, goal) {
            Err(e) => Err(e),
            Ok((o, m, l)) => emit1(o, m, InstrV::Call { label: l }),
        }
    }
}

pub open spec fn query_goals_spec(out: Seq<InstrV>, rm: RmV, c: ClauseV, atoms: Seq<Seq<u8>>, i: nat) -> Emit
    decreases c.body.len() - i,
{
    if i >= c.body.len() {
        Ok((out, rm))
    } else {
        match query_goal_spec(out, rm, c, atoms, c.body[i as int]) {
            Err(e) => Err(e),
            Ok((o, m)) => query_goals_spec(o, m, c, atoms, i + 1),
        }
    }
}

/// The code of the query: its goals as calls, then `HALT`.
#[verifier::opaque]
pub open spec fn query_clause_spec(out: Seq<InstrV>, c: ClauseV, atoms: Seq<Seq<u8>>) -> Result<Seq<InstrV>, CompileError> {
    match query_label() {
        Err(e) => Err(e),
        Ok(ql) => match push_spec(out, InstrV::Label(ql)) {
            Err(e) => Err(e),
            Ok(o1) => if c.body.len() == 0 {
                Err(CompileError::QueryShape)
            } else {
                match regs_spec(c, atoms) {
                    Err(e) => Err(e),
                    Ok(rm) => match allocate_spec(o1, RmV { pname: sb("q"), clause_idx: 0, ..rm }) {
                        Err(e) => Err(e),
                        Ok((o2, m2)) => match query_goals_spec(o2, m2, c, atoms, 0) {
                            Err(e) => Err(e),
                            Ok((o3, m3)) => {
                                let o4: Result<Seq<InstrV>, CompileError> = if m3.n_perm > 0 {
                                    push_spec(o3, InstrV::Deallocate)
                                } else {
                                    Ok(o3)
                                };
                                match o4 {
                                    Err(e) => Err(e),
                                    Ok(o) => push_spec(o, InstrV::Halt),
                                }
                            },
                        },
                    },
                }
            },
        },
    }
}

/// The dispatcher chain from clause `k` on.
pub open spec fn dispatch_loop_spec(out: Seq<InstrV>, pname: Seq<u8>, k: nat, count: u8) -> Result<Seq<InstrV>, CompileError>
    decreases count + 1 - k,
{
    if k > count || k > 254 {
        Ok(out)
    } else {
        match clause_label(pname, k as u8) {
            Err(e) => Err(e),
            Ok(ck) => match push_spec(out, InstrV::Label(ck)) {
                Err(e) => Err(e),
                Ok(o1) => match body_label(pname, k as u8) {
                    Err(e) => Err(e),
                    Ok(cb) => {
                        let o2: Result<Seq<InstrV>, CompileError> = if k == count {
                            push_spec(o1, InstrV::Trust { label: cb })
                        } else {
                            match clause_label(pname, (k + 1) as u8) {
                                Err(e) => Err(e),
                                Ok(next) => push_spec(o1, InstrV::Retry { label: next }),
                            }
                        };
                        match o2 {
                            Err(e) => Err(e),
                            Ok(o) => match push_spec(o, InstrV::Execute { label: cb }) {
                                Err(e) => Err(e),
                                Ok(o3) => dispatch_loop_spec(o3, pname, k + 1, count),
                            },
                        }
                    },
                },
            },
        }
    }
}

/// `pname_entry`, then a direct jump (one clause) or a TRY / RETRY /
/// TRUST chain.
pub open spec fn dispatcher_spec(out: Seq<InstrV>, pname: Seq<u8>, count: u8) -> Result<Seq<InstrV>, CompileError> {
    match entry_label(pname) {
        Err(e) => Err(e),
        Ok(el) => match push_spec(out, InstrV::Label(el)) {
            Err(e) => Err(e),
            Ok(o1) => if count == 1 {
                match body_label(pname, 1) {
                    Err(e) => Err(e),
                    Ok(b1) => push_spec(o1, InstrV::Execute { label: b1 }),
                }
            } else {
                match clause_label(pname, 2) {
                    Err(e) => Err(e),
                    Ok(c2) => match push_spec(o1, InstrV::Try { label: c2 }) {
                        Err(e) => Err(e),
                        Ok(o2) => match body_label(pname, 1) {
                            Err(e) => Err(e),
                            Ok(b1) => match push_spec(o2, InstrV::Execute { label: b1 }) {
                                Err(e) => Err(e),
                                Ok(o3) => dispatch_loop_spec(o3, pname, 2, count),
                            },
                        },
                    },
                }
            },
        },
    }
}

pub open spec fn group_bodies_spec(out: Seq<InstrV>, cs: Seq<ClauseV>, start: nat, count: nat, k: nat, pname: Seq<u8>, atoms: Seq<Seq<u8>>) -> Result<Seq<InstrV>, CompileError>
    decreases count - k,
{
    if k >= count {
        Ok(out)
    } else {
        match clause_body_spec(out, cs[(start + k) as int], atoms, pname, (k + 1) as u8) {
            Err(e) => Err(e),
            Ok(o) => group_bodies_spec(o, cs, start, count, k + 1, pname, atoms),
        }
    }
}

/// The clauses `start..end` of predicate `pid`, then its dispatcher.
pub open spec fn group_spec(out: Seq<InstrV>, cs: Seq<ClauseV>, start: nat, end: nat, pid: AtomId, atoms: Seq<Seq<u8>>) -> Result<Seq<InstrV>, CompileError> {
    match name_of(atoms, pid) {
        None => Err(CompileError::UnknownAtom),
        Some(pname) => match group_bodies_spec(out, cs, start, (end - start) as nat, 0, pname, atoms) {
            Err(e) => Err(e),
            Ok(o) => dispatcher_spec(o, pname, (end - start) as u8),
        },
    }
}

/// The predicate name and arity of a clause head.
pub open spec fn head_pred_spec(t: TermV) -> Result<(AtomId, u8), CompileError> {
    match t {
        TermV::Atom(id) => Ok((id, 0)),
        TermV::Struct { functor, args } => Ok((functor, args.len() as u8)),
        _ => Err(CompileError::BadHead),
    }
}

/// The end of the run of clauses from `end` for the same predicate.
pub open spec fn group_end_spec(cs: Seq<ClauseV>, qix: nat, fid: AtomId, ar: u8, end: nat) -> Result<nat, CompileError>
    decreases cs.len() - end,
{
    if end >= cs.len() || end == qix {
        Ok(end)
    } else {
        match head_pred_spec(cs[end as int].head) {
            Err(e) => Err(e),
            Ok((f2, a2)) => if f2 != fid || a2 != ar {
                Ok(end)
            } else {
                group_end_spec(cs, qix, fid, ar, end + 1)
            },
        }
    }
}

/// Each predicate's clauses (those from `i` on, without the query).
#[verifier::opaque]
pub open spec fn all_preds_spec(out: Seq<InstrV>, cs: Seq<ClauseV>, qix: nat, atoms: Seq<Seq<u8>>, i: nat) -> Result<Seq<InstrV>, CompileError>
    decreases cs.len() - i,
{
    if i >= cs.len() {
        Ok(out)
    } else if i == qix {
        all_preds_spec(out, cs, qix, atoms, i + 1)
    } else {
        match head_pred_spec(cs[i as int].head) {
            Err(e) => Err(e),
            Ok((fid, ar)) => match group_end_spec(cs, qix, fid, ar, i + 1) {
                Err(e) => Err(e),
                Ok(end) => match group_spec(out, cs, i, end, fid, atoms) {
                    Err(e) => Err(e),
                    Ok(o) => if end <= i || end > cs.len() {
                        Err(CompileError::BadHead)
                    } else {
                        all_preds_spec(o, cs, qix, atoms, end)
                    },
                },
            },
        }
    }
}

/// The index of the single query clause.
pub open spec fn find_query_spec(cs: Seq<ClauseV>, i: nat, found: Option<nat>) -> Result<nat, CompileError>
    decreases cs.len() - i,
{
    if i >= cs.len() {
        match found {
            Some(q) => Ok(q),
            None => Err(CompileError::NoQuery),
        }
    } else if cs[i as int].kind == ClauseKind::Query {
        if found is Some {
            Err(CompileError::MultipleQueries)
        } else {
            find_query_spec(cs, i + 1, Some(i))
        }
    } else {
        find_query_spec(cs, i + 1, found)
    }
}

/// `.atom` directives for the atoms from `id` on.
pub open spec fn atom_dirs_spec(out: Seq<InstrV>, atoms: Seq<Seq<u8>>, id: nat) -> Result<Seq<InstrV>, CompileError>
    decreases atoms.len() - id,
{
    if id >= atoms.len() {
        Ok(out)
    } else {
        match push_spec(out, InstrV::AtomDir { id: id as AtomId, name: atoms[id as int] }) {
            Err(e) => Err(e),
            Ok(o) => atom_dirs_spec(o, atoms, id + 1),
        }
    }
}

/// The compiled program: atom directives, `EXECUTE query`, each
/// predicate's clauses and dispatcher, then the query.
pub open spec fn compile_spec(cs: Seq<ClauseV>, atoms: Seq<Seq<u8>>) -> Result<Seq<InstrV>, CompileError> {
    match find_query_spec(cs, 0, None) {
        Err(e) => Err(e),
        Ok(q) => match atom_dirs_spec(Seq::empty(), atoms, 0) {
            Err(e) => Err(e),
            Ok(o1) => match query_label() {
                Err(e) => Err(e),
                Ok(ql) => match push_spec(o1, InstrV::Execute { label: ql }) {
                    Err(e) => Err(e),
                    Ok(o2) => match all_preds_spec(o2, cs, q, atoms, 0) {
                        Err(e) => Err(e),
                        Ok(o3) => query_clause_spec(o3, cs[q as int], atoms),
                    },
                },
            },
        },
    }
}

impl RegMap {
    fn empty() -> (r: Self)
        ensures
            r@ == empty_rm(),
    {
        let r = Self {
            roles: [VarRole::Unused; MAX_CLAUSE_VARS],
            n_temp: 0,
            n_perm: 0,
            pname: BoundedStr::<NAME_CAP>::new(),
            clause_idx: 0,
            neg_ix: 0,
        };
        proof {
            assert(r@.roles =~= empty_rm().roles);
        }
        r
    }

    fn get(&self, slot: VarSlot) -> (r: Option<VarRole>)
        ensures
            r == role_of(self@, slot),
    {
        if (slot as usize) < MAX_CLAUSE_VARS {
            Some(self.roles[slot as usize])
        } else {
            None
        }
    }

    fn mark_seen(&mut self, slot: VarSlot)
        requires
            (slot as int) < MAX_CLAUSE_VARS,
        ensures
            final(self)@ == mark_seen_spec(old(self)@, slot),
    {
        let ix = slot as usize;
        let nr = match self.roles[ix] {
            VarRole::Temp { xi, .. } => VarRole::Temp { xi, seen: true },
            VarRole::Perm { yi, .. } => VarRole::Perm { yi, seen: true },
            VarRole::Unused => VarRole::Unused,
        };
        self.roles[ix] = nr;
        proof {
            assert(self@.roles =~= mark_seen_spec(old(self)@, slot).roles);
        }
    }

    /// A fresh label for the alternative of a negation.
    fn fresh_neg_label(&mut self) -> (r: Result<LabelId, CompileError>)
        ensures
            final(self)@ == (RmV {
                neg_ix: if old(self)@.neg_ix < 255 { (old(self)@.neg_ix + 1) as u8 } else { 255 },
                ..old(self)@
            }),
            match neg_label(old(self)@.pname, old(self)@.clause_idx, old(self)@.neg_ix) {
                Ok(l) => r is Ok && r->Ok_0@ == l,
                Err(e) => r == Err::<LabelId, CompileError>(e),
            },
    {
        let k = self.neg_ix;
        self.neg_ix = if k < 255 { k + 1 } else { 255 };
        let mut cbuf = [0u8; 4];
        let cs = u8_to_decimal(self.clause_idx, &mut cbuf);
        let mut nbuf = [0u8; 4];
        let ns = u8_to_decimal(k, &mut nbuf);
        let pn = self.pname.as_str();
        let parts: [&str; 5] = [pn, "_c", cs, "_neg", ns];
        proof {
            assert(parts_bytes(parts@) =~= seq![
                old(self)@.pname,
                "_c".spec_bytes(),
                decimal(old(self)@.clause_idx as nat),
                "_neg".spec_bytes(),
                decimal(k as nat),
            ]);
        }
        build_label(&parts)
    }
}

fn emit_put_var(ai: u8, slot: VarSlot, rm: &mut RegMap, out: &mut BoundedArr<Instr, MAX_INSTR>) -> (r: Result<(), CompileError>)
    ensures
        emits(r, instr_views(*final(out)), final(rm)@, put_var_spec(instr_views(*old(out)), old(rm)@, ai, slot)),
{
    match rm.get(slot) {
        None => Err(CompileError::TooManyVars),
        Some(VarRole::Unused) => Err(CompileError::TooManyVars),
        Some(VarRole::Temp { xi, seen }) => if !seen {
            match push_i(out, Instr::PutVar { ai, xi }) {
                Ok(()) => {},
                Err(e) => return Err(e),
            }
            rm.mark_seen(slot);
            Ok(())
        } else {
            push_i(out, Instr::PutVal { ai, xi })
        },
        Some(VarRole::Perm { yi, seen }) => if !seen {
            let scratch = rm.n_temp;
            if scratch >= REG_CAP {
                return Err(CompileError::TooManyXRegs);
            }
            match push_i(out, Instr::PutVar { ai, xi: scratch }) {
                Ok(()) => {},
                Err(e) => return Err(e),
            }
            match push_i(out, Instr::GetYVar { ai, yi }) {
                Ok(()) => {},
                Err(e) => return Err(e),
            }
            rm.mark_seen(slot);
            Ok(())
        } else {
            push_i(out, Instr::PutYVal { ai, yi })
        },
    }
}

fn emit_unify_var(slot: VarSlot, rm: &mut RegMap, out: &mut BoundedArr<Instr, MAX_INSTR>) -> (r: Result<(), CompileError>)
    ensures
        emits(r, instr_views(*final(out)), final(rm)@, unify_var_spec(instr_views(*old(out)), old(rm)@, slot)),
{
    match rm.get(slot) {
        None => Err(CompileError::TooManyVars),
        Some(VarRole::Unused) => Err(CompileError::TooManyVars),
        Some(VarRole::Temp { xi, seen }) => if !seen {
            match push_i(out, Instr::UnifyVar { xi }) {
                Ok(()) => {},
                Err(e) => return Err(e),
            }
            rm.mark_seen(slot);
            Ok(())
        } else {
            push_i(out, Instr::UnifyVal { xi })
        },
        Some(VarRole::Perm { .. }) => Err(CompileError::StructArg),
    }
}

fn emit_head_var(ai: u8, slot: VarSlot, rm: &mut RegMap, out: &mut BoundedArr<Instr, MAX_INSTR>) -> (r: Result<(), CompileError>)
    ensures
        emits(r, instr_views(*final(out)), final(rm)@, head_var_spec(instr_views(*old(out)), old(rm)@, ai, slot)),
{
    match rm.get(slot) {
        None => Err(CompileError::TooManyVars),
        Some(VarRole::Unused) => Err(CompileError::TooManyVars),
        Some(VarRole::Temp { xi, seen }) => if !seen {
            match push_i(out, Instr::GetVar { ai, xi }) {
                Ok(()) => {},
                Err(e) => return Err(e),
            }
            rm.mark_seen(slot);
            Ok(())
        } else {
            push_i(out, Instr::GetVal { ai, xi })
        },
        Some(VarRole::Perm { yi, seen }) => if !seen {
            match push_i(out, Instr::GetYVar { ai, yi }) {
                Ok(()) => {},
                Err(e) => return Err(e),
            }
            rm.mark_seen(slot);
            Ok(())
        } else {
            Err(CompileError::HeadVarRepeat)
        },
    }
}

fn emit_eval_leaf(ai: u8, t: &Term, rm: &mut RegMap, out: &mut BoundedArr<Instr, MAX_INSTR>) -> (r: Result<(), CompileError>)
    ensures
        emits(r, instr_views(*final(out)), final(rm)@, eval_leaf_spec(instr_views(*old(out)), old(rm)@, ai, t@)),
{
    match t {
        Term::Int(n) => push_i(out, Instr::PutInt { ai, value: *n }),
        Term::Var(slot) => emit_put_var(ai, *slot, rm, out),
        _ => Err(CompileError::BadGoal),
    }
}

fn emit_bind_a0(lhs: &Term, rm: &mut RegMap, out: &mut BoundedArr<Instr, MAX_INSTR>) -> (r: Result<(), CompileError>)
    ensures
        emits(r, instr_views(*final(out)), final(rm)@, bind_a0_spec(instr_views(*old(out)), old(rm)@, lhs@)),
{
    match lhs {
        Term::Int(n) => push_i(out, Instr::GetInt { ai: 0, value: *n }),
        Term::Var(slot) => emit_head_var(0, *slot, rm, out),
        _ => Err(CompileError::BadGoal),
    }
}

/// The arena term at index `ti` of `args`.
fn arg_sub(clause: &Clause, args: &BoundedArr<TermIdx, MAX_ARGS>, i: usize) -> (r: Option<Term>)
    requires
        i < args@.len(),
    ensures
        match sub_of(clause@, args@[i as int]) {
            Some(t) => r is Some && r->0@ == t,
            None => r is None,
        },
{
    let ti = *args.get(i).unwrap();
    match clause.subterm(ti) {
        Some(t) => Some(*t),
        None => None,
    }
}

/// The name of atom `id` equals `lit`.
fn name_is(atoms: &AtomTable, id: AtomId, lit: &str) -> (r: bool)
    ensures
        r == (name_of(atoms@, id) == Some(lit.spec_bytes())),
{
    match atoms.name(id) {
        Some(n) => str_eq(n.as_str(), lit),
        None => false,
    }
}

fn emit_eval_expr(e: &Term, clause: &Clause, atoms: &AtomTable, rm: &mut RegMap, out: &mut BoundedArr<Instr, MAX_INSTR>) -> (r: Result<(), CompileError>)
    ensures
        emits(r, instr_views(*final(out)), final(rm)@, eval_expr_spec(instr_views(*old(out)), old(rm)@, clause@, atoms@, e@)),
{
    match e {
        Term::Int(n) => push_i(out, Instr::PutInt { ai: 0, value: *n }),
        Term::Var(slot) => emit_put_var(0, *slot, rm, out),
        Term::Struct { functor, args } => {
            if args.len() != 2 {
                return Err(CompileError::BadGoal);
            }
            if atoms.name(*functor).is_none() {
                return Err(CompileError::UnknownAtom);
            }
            let add = name_is(atoms, *functor, "+");
            let sub = name_is(atoms, *functor, "-");
            if !add && !sub {
                return Err(CompileError::BadGoal);
            }
            let a = match arg_sub(clause, args, 0) {
                Some(t) => t,
                None => return Err(CompileError::BadSubterm),
            };
            let b = match arg_sub(clause, args, 1) {
                Some(t) => t,
                None => return Err(CompileError::BadSubterm),
            };
            match emit_eval_leaf(1, &a, rm, out) {
                Ok(()) => {},
                Err(e) => return Err(e),
            }
            match emit_eval_leaf(2, &b, rm, out) {
                Ok(()) => {},
                Err(e) => return Err(e),
            }
            let op = if add {
                Instr::BIsAdd { dst: 0, a: 1, b: 2 }
            } else {
                Instr::BIsSub { dst: 0, a: 1, b: 2 }
            };
            push_i(out, op)
        },
        _ => Err(CompileError::BadGoal),
    }
}

fn two_args(clause: &Clause, args: &BoundedArr<TermIdx, MAX_ARGS>) -> (r: Option<(Term, Term)>)
    requires
        args@.len() == 2,
    ensures
        match two_subs(clause@, args@) {
            Some((a, b)) => r is Some && (r->0).0@ == a && (r->0).1@ == b,
            None => r is None,
        },
{
    let a = arg_sub(clause, args, 0);
    let b = arg_sub(clause, args, 1);
    match (a, b) {
        (Some(x), Some(y)) => Some((x, y)),
        _ => None,
    }
}

fn emit_is(args: &BoundedArr<TermIdx, MAX_ARGS>, clause: &Clause, atoms: &AtomTable, rm: &mut RegMap, out: &mut BoundedArr<Instr, MAX_INSTR>) -> (r: Result<(), CompileError>)
    requires
        args@.len() == 2,
    ensures
        emits(r, instr_views(*final(out)), final(rm)@, is_spec(instr_views(*old(out)), old(rm)@, clause@, atoms@, args@)),
{
    let (lhs, rhs) = match two_args(clause, args) {
        Some(p) => p,
        None => return Err(CompileError::BadSubterm),
    };
    match emit_eval_expr(&rhs, clause, atoms, rm, out) {
        Ok(()) => {},
        Err(e) => return Err(e),
    }
    emit_bind_a0(&lhs, rm, out)
}

fn emit_order_test(args: &BoundedArr<TermIdx, MAX_ARGS>, clause: &Clause, rm: &mut RegMap, out: &mut BoundedArr<Instr, MAX_INSTR>, lt: bool) -> (r: Result<(), CompileError>)
    requires
        args@.len() == 2,
    ensures
        emits(r, instr_views(*final(out)), final(rm)@, order_test_spec(instr_views(*old(out)), old(rm)@, clause@, args@, lt)),
{
    let (a, b) = match two_args(clause, args) {
        Some(p) => p,
        None => return Err(CompileError::BadSubterm),
    };
    match emit_eval_leaf(0, &a, rm, out) {
        Ok(()) => {},
        Err(e) => return Err(e),
    }
    match emit_eval_leaf(1, &b, rm, out) {
        Ok(()) => {},
        Err(e) => return Err(e),
    }
    let op = if lt {
        Instr::BLt { a: 0, b: 1 }
    } else {
        Instr::BGt { a: 0, b: 1 }
    };
    push_i(out, op)
}

/// The id of the atom named `s`.
fn find_atom_id(atoms: &AtomTable, s: &str) -> (r: Option<AtomId>)
    ensures
        r == find_atom(atoms@, s.spec_bytes()),
{
    atoms.find(s)
}

fn emit_list_element(t: &Term, atoms: &AtomTable, rm: &mut RegMap, out: &mut BoundedArr<Instr, MAX_INSTR>) -> (r: Result<(), CompileError>)
    ensures
        emits(r, instr_views(*final(out)), final(rm)@, list_element_spec(instr_views(*old(out)), old(rm)@, atoms@, t@)),
{
    match t {
        Term::Atom(id) => push_i(out, Instr::UnifyConst { atom: *id }),
        Term::Nil => match find_atom_id(atoms, "[]") {
            None => Err(CompileError::UnknownAtom),
            Some(nil) => push_i(out, Instr::UnifyConst { atom: nil }),
        },
        Term::Var(slot) => emit_unify_var(*slot, rm, out),
        Term::Int(_) => Err(CompileError::IntArg),
        Term::Struct { .. } => Err(CompileError::StructArg),
    }
}

fn emit_list_spine(
    ai: u8,
    hti: TermIdx,
    tti: TermIdx,
    clause: &Clause,
    atoms: &AtomTable,
    rm: &mut RegMap,
    cursor: u8,
    dot: AtomId,
    nil: AtomId,
    out: &mut BoundedArr<Instr, MAX_INSTR>,
) -> (r: Result<(), CompileError>)
    ensures
        emits(
            r,
            instr_views(*final(out)),
            final(rm)@,
            spine_spec(instr_views(*old(out)), old(rm)@, clause@, atoms@, ai, hti, tti, cursor, dot, nil),
        ),
    decreases MAX_INSTR - instr_views(*old(out)).len(),
{
    let ghost o0 = instr_views(*out);
    let _ = out.len();
    match push_i(out, Instr::GetStruct { ai, atom: dot, arity: 2 }) {
        Ok(()) => {},
        Err(e) => return Err(e),
    }
    let head = match clause.subterm(hti) {
        Some(t) => *t,
        None => return Err(CompileError::BadSubterm),
    };
    let tail = match clause.subterm(tti) {
        Some(t) => *t,
        None => return Err(CompileError::BadSubterm),
    };
    match emit_list_element(&head, atoms, rm, out) {
        Ok(()) => {},
        Err(e) => return Err(e),
    }
    match tail {
        Term::Nil => push_i(out, Instr::UnifyConst { atom: nil }),
        Term::Struct { functor, args } => {
            if functor != dot || args.len() != 2 {
                return Err(CompileError::StructArg);
            }
            match push_i(out, Instr::UnifyVar { xi: cursor }) {
                Ok(()) => {},
                Err(e) => return Err(e),
            }
            match push_i(out, Instr::PutVal { ai, xi: cursor }) {
                Ok(()) => {},
                Err(e) => return Err(e),
            }
            let _ = out.len();
            let h2 = *args.get(0).unwrap();
            let t2 = *args.get(1).unwrap();
            emit_list_spine(ai, h2, t2, clause, atoms, rm, cursor, dot, nil, out)
        },
        _ => Err(CompileError::StructArg),
    }
}

fn emit_build_list(
    ai: u8,
    functor: AtomId,
    args: &BoundedArr<TermIdx, MAX_ARGS>,
    clause: &Clause,
    atoms: &AtomTable,
    rm: &mut RegMap,
    out: &mut BoundedArr<Instr, MAX_INSTR>,
) -> (r: Result<(), CompileError>)
    ensures
        emits(r, instr_views(*final(out)), final(rm)@, build_list_spec(instr_views(*old(out)), old(rm)@, clause@, atoms@, ai, functor, args@)),
{
    let dot = find_atom_id(atoms, ".");
    let nil = find_atom_id(atoms, "[]");
    let (dot, nil) = match (dot, nil) {
        (Some(d), Some(n)) => (d, n),
        _ => return Err(CompileError::UnknownAtom),
    };
    if functor != dot || args.len() != 2 {
        return Err(CompileError::StructArg);
    }
    let head_x = rm.n_temp;
    if head_x >= REG_CAP - 1 {
        return Err(CompileError::TooManyXRegs);
    }
    let cursor_x = head_x + 1;
    match push_i(out, Instr::PutVar { ai, xi: head_x }) {
        Ok(()) => {},
        Err(e) => return Err(e),
    }
    let h = *args.get(0).unwrap();
    let t = *args.get(1).unwrap();
    match emit_list_spine(ai, h, t, clause, atoms, rm, cursor_x, dot, nil, out) {
        Ok(()) => {},
        Err(e) => return Err(e),
    }
    push_i(out, Instr::PutVal { ai, xi: head_x })
}

fn emit_put_arg(ai: u8, arg: &Term, clause: &Clause, atoms: &AtomTable, rm: &mut RegMap, out: &mut BoundedArr<Instr, MAX_INSTR>) -> (r: Result<(), CompileError>)
    ensures
        emits(r, instr_views(*final(out)), final(rm)@, put_arg_spec(instr_views(*old(out)), old(rm)@, clause@, atoms@, ai, arg@)),
{
    match arg {
        Term::Atom(id) => push_i(out, Instr::PutConst { ai, atom: *id }),
        Term::Nil => match find_atom_id(atoms, "[]") {
            None => Err(CompileError::UnknownAtom),
            Some(nil) => push_i(out, Instr::PutConst { ai, atom: nil }),
        },
        Term::Var(slot) => emit_put_var(ai, *slot, rm, out),
        Term::Int(n) => push_i(out, Instr::PutInt { ai, value: *n }),
        Term::Struct { functor, args } => emit_build_list(ai, *functor, args, clause, atoms, rm, out),
    }
}

fn emit_put_args(args: &BoundedArr<TermIdx, MAX_ARGS>, i: usize, clause: &Clause, atoms: &AtomTable, rm: &mut RegMap, out: &mut BoundedArr<Instr, MAX_INSTR>) -> (r: Result<(), CompileError>)
    requires
        i <= args@.len(),
    ensures
        emits(r, instr_views(*final(out)), final(rm)@, put_args_spec(instr_views(*old(out)), old(rm)@, clause@, atoms@, args@, i as nat)),
    decreases args@.len() - i,
{
    if i >= args.len() {
        return Ok(());
    }
    let t = match arg_sub(clause, args, i) {
        Some(t) => t,
        None => return Err(CompileError::BadSubterm),
    };
    match emit_put_arg(i as u8, &t, clause, atoms, rm, out) {
        Ok(()) => {},
        Err(e) => return Err(e),
    }
    emit_put_args(args, i + 1, clause, atoms, rm, out)
}

fn emit_eq(args: &BoundedArr<TermIdx, MAX_ARGS>, clause: &Clause, atoms: &AtomTable, rm: &mut RegMap, out: &mut BoundedArr<Instr, MAX_INSTR>) -> (r: Result<(), CompileError>)
    requires
        args@.len() == 2,
    ensures
        emits(r, instr_views(*final(out)), final(rm)@, eq_spec(instr_views(*old(out)), old(rm)@, clause@, atoms@, args@)),
{
    let (l, rr) = match two_args(clause, args) {
        Some(p) => p,
        None => return Err(CompileError::BadSubterm),
    };
    match emit_put_arg(0, &l, clause, atoms, rm, out) {
        Ok(()) => {},
        Err(e) => return Err(e),
    }
    let scratch = rm.n_temp;
    if scratch >= REG_CAP {
        return Err(CompileError::TooManyXRegs);
    }
    match push_i(out, Instr::GetVar { ai: 0, xi: scratch }) {
        Ok(()) => {},
        Err(e) => return Err(e),
    }
    match emit_put_arg(1, &rr, clause, atoms, rm, out) {
        Ok(()) => {},
        Err(e) => return Err(e),
    }
    push_i(out, Instr::GetVal { ai: 1, xi: scratch })
}

/// Puts the goal's arguments and gives the entry label it calls.
fn call_target(goal: &Term, clause: &Clause, atoms: &AtomTable, rm: &mut RegMap, out: &mut BoundedArr<Instr, MAX_INSTR>) -> (r: Result<LabelId, CompileError>)
    ensures
        match call_target_spec(instr_views(*old(out)), old(rm)@, clause@, atoms@, goal@) {
            Ok((o, m, l)) => r is Ok && r->Ok_0@ == l && instr_views(*final(out)) == o && final(rm)@ == m,
            Err(e) => r == Err::<LabelId, CompileError>(e),
        },
{
    let fid = match goal {
        Term::Atom(id) => *id,
        Term::Struct { functor, args } => {
            match emit_put_args(args, 0, clause, atoms, rm, out) {
                Ok(()) => {},
                Err(e) => return Err(e),
            }
            *functor
        },
        _ => return Err(CompileError::BadGoal),
    };
    let pname = match atoms.name(fid) {
        Some(n) => *n,
        None => return Err(CompileError::UnknownAtom),
    };
    lbl_entry(&pname)
}

fn is_inline_builtin(goal: &Term, atoms: &AtomTable) -> (r: bool)
    ensures
        r == is_inline_spec(goal@, atoms@),
{
    match goal {
        Term::Atom(id) => name_is(atoms, *id, "nl") || name_is(atoms, *id, "fail") || name_is(atoms, *id, "!"),
        Term::Struct { functor, args } => {
            let f = *functor;
            ((name_is(atoms, f, "write") || name_is(atoms, f, "\\+")) && args.len() == 1) || ((name_is(atoms, f, "is")
                || name_is(atoms, f, "<") || name_is(atoms, f, ">") || name_is(atoms, f, "=")) && args.len() == 2)
        },
        _ => false,
    }
}

fn emit_inline_builtin(goal: &Term, clause: &Clause, atoms: &AtomTable, rm: &mut RegMap, out: &mut BoundedArr<Instr, MAX_INSTR>, fuel: usize) -> (r: Result<(), CompileError>)
    ensures
        emits(r, instr_views(*final(out)), final(rm)@, inline_spec(instr_views(*old(out)), old(rm)@, clause@, atoms@, goal@, fuel as nat)),
    decreases fuel, 2nat,
{
    match goal {
        Term::Atom(id) => emit_inline_atom(*id, atoms, out),
        Term::Struct { functor, args } => {
            let f = *functor;
            if atoms.name(f).is_none() {
                return Err(CompileError::UnknownAtom);
            }
            let n = args.len();
            if name_is(atoms, f, "write") && n == 1 {
                emit_write(args, clause, atoms, rm, out)
            } else if name_is(atoms, f, "is") && n == 2 {
                emit_is(args, clause, atoms, rm, out)
            } else if name_is(atoms, f, "<") && n == 2 {
                emit_order_test(args, clause, rm, out, true)
            } else if name_is(atoms, f, ">") && n == 2 {
                emit_order_test(args, clause, rm, out, false)
            } else if name_is(atoms, f, "=") && n == 2 {
                emit_eq(args, clause, atoms, rm, out)
            } else if name_is(atoms, f, "\\+") && n == 1 {
                emit_negation(args, clause, atoms, rm, out, fuel)
            } else {
                Err(CompileError::BadGoal)
            }
        },
        _ => Err(CompileError::BadGoal),
    }
}

/// `nl`, `fail` and `!`.
fn emit_inline_atom(id: AtomId, atoms: &AtomTable, out: &mut BoundedArr<Instr, MAX_INSTR>) -> (r: Result<(), CompileError>)
    ensures
        match name_of(atoms@, id) {
            None => r == Err::<(), CompileError>(CompileError::UnknownAtom) && instr_views(*final(out)) == instr_views(*old(out)),
            Some(n) => if n == sb("nl") {
                gives(r, instr_views(*final(out)), push_spec(instr_views(*old(out)), InstrV::BNl))
            } else if n == sb("fail") {
                gives(r, instr_views(*final(out)), push_spec(instr_views(*old(out)), InstrV::Fail))
            } else if n == sb("!") {
                gives(r, instr_views(*final(out)), push_spec(instr_views(*old(out)), InstrV::Cut))
            } else {
                r == Err::<(), CompileError>(CompileError::BadGoal) && instr_views(*final(out)) == instr_views(*old(out))
            },
        },
{
    if atoms.name(id).is_none() {
        return Err(CompileError::UnknownAtom);
    }
    if name_is(atoms, id, "nl") {
        push_i(out, Instr::BNl)
    } else if name_is(atoms, id, "fail") {
        push_i(out, Instr::Fail)
    } else if name_is(atoms, id, "!") {
        push_i(out, Instr::Cut)
    } else {
        Err(CompileError::BadGoal)
    }
}

/// `write(T)`.
fn emit_write(args: &BoundedArr<TermIdx, MAX_ARGS>, clause: &Clause, atoms: &AtomTable, rm: &mut RegMap, out: &mut BoundedArr<Instr, MAX_INSTR>) -> (r: Result<(), CompileError>)
    requires
        args@.len() == 1,
    ensures
        emits(r, instr_views(*final(out)), final(rm)@, match sub_of(clause@, args@[0]) {
            None => Err(CompileError::BadSubterm),
            Some(a) => match put_arg_spec(instr_views(*old(out)), old(rm)@, clause@, atoms@, 0, a) {
                Err(e) => Err(e),
                Ok((o, m)) => emit1(o, m, InstrV::BWrite { ai: 0 }),
            },
        }),
{
    let a = match arg_sub(clause, args, 0) {
        Some(t) => t,
        None => return Err(CompileError::BadSubterm),
    };
    match emit_put_arg(0, &a, clause, atoms, rm, out) {
        Ok(()) => {},
        Err(e) => return Err(e),
    }
    push_i(out, Instr::BWrite { ai: 0 })
}

fn emit_negation(args: &BoundedArr<TermIdx, MAX_ARGS>, clause: &Clause, atoms: &AtomTable, rm: &mut RegMap, out: &mut BoundedArr<Instr, MAX_INSTR>, fuel: usize) -> (r: Result<(), CompileError>)
    requires
        args@.len() == 1,
    ensures
        emits(r, instr_views(*final(out)), final(rm)@, negation_spec(instr_views(*old(out)), old(rm)@, clause@, atoms@, args@, fuel as nat)),
    decreases fuel, 1nat,
{
    let alt = match rm.fresh_neg_label() {
        Ok(l) => l,
        Err(e) => return Err(e),
    };
    let g = match arg_sub(clause, args, 0) {
        Some(t) => t,
        None => return Err(CompileError::BadSubterm),
    };
    emit_neg_body(alt, &g, clause, atoms, rm, out, fuel)
}

fn emit_neg_body(alt: LabelId, g: &Term, clause: &Clause, atoms: &AtomTable, rm: &mut RegMap, out: &mut BoundedArr<Instr, MAX_INSTR>, fuel: usize) -> (r: Result<(), CompileError>)
    ensures
        emits(r, instr_views(*final(out)), final(rm)@, neg_body_spec(instr_views(*old(out)), old(rm)@, clause@, atoms@, alt@, g@, fuel as nat)),
    decreases fuel, 0nat,
{
    if fuel == 0 {
        return Err(CompileError::BadSubterm);
    }
    match push_i(out, Instr::Try { label: alt }) {
        Ok(()) => {},
        Err(e) => return Err(e),
    }
    match emit_neg_inner(g, clause, atoms, rm, out, fuel - 1) {
        Ok(()) => {},
        Err(e) => return Err(e),
    }
    emit_neg_tail(alt, rm, out)
}

fn emit_neg_tail(alt: LabelId, rm: &RegMap, out: &mut BoundedArr<Instr, MAX_INSTR>) -> (r: Result<(), CompileError>)
    ensures
        emits(r, instr_views(*final(out)), rm@, neg_tail_spec(instr_views(*old(out)), rm@, alt@)),
{
    match push_i(out, Instr::Trust { label: alt }) {
        Ok(()) => {},
        Err(e) => return Err(e),
    }
    match push_i(out, Instr::Fail) {
        Ok(()) => {},
        Err(e) => return Err(e),
    }
    match push_i(out, Instr::Label(alt)) {
        Ok(()) => {},
        Err(e) => return Err(e),
    }
    push_i(out, Instr::Trust { label: alt })
}

fn emit_neg_inner(goal: &Term, clause: &Clause, atoms: &AtomTable, rm: &mut RegMap, out: &mut BoundedArr<Instr, MAX_INSTR>, fuel: usize) -> (r: Result<(), CompileError>)
    ensures
        emits(r, instr_views(*final(out)), final(rm)@, neg_inner_spec(instr_views(*old(out)), old(rm)@, clause@, atoms@, goal@, fuel as nat)),
    decreases fuel, 3nat,
{
    if is_inline_builtin(goal, atoms) {
        return emit_inline_builtin(goal, clause, atoms, rm, out, fuel);
    }
    let l = match call_target(goal, clause, atoms, rm, out) {
        Ok(l) => l,
        Err(e) => return Err(e),
    };
    push_i(out, Instr::Call { label: l })
}

fn emit_ret(rm: &RegMap, last: Instr, out: &mut BoundedArr<Instr, MAX_INSTR>) -> (r: Result<(), CompileError>)
    ensures
        emits(r, instr_views(*final(out)), rm@, ret_spec(instr_views(*old(out)), rm@, last@)),
{
    if rm.n_perm > 0 {
        match push_i(out, Instr::Deallocate) {
            Ok(()) => {},
            Err(e) => return Err(e),
        }
    }
    push_i(out, last)
}

fn emit_inline_goal(goal: &Term, clause: &Clause, atoms: &AtomTable, rm: &mut RegMap, is_last: bool, out: &mut BoundedArr<Instr, MAX_INSTR>, fuel: usize) -> (r: Result<(), CompileError>)
    ensures
        emits(r, instr_views(*final(out)), final(rm)@, inline_goal_spec(instr_views(*old(out)), old(rm)@, clause@, atoms@, goal@, is_last, fuel as nat)),
{
    match emit_inline_builtin(goal, clause, atoms, rm, out, fuel) {
        Ok(()) => {},
        Err(e) => return Err(e),
    }
    if is_last {
        return emit_ret(rm, Instr::Proceed, out);
    }
    Ok(())
}

fn emit_call_goal(goal: &Term, clause: &Clause, atoms: &AtomTable, rm: &mut RegMap, is_last: bool, out: &mut BoundedArr<Instr, MAX_INSTR>) -> (r: Result<(), CompileError>)
    ensures
        emits(r, instr_views(*final(out)), final(rm)@, call_goal_spec(instr_views(*old(out)), old(rm)@, clause@, atoms@, goal@, is_last)),
{
    let entry = match call_target(goal, clause, atoms, rm, out) {
        Ok(l) => l,
        Err(e) => return Err(e),
    };
    if is_last {
        emit_ret(rm, Instr::Execute { label: entry }, out)
    } else {
        push_i(out, Instr::Call { label: entry })
    }
}

fn emit_goal(goal: &Term, clause: &Clause, atoms: &AtomTable, rm: &mut RegMap, is_last: bool, out: &mut BoundedArr<Instr, MAX_INSTR>, fuel: usize) -> (r: Result<(), CompileError>)
    ensures
        emits(r, instr_views(*final(out)), final(rm)@, goal_spec(instr_views(*old(out)), old(rm)@, clause@, atoms@, goal@, is_last, fuel as nat)),
{
    if is_inline_builtin(goal, atoms) {
        emit_inline_goal(goal, clause, atoms, rm, is_last, out, fuel)
    } else {
        emit_call_goal(goal, clause, atoms, rm, is_last, out)
    }
}

fn emit_body_goals(clause: &Clause, atoms: &AtomTable, i: usize, rm: &mut RegMap, out: &mut BoundedArr<Instr, MAX_INSTR>, fuel: usize) -> (r: Result<(), CompileError>)
    requires
        i <= clause.body@.len(),
    ensures
        emits(r, instr_views(*final(out)), final(rm)@, body_goals_spec(instr_views(*old(out)), old(rm)@, clause@, atoms@, i as nat, fuel as nat)),
    decreases clause.body@.len() - i,
{
    let n = clause.body.len();
    if i >= n {
        return Ok(());
    }
    let goal = *clause.body.get(i).unwrap();
    match emit_goal(&goal, clause, atoms, rm, i + 1 == n, out, fuel) {
        Ok(()) => {},
        Err(e) => return Err(e),
    }
    emit_body_goals(clause, atoms, i + 1, rm, out, fuel)
}

fn emit_unify_term(t: &Term, rm: &mut RegMap, out: &mut BoundedArr<Instr, MAX_INSTR>) -> (r: Result<(), CompileError>)
    ensures
        emits(r, instr_views(*final(out)), final(rm)@, unify_term_spec(instr_views(*old(out)), old(rm)@, t@)),
{
    match t {
        Term::Var(slot) => emit_unify_var(*slot, rm, out),
        Term::Int(_) => Err(CompileError::IntArg),
        _ => Err(CompileError::StructArg),
    }
}

fn emit_unify_args(args: &BoundedArr<TermIdx, MAX_ARGS>, i: usize, clause: &Clause, rm: &mut RegMap, out: &mut BoundedArr<Instr, MAX_INSTR>) -> (r: Result<(), CompileError>)
    requires
        i <= args@.len(),
    ensures
        emits(r, instr_views(*final(out)), final(rm)@, unify_args_spec(instr_views(*old(out)), old(rm)@, clause@, args@, i as nat)),
    decreases args@.len() - i,
{
    if i >= args.len() {
        return Ok(());
    }
    let t = match arg_sub(clause, args, i) {
        Some(t) => t,
        None => return Err(CompileError::BadSubterm),
    };
    match emit_unify_term(&t, rm, out) {
        Ok(()) => {},
        Err(e) => return Err(e),
    }
    emit_unify_args(args, i + 1, clause, rm, out)
}

fn emit_head_arg(ai: u8, arg: &Term, clause: &Clause, atoms: &AtomTable, rm: &mut RegMap, out: &mut BoundedArr<Instr, MAX_INSTR>) -> (r: Result<(), CompileError>)
    ensures
        emits(r, instr_views(*final(out)), final(rm)@, head_arg_spec(instr_views(*old(out)), old(rm)@, clause@, atoms@, ai, arg@)),
{
    match arg {
        Term::Atom(id) => push_i(out, Instr::GetConst { ai, atom: *id }),
        Term::Nil => match find_atom_id(atoms, "[]") {
            None => Err(CompileError::UnknownAtom),
            Some(nil) => push_i(out, Instr::GetConst { ai, atom: nil }),
        },
        Term::Var(slot) => emit_head_var(ai, *slot, rm, out),
        Term::Int(n) => push_i(out, Instr::GetInt { ai, value: *n }),
        Term::Struct { functor, args } => {
            match push_i(out, Instr::GetStruct { ai, atom: *functor, arity: args.len() as u8 }) {
                Ok(()) => {},
                Err(e) => return Err(e),
            }
            emit_unify_args(args, 0, clause, rm, out)
        },
    }
}

fn emit_head_args(args: &BoundedArr<TermIdx, MAX_ARGS>, i: usize, clause: &Clause, atoms: &AtomTable, rm: &mut RegMap, out: &mut BoundedArr<Instr, MAX_INSTR>) -> (r: Result<(), CompileError>)
    requires
        i <= args@.len(),
    ensures
        emits(r, instr_views(*final(out)), final(rm)@, head_args_spec(instr_views(*old(out)), old(rm)@, clause@, atoms@, args@, i as nat)),
    decreases args@.len() - i,
{
    if i >= args.len() {
        return Ok(());
    }
    let t = match arg_sub(clause, args, i) {
        Some(t) => t,
        None => return Err(CompileError::BadSubterm),
    };
    match emit_head_arg(i as u8, &t, clause, atoms, rm, out) {
        Ok(()) => {},
        Err(e) => return Err(e),
    }
    emit_head_args(args, i + 1, clause, atoms, rm, out)
}

fn emit_head(clause: &Clause, atoms: &AtomTable, rm: &mut RegMap, out: &mut BoundedArr<Instr, MAX_INSTR>) -> (r: Result<(), CompileError>)
    ensures
        emits(r, instr_views(*final(out)), final(rm)@, head_spec(instr_views(*old(out)), old(rm)@, clause@, atoms@)),
{
    match &clause.head {
        Term::Atom(_) => Ok(()),
        Term::Struct { args, .. } => emit_head_args(args, 0, clause, atoms, rm, out),
        _ => Err(CompileError::BadHead),
    }
}

/// The `hits` table as rows of chunk flags.
pub open spec fn unflat(a: Seq<bool>) -> Seq<Seq<bool>> {
    Seq::new(MAX_CLAUSE_VARS as nat, |s: int| Seq::new(MAX_BODY as nat, |k: int| a[s * 16 + k]))
}

proof fn lemma_unflat_update(a: Seq<bool>, s: int, k: int)
    requires
        a.len() == 256,
        0 <= s < 16,
        0 <= k < 16,
    ensures
        unflat(a.update(s * 16 + k, true)) == unflat(a).update(s, unflat(a)[s].update(k, true)),
{
    let l = unflat(a.update(s * 16 + k, true));
    let r = unflat(a).update(s, unflat(a)[s].update(k, true));
    assert forall|i: int| 0 <= i < 16 implies #[trigger] l[i] =~= r[i] by {
        assert forall|j: int| 0 <= j < 16 implies l[i][j] == r[i][j] by {
            assert(0 <= i * 16 + j < 256);
            if i == s && j == k {
            } else {
                assert(i * 16 + j != s * 16 + k);
            }
        }
    }
    assert(l =~= r);
}

fn mark_vars(t: &Term, clause: &Clause, hits: &mut [bool; 256], chunk: usize, fuel: usize) -> (r: Result<(), CompileError>)
    requires
        chunk < 16,
    ensures
        match mark_vars_spec(t@, clause@, unflat(old(hits)@), chunk as nat, fuel as nat) {
            Ok(h) => r is Ok && unflat(final(hits)@) == h,
            Err(e) => r == Err::<(), CompileError>(e),
        },
    decreases fuel, 0nat, 0nat,
{
    match t {
        Term::Var(s) => {
            if *s as usize >= MAX_CLAUSE_VARS {
                return Err(CompileError::TooManyVars);
            }
            let ix = (*s as usize) * 16 + chunk;
            proof {
                lemma_unflat_update(hits@, *s as int, chunk as int);
            }
            hits[ix] = true;
            Ok(())
        },
        Term::Struct { args, .. } => {
            if fuel == 0 {
                return Err(CompileError::BadSubterm);
            }
            mark_args(args, 0, clause, hits, chunk, fuel - 1)
        },
        _ => Ok(()),
    }
}

fn mark_args(args: &BoundedArr<TermIdx, MAX_ARGS>, i: usize, clause: &Clause, hits: &mut [bool; 256], chunk: usize, fuel: usize) -> (r: Result<(), CompileError>)
    requires
        chunk < 16,
        i <= args@.len(),
    ensures
        match mark_args_spec(args@, i as nat, clause@, unflat(old(hits)@), chunk as nat, fuel as nat) {
            Ok(h) => r is Ok && unflat(final(hits)@) == h,
            Err(e) => r == Err::<(), CompileError>(e),
        },
    decreases fuel, 1nat, args@.len() - i,
{
    if i >= args.len() {
        return Ok(());
    }
    let t = match arg_sub(clause, args, i) {
        Some(t) => t,
        None => return Err(CompileError::BadSubterm),
    };
    match mark_vars(&t, clause, hits, chunk, fuel) {
        Ok(()) => {},
        Err(e) => return Err(e),
    }
    mark_args(args, i + 1, clause, hits, chunk, fuel)
}

proof fn lemma_chunks_before_le(c: ClauseV, i: nat)
    ensures
        chunks_before(c, i) <= i,
    decreases i,
{
    if i > 0 {
        lemma_chunks_before_le(c, (i - 1) as nat);
    }
}

fn count_row(hits: &[bool; 256], s: usize, n: usize) -> (r: usize)
    requires
        s < 16,
        n <= 16,
    ensures
        r == count_hits(unflat(hits@)[s as int], n as nat),
        r <= n,
{
    let mut k: usize = 0;
    let mut cnt: usize = 0;
    while k < n
        invariant
            s < 16,
            k <= n <= 16,
            cnt <= k,
            cnt == count_hits(unflat(hits@)[s as int], k as nat),
        decreases n - k,
    {
        if hits[s * 16 + k] {
            cnt = cnt + 1;
        }
        k = k + 1;
    }
    cnt
}

fn classify_clause(clause: &Clause, atoms: &AtomTable) -> (r: Result<[Class; MAX_CLAUSE_VARS], CompileError>)
    ensures
        match classify_spec(clause@, atoms@) {
            Ok(cl) => r is Ok && r->Ok_0@ == cl,
            Err(e) => r == Err::<[Class; MAX_CLAUSE_VARS], CompileError>(e),
        },
{
    let fuel = clause.subterms.len() + 1;
    let mut hits = [false; 256];
    proof {
        assert(unflat(hits@) =~= no_hits()) by {
            assert forall|i: int| 0 <= i < 16 implies #[trigger] unflat(hits@)[i] =~= no_hits()[i] by {
                assert forall|j: int| 0 <= j < 16 implies unflat(hits@)[i][j] == no_hits()[i][j] by {
                    assert(0 <= i * 16 + j < 256);
                }
            }
        }
    }
    match mark_vars(&clause.head, clause, &mut hits, 0, fuel) {
        Ok(()) => {},
        Err(e) => return Err(e),
    }
    let ghost c = clause@;
    let n = clause.body.len();
    let mut chunk: usize = 0;
    let mut i: usize = 0;
    let ghost h1 = unflat(hits@);
    while i < n
        invariant
            c == clause@,
            n == c.body.len(),
            n <= MAX_BODY,
            i <= n,
            fuel == fuel_of(c),
            chunk == chunks_before(c, i as nat),
            mark_vars_spec(c.head, c, no_hits(), 0, fuel as nat) == Ok::<Seq<Seq<bool>>, CompileError>(h1),
            mark_goals_spec(c, atoms@, 0, h1, fuel as nat) == mark_goals_spec(c, atoms@, i as nat, unflat(hits@), fuel as nat),
        decreases n - i,
    {
        proof {
            lemma_chunks_before_le(c, i as nat);
        }
        let g = *clause.body.get(i).unwrap();
        match mark_vars(&g, clause, &mut hits, chunk, fuel) {
            Ok(()) => {},
            Err(e) => return Err(e),
        }
        if i + 1 != n {
            chunk = chunk + 1;
        }
        i = i + 1;
    }
    proof {
        if n > 0 {
            lemma_chunks_before_le(c, (n - 1) as nat);
            assert(chunks_before(c, n as nat) == chunks_before(c, (n - 1) as nat));
        }
    }
    let n_chunks = chunk + 1;
    let mut classes = [Class::Unused; MAX_CLAUSE_VARS];
    let mut s: usize = 0;
    let ghost h2 = unflat(hits@);
    while s < MAX_CLAUSE_VARS
        invariant
            s <= 16,
            n_chunks <= 16,
            h2 == unflat(hits@),
            n_chunks == chunks_before(c, c.body.len()) + 1,
            forall|j: int| 0 <= j < s ==> classes@[j] == class_of(count_hits(h2[j], n_chunks as nat)),
        decreases 16 - s,
    {
        let cnt = count_row(&hits, s, n_chunks);
        classes[s] = if cnt == 0 {
            Class::Unused
        } else if cnt == 1 {
            Class::Temp
        } else {
            Class::Perm
        };
        s = s + 1;
    }
    proof {
        assert(classes@ =~= Seq::new(MAX_CLAUSE_VARS as nat, |j: int| class_of(count_hits(h2[j], n_chunks as nat))));
    }
    Ok(classes)
}

fn assign_slot(s: VarSlot, classes: &[Class; MAX_CLAUSE_VARS], rm: &mut RegMap) -> (r: Result<(), CompileError>)
    ensures
        match assign_slot_spec(s, classes@, old(rm)@) {
            Ok(m) => r is Ok && final(rm)@ == m,
            Err(e) => r == Err::<(), CompileError>(e),
        },
{
    let ix = s as usize;
    if ix >= MAX_CLAUSE_VARS {
        return Err(CompileError::TooManyVars);
    }
    if rm.roles[ix] != VarRole::Unused {
        return Ok(());
    }
    match classes[ix] {
        Class::Unused => Ok(()),
        Class::Temp => {
            if rm.n_temp >= REG_CAP {
                return Err(CompileError::TooManyXRegs);
            }
            rm.roles[ix] = VarRole::Temp { xi: rm.n_temp, seen: false };
            rm.n_temp = rm.n_temp + 1;
            Ok(())
        },
        Class::Perm => {
            if rm.n_perm >= REG_CAP {
                return Err(CompileError::TooManyYRegs);
            }
            rm.roles[ix] = VarRole::Perm { yi: rm.n_perm, seen: false };
            rm.n_perm = rm.n_perm + 1;
            Ok(())
        },
    }
}

fn walk_assign(t: &Term, clause: &Clause, classes: &[Class; MAX_CLAUSE_VARS], rm: &mut RegMap, fuel: usize) -> (r: Result<(), CompileError>)
    ensures
        match walk_spec(t@, clause@, classes@, old(rm)@, fuel as nat) {
            Ok(m) => r is Ok && final(rm)@ == m,
            Err(e) => r == Err::<(), CompileError>(e),
        },
    decreases fuel, 0nat, 0nat,
{
    match t {
        Term::Var(s) => assign_slot(*s, classes, rm),
        Term::Struct { args, .. } => {
            if fuel == 0 {
                return Err(CompileError::BadSubterm);
            }
            walk_args(args, 0, clause, classes, rm, fuel - 1)
        },
        _ => Ok(()),
    }
}

fn walk_args(args: &BoundedArr<TermIdx, MAX_ARGS>, i: usize, clause: &Clause, classes: &[Class; MAX_CLAUSE_VARS], rm: &mut RegMap, fuel: usize) -> (r: Result<(), CompileError>)
    requires
        i <= args@.len(),
    ensures
        match walk_args_spec(args@, i as nat, clause@, classes@, old(rm)@, fuel as nat) {
            Ok(m) => r is Ok && final(rm)@ == m,
            Err(e) => r == Err::<(), CompileError>(e),
        },
    decreases fuel, 1nat, args@.len() - i,
{
    if i >= args.len() {
        return Ok(());
    }
    let t = match arg_sub(clause, args, i) {
        Some(t) => t,
        None => return Err(CompileError::BadSubterm),
    };
    match walk_assign(&t, clause, classes, rm, fuel) {
        Ok(()) => {},
        Err(e) => return Err(e),
    }
    walk_args(args, i + 1, clause, classes, rm, fuel)
}

fn walk_goals(clause: &Clause, classes: &[Class; MAX_CLAUSE_VARS], i: usize, rm: &mut RegMap) -> (r: Result<(), CompileError>)
    requires
        i <= clause.body@.len(),
    ensures
        match walk_goals_spec(clause@, classes@, i as nat, old(rm)@) {
            Ok(m) => r is Ok && final(rm)@ == m,
            Err(e) => r == Err::<(), CompileError>(e),
        },
    decreases clause.body@.len() - i,
{
    if i >= clause.body.len() {
        return Ok(());
    }
    let g = *clause.body.get(i).unwrap();
    let fuel = clause.subterms.len() + 1;
    match walk_assign(&g, clause, classes, rm, fuel) {
        Ok(()) => {},
        Err(e) => return Err(e),
    }
    walk_goals(clause, classes, i + 1, rm)
}

fn assign_regs(classes: &[Class; MAX_CLAUSE_VARS], clause: &Clause) -> (r: Result<RegMap, CompileError>)
    ensures
        match assign_spec(classes@, clause@) {
            Ok(m) => r is Ok && r->Ok_0@ == m,
            Err(e) => r is Err && r->Err_0 == e,
        },
{
    let mut rm = RegMap::empty();
    let fuel = clause.subterms.len() + 1;
    match walk_assign(&clause.head, clause, classes, &mut rm, fuel) {
        Ok(()) => {},
        Err(e) => return Err(e),
    }
    match walk_goals(clause, classes, 0, &mut rm) {
        Ok(()) => Ok(rm),
        Err(e) => Err(e),
    }
}

fn regs_of(clause: &Clause, atoms: &AtomTable) -> (r: Result<RegMap, CompileError>)
    ensures
        match regs_spec(clause@, atoms@) {
            Ok(m) => r is Ok && r->Ok_0@ == m,
            Err(e) => r is Err && r->Err_0 == e,
        },
{
    let classes = match classify_clause(clause, atoms) {
        Ok(c) => c,
        Err(e) => return Err(e),
    };
    assign_regs(&classes, clause)
}

fn emit_allocate(rm: &RegMap, out: &mut BoundedArr<Instr, MAX_INSTR>) -> (r: Result<(), CompileError>)
    ensures
        emits(r, instr_views(*final(out)), rm@, allocate_spec(instr_views(*old(out)), rm@)),
{
    if rm.n_perm > 0 {
        push_i(out, Instr::Allocate { n: rm.n_perm })
    } else {
        Ok(())
    }
}

/// `Ok` with the same output as the spec, or its error.
pub open spec fn gives(r: Result<(), CompileError>, out: Seq<InstrV>, s: Result<Seq<InstrV>, CompileError>) -> bool {
    match s {
        Ok(o) => r is Ok && out == o,
        Err(e) => r == Err::<(), CompileError>(e),
    }
}

fn emit_clause_body(clause: &Clause, pname: &BoundedStr<NAME_CAP>, idx: u8, atoms: &AtomTable, out: &mut BoundedArr<Instr, MAX_INSTR>) -> (r: Result<(), CompileError>)
    ensures
        gives(r, instr_views(*final(out)), clause_body_spec(instr_views(*old(out)), clause@, atoms@, pname@, idx)),
{
    let l = match lbl_clause_body(pname, idx) {
        Ok(l) => l,
        Err(e) => return Err(e),
    };
    match push_i(out, Instr::Label(l)) {
        Ok(()) => {},
        Err(e) => return Err(e),
    }
    let mut rm = match regs_of(clause, atoms) {
        Ok(m) => m,
        Err(e) => return Err(e),
    };
    rm.pname = *pname;
    rm.clause_idx = idx;
    match emit_allocate(&rm, out) {
        Ok(()) => {},
        Err(e) => return Err(e),
    }
    match emit_head(clause, atoms, &mut rm, out) {
        Ok(()) => {},
        Err(e) => return Err(e),
    }
    match clause.kind {
        ClauseKind::Fact => push_i(out, Instr::Proceed),
        ClauseKind::Rule => {
            if clause.body.len() == 0 {
                return Err(CompileError::EmptyBody);
            }
            let fuel = clause.subterms.len() + 1;
            emit_body_goals(clause, atoms, 0, &mut rm, out, fuel)
        },
        ClauseKind::Query => Err(CompileError::BadHead),
    }
}

fn emit_query_goal(goal: &Term, clause: &Clause, atoms: &AtomTable, rm: &mut RegMap, out: &mut BoundedArr<Instr, MAX_INSTR>) -> (r: Result<(), CompileError>)
    ensures
        emits(r, instr_views(*final(out)), final(rm)@, query_goal_spec(instr_views(*old(out)), old(rm)@, clause@, atoms@, goal@)),
{
    if is_inline_builtin(goal, atoms) {
        let fuel = clause.subterms.len() + 1;
        return emit_inline_builtin(goal, clause, atoms, rm, out, fuel);
    }
    let l = match call_target(goal, clause, atoms, rm, out) {
        Ok(l) => l,
        Err(e) => return Err(e),
    };
    push_i(out, Instr::Call { label: l })
}

fn emit_query_goals(clause: &Clause, atoms: &AtomTable, i: usize, rm: &mut RegMap, out: &mut BoundedArr<Instr, MAX_INSTR>) -> (r: Result<(), CompileError>)
    requires
        i <= clause.body@.len(),
    ensures
        emits(r, instr_views(*final(out)), final(rm)@, query_goals_spec(instr_views(*old(out)), old(rm)@, clause@, atoms@, i as nat)),
    decreases clause.body@.len() - i,
{
    if i >= clause.body.len() {
        return Ok(());
    }
    let g = *clause.body.get(i).unwrap();
    match emit_query_goal(&g, clause, atoms, rm, out) {
        Ok(()) => {},
        Err(e) => return Err(e),
    }
    emit_query_goals(clause, atoms, i + 1, rm, out)
}

/// The bytes of the query's name prefix.
proof fn lemma_q_bytes()
    ensures
        sb("q").len() == 1,
{
    reveal_strlit("q");
    is_ascii_chars_encode_utf8("q"@);
}

fn emit_query_clause(clause: &Clause, atoms: &AtomTable, out: &mut BoundedArr<Instr, MAX_INSTR>) -> (r: Result<(), CompileError>)
    ensures
        gives(r, instr_views(*final(out)), query_clause_spec(instr_views(*old(out)), clause@, atoms@)),
{
    proof {
        reveal(query_clause_spec);
    }
    let ql = match lbl_query() {
        Ok(l) => l,
        Err(e) => return Err(e),
    };
    match push_i(out, Instr::Label(ql)) {
        Ok(()) => {},
        Err(e) => return Err(e),
    }
    if clause.body.is_empty() {
        return Err(CompileError::QueryShape);
    }
    let mut rm = match regs_of(clause, atoms) {
        Ok(m) => m,
        Err(e) => return Err(e),
    };
    proof {
        lemma_q_bytes();
    }
    rm.pname = match BoundedStr::<NAME_CAP>::from_str("q") {
        Ok(q) => q,
        Err(_) => return Err(CompileError::LabelOverflow),
    };
    rm.clause_idx = 0;
    match emit_allocate(&rm, out) {
        Ok(()) => {},
        Err(e) => return Err(e),
    }
    match emit_query_goals(clause, atoms, 0, &mut rm, out) {
        Ok(()) => {},
        Err(e) => return Err(e),
    }
    if rm.n_perm > 0 {
        match push_i(out, Instr::Deallocate) {
            Ok(()) => {},
            Err(e) => return Err(e),
        }
    }
    push_i(out, Instr::Halt)
}

fn emit_dispatch_loop(pname: &BoundedStr<NAME_CAP>, k: u8, count: u8, out: &mut BoundedArr<Instr, MAX_INSTR>) -> (r: Result<(), CompileError>)
    ensures
        gives(r, instr_views(*final(out)), dispatch_loop_spec(instr_views(*old(out)), pname@, k as nat, count)),
    decreases count + 1 - k,
{
    if k > count || k > 254 {
        return Ok(());
    }
    let ck = match lbl_clause(pname, k) {
        Ok(l) => l,
        Err(e) => return Err(e),
    };
    match push_i(out, Instr::Label(ck)) {
        Ok(()) => {},
        Err(e) => return Err(e),
    }
    let cbody = match lbl_clause_body(pname, k) {
        Ok(l) => l,
        Err(e) => return Err(e),
    };
    if k == count {
        match push_i(out, Instr::Trust { label: cbody }) {
            Ok(()) => {},
            Err(e) => return Err(e),
        }
    } else {
        let next = match lbl_clause(pname, k + 1) {
            Ok(l) => l,
            Err(e) => return Err(e),
        };
        match push_i(out, Instr::Retry { label: next }) {
            Ok(()) => {},
            Err(e) => return Err(e),
        }
    }
    match push_i(out, Instr::Execute { label: cbody }) {
        Ok(()) => {},
        Err(e) => return Err(e),
    }
    emit_dispatch_loop(pname, k + 1, count, out)
}

fn emit_dispatcher(pname: &BoundedStr<NAME_CAP>, count: u8, out: &mut BoundedArr<Instr, MAX_INSTR>) -> (r: Result<(), CompileError>)
    ensures
        gives(r, instr_views(*final(out)), dispatcher_spec(instr_views(*old(out)), pname@, count)),
{
    let el = match lbl_entry(pname) {
        Ok(l) => l,
        Err(e) => return Err(e),
    };
    match push_i(out, Instr::Label(el)) {
        Ok(()) => {},
        Err(e) => return Err(e),
    }
    if count == 1 {
        let b1 = match lbl_clause_body(pname, 1) {
            Ok(l) => l,
            Err(e) => return Err(e),
        };
        return push_i(out, Instr::Execute { label: b1 });
    }
    let c2 = match lbl_clause(pname, 2) {
        Ok(l) => l,
        Err(e) => return Err(e),
    };
    match push_i(out, Instr::Try { label: c2 }) {
        Ok(()) => {},
        Err(e) => return Err(e),
    }
    let b1 = match lbl_clause_body(pname, 1) {
        Ok(l) => l,
        Err(e) => return Err(e),
    };
    match push_i(out, Instr::Execute { label: b1 }) {
        Ok(()) => {},
        Err(e) => return Err(e),
    }
    emit_dispatch_loop(pname, 2, count, out)
}

/// The views of a clause array.
pub open spec fn cviews(a: BoundedArr<Clause, MAX_CLAUSES>) -> Seq<ClauseV> {
    a@.map_values(|c: Clause| c@)
}

fn emit_group_bodies(clauses: &BoundedArr<Clause, MAX_CLAUSES>, start: usize, count: usize, k: usize, pname: &BoundedStr<NAME_CAP>, atoms: &AtomTable, out: &mut BoundedArr<Instr, MAX_INSTR>) -> (r: Result<(), CompileError>)
    requires
        start + count <= clauses@.len(),
        k <= count,
    ensures
        gives(r, instr_views(*final(out)), group_bodies_spec(instr_views(*old(out)), cviews(*clauses), start as nat, count as nat, k as nat, pname@, atoms@)),
    decreases count - k,
{
    let _ = clauses.len();
    if k >= count {
        return Ok(());
    }
    let c = clauses.get(start + k).unwrap();
    match emit_clause_body(c, pname, (k + 1) as u8, atoms, out) {
        Ok(()) => {},
        Err(e) => return Err(e),
    }
    emit_group_bodies(clauses, start, count, k + 1, pname, atoms, out)
}

fn emit_group(clauses: &BoundedArr<Clause, MAX_CLAUSES>, start: usize, end: usize, pid: AtomId, atoms: &AtomTable, out: &mut BoundedArr<Instr, MAX_INSTR>) -> (r: Result<(), CompileError>)
    requires
        start <= end <= clauses@.len(),
    ensures
        gives(r, instr_views(*final(out)), group_spec(instr_views(*old(out)), cviews(*clauses), start as nat, end as nat, pid, atoms@)),
{
    let pname = match atoms.name(pid) {
        Some(n) => *n,
        None => return Err(CompileError::UnknownAtom),
    };
    let count = end - start;
    match emit_group_bodies(clauses, start, count, 0, &pname, atoms, out) {
        Ok(()) => {},
        Err(e) => return Err(e),
    }
    emit_dispatcher(&pname, count as u8, out)
}

fn head_pred(head: &Term) -> (r: Result<(AtomId, u8), CompileError>)
    ensures
        r == head_pred_spec(head@),
{
    match head {
        Term::Atom(id) => Ok((*id, 0)),
        Term::Struct { functor, args } => Ok((*functor, args.len() as u8)),
        _ => Err(CompileError::BadHead),
    }
}

fn group_end(clauses: &BoundedArr<Clause, MAX_CLAUSES>, qix: usize, fid: AtomId, ar: u8, end: usize) -> (r: Result<usize, CompileError>)
    requires
        end <= clauses@.len(),
    ensures
        match group_end_spec(cviews(*clauses), qix as nat, fid, ar, end as nat) {
            Ok(e) => r == Ok::<usize, CompileError>(e as usize) && end <= e <= clauses@.len(),
            Err(e) => r == Err::<usize, CompileError>(e),
        },
    decreases clauses@.len() - end,
{
    if end >= clauses.len() || end == qix {
        return Ok(end);
    }
    let c = clauses.get(end).unwrap();
    let (f2, a2) = match head_pred(&c.head) {
        Ok(p) => p,
        Err(e) => return Err(e),
    };
    if f2 != fid || a2 != ar {
        return Ok(end);
    }
    group_end(clauses, qix, fid, ar, end + 1)
}

fn emit_all_predicates(clauses: &BoundedArr<Clause, MAX_CLAUSES>, qix: usize, atoms: &AtomTable, i: usize, out: &mut BoundedArr<Instr, MAX_INSTR>) -> (r: Result<(), CompileError>)
    requires
        i <= clauses@.len(),
    ensures
        gives(r, instr_views(*final(out)), all_preds_spec(instr_views(*old(out)), cviews(*clauses), qix as nat, atoms@, i as nat)),
    decreases clauses@.len() - i,
{
    proof {
        reveal_with_fuel(all_preds_spec, 1);
    }
    if i >= clauses.len() {
        return Ok(());
    }
    if i == qix {
        return emit_all_predicates(clauses, qix, atoms, i + 1, out);
    }
    let c = clauses.get(i).unwrap();
    let (fid, ar) = match head_pred(&c.head) {
        Ok(p) => p,
        Err(e) => return Err(e),
    };
    let end = match group_end(clauses, qix, fid, ar, i + 1) {
        Ok(e) => e,
        Err(e) => return Err(e),
    };
    match emit_group(clauses, i, end, fid, atoms, out) {
        Ok(()) => {},
        Err(e) => return Err(e),
    }
    emit_all_predicates(clauses, qix, atoms, end, out)
}

fn find_query(clauses: &BoundedArr<Clause, MAX_CLAUSES>, i: usize, found: Option<usize>) -> (r: Result<usize, CompileError>)
    requires
        i <= clauses@.len(),
        found matches Some(q) ==> q < i,
    ensures
        match find_query_spec(cviews(*clauses), i as nat, match found { Some(q) => Some(q as nat), None => None }) {
            Ok(q) => r == Ok::<usize, CompileError>(q as usize) && q < clauses@.len() <= MAX_CLAUSES,
            Err(e) => r == Err::<usize, CompileError>(e),
        },
    decreases clauses@.len() - i,
{
    let _ = clauses.len();
    if i >= clauses.len() {
        return match found {
            Some(q) => Ok(q),
            None => Err(CompileError::NoQuery),
        };
    }
    if clauses.get(i).unwrap().kind == ClauseKind::Query {
        if found.is_some() {
            return Err(CompileError::MultipleQueries);
        }
        return find_query(clauses, i + 1, Some(i));
    }
    find_query(clauses, i + 1, found)
}

fn emit_atom_dirs(atoms: &AtomTable, id: usize, out: &mut BoundedArr<Instr, MAX_INSTR>) -> (r: Result<(), CompileError>)
    requires
        id <= atoms@.len(),
    ensures
        gives(r, instr_views(*final(out)), atom_dirs_spec(instr_views(*old(out)), atoms@, id as nat)),
    decreases atoms@.len() - id,
{
    let n = atoms.len();
    if id >= n {
        return Ok(());
    }
    let name = match atoms.name(id as AtomId) {
        Some(nm) => *nm,
        None => return Err(CompileError::UnknownAtom),
    };
    match push_i(out, Instr::AtomDir { id: id as AtomId, name }) {
        Ok(()) => {},
        Err(e) => return Err(e),
    }
    emit_atom_dirs(atoms, id + 1, out)
}

/// Compiles the clauses into the empty stream `out`.
fn compile_into(clauses: &BoundedArr<Clause, MAX_CLAUSES>, atoms: &AtomTable, out: &mut BoundedArr<Instr, MAX_INSTR>) -> (r: Result<(), CompileError>)
    requires
        instr_views(*old(out)) == Seq::<InstrV>::empty(),
    ensures
        match compile_spec(cviews(*clauses), atoms@) {
            Ok(o) => r is Ok && instr_views(*final(out)) == o,
            Err(e) => r == Err::<(), CompileError>(e),
        },
{
    let ghost cs = cviews(*clauses);
    let qix = match find_query(clauses, 0, None) {
        Ok(q) => q,
        Err(e) => return Err(e),
    };
    assert(find_query_spec(cs, 0, None) == Ok::<nat, CompileError>(qix as nat));
    match emit_atom_dirs(atoms, 0, out) {
        Ok(()) => {},
        Err(e) => return Err(e),
    }
    let ghost o1 = instr_views(*out);
    assert(atom_dirs_spec(Seq::empty(), atoms@, 0) == Ok::<Seq<InstrV>, CompileError>(o1));
    let ql = match lbl_query() {
        Ok(l) => l,
        Err(e) => return Err(e),
    };
    match push_i(out, Instr::Execute { label: ql }) {
        Ok(()) => {},
        Err(e) => return Err(e),
    }
    let ghost o2 = instr_views(*out);
    assert(push_spec(o1, InstrV::Execute { label: ql@ }) == Ok::<Seq<InstrV>, CompileError>(o2));
    match emit_all_predicates(clauses, qix, atoms, 0, out) {
        Ok(()) => {},
        Err(e) => {
            assert(all_preds_spec(o2, cs, qix as nat, atoms@, 0) == Err::<Seq<InstrV>, CompileError>(e));
            return Err(e);
        },
    }
    let q = clauses.get(qix).unwrap();
    assert(q@ == cs[qix as int]);
    emit_query_clause(q, atoms, out)
}

/// Compiles the clauses to an instruction stream: the atom directives,
/// `EXECUTE query`, each predicate's clause bodies and dispatcher, then
/// the query.
pub fn compile(clauses: &BoundedArr<Clause, MAX_CLAUSES>, atoms: &AtomTable) -> (r: Result<BoundedArr<Instr, MAX_INSTR>, CompileError>)
    ensures
        match compile_spec(cviews(*clauses), atoms@) {
            Ok(o) => r is Ok && instr_views(r->Ok_0) == o,
            Err(e) => r is Err && r->Err_0 == e,
        },
{
    let mut out: BoundedArr<Instr, MAX_INSTR> = BoundedArr::new();
    proof {
        assert(instr_views(out) =~= Seq::<InstrV>::empty());
    }
    match compile_into(clauses, atoms, &mut out) {
        Ok(()) => Ok(out),
        Err(e) => Err(e),
    }
}

} // verus!
