//! Clause parser: turns a token stream into `Clause` structures.
//!
//! Grammar:
//!   clause    := term ('.' | ':-' body '.') | '?-' body '.'
//!   body      := goal_expr (',' goal_expr)*
//!   goal_expr := rel_expr ['is' add_expr]
//!   rel_expr  := add_expr [('<' | '>' | '=') add_expr]
//!   add_expr  := goal (('+' | '-') goal)*
//!   goal      := '!' | '\+' rel_expr | term
//!   term      := atom | var | int | atom '(' term (',' term)* ')' | list
//!   list      := '[]' | '[' term (',' term)* ['|' term] ']'
//!
//! Lists desugar to `'.'(H, T)` with `Nil` for the empty list; infix
//! operators become two-argument structures named by the operator.
//! The subterms of a clause live in a flat arena addressed by
//! `TermIdx`; a structure's arguments are arena indices.
//!
//! The spec functions below (`clauses_spec` and the functions it
//! calls) state the parse over token views: the result, and the state
//! (position, atom table, arena, variable table) after it, also after
//! an error. Each exec function computes its spec function.

use crate::port::{BoundedArr, BoundedStr};
use crate::text::str_eq;
use crate::tokenize::{token_views, Token, TokenV, MAX_TOKENS};
use vstd::prelude::*;
use vstd::string::StringSliceAdditionalSpecFns;

verus! {

pub type AtomId = u16;
pub type VarSlot = u8;
pub type TermIdx = u8;

pub const MAX_ATOMS: usize = 50;
pub const MAX_CLAUSE_VARS: usize = 16;
pub const MAX_SUBTERMS: usize = 64;
pub const MAX_BODY: usize = 16;
pub const MAX_CLAUSES: usize = 64;
pub const MAX_ARGS: usize = 8;
pub const NAME_CAP: usize = 32;

#[derive(Clone, Copy, Debug)]
pub enum Term {
    Atom(AtomId),
    Var(VarSlot),
    Int(i32),
    Struct { functor: AtomId, args: BoundedArr<TermIdx, MAX_ARGS> },
    Nil,
}

/// A term with its argument list as a sequence.
pub enum TermV {
    Atom(AtomId),
    Var(VarSlot),
    Int(i32),
    Struct { functor: AtomId, args: Seq<TermIdx> },
    Nil,
}

impl View for Term {
    type V = TermV;

    open spec fn view(&self) -> TermV {
        match self {
            Term::Atom(a) => TermV::Atom(*a),
            Term::Var(v) => TermV::Var(*v),
            Term::Int(n) => TermV::Int(*n),
            Term::Struct { functor, args } => TermV::Struct { functor: *functor, args: args@ },
            Term::Nil => TermV::Nil,
        }
    }
}

#[derive(Clone, Copy, Debug, PartialEq, Eq, Structural)]
pub enum ClauseKind {
    Fact,
    Rule,
    Query,
}

#[derive(Debug, Clone, Copy, PartialEq, Eq, Structural)]
pub enum ParseError {
    UnexpectedEof(usize),
    UnexpectedToken(usize),
    MissingDot(usize),
    MismatchedParen(usize),
    MismatchedBracket(usize),
    BadOperator(usize),
    EmptyArgs(usize),
    AtomOverflow,
    VarOverflow,
    SubtermOverflow,
    TooManyArgs,
    TooManyGoals,
    TooManyClauses,
}

/// The first index at or after `i` of `s` in `names`.
pub open spec fn find_from(names: Seq<Seq<u8>>, s: Seq<u8>, i: nat) -> Option<nat>
    decreases names.len() - i,
{
    if i >= names.len() {
        None
    } else if names[i as int] == s {
        Some(i)
    } else {
        find_from(names, s, i + 1)
    }
}

/// Interning `s` in a table of at most `cap` names of at most
/// `NAME_CAP` bytes: the id of an equal name, or a new last entry.
pub open spec fn intern_spec(names: Seq<Seq<u8>>, s: Seq<u8>, cap: nat) -> Option<(nat, Seq<Seq<u8>>)> {
    if s.len() > NAME_CAP {
        None
    } else {
        match find_from(names, s, 0) {
            Some(i) => Some((i, names)),
            None => if names.len() >= cap {
                None
            } else {
                Some((names.len(), names.push(s)))
            },
        }
    }
}

proof fn lemma_find_from(names: Seq<Seq<u8>>, s: Seq<u8>, i: nat)
    ensures
        find_from(names, s, i) matches Some(k) ==> i <= k < names.len() && names[k as int] == s,
    decreases names.len() - i,
{
    if i < names.len() && names[i as int] != s {
        lemma_find_from(names, s, i + 1);
    }
}

/// The interned atom names, in id order.
#[derive(Clone, Copy, Debug)]
pub struct AtomTable {
    names: BoundedArr<BoundedStr<NAME_CAP>, MAX_ATOMS>,
}

/// The names of a bounded table, as bytes.
pub open spec fn name_views<const M: usize>(a: BoundedArr<BoundedStr<NAME_CAP>, M>) -> Seq<Seq<u8>> {
    a@.map_values(|s: BoundedStr<NAME_CAP>| s@)
}

/// Finds `key` among the names, else appends it if there is room.
fn intern_in<const M: usize>(names: &mut BoundedArr<BoundedStr<NAME_CAP>, M>, s: &str) -> (r: Option<usize>)
    ensures
        match intern_spec(name_views(*old(names)), s.spec_bytes(), M as nat) {
            Some((id, ns)) => r == Some(id as usize) && id < M && name_views(*final(names)) == ns,
            None => r is None && name_views(*final(names)) == name_views(*old(names)),
        },
        final(names)@.len() <= M,
        r matches Some(k) ==> k < M,
{
    let n = names.len();
    proof {
        lemma_find_from(name_views(*names), s.spec_bytes(), 0);
    }
    let key = match BoundedStr::<NAME_CAP>::from_str(s) {
        Ok(k) => k,
        Err(_) => return None,
    };
    let ghost ns = name_views(*names);
    let mut i: usize = 0;
    while i < n
        invariant
            n == names@.len(),
            n <= M,
            ns == name_views(*names),
            ns == name_views(*old(names)),
            key@ == s.spec_bytes(),
            s.spec_bytes().len() <= NAME_CAP,
            i <= n,
            find_from(ns, key@, i as nat) == find_from(ns, key@, 0),
        decreases n - i,
    {
        let e = names.get(i).unwrap();
        if *e == key {
            assert(ns[i as int] == key@);
            return Some(i);
        }
        i = i + 1;
    }
    let r = names.push(key);
    proof {
        assert(name_views(*names) =~= if ns.len() >= M { ns } else { ns.push(key@) });
    }
    match r {
        Ok(()) => Some(n),
        Err(_) => None,
    }
}

/// The index of the name with bytes `s`.
fn find_in<const M: usize>(names: &BoundedArr<BoundedStr<NAME_CAP>, M>, s: &str) -> (r: Option<usize>)
    ensures
        match find_from(name_views(*names), s.spec_bytes(), 0) {
            Some(i) => r == Some(i as usize) && i < M,
            None => r is None,
        },
{
    let ghost ns = name_views(*names);
    let n = names.len();
    proof {
        lemma_find_from(ns, s.spec_bytes(), 0);
    }
    let mut i: usize = 0;
    while i < n
        invariant
            n == names@.len(),
            n <= M,
            ns == name_views(*names),
            i <= n,
            find_from(ns, s.spec_bytes(), i as nat) == find_from(ns, s.spec_bytes(), 0),
        decreases n - i,
    {
        let e = names.get(i).unwrap();
        if str_eq(e.as_str(), s) {
            assert(ns[i as int] == s.spec_bytes());
            return Some(i);
        }
        i = i + 1;
    }
    None
}

impl View for AtomTable {
    type V = Seq<Seq<u8>>;

    closed spec fn view(&self) -> Seq<Seq<u8>> {
        name_views(self.names)
    }
}

impl AtomTable {
    pub fn new() -> (r: Self)
        ensures
            r@ == Seq::<Seq<u8>>::empty(),
    {
        let r = Self { names: BoundedArr::new() };
        proof {
            assert(r@ =~= Seq::<Seq<u8>>::empty());
        }
        r
    }

    /// The id of the atom named `s`, adding it when new.
    pub fn intern(&mut self, s: &str) -> (r: Result<AtomId, ParseError>)
        ensures
            match intern_spec(old(self)@, s.spec_bytes(), MAX_ATOMS as nat) {
                Some((id, ns)) => r == Ok::<AtomId, ParseError>(id as AtomId) && final(self)@ == ns,
                None => r == Err::<AtomId, ParseError>(ParseError::AtomOverflow) && final(self)@
                    == old(self)@,
            },
            final(self)@.len() <= MAX_ATOMS,
    {
        match intern_in(&mut self.names, s) {
            Some(i) => Ok(i as AtomId),
            None => Err(ParseError::AtomOverflow),
        }
    }

    pub fn name(&self, id: AtomId) -> (r: Option<&BoundedStr<NAME_CAP>>)
        ensures
            (id as int) < self@.len() ==> r is Some && r->0@ == self@[id as int],
            (id as int) >= self@.len() ==> r is None,
    {
        self.names.get(id as usize)
    }

    pub fn find(&self, s: &str) -> (r: Option<AtomId>)
        ensures
            match find_from(self@, s.spec_bytes(), 0) {
                Some(i) => r == Some(i as AtomId),
                None => r is None,
            },
    {
        match find_in(&self.names, s) {
            Some(i) => Some(i as AtomId),
            None => None,
        }
    }

    pub fn len(&self) -> (r: usize)
        ensures
            r == self@.len(),
            r <= MAX_ATOMS,
    {
        self.names.len()
    }

    pub fn is_empty(&self) -> (r: bool)
        ensures
            r == (self@.len() == 0),
    {
        self.names.is_empty()
    }
}

impl Default for AtomTable {
    fn default() -> (r: Self)
        ensures
            r@ == Seq::<Seq<u8>>::empty(),
    {
        Self::new()
    }
}

/// The variable names of one clause, in slot order.
#[derive(Clone, Copy, Debug)]
pub struct VarTable {
    names: BoundedArr<BoundedStr<NAME_CAP>, MAX_CLAUSE_VARS>,
}

impl View for VarTable {
    type V = Seq<Seq<u8>>;

    closed spec fn view(&self) -> Seq<Seq<u8>> {
        name_views(self.names)
    }
}

impl VarTable {
    pub fn new() -> (r: Self)
        ensures
            r@ == Seq::<Seq<u8>>::empty(),
    {
        let r = Self { names: BoundedArr::new() };
        proof {
            assert(r@ =~= Seq::<Seq<u8>>::empty());
        }
        r
    }

    /// The slot of the variable named `s`, adding it when new.
    pub fn slot(&mut self, s: &str) -> (r: Result<VarSlot, ParseError>)
        ensures
            match intern_spec(old(self)@, s.spec_bytes(), MAX_CLAUSE_VARS as nat) {
                Some((id, ns)) => r == Ok::<VarSlot, ParseError>(id as VarSlot) && final(self)@ == ns,
                None => r == Err::<VarSlot, ParseError>(ParseError::VarOverflow) && final(self)@
                    == old(self)@,
            },
            final(self)@.len() <= MAX_CLAUSE_VARS,
    {
        match intern_in(&mut self.names, s) {
            Some(i) => Ok(i as VarSlot),
            None => Err(ParseError::VarOverflow),
        }
    }

    pub fn name(&self, slot: VarSlot) -> (r: Option<&BoundedStr<NAME_CAP>>)
        ensures
            (slot as int) < self@.len() ==> r is Some && r->0@ == self@[slot as int],
            (slot as int) >= self@.len() ==> r is None,
    {
        self.names.get(slot as usize)
    }

    pub fn len(&self) -> (r: usize)
        ensures
            r == self@.len(),
            r <= MAX_CLAUSE_VARS,
    {
        self.names.len()
    }

    pub fn is_empty(&self) -> (r: bool)
        ensures
            r == (self@.len() == 0),
    {
        self.names.is_empty()
    }
}

impl Default for VarTable {
    fn default() -> (r: Self)
        ensures
            r@ == Seq::<Seq<u8>>::empty(),
    {
        Self::new()
    }
}

#[derive(Clone, Copy, Debug)]
pub struct Clause {
    pub kind: ClauseKind,
    pub head: Term,
    pub body: BoundedArr<Term, MAX_BODY>,
    pub subterms: BoundedArr<Term, MAX_SUBTERMS>,
    pub vars: VarTable,
}

/// The views of an array of terms.
pub open spec fn terms_view<const M: usize>(a: BoundedArr<Term, M>) -> Seq<TermV> {
    a@.map_values(|t: Term| t@)
}

/// A clause as values.
pub struct ClauseV {
    pub kind: ClauseKind,
    pub head: TermV,
    pub body: Seq<TermV>,
    pub subterms: Seq<TermV>,
    pub vars: Seq<Seq<u8>>,
}

impl View for Clause {
    type V = ClauseV;

    open spec fn view(&self) -> ClauseV {
        ClauseV {
            kind: self.kind,
            head: self.head@,
            body: terms_view(self.body),
            subterms: terms_view(self.subterms),
            vars: self.vars@,
        }
    }
}

impl Clause {
    pub fn new() -> (r: Self)
        ensures
            r@ == (ClauseV {
                kind: ClauseKind::Fact,
                head: TermV::Nil,
                body: Seq::empty(),
                subterms: Seq::empty(),
                vars: Seq::empty(),
            }),
    {
        let r = Self {
            kind: ClauseKind::Fact,
            head: Term::Nil,
            body: BoundedArr::new(),
            subterms: BoundedArr::new(),
            vars: VarTable::new(),
        };
        proof {
            assert(terms_view(r.body) =~= Seq::<TermV>::empty());
            assert(terms_view(r.subterms) =~= Seq::<TermV>::empty());
        }
        r
    }

    /// The arena term at `idx`.
    pub fn subterm(&self, idx: TermIdx) -> (r: Option<&Term>)
        ensures
            (idx as int) < self.subterms@.len() ==> r == Some(&self.subterms@[idx as int]),
            (idx as int) >= self.subterms@.len() ==> r is None,
    {
        self.subterms.get(idx as usize)
    }
}

impl Default for Clause {
    fn default() -> (r: Self)
        ensures
            r@ == (ClauseV {
                kind: ClauseKind::Fact,
                head: TermV::Nil,
                body: Seq::empty(),
                subterms: Seq::empty(),
                vars: Seq::empty(),
            }),
    {
        Self::new()
    }
}

/// The parser's state: token position, atom table, the clause's arena
/// and variable table.
pub struct PState {
    pub pos: int,
    pub atoms: Seq<Seq<u8>>,
    pub subs: Seq<TermV>,
    pub vars: Seq<Seq<u8>>,
}

pub type PRes = (Result<TermV, ParseError>, PState);

pub open spec fn peek(ts: Seq<TokenV>, pos: int) -> Option<TokenV> {
    if 0 <= pos < ts.len() {
        Some(ts[pos])
    } else {
        None
    }
}

/// Tokens left from `pos`.
pub open spec fn rem(ts: Seq<TokenV>, pos: int) -> nat {
    if 0 <= pos <= ts.len() {
        (ts.len() - pos) as nat
    } else {
        0
    }
}

pub open spec fn with_pos(st: PState, pos: int) -> PState {
    PState { pos, ..st }
}

pub open spec fn intern_st(st: PState, name: Seq<u8>) -> (Result<AtomId, ParseError>, PState) {
    match intern_spec(st.atoms, name, MAX_ATOMS as nat) {
        Some((id, ns)) => (Ok(id as AtomId), PState { atoms: ns, ..st }),
        None => (Err(ParseError::AtomOverflow), st),
    }
}

pub open spec fn slot_st(st: PState, name: Seq<u8>) -> (Result<VarSlot, ParseError>, PState) {
    match intern_spec(st.vars, name, MAX_CLAUSE_VARS as nat) {
        Some((id, ns)) => (Ok(id as VarSlot), PState { vars: ns, ..st }),
        None => (Err(ParseError::VarOverflow), st),
    }
}

pub open spec fn push_sub_st(st: PState, t: TermV) -> (Result<TermIdx, ParseError>, PState) {
    if st.subs.len() >= MAX_SUBTERMS {
        (Err(ParseError::SubtermOverflow), st)
    } else {
        (Ok(st.subs.len() as TermIdx), PState { subs: st.subs.push(t), ..st })
    }
}

/// The two-argument structure `op(left, right)`.
pub open spec fn infix_spec(st: PState, op: Seq<u8>, left: TermV, right: TermV) -> PRes {
    let (rid, s1) = intern_st(st, op);
    match rid {
        Err(e) => (Err(e), s1),
        Ok(id) => {
            let (rl, s2) = push_sub_st(s1, left);
            match rl {
                Err(e) => (Err(e), s2),
                Ok(li) => {
                    let (rr, s3) = push_sub_st(s2, right);
                    match rr {
                        Err(e) => (Err(e), s3),
                        Ok(ri) => (Ok(TermV::Struct { functor: id, args: seq![li, ri] }), s3),
                    }
                },
            }
        },
    }
}

/// A term at the token position.
pub open spec fn term_spec(ts: Seq<TokenV>, st: PState) -> PRes
    decreases rem(ts, st.pos), 1nat,
{
    let start = st.pos as usize;
    match peek(ts, st.pos) {
        None => (Err(ParseError::UnexpectedEof(start)), st),
        Some(tok) => {
            let st1 = with_pos(st, st.pos + 1);
            match tok {
                TokenV::Atom(name) => atom_or_struct_spec(ts, st1, name),
                TokenV::Var(name) => {
                    let (r, s2) = slot_st(st1, name);
                    match r {
                        Ok(v) => (Ok(TermV::Var(v)), s2),
                        Err(e) => (Err(e), s2),
                    }
                },
                TokenV::Int(n) => (Ok(TermV::Int(n)), st1),
                TokenV::LBracket => list_spec(ts, st1),
                TokenV::Cut => (Err(ParseError::BadOperator(start)), st1),
                TokenV::Not => (Err(ParseError::BadOperator(start)), st1),
                _ => (Err(ParseError::UnexpectedToken(start)), st1),
            }
        },
    }
}

/// An atom, or a structure when `(` follows its name.
pub open spec fn atom_or_struct_spec(ts: Seq<TokenV>, st: PState, name: Seq<u8>) -> PRes
    decreases rem(ts, st.pos), 0nat,
{
    if peek(ts, st.pos) != Some(TokenV::LParen) {
        let (r, s2) = intern_st(st, name);
        match r {
            Ok(id) => (Ok(TermV::Atom(id)), s2),
            Err(e) => (Err(e), s2),
        }
    } else {
        let st1 = with_pos(st, st.pos + 1);
        if peek(ts, st1.pos) == Some(TokenV::RParen) {
            (Err(ParseError::EmptyArgs(st1.pos as usize)), st1)
        } else {
            let (r, s2) = intern_st(st1, name);
            match r {
                Err(e) => (Err(e), s2),
                Ok(id) => args_spec(ts, s2, id, Seq::empty()),
            }
        }
    }
}

/// Structure arguments from the token position, `args` read so far.
pub open spec fn args_spec(ts: Seq<TokenV>, st: PState, functor: AtomId, args: Seq<TermIdx>) -> PRes
    decreases rem(ts, st.pos), 2nat,
{
    let (r, s1) = term_spec(ts, st);
    match r {
        Err(e) => (Err(e), s1),
        Ok(arg) => if rem(ts, s1.pos) >= rem(ts, st.pos) {
            (Err(ParseError::UnexpectedToken(st.pos as usize)), s1)
        } else {
            let (ri, s2) = push_sub_st(s1, arg);
            match ri {
                Err(e) => (Err(e), s2),
                Ok(idx) => if args.len() >= MAX_ARGS {
                    (Err(ParseError::TooManyArgs), s2)
                } else {
                    let args2 = args.push(idx);
                    match peek(ts, s2.pos) {
                        Some(TokenV::Comma) => args_spec(ts, with_pos(s2, s2.pos + 1), functor, args2),
                        Some(TokenV::RParen) => (
                            Ok(TermV::Struct { functor, args: args2 }),
                            with_pos(s2, s2.pos + 1),
                        ),
                        Some(_) => (Err(ParseError::MismatchedParen(s2.pos as usize)), s2),
                        None => (Err(ParseError::UnexpectedEof(s2.pos as usize)), s2),
                    }
                },
            }
        },
    }
}

/// A list after its `[`.
pub open spec fn list_spec(ts: Seq<TokenV>, st: PState) -> PRes
    decreases rem(ts, st.pos), 4nat,
{
    let (r, s1) = intern_st(st, "[]".spec_bytes());
    match r {
        Err(e) => (Err(e), s1),
        Ok(_) => if peek(ts, s1.pos) == Some(TokenV::RBracket) {
            (Ok(TermV::Nil), with_pos(s1, s1.pos + 1))
        } else {
            elements_spec(ts, s1, Seq::empty())
        },
    }
}

/// List elements from the token position, `elems` read so far.
pub open spec fn elements_spec(ts: Seq<TokenV>, st: PState, elems: Seq<TermV>) -> PRes
    decreases rem(ts, st.pos), 3nat,
{
    let (r, s1) = term_spec(ts, st);
    match r {
        Err(e) => (Err(e), s1),
        Ok(e) => if rem(ts, s1.pos) >= rem(ts, st.pos) {
            (Err(ParseError::UnexpectedToken(st.pos as usize)), s1)
        } else if elems.len() >= MAX_SUBTERMS {
            (Err(ParseError::SubtermOverflow), s1)
        } else {
            let el2 = elems.push(e);
            if peek(ts, s1.pos) == Some(TokenV::Comma) {
                elements_spec(ts, with_pos(s1, s1.pos + 1), el2)
            } else {
                list_tail_spec(ts, s1, el2)
            }
        },
    }
}

/// The optional `| Tail`, the `]`, and the cons cells of the list.
pub open spec fn list_tail_spec(ts: Seq<TokenV>, st: PState, elems: Seq<TermV>) -> PRes
    decreases rem(ts, st.pos), 2nat,
{
    let (rt, s1) = if peek(ts, st.pos) == Some(TokenV::Pipe) {
        term_spec(ts, with_pos(st, st.pos + 1))
    } else {
        (Ok(TermV::Nil), st)
    };
    match rt {
        Err(e) => (Err(e), s1),
        Ok(tail) => match peek(ts, s1.pos) {
            Some(TokenV::RBracket) => {
                let (rd, s3) = intern_st(with_pos(s1, s1.pos + 1), ".".spec_bytes());
                match rd {
                    Err(e) => (Err(e), s3),
                    Ok(dot) => fold_list_spec(s3, dot, elems, elems.len() as int, tail),
                }
            },
            Some(_) => (Err(ParseError::MismatchedBracket(s1.pos as usize)), s1),
            None => (Err(ParseError::UnexpectedEof(s1.pos as usize)), s1),
        },
    }
}

/// Cons cells for `elems[..i]` ending in `current`, innermost first.
pub open spec fn fold_list_spec(st: PState, dot: AtomId, elems: Seq<TermV>, i: int, current: TermV) -> PRes
    decreases i,
{
    if i <= 0 {
        (Ok(current), st)
    } else {
        let (rh, s1) = push_sub_st(st, elems[i - 1]);
        match rh {
            Err(e) => (Err(e), s1),
            Ok(hi) => {
                let (rt, s2) = push_sub_st(s1, current);
                match rt {
                    Err(e) => (Err(e), s2),
                    Ok(ti) => fold_list_spec(
                        s2,
                        dot,
                        elems,
                        i - 1,
                        TermV::Struct { functor: dot, args: seq![hi, ti] },
                    ),
                }
            },
        }
    }
}

/// `!`, `\+ goal`, or a term.
pub open spec fn goal_spec(ts: Seq<TokenV>, st: PState) -> PRes
    decreases rem(ts, st.pos), 2nat,
{
    match peek(ts, st.pos) {
        Some(TokenV::Cut) => {
            let (r, s2) = intern_st(with_pos(st, st.pos + 1), "!".spec_bytes());
            match r {
                Ok(id) => (Ok(TermV::Atom(id)), s2),
                Err(e) => (Err(e), s2),
            }
        },
        Some(TokenV::Not) => {
            let (r, s2) = rel_spec(ts, with_pos(st, st.pos + 1));
            match r {
                Err(e) => (Err(e), s2),
                Ok(inner) => {
                    let (rid, s3) = intern_st(s2, "\\+".spec_bytes());
                    match rid {
                        Err(e) => (Err(e), s3),
                        Ok(id) => {
                            let (ri, s4) = push_sub_st(s3, inner);
                            match ri {
                                Err(e) => (Err(e), s4),
                                Ok(idx) => (Ok(TermV::Struct { functor: id, args: seq![idx] }), s4),
                            }
                        },
                    }
                },
            }
        },
        Some(_) => term_spec(ts, st),
        None => (Err(ParseError::UnexpectedEof(st.pos as usize)), st),
    }
}

/// The name of an additive operator token.
pub open spec fn add_op(t: Option<TokenV>) -> Option<Seq<u8>> {
    match t {
        Some(TokenV::Plus) => Some("+".spec_bytes()),
        Some(TokenV::Minus) => Some("-".spec_bytes()),
        _ => None,
    }
}

/// The name of a comparison operator token.
pub open spec fn rel_op(t: Option<TokenV>) -> Option<Seq<u8>> {
    match t {
        Some(TokenV::Lt) => Some("<".spec_bytes()),
        Some(TokenV::Gt) => Some(">".spec_bytes()),
        Some(TokenV::Eq) => Some("=".spec_bytes()),
        _ => None,
    }
}

/// A left-associative chain of `+` / `-`.
pub open spec fn add_spec(ts: Seq<TokenV>, st: PState) -> PRes
    decreases rem(ts, st.pos), 4nat,
{
    let (r, s1) = goal_spec(ts, st);
    match r {
        Err(e) => (Err(e), s1),
        Ok(left) => if rem(ts, s1.pos) > rem(ts, st.pos) {
            (Err(ParseError::UnexpectedToken(st.pos as usize)), s1)
        } else {
            add_loop_spec(ts, s1, left)
        },
    }
}

pub open spec fn add_loop_spec(ts: Seq<TokenV>, st: PState, left: TermV) -> PRes
    decreases rem(ts, st.pos), 3nat,
{
    match add_op(peek(ts, st.pos)) {
        None => (Ok(left), st),
        Some(op) => {
            let s1 = with_pos(st, st.pos + 1);
            let (r, s2) = goal_spec(ts, s1);
            match r {
                Err(e) => (Err(e), s2),
                Ok(right) => if rem(ts, s2.pos) > rem(ts, s1.pos) {
                    (Err(ParseError::UnexpectedToken(st.pos as usize)), s2)
                } else {
                    let (rb, s3) = infix_spec(s2, op, left, right);
                    match rb {
                        Err(e) => (Err(e), s3),
                        Ok(t) => add_loop_spec(ts, s3, t),
                    }
                },
            }
        },
    }
}

/// An additive expression, optionally compared with another.
pub open spec fn rel_spec(ts: Seq<TokenV>, st: PState) -> PRes
    decreases rem(ts, st.pos), 5nat,
{
    let (r, s1) = add_spec(ts, st);
    match r {
        Err(e) => (Err(e), s1),
        Ok(left) => match rel_op(peek(ts, s1.pos)) {
            None => (Ok(left), s1),
            Some(op) => if rem(ts, s1.pos) > rem(ts, st.pos) {
                (Err(ParseError::UnexpectedToken(st.pos as usize)), s1)
            } else {
                let (r2, s3) = add_spec(ts, with_pos(s1, s1.pos + 1));
                match r2 {
                    Err(e) => (Err(e), s3),
                    Ok(right) => infix_spec(s3, op, left, right),
                }
            },
        },
    }
}

/// The atom `is` stands at `pos`.
pub open spec fn is_infix_is(ts: Seq<TokenV>, pos: int) -> bool {
    match peek(ts, pos) {
        Some(TokenV::Atom(n)) => n == "is".spec_bytes(),
        _ => false,
    }
}

/// A comparison, optionally the left side of `is`.
pub open spec fn goal_expr_spec(ts: Seq<TokenV>, st: PState) -> PRes
    decreases rem(ts, st.pos), 6nat,
{
    let (r, s1) = rel_spec(ts, st);
    match r {
        Err(e) => (Err(e), s1),
        Ok(left) => if is_infix_is(ts, s1.pos) {
            if rem(ts, s1.pos) > rem(ts, st.pos) {
                (Err(ParseError::UnexpectedToken(st.pos as usize)), s1)
            } else {
                let (r2, s3) = add_spec(ts, with_pos(s1, s1.pos + 1));
                match r2 {
                    Err(e) => (Err(e), s3),
                    Ok(right) => infix_spec(s3, "is".spec_bytes(), left, right),
                }
            }
        } else {
            (Ok(left), s1)
        },
    }
}

/// Body goals from the token position, `body` read so far.
pub open spec fn body_spec(ts: Seq<TokenV>, st: PState, body: Seq<TermV>) -> (Result<Seq<TermV>, ParseError>, PState)
    decreases rem(ts, st.pos), 7nat,
{
    let (r, s1) = goal_expr_spec(ts, st);
    match r {
        Err(e) => (Err(e), s1),
        Ok(g) => if body.len() >= MAX_BODY {
            (Err(ParseError::TooManyGoals), s1)
        } else {
            let b2 = body.push(g);
            if peek(ts, s1.pos) == Some(TokenV::Comma) {
                if rem(ts, s1.pos) > rem(ts, st.pos) {
                    (Err(ParseError::UnexpectedToken(st.pos as usize)), s1)
                } else {
                    body_spec(ts, with_pos(s1, s1.pos + 1), b2)
                }
            } else {
                (Ok(b2), s1)
            }
        },
    }
}

/// The clause `c` when a `.` follows.
pub open spec fn expect_dot(ts: Seq<TokenV>, st: PState, c: ClauseV) -> (Result<ClauseV, ParseError>, PState) {
    match peek(ts, st.pos) {
        Some(TokenV::Dot) => (Ok(c), with_pos(st, st.pos + 1)),
        Some(_) => (Err(ParseError::MissingDot(st.pos as usize)), st),
        None => (Err(ParseError::UnexpectedEof(st.pos as usize)), st),
    }
}

/// One clause, with a fresh arena and variable table.
#[verifier::opaque]
pub open spec fn clause_spec(ts: Seq<TokenV>, st: PState) -> (Result<ClauseV, ParseError>, PState)
    decreases rem(ts, st.pos), 8nat,
{
    let s0 = PState { subs: Seq::empty(), vars: Seq::empty(), ..st };
    if peek(ts, s0.pos) == Some(TokenV::Query) {
        let (rb, s2) = body_spec(ts, with_pos(s0, s0.pos + 1), Seq::empty());
        match rb {
            Err(e) => (Err(e), s2),
            Ok(body) => expect_dot(
                ts,
                s2,
                ClauseV { kind: ClauseKind::Query, head: TermV::Nil, body, subterms: s2.subs, vars: s2.vars },
            ),
        }
    } else {
        let (rh, s1) = term_spec(ts, s0);
        match rh {
            Err(e) => (Err(e), s1),
            Ok(head) => match peek(ts, s1.pos) {
                Some(TokenV::Dot) => (
                    Ok(ClauseV { kind: ClauseKind::Fact, head, body: Seq::empty(), subterms: s1.subs, vars: s1.vars }),
                    with_pos(s1, s1.pos + 1),
                ),
                Some(TokenV::Neck) => if rem(ts, s1.pos) > rem(ts, st.pos) {
                    (Err(ParseError::UnexpectedToken(st.pos as usize)), s1)
                } else {
                    let (rb, s2) = body_spec(ts, with_pos(s1, s1.pos + 1), Seq::empty());
                    match rb {
                        Err(e) => (Err(e), s2),
                        Ok(body) => expect_dot(
                            ts,
                            s2,
                            ClauseV { kind: ClauseKind::Rule, head, body, subterms: s2.subs, vars: s2.vars },
                        ),
                    }
                },
                Some(_) => (Err(ParseError::MissingDot(s1.pos as usize)), s1),
                None => (Err(ParseError::UnexpectedEof(s1.pos as usize)), s1),
            },
        }
    }
}

/// No clause starts at `pos`: the tokens are used up or `Eof` stands
/// there.
pub open spec fn at_end(ts: Seq<TokenV>, pos: int) -> bool {
    match peek(ts, pos) {
        None => true,
        Some(TokenV::Eof) => true,
        _ => false,
    }
}

/// Clauses from the token position, `acc` read so far.
pub open spec fn clauses_spec(ts: Seq<TokenV>, st: PState, acc: Seq<ClauseV>) -> (Result<Seq<ClauseV>, ParseError>, PState)
    decreases rem(ts, st.pos), 9nat,
{
    if at_end(ts, st.pos) {
        (Ok(acc), st)
    } else {
        let (rc, s1) = clause_spec(ts, st);
        match rc {
            Err(e) => (Err(e), s1),
            Ok(c) => if acc.len() >= MAX_CLAUSES {
                (Err(ParseError::TooManyClauses), s1)
            } else if rem(ts, s1.pos) >= rem(ts, st.pos) {
                (Err(ParseError::UnexpectedToken(st.pos as usize)), s1)
            } else {
                clauses_spec(ts, PState { subs: Seq::empty(), vars: Seq::empty(), ..s1 }, acc.push(c))
            },
        }
    }
}

/// The parse of the token views `ts` with atom table `atoms`: the
/// clauses or the first error, and the atom table after it.
pub open spec fn parse_spec(ts: Seq<TokenV>, atoms: Seq<Seq<u8>>) -> (Result<Seq<ClauseV>, ParseError>, Seq<Seq<u8>>) {
    let (r, st) = clauses_spec(ts, PState { pos: 0, atoms, subs: Seq::empty(), vars: Seq::empty() }, Seq::empty());
    (r, st.atoms)
}

/// The state of the exec parser.
pub open spec fn pst(pos: usize, atoms: AtomTable, subs: BoundedArr<Term, MAX_SUBTERMS>, vars: VarTable) -> PState {
    PState { pos: pos as int, atoms: atoms@, subs: terms_view(subs), vars: vars@ }
}

pub open spec fn rview(r: Result<Term, ParseError>) -> Result<TermV, ParseError> {
    match r {
        Ok(t) => Ok(t@),
        Err(e) => Err(e),
    }
}

/// The views of an array of clauses.
pub open spec fn clause_views(a: BoundedArr<Clause, MAX_CLAUSES>) -> Seq<ClauseV> {
    a@.map_values(|c: Clause| c@)
}

pub open spec fn cview(r: Result<Clause, ParseError>) -> Result<ClauseV, ParseError> {
    match r {
        Ok(c) => Ok(c@),
        Err(e) => Err(e),
    }
}

pub open spec fn bview(r: Result<BoundedArr<Term, MAX_BODY>, ParseError>) -> Result<Seq<TermV>, ParseError> {
    match r {
        Ok(b) => Ok(terms_view(b)),
        Err(e) => Err(e),
    }
}

/// Parses the token stream into clauses, interning atoms in `atoms`.
pub fn parse(toks: &BoundedArr<Token, MAX_TOKENS>, atoms: &mut AtomTable) -> (r: Result<
    BoundedArr<Clause, MAX_CLAUSES>,
    ParseError,
>)
    ensures
        ({
            let (rs, at) = parse_spec(token_views(*toks), old(atoms)@);
            &&& final(atoms)@ == at
            &&& match rs {
                Ok(cs) => r is Ok && clause_views(r->Ok_0) == cs,
                Err(e) => r == Err::<BoundedArr<Clause, MAX_CLAUSES>, ParseError>(e),
            }
        }),
{
    let ghost ts = token_views(*toks);
    let n = toks.len();
    let mut pos: usize = 0;
    let mut clauses: BoundedArr<Clause, MAX_CLAUSES> = BoundedArr::new();
    let ghost st0 = PState { pos: 0, atoms: atoms@, subs: Seq::empty(), vars: Seq::empty() };
    proof {
        assert(clause_views(clauses) =~= Seq::<ClauseV>::empty());
    }
    loop
        invariant
            ts == token_views(*toks),
            n == toks@.len(),
            pos <= n,
            clauses_spec(ts, PState { pos: pos as int, atoms: atoms@, subs: Seq::empty(), vars: Seq::empty() }, clause_views(clauses))
                == clauses_spec(ts, st0, Seq::empty()),
            st0.atoms == old(atoms)@,
            st0 == (PState { pos: 0, atoms: old(atoms)@, subs: Seq::empty(), vars: Seq::empty() }),
        decreases n - pos,
    {
        let at = peek_tok(toks, pos);
        if matches!(at, None) || matches!(at, Some(Token::Eof)) {
            return Ok(clauses);
        }
        let ghost before = clause_views(clauses);
        let ghost p0 = pos;
        let c = match parse_clause(toks, &mut pos, atoms) {
            Ok(c) => c,
            Err(e) => return Err(e),
        };
        match clauses.push(c) {
            Ok(()) => {},
            Err(_) => return Err(ParseError::TooManyClauses),
        }
        proof {
            assert(clause_views(clauses) =~= before.push(c@));
            assert(rem(ts, pos as int) < rem(ts, p0 as int));
        }
    }
}

fn peek_tok(toks: &BoundedArr<Token, MAX_TOKENS>, pos: usize) -> (r: Option<Token>)
    ensures
        match peek(token_views(*toks), pos as int) {
            Some(t) => r is Some && r->0@ == t,
            None => r is None,
        },
        toks@.len() <= MAX_TOKENS,
        r is Some ==> (pos as int) < toks@.len(),
{
    let _ = toks.len();
    match toks.get(pos) {
        Some(t) => Some(*t),
        None => None,
    }
}

fn push_sub(subs: &mut BoundedArr<Term, MAX_SUBTERMS>, t: Term) -> (r: Result<TermIdx, ParseError>)
    ensures
        terms_view(*old(subs)).len() >= MAX_SUBTERMS ==> r == Err::<TermIdx, ParseError>(ParseError::SubtermOverflow)
            && terms_view(*final(subs)) == terms_view(*old(subs)),
        terms_view(*old(subs)).len() < MAX_SUBTERMS ==> r == Ok::<TermIdx, ParseError>(terms_view(*old(subs)).len() as TermIdx)
            && terms_view(*final(subs)) == terms_view(*old(subs)).push(t@),
{
    let idx = subs.len();
    let ghost before = terms_view(*subs);
    match subs.push(t) {
        Ok(()) => {
            proof {
                assert(terms_view(*subs) =~= before.push(t@));
            }
            Ok(idx as TermIdx)
        },
        Err(_) => Err(ParseError::SubtermOverflow),
    }
}

/// `op(left, right)` with both sides pushed to the arena.
fn build_infix(
    pos: usize,
    atoms: &mut AtomTable,
    subs: &mut BoundedArr<Term, MAX_SUBTERMS>,
    vars: &VarTable,
    op: &str,
    left: Term,
    right: Term,
) -> (r: Result<Term, ParseError>)
    ensures
        (rview(r), pst(pos, *final(atoms), *final(subs), *vars)) == infix_spec(
            pst(pos, *old(atoms), *old(subs), *vars),
            op.spec_bytes(),
            left@,
            right@,
        ),
{
    let id = match atoms.intern(op) {
        Ok(id) => id,
        Err(e) => return Err(e),
    };
    let li = match push_sub(subs, left) {
        Ok(i) => i,
        Err(e) => return Err(e),
    };
    let ri = match push_sub(subs, right) {
        Ok(i) => i,
        Err(e) => return Err(e),
    };
    let args = pair(li, ri);
    Ok(Term::Struct { functor: id, args })
}

fn pair(a: TermIdx, b: TermIdx) -> (r: BoundedArr<TermIdx, MAX_ARGS>)
    ensures
        r@ == seq![a, b],
{
    let mut args: BoundedArr<TermIdx, MAX_ARGS> = BoundedArr::new();
    let _ = args.push(a);
    let _ = args.push(b);
    proof {
        assert(args@ =~= seq![a, b]);
    }
    args
}

fn single(a: TermIdx) -> (r: BoundedArr<TermIdx, MAX_ARGS>)
    ensures
        r@ == seq![a],
{
    let mut args: BoundedArr<TermIdx, MAX_ARGS> = BoundedArr::new();
    let _ = args.push(a);
    proof {
        assert(args@ =~= seq![a]);
    }
    args
}

fn parse_term(
    toks: &BoundedArr<Token, MAX_TOKENS>,
    pos: &mut usize,
    atoms: &mut AtomTable,
    subs: &mut BoundedArr<Term, MAX_SUBTERMS>,
    vars: &mut VarTable,
) -> (r: Result<Term, ParseError>)
    requires
        *old(pos) <= toks@.len(),
    ensures
        (rview(r), pst(*final(pos), *final(atoms), *final(subs), *final(vars))) == term_spec(
            token_views(*toks),
            pst(*old(pos), *old(atoms), *old(subs), *old(vars)),
        ),
        *final(pos) <= toks@.len(),
        r is Ok ==> *old(pos) < *final(pos),
    decreases toks@.len() - *old(pos), 1nat,
{
    let start = *pos;
    let tok = match peek_tok(toks, *pos) {
        Some(t) => t,
        None => return Err(ParseError::UnexpectedEof(start)),
    };
    *pos = *pos + 1;
    match tok {
        Token::Atom(name) => parse_atom_or_struct(toks, pos, atoms, subs, vars, &name),
        Token::Var(name) => match vars.slot(name.as_str()) {
            Ok(v) => Ok(Term::Var(v)),
            Err(e) => Err(e),
        },
        Token::Int(n) => Ok(Term::Int(n)),
        Token::LBracket => parse_list(toks, pos, atoms, subs, vars),
        Token::Cut => Err(ParseError::BadOperator(start)),
        Token::Not => Err(ParseError::BadOperator(start)),
        _ => Err(ParseError::UnexpectedToken(start)),
    }
}

fn parse_atom_or_struct(
    toks: &BoundedArr<Token, MAX_TOKENS>,
    pos: &mut usize,
    atoms: &mut AtomTable,
    subs: &mut BoundedArr<Term, MAX_SUBTERMS>,
    vars: &mut VarTable,
    name: &BoundedStr<NAME_CAP>,
) -> (r: Result<Term, ParseError>)
    requires
        *old(pos) <= toks@.len(),
    ensures
        (rview(r), pst(*final(pos), *final(atoms), *final(subs), *final(vars))) == atom_or_struct_spec(
            token_views(*toks),
            pst(*old(pos), *old(atoms), *old(subs), *old(vars)),
            name@,
        ),
        *final(pos) <= toks@.len(),
        r is Ok ==> *old(pos) <= *final(pos),
    decreases toks@.len() - *old(pos), 0nat,
{
    if !matches!(peek_tok(toks, *pos), Some(Token::LParen)) {
        return match atoms.intern(name.as_str()) {
            Ok(id) => Ok(Term::Atom(id)),
            Err(e) => Err(e),
        };
    }
    *pos = *pos + 1;
    if matches!(peek_tok(toks, *pos), Some(Token::RParen)) {
        return Err(ParseError::EmptyArgs(*pos));
    }
    let id = match atoms.intern(name.as_str()) {
        Ok(id) => id,
        Err(e) => return Err(e),
    };
    let args: BoundedArr<TermIdx, MAX_ARGS> = BoundedArr::new();
    parse_args(toks, pos, atoms, subs, vars, id, args)
}

fn parse_args(
    toks: &BoundedArr<Token, MAX_TOKENS>,
    pos: &mut usize,
    atoms: &mut AtomTable,
    subs: &mut BoundedArr<Term, MAX_SUBTERMS>,
    vars: &mut VarTable,
    functor: AtomId,
    args: BoundedArr<TermIdx, MAX_ARGS>,
) -> (r: Result<Term, ParseError>)
    requires
        *old(pos) <= toks@.len(),
    ensures
        (rview(r), pst(*final(pos), *final(atoms), *final(subs), *final(vars))) == args_spec(
            token_views(*toks),
            pst(*old(pos), *old(atoms), *old(subs), *old(vars)),
            functor,
            args@,
        ),
        *final(pos) <= toks@.len(),
        r is Ok ==> *old(pos) < *final(pos),
    decreases toks@.len() - *old(pos), 2nat,
{
    let arg = match parse_term(toks, pos, atoms, subs, vars) {
        Ok(a) => a,
        Err(e) => return Err(e),
    };
    let idx = match push_sub(subs, arg) {
        Ok(i) => i,
        Err(e) => return Err(e),
    };
    let mut args2 = args;
    match args2.push(idx) {
        Ok(()) => {},
        Err(_) => return Err(ParseError::TooManyArgs),
    }
    match peek_tok(toks, *pos) {
        Some(Token::Comma) => {
            *pos = *pos + 1;
            parse_args(toks, pos, atoms, subs, vars, functor, args2)
        },
        Some(Token::RParen) => {
            *pos = *pos + 1;
            Ok(Term::Struct { functor, args: args2 })
        },
        Some(_) => Err(ParseError::MismatchedParen(*pos)),
        None => Err(ParseError::UnexpectedEof(*pos)),
    }
}

fn parse_list(
    toks: &BoundedArr<Token, MAX_TOKENS>,
    pos: &mut usize,
    atoms: &mut AtomTable,
    subs: &mut BoundedArr<Term, MAX_SUBTERMS>,
    vars: &mut VarTable,
) -> (r: Result<Term, ParseError>)
    requires
        *old(pos) <= toks@.len(),
    ensures
        (rview(r), pst(*final(pos), *final(atoms), *final(subs), *final(vars))) == list_spec(
            token_views(*toks),
            pst(*old(pos), *old(atoms), *old(subs), *old(vars)),
        ),
        *final(pos) <= toks@.len(),
        r is Ok ==> *old(pos) < *final(pos),
    decreases toks@.len() - *old(pos), 4nat,
{
    match atoms.intern("[]") {
        Ok(_) => {},
        Err(e) => return Err(e),
    }
    if matches!(peek_tok(toks, *pos), Some(Token::RBracket)) {
        *pos = *pos + 1;
        return Ok(Term::Nil);
    }
    let elems: BoundedArr<Term, MAX_SUBTERMS> = BoundedArr::new();
    proof {
        assert(terms_view(elems) =~= Seq::<TermV>::empty());
    }
    parse_elements(toks, pos, atoms, subs, vars, elems)
}

fn parse_elements(
    toks: &BoundedArr<Token, MAX_TOKENS>,
    pos: &mut usize,
    atoms: &mut AtomTable,
    subs: &mut BoundedArr<Term, MAX_SUBTERMS>,
    vars: &mut VarTable,
    elems: BoundedArr<Term, MAX_SUBTERMS>,
) -> (r: Result<Term, ParseError>)
    requires
        *old(pos) <= toks@.len(),
    ensures
        (rview(r), pst(*final(pos), *final(atoms), *final(subs), *final(vars))) == elements_spec(
            token_views(*toks),
            pst(*old(pos), *old(atoms), *old(subs), *old(vars)),
            terms_view(elems),
        ),
        *final(pos) <= toks@.len(),
        r is Ok ==> *old(pos) < *final(pos),
    decreases toks@.len() - *old(pos), 3nat,
{
    let e = match parse_term(toks, pos, atoms, subs, vars) {
        Ok(t) => t,
        Err(e) => return Err(e),
    };
    let mut el2 = elems;
    let ghost before = terms_view(elems);
    match el2.push(e) {
        Ok(()) => {},
        Err(_) => return Err(ParseError::SubtermOverflow),
    }
    proof {
        assert(terms_view(el2) =~= before.push(e@));
    }
    if matches!(peek_tok(toks, *pos), Some(Token::Comma)) {
        *pos = *pos + 1;
        parse_elements(toks, pos, atoms, subs, vars, el2)
    } else {
        parse_list_tail(toks, pos, atoms, subs, vars, &el2)
    }
}

fn parse_list_tail(
    toks: &BoundedArr<Token, MAX_TOKENS>,
    pos: &mut usize,
    atoms: &mut AtomTable,
    subs: &mut BoundedArr<Term, MAX_SUBTERMS>,
    vars: &mut VarTable,
    elems: &BoundedArr<Term, MAX_SUBTERMS>,
) -> (r: Result<Term, ParseError>)
    requires
        *old(pos) <= toks@.len(),
    ensures
        (rview(r), pst(*final(pos), *final(atoms), *final(subs), *final(vars))) == list_tail_spec(
            token_views(*toks),
            pst(*old(pos), *old(atoms), *old(subs), *old(vars)),
            terms_view(*elems),
        ),
        *final(pos) <= toks@.len(),
        r is Ok ==> *old(pos) < *final(pos),
    decreases toks@.len() - *old(pos), 2nat,
{
    let tail = if matches!(peek_tok(toks, *pos), Some(Token::Pipe)) {
        *pos = *pos + 1;
        match parse_term(toks, pos, atoms, subs, vars) {
            Ok(t) => t,
            Err(e) => return Err(e),
        }
    } else {
        Term::Nil
    };
    match peek_tok(toks, *pos) {
        Some(Token::RBracket) => {
            *pos = *pos + 1;
        },
        Some(_) => return Err(ParseError::MismatchedBracket(*pos)),
        None => return Err(ParseError::UnexpectedEof(*pos)),
    }
    let dot = match atoms.intern(".") {
        Ok(id) => id,
        Err(e) => return Err(e),
    };
    let n = elems.len();
    fold_list(*pos, atoms, subs, vars, dot, elems, n, tail)
}

fn fold_list(
    pos: usize,
    atoms: &AtomTable,
    subs: &mut BoundedArr<Term, MAX_SUBTERMS>,
    vars: &VarTable,
    dot: AtomId,
    elems: &BoundedArr<Term, MAX_SUBTERMS>,
    i: usize,
    current: Term,
) -> (r: Result<Term, ParseError>)
    requires
        i <= elems@.len(),
    ensures
        (rview(r), pst(pos, *atoms, *final(subs), *vars)) == fold_list_spec(
            pst(pos, *atoms, *old(subs), *vars),
            dot,
            terms_view(*elems),
            i as int,
            current@,
        ),
    decreases i,
{
    if i == 0 {
        return Ok(current);
    }
    let h = *elems.get(i - 1).unwrap();
    let hi = match push_sub(subs, h) {
        Ok(x) => x,
        Err(e) => return Err(e),
    };
    let ti = match push_sub(subs, current) {
        Ok(x) => x,
        Err(e) => return Err(e),
    };
    let args = pair(hi, ti);
    fold_list(pos, atoms, subs, vars, dot, elems, i - 1, Term::Struct { functor: dot, args })
}

fn parse_goal(
    toks: &BoundedArr<Token, MAX_TOKENS>,
    pos: &mut usize,
    atoms: &mut AtomTable,
    subs: &mut BoundedArr<Term, MAX_SUBTERMS>,
    vars: &mut VarTable,
) -> (r: Result<Term, ParseError>)
    requires
        *old(pos) <= toks@.len(),
    ensures
        (rview(r), pst(*final(pos), *final(atoms), *final(subs), *final(vars))) == goal_spec(
            token_views(*toks),
            pst(*old(pos), *old(atoms), *old(subs), *old(vars)),
        ),
        *final(pos) <= toks@.len(),
        r is Ok ==> *old(pos) < *final(pos),
    decreases toks@.len() - *old(pos), 2nat,
{
    match peek_tok(toks, *pos) {
        Some(Token::Cut) => {
            *pos = *pos + 1;
            match atoms.intern("!") {
                Ok(id) => Ok(Term::Atom(id)),
                Err(e) => Err(e),
            }
        },
        Some(Token::Not) => {
            *pos = *pos + 1;
            let inner = match parse_rel(toks, pos, atoms, subs, vars) {
                Ok(t) => t,
                Err(e) => return Err(e),
            };
            let id = match atoms.intern("\\+") {
                Ok(id) => id,
                Err(e) => return Err(e),
            };
            let idx = match push_sub(subs, inner) {
                Ok(i) => i,
                Err(e) => return Err(e),
            };
            Ok(Term::Struct { functor: id, args: single(idx) })
        },
        Some(_) => parse_term(toks, pos, atoms, subs, vars),
        None => Err(ParseError::UnexpectedEof(*pos)),
    }
}

fn parse_add(
    toks: &BoundedArr<Token, MAX_TOKENS>,
    pos: &mut usize,
    atoms: &mut AtomTable,
    subs: &mut BoundedArr<Term, MAX_SUBTERMS>,
    vars: &mut VarTable,
) -> (r: Result<Term, ParseError>)
    requires
        *old(pos) <= toks@.len(),
    ensures
        (rview(r), pst(*final(pos), *final(atoms), *final(subs), *final(vars))) == add_spec(
            token_views(*toks),
            pst(*old(pos), *old(atoms), *old(subs), *old(vars)),
        ),
        *final(pos) <= toks@.len(),
        r is Ok ==> *old(pos) < *final(pos),
    decreases toks@.len() - *old(pos), 4nat,
{
    let left = match parse_goal(toks, pos, atoms, subs, vars) {
        Ok(t) => t,
        Err(e) => return Err(e),
    };
    parse_add_loop(toks, pos, atoms, subs, vars, left)
}

fn parse_add_loop(
    toks: &BoundedArr<Token, MAX_TOKENS>,
    pos: &mut usize,
    atoms: &mut AtomTable,
    subs: &mut BoundedArr<Term, MAX_SUBTERMS>,
    vars: &mut VarTable,
    left: Term,
) -> (r: Result<Term, ParseError>)
    requires
        *old(pos) <= toks@.len(),
    ensures
        (rview(r), pst(*final(pos), *final(atoms), *final(subs), *final(vars))) == add_loop_spec(
            token_views(*toks),
            pst(*old(pos), *old(atoms), *old(subs), *old(vars)),
            left@,
        ),
        *final(pos) <= toks@.len(),
        r is Ok ==> *old(pos) <= *final(pos),
    decreases toks@.len() - *old(pos), 3nat,
{
    let t = peek_tok(toks, *pos);
    let op: &str = if matches!(t, Some(Token::Plus)) {
        "+"
    } else if matches!(t, Some(Token::Minus)) {
        "-"
    } else {
        return Ok(left);
    };
    *pos = *pos + 1;
    let right = match parse_goal(toks, pos, atoms, subs, vars) {
        Ok(t) => t,
        Err(e) => return Err(e),
    };
    let t2 = match build_infix(*pos, atoms, subs, vars, op, left, right) {
        Ok(t) => t,
        Err(e) => return Err(e),
    };
    parse_add_loop(toks, pos, atoms, subs, vars, t2)
}

fn parse_rel(
    toks: &BoundedArr<Token, MAX_TOKENS>,
    pos: &mut usize,
    atoms: &mut AtomTable,
    subs: &mut BoundedArr<Term, MAX_SUBTERMS>,
    vars: &mut VarTable,
) -> (r: Result<Term, ParseError>)
    requires
        *old(pos) <= toks@.len(),
    ensures
        (rview(r), pst(*final(pos), *final(atoms), *final(subs), *final(vars))) == rel_spec(
            token_views(*toks),
            pst(*old(pos), *old(atoms), *old(subs), *old(vars)),
        ),
        *final(pos) <= toks@.len(),
        r is Ok ==> *old(pos) < *final(pos),
    decreases toks@.len() - *old(pos), 5nat,
{
    let left = match parse_add(toks, pos, atoms, subs, vars) {
        Ok(t) => t,
        Err(e) => return Err(e),
    };
    let t = peek_tok(toks, *pos);
    let op: &str = if matches!(t, Some(Token::Lt)) {
        "<"
    } else if matches!(t, Some(Token::Gt)) {
        ">"
    } else if matches!(t, Some(Token::Eq)) {
        "="
    } else {
        return Ok(left);
    };
    *pos = *pos + 1;
    let right = match parse_add(toks, pos, atoms, subs, vars) {
        Ok(t) => t,
        Err(e) => return Err(e),
    };
    build_infix(*pos, atoms, subs, vars, op, left, right)
}

fn is_infix_atom(toks: &BoundedArr<Token, MAX_TOKENS>, pos: usize, name: &str) -> (r: bool)
    ensures
        r == (match peek(token_views(*toks), pos as int) {
            Some(TokenV::Atom(n)) => n == name.spec_bytes(),
            _ => false,
        }),
        r ==> (pos as int) < toks@.len() <= MAX_TOKENS,
{
    match peek_tok(toks, pos) {
        Some(Token::Atom(s)) => str_eq(s.as_str(), name),
        _ => false,
    }
}

fn parse_goal_expr(
    toks: &BoundedArr<Token, MAX_TOKENS>,
    pos: &mut usize,
    atoms: &mut AtomTable,
    subs: &mut BoundedArr<Term, MAX_SUBTERMS>,
    vars: &mut VarTable,
) -> (r: Result<Term, ParseError>)
    requires
        *old(pos) <= toks@.len(),
    ensures
        (rview(r), pst(*final(pos), *final(atoms), *final(subs), *final(vars))) == goal_expr_spec(
            token_views(*toks),
            pst(*old(pos), *old(atoms), *old(subs), *old(vars)),
        ),
        *final(pos) <= toks@.len(),
        r is Ok ==> *old(pos) < *final(pos),
    decreases toks@.len() - *old(pos), 6nat,
{
    let left = match parse_rel(toks, pos, atoms, subs, vars) {
        Ok(t) => t,
        Err(e) => return Err(e),
    };
    if is_infix_atom(toks, *pos, "is") {
        *pos = *pos + 1;
        let right = match parse_add(toks, pos, atoms, subs, vars) {
            Ok(t) => t,
            Err(e) => return Err(e),
        };
        return build_infix(*pos, atoms, subs, vars, "is", left, right);
    }
    Ok(left)
}

#[verifier::rlimit(40)]
fn parse_body(
    toks: &BoundedArr<Token, MAX_TOKENS>,
    pos: &mut usize,
    atoms: &mut AtomTable,
    subs: &mut BoundedArr<Term, MAX_SUBTERMS>,
    vars: &mut VarTable,
    body: BoundedArr<Term, MAX_BODY>,
) -> (r: Result<BoundedArr<Term, MAX_BODY>, ParseError>)
    requires
        *old(pos) <= toks@.len(),
    ensures
        (bview(r), pst(*final(pos), *final(atoms), *final(subs), *final(vars))) == body_spec(
            token_views(*toks),
            pst(*old(pos), *old(atoms), *old(subs), *old(vars)),
            terms_view(body),
        ),
        *final(pos) <= toks@.len(),
        r is Ok ==> *old(pos) < *final(pos),
    decreases toks@.len() - *old(pos), 7nat,
{
    let g = match parse_goal_expr(toks, pos, atoms, subs, vars) {
        Ok(t) => t,
        Err(e) => return Err(e),
    };
    let mut b2 = body;
    let ghost before = terms_view(body);
    match b2.push(g) {
        Ok(()) => {},
        Err(_) => return Err(ParseError::TooManyGoals),
    }
    proof {
        assert(terms_view(b2) =~= before.push(g@));
    }
    if matches!(peek_tok(toks, *pos), Some(Token::Comma)) {
        *pos = *pos + 1;
        return parse_body(toks, pos, atoms, subs, vars, b2);
    }
    Ok(b2)
}

fn expect_dot_tok(toks: &BoundedArr<Token, MAX_TOKENS>, pos: &mut usize) -> (r: Result<(), ParseError>)
    requires
        *old(pos) <= toks@.len(),
    ensures
        match peek(token_views(*toks), *old(pos) as int) {
            Some(TokenV::Dot) => r is Ok && *final(pos) == *old(pos) + 1,
            Some(_) => r == Err::<(), ParseError>(ParseError::MissingDot(*old(pos))) && *final(pos) == *old(pos),
            None => r == Err::<(), ParseError>(ParseError::UnexpectedEof(*old(pos))) && *final(pos) == *old(pos),
        },
{
    match peek_tok(toks, *pos) {
        Some(Token::Dot) => {
            *pos = *pos + 1;
            Ok(())
        },
        Some(_) => Err(ParseError::MissingDot(*pos)),
        None => Err(ParseError::UnexpectedEof(*pos)),
    }
}

/// The body of a rule or query, then its `.`.
fn parse_clause_body(
    toks: &BoundedArr<Token, MAX_TOKENS>,
    pos: &mut usize,
    atoms: &mut AtomTable,
    subs: &mut BoundedArr<Term, MAX_SUBTERMS>,
    vars: &mut VarTable,
) -> (r: Result<BoundedArr<Term, MAX_BODY>, ParseError>)
    requires
        *old(pos) <= toks@.len(),
    ensures
        ({
            let (rb, s2) = body_spec(
                token_views(*toks),
                pst(*old(pos), *old(atoms), *old(subs), *old(vars)),
                Seq::empty(),
            );
            match rb {
                Err(e) => r == Err::<BoundedArr<Term, MAX_BODY>, ParseError>(e)
                    && pst(*final(pos), *final(atoms), *final(subs), *final(vars)) == s2,
                Ok(body) => {
                    let (rd, s3) = expect_dot(token_views(*toks), s2, ClauseV {
                        kind: ClauseKind::Fact, head: TermV::Nil, body, subterms: s2.subs, vars: s2.vars });
                    &&& pst(*final(pos), *final(atoms), *final(subs), *final(vars)) == s3
                    &&& match rd {
                        Ok(_) => r is Ok && terms_view(r->Ok_0) == body,
                        Err(e) => r == Err::<BoundedArr<Term, MAX_BODY>, ParseError>(e),
                    }
                },
            }
        }),
        *final(pos) <= toks@.len(),
        r is Ok ==> *old(pos) < *final(pos),
    decreases toks@.len() - *old(pos), 8nat,
{
    let empty_body: BoundedArr<Term, MAX_BODY> = BoundedArr::new();
    proof {
        assert(terms_view(empty_body) =~= Seq::<TermV>::empty());
    }
    let body = match parse_body(toks, pos, atoms, subs, vars, empty_body) {
        Ok(b) => b,
        Err(e) => return Err(e),
    };
    match expect_dot_tok(toks, pos) {
        Ok(()) => {},
        Err(e) => return Err(e),
    }
    Ok(body)
}

fn parse_clause(toks: &BoundedArr<Token, MAX_TOKENS>, pos: &mut usize, atoms: &mut AtomTable) -> (r: Result<Clause, ParseError>)
    requires
        *old(pos) <= toks@.len(),
    ensures
        ({
            let (rs, st) = clause_spec(
                token_views(*toks),
                PState { pos: *old(pos) as int, atoms: old(atoms)@, subs: Seq::empty(), vars: Seq::empty() },
            );
            cview(r) == rs && *final(pos) as int == st.pos && final(atoms)@ == st.atoms
        }),
        *final(pos) <= toks@.len(),
        r is Ok ==> *old(pos) < *final(pos),
    decreases toks@.len() - *old(pos), 11nat,
{
    if matches!(peek_tok(toks, *pos), Some(Token::Query)) {
        parse_query_clause(toks, pos, atoms)
    } else {
        parse_head_clause(toks, pos, atoms)
    }
}

fn parse_query_clause(toks: &BoundedArr<Token, MAX_TOKENS>, pos: &mut usize, atoms: &mut AtomTable) -> (r: Result<Clause, ParseError>)
    requires
        *old(pos) <= toks@.len(),
        peek(token_views(*toks), *old(pos) as int) == Some(TokenV::Query),
    ensures
        ({
            let (rs, st) = clause_spec(
                token_views(*toks),
                PState { pos: *old(pos) as int, atoms: old(atoms)@, subs: Seq::empty(), vars: Seq::empty() },
            );
            cview(r) == rs && *final(pos) as int == st.pos && final(atoms)@ == st.atoms
        }),
        *final(pos) <= toks@.len(),
        r is Ok ==> *old(pos) < *final(pos),
    decreases toks@.len() - *old(pos), 10nat,
{
    proof {
        reveal_with_fuel(clause_spec, 1);
    }
    let mut subs: BoundedArr<Term, MAX_SUBTERMS> = BoundedArr::new();
    let mut vars = VarTable::new();
    proof {
        assert(terms_view(subs) =~= Seq::<TermV>::empty());
    }
    let _ = toks.len();
    *pos = *pos + 1;
    let body = match parse_clause_body(toks, pos, atoms, &mut subs, &mut vars) {
        Ok(b) => b,
        Err(e) => return Err(e),
    };
    Ok(Clause { kind: ClauseKind::Query, head: Term::Nil, body, subterms: subs, vars })
}

fn parse_head_clause(toks: &BoundedArr<Token, MAX_TOKENS>, pos: &mut usize, atoms: &mut AtomTable) -> (r: Result<Clause, ParseError>)
    requires
        *old(pos) <= toks@.len(),
        peek(token_views(*toks), *old(pos) as int) != Some(TokenV::Query),
    ensures
        ({
            let (rs, st) = clause_spec(
                token_views(*toks),
                PState { pos: *old(pos) as int, atoms: old(atoms)@, subs: Seq::empty(), vars: Seq::empty() },
            );
            cview(r) == rs && *final(pos) as int == st.pos && final(atoms)@ == st.atoms
        }),
        *final(pos) <= toks@.len(),
        r is Ok ==> *old(pos) < *final(pos),
    decreases toks@.len() - *old(pos), 10nat,
{
    proof {
        reveal_with_fuel(clause_spec, 1);
    }
    let mut subs: BoundedArr<Term, MAX_SUBTERMS> = BoundedArr::new();
    let mut vars = VarTable::new();
    proof {
        assert(terms_view(subs) =~= Seq::<TermV>::empty());
    }
    let head = match parse_term(toks, pos, atoms, &mut subs, &mut vars) {
        Ok(t) => t,
        Err(e) => return Err(e),
    };
    match peek_tok(toks, *pos) {
        Some(Token::Dot) => {
            *pos = *pos + 1;
            let empty_body: BoundedArr<Term, MAX_BODY> = BoundedArr::new();
            proof {
                assert(terms_view(empty_body) =~= Seq::<TermV>::empty());
            }
            Ok(Clause { kind: ClauseKind::Fact, head, body: empty_body, subterms: subs, vars })
        },
        Some(Token::Neck) => {
            *pos = *pos + 1;
            let body = match parse_clause_body(toks, pos, atoms, &mut subs, &mut vars) {
                Ok(b) => b,
                Err(e) => return Err(e),
            };
            Ok(Clause { kind: ClauseKind::Rule, head, body, subterms: subs, vars })
        },
        Some(_) => Err(ParseError::MissingDot(*pos)),
        None => Err(ParseError::UnexpectedEof(*pos)),
    }
}

} // verus!
