//! The shape of what the parser returns: every clause refers only to
//! sub-terms in its own arena, to variable slots in its own variable
//! table and to atoms in the atom table, and its kind agrees with its
//! body.

use crate::parse::{
    add_loop_spec, add_spec, args_spec, atom_or_struct_spec, body_spec, clause_spec, clauses_spec,
    elements_spec, find_from, fold_list_spec, goal_expr_spec, goal_spec, infix_spec,
    intern_spec, intern_st, list_spec, list_tail_spec, parse_spec, push_sub_st, rel_spec, rem,
    slot_st, term_spec, with_pos, ClauseKind, ClauseV, ParseError, PState, TermIdx, TermV, MAX_ARGS, MAX_ATOMS,
    MAX_CLAUSE_VARS, MAX_SUBTERMS,
};
use crate::tokenize::TokenV;
use vstd::prelude::*;
use vstd::string::StringSliceAdditionalSpecFns;

verus! {

/// Term `t` names only sub-terms below `nsubs`, variable slots below
/// `nvars` and atoms below `natoms`; a structure has one to `MAX_ARGS`
/// arguments.
pub open spec fn term_wf(t: TermV, nsubs: nat, nvars: nat, natoms: nat) -> bool {
    match t {
        TermV::Atom(id) => (id as nat) < natoms,
        TermV::Var(v) => (v as nat) < nvars,
        TermV::Struct { functor, args } => {
            &&& (functor as nat) < natoms
            &&& 1 <= args.len() <= MAX_ARGS
            &&& forall|j: int| 0 <= j < args.len() ==> (#[trigger] args[j] as nat) < nsubs
        },
        _ => true,
    }
}

/// Clause `c`, read with an atom table of `natoms` names, is well
/// formed: its head, goals and sub-terms are well formed within its own
/// arena and variable table; it is a fact exactly when its body is
/// empty, and a query has no head.
pub open spec fn clause_wf(c: ClauseV, natoms: nat) -> bool {
    let ns = c.subterms.len();
    let nv = c.vars.len();
    &&& term_wf(c.head, ns, nv, natoms)
    &&& forall|i: int| 0 <= i < c.body.len() ==> term_wf(#[trigger] c.body[i], ns, nv, natoms)
    &&& forall|i: int| 0 <= i < ns ==> term_wf(#[trigger] c.subterms[i], ns, nv, natoms)
    &&& (c.kind == ClauseKind::Fact <==> c.body.len() == 0)
    &&& (c.kind == ClauseKind::Query ==> c.head == TermV::Nil)
    &&& ns <= MAX_SUBTERMS
    &&& nv <= MAX_CLAUSE_VARS
}

/// Every clause of a successful parse is well formed, against the atom
/// table the parse leaves.
pub proof fn law_parse_well_formed(ts: Seq<TokenV>, atoms: Seq<Seq<u8>>)
    requires
        atoms.len() <= MAX_ATOMS,
    ensures
        parse_spec(ts, atoms).0 is Ok ==> forall|i: int|
            0 <= i < parse_spec(ts, atoms).0->Ok_0.len() ==> clause_wf(
                #[trigger] parse_spec(ts, atoms).0->Ok_0[i],
                parse_spec(ts, atoms).1.len(),
            ),
{
    let st = PState { pos: 0, atoms, subs: Seq::empty(), vars: Seq::empty() };
    lemma_clauses_ok(ts, st, Seq::empty());
}

/// Term `t` is well formed in state `st`.
pub open spec fn t_ok(t: TermV, st: PState) -> bool {
    term_wf(t, st.subs.len(), st.vars.len(), st.atoms.len())
}

/// The tables of `st` are within their bounds and its arena is well
/// formed.
pub open spec fn st_ok(st: PState) -> bool {
    &&& st.atoms.len() <= MAX_ATOMS
    &&& st.vars.len() <= MAX_CLAUSE_VARS
    &&& st.subs.len() <= MAX_SUBTERMS
    &&& forall|i: int| 0 <= i < st.subs.len() ==> t_ok(#[trigger] st.subs[i], st)
}

/// `s2` has at least the entries of `st` in each table.
pub open spec fn grows(st: PState, s2: PState) -> bool {
    &&& st.subs.len() <= s2.subs.len()
    &&& st.vars.len() <= s2.vars.len()
    &&& st.atoms.len() <= s2.atoms.len()
}

/// A parse step from `st` to `(r, s2)` keeps the state well formed and
/// returns a well-formed term.
pub open spec fn step_ok(st: PState, r: Result<TermV, ParseError>, s2: PState) -> bool {
    &&& st_ok(s2)
    &&& grows(st, s2)
    &&& r is Ok ==> t_ok(r->Ok_0, s2)
}


proof fn lemma_mono(t: TermV, st: PState, s2: PState)
    requires
        t_ok(t, st),
        grows(st, s2),
    ensures
        t_ok(t, s2),
{
}

proof fn lemma_st_mono(st: PState, s2: PState)
    requires
        st_ok(st),
        s2.subs == st.subs,
        grows(st, s2),
        s2.atoms.len() <= MAX_ATOMS,
        s2.vars.len() <= MAX_CLAUSE_VARS,
    ensures
        st_ok(s2),
{
    assert forall|i: int| 0 <= i < s2.subs.len() implies t_ok(#[trigger] s2.subs[i], s2) by {
        lemma_mono(st.subs[i], st, s2);
    }
}

proof fn lemma_find(names: Seq<Seq<u8>>, s: Seq<u8>, i: nat)
    ensures
        find_from(names, s, i) matches Some(k) ==> k < names.len(),
    decreases names.len() - i,
{
    if i < names.len() && names[i as int] != s {
        lemma_find(names, s, i + 1);
    }
}

proof fn lemma_intern(names: Seq<Seq<u8>>, s: Seq<u8>, cap: nat)
    requires
        names.len() <= cap,
    ensures
        intern_spec(names, s, cap) matches Some((id, ns)) ==> id < ns.len() && names.len() <= ns.len() <= cap,
{
    lemma_find(names, s, 0);
}

proof fn lemma_intern_st(st: PState, name: Seq<u8>)
    requires
        st_ok(st),
    ensures
        st_ok(intern_st(st, name).1),
        grows(st, intern_st(st, name).1),
        intern_st(st, name).1.pos == st.pos,
        intern_st(st, name).0 matches Ok(id) ==> (id as nat) < intern_st(st, name).1.atoms.len(),
{
    lemma_intern(st.atoms, name, MAX_ATOMS as nat);
    lemma_st_mono(st, intern_st(st, name).1);
}

proof fn lemma_slot_st(st: PState, name: Seq<u8>)
    requires
        st_ok(st),
    ensures
        st_ok(slot_st(st, name).1),
        grows(st, slot_st(st, name).1),
        slot_st(st, name).1.pos == st.pos,
        slot_st(st, name).0 matches Ok(v) ==> (v as nat) < slot_st(st, name).1.vars.len(),
{
    lemma_intern(st.vars, name, MAX_CLAUSE_VARS as nat);
    lemma_st_mono(st, slot_st(st, name).1);
}

proof fn lemma_push_sub(st: PState, t: TermV)
    requires
        st_ok(st),
        t_ok(t, st),
    ensures
        st_ok(push_sub_st(st, t).1),
        grows(st, push_sub_st(st, t).1),
        push_sub_st(st, t).1.pos == st.pos,
        push_sub_st(st, t).0 matches Ok(i) ==> (i as nat) < push_sub_st(st, t).1.subs.len() && i as nat
            == st.subs.len(),
{
    if st.subs.len() < MAX_SUBTERMS {
        let s2 = push_sub_st(st, t).1;
        assert forall|i: int| 0 <= i < s2.subs.len() implies t_ok(#[trigger] s2.subs[i], s2) by {
            if i < st.subs.len() {
                lemma_mono(st.subs[i], st, s2);
            } else {
                lemma_mono(t, st, s2);
            }
        }
    }
}

proof fn lemma_infix(st: PState, op: Seq<u8>, left: TermV, right: TermV)
    requires
        st_ok(st),
        t_ok(left, st),
        t_ok(right, st),
    ensures
        step_ok(st, infix_spec(st, op, left, right).0, infix_spec(st, op, left, right).1),
        infix_spec(st, op, left, right).1.pos == st.pos,
{
    lemma_intern_st(st, op);
    let (rid, s1) = intern_st(st, op);
    if rid is Ok {
        lemma_mono(left, st, s1);
        lemma_mono(right, st, s1);
        lemma_push_sub(s1, left);
        let (rl, s2) = push_sub_st(s1, left);
        if rl is Ok {
            lemma_mono(right, s1, s2);
            lemma_push_sub(s2, right);
        }
    }
}

proof fn lemma_term_ok(ts: Seq<TokenV>, st: PState)
    requires
        st_ok(st),
    ensures
        step_ok(st, term_spec(ts, st).0, term_spec(ts, st).1),
    decreases rem(ts, st.pos), 1nat,
{
    match crate::parse::peek(ts, st.pos) {
        None => {},
        Some(tok) => {
            let st1 = with_pos(st, st.pos + 1);
            match tok {
                TokenV::Atom(name) => lemma_atom_or_struct_ok(ts, st1, name),
                TokenV::Var(name) => lemma_slot_st(st1, name),
                TokenV::LBracket => lemma_list_ok(ts, st1),
                _ => {},
            }
        },
    }
}

proof fn lemma_atom_or_struct_ok(ts: Seq<TokenV>, st: PState, name: Seq<u8>)
    requires
        st_ok(st),
    ensures
        step_ok(st, atom_or_struct_spec(ts, st, name).0, atom_or_struct_spec(ts, st, name).1),
    decreases rem(ts, st.pos), 0nat,
{
    if crate::parse::peek(ts, st.pos) != Some(TokenV::LParen) {
        lemma_intern_st(st, name);
    } else {
        let st1 = with_pos(st, st.pos + 1);
        if crate::parse::peek(ts, st1.pos) != Some(TokenV::RParen) {
            lemma_intern_st(st1, name);
            let (r, s2) = intern_st(st1, name);
            if r is Ok {
                lemma_args_ok(ts, s2, r->Ok_0, Seq::empty());
            }
        }
    }
}

proof fn lemma_args_ok(ts: Seq<TokenV>, st: PState, functor: crate::parse::AtomId, args: Seq<TermIdx>)
    requires
        st_ok(st),
        (functor as nat) < st.atoms.len(),
        args.len() <= MAX_ARGS,
        forall|j: int| 0 <= j < args.len() ==> (#[trigger] args[j] as nat) < st.subs.len(),
    ensures
        step_ok(st, args_spec(ts, st, functor, args).0, args_spec(ts, st, functor, args).1),
    decreases rem(ts, st.pos), 2nat,
{
    lemma_term_ok(ts, st);
    let (r, s1) = term_spec(ts, st);
    if r is Ok && rem(ts, s1.pos) < rem(ts, st.pos) {
        lemma_push_sub(s1, r->Ok_0);
        let (ri, s2) = push_sub_st(s1, r->Ok_0);
        if ri is Ok && args.len() < MAX_ARGS {
            let args2 = args.push(ri->Ok_0);
            assert forall|j: int| 0 <= j < args2.len() implies (#[trigger] args2[j] as nat) < s2.subs.len() by {
                if j < args.len() {
                    assert(args2[j] == args[j]);
                }
            }
            match crate::parse::peek(ts, s2.pos) {
                Some(TokenV::Comma) => lemma_args_ok(ts, with_pos(s2, s2.pos + 1), functor, args2),
                _ => {},
            }
        }
    }
}

proof fn lemma_list_ok(ts: Seq<TokenV>, st: PState)
    requires
        st_ok(st),
    ensures
        step_ok(st, list_spec(ts, st).0, list_spec(ts, st).1),
    decreases rem(ts, st.pos), 4nat,
{
    lemma_intern_st(st, "[]".spec_bytes());
    let (r, s1) = intern_st(st, "[]".spec_bytes());
    if r is Ok && crate::parse::peek(ts, s1.pos) != Some(TokenV::RBracket) {
        lemma_elements_ok(ts, s1, Seq::empty());
    }
}

proof fn lemma_elements_ok(ts: Seq<TokenV>, st: PState, elems: Seq<TermV>)
    requires
        st_ok(st),
        forall|j: int| 0 <= j < elems.len() ==> t_ok(#[trigger] elems[j], st),
    ensures
        step_ok(st, elements_spec(ts, st, elems).0, elements_spec(ts, st, elems).1),
    decreases rem(ts, st.pos), 3nat,
{
    lemma_term_ok(ts, st);
    let (r, s1) = term_spec(ts, st);
    if r is Ok && rem(ts, s1.pos) < rem(ts, st.pos) && elems.len() < MAX_SUBTERMS {
        let el2 = elems.push(r->Ok_0);
        assert forall|j: int| 0 <= j < el2.len() implies t_ok(#[trigger] el2[j], s1) by {
            if j < elems.len() {
                assert(el2[j] == elems[j]);
                lemma_mono(elems[j], st, s1);
            }
        }
        if crate::parse::peek(ts, s1.pos) == Some(TokenV::Comma) {
            lemma_elements_ok(ts, with_pos(s1, s1.pos + 1), el2);
        } else {
            lemma_list_tail_ok(ts, s1, el2);
        }
    }
}

proof fn lemma_list_tail_ok(ts: Seq<TokenV>, st: PState, elems: Seq<TermV>)
    requires
        st_ok(st),
        forall|j: int| 0 <= j < elems.len() ==> t_ok(#[trigger] elems[j], st),
    ensures
        step_ok(st, list_tail_spec(ts, st, elems).0, list_tail_spec(ts, st, elems).1),
    decreases rem(ts, st.pos), 2nat,
{
    let (rt, s1) = if crate::parse::peek(ts, st.pos) == Some(TokenV::Pipe) {
        term_spec(ts, with_pos(st, st.pos + 1))
    } else {
        (Ok(TermV::Nil), st)
    };
    if crate::parse::peek(ts, st.pos) == Some(TokenV::Pipe) {
        lemma_term_ok(ts, with_pos(st, st.pos + 1));
    }
    if rt is Ok {
        if crate::parse::peek(ts, s1.pos) == Some(TokenV::RBracket) {
            let s1b = with_pos(s1, s1.pos + 1);
            lemma_intern_st(s1b, ".".spec_bytes());
            let (rd, s3) = intern_st(s1b, ".".spec_bytes());
            if rd is Ok {
                assert forall|j: int| 0 <= j < elems.len() implies t_ok(#[trigger] elems[j], s3) by {
                    lemma_mono(elems[j], st, s3);
                }
                lemma_mono(rt->Ok_0, s1, s3);
                lemma_fold_ok(s3, rd->Ok_0, elems, elems.len() as int, rt->Ok_0);
            }
        }
    }
}

proof fn lemma_fold_ok(st: PState, dot: crate::parse::AtomId, elems: Seq<TermV>, i: int, current: TermV)
    requires
        st_ok(st),
        (dot as nat) < st.atoms.len(),
        i <= elems.len(),
        forall|j: int| 0 <= j < elems.len() ==> t_ok(#[trigger] elems[j], st),
        t_ok(current, st),
    ensures
        step_ok(st, fold_list_spec(st, dot, elems, i, current).0, fold_list_spec(st, dot, elems, i, current).1),
    decreases i,
{
    if i > 0 {
        lemma_push_sub(st, elems[i - 1]);
        let (rh, s1) = push_sub_st(st, elems[i - 1]);
        if rh is Ok {
            lemma_mono(current, st, s1);
            lemma_push_sub(s1, current);
            let (rt, s2) = push_sub_st(s1, current);
            if rt is Ok {
                let c2 = TermV::Struct { functor: dot, args: seq![rh->Ok_0, rt->Ok_0] };
                assert(t_ok(c2, s2));
                assert forall|j: int| 0 <= j < elems.len() implies t_ok(#[trigger] elems[j], s2) by {
                    lemma_mono(elems[j], st, s2);
                }
                lemma_fold_ok(s2, dot, elems, i - 1, c2);
            }
        }
    }
}

proof fn lemma_goal_ok(ts: Seq<TokenV>, st: PState)
    requires
        st_ok(st),
    ensures
        step_ok(st, goal_spec(ts, st).0, goal_spec(ts, st).1),
    decreases rem(ts, st.pos), 2nat,
{
    match crate::parse::peek(ts, st.pos) {
        Some(TokenV::Cut) => lemma_intern_st(with_pos(st, st.pos + 1), "!".spec_bytes()),
        Some(TokenV::Not) => {
            let s1 = with_pos(st, st.pos + 1);
            lemma_rel_ok(ts, s1);
            let (r, s2) = rel_spec(ts, s1);
            if r is Ok {
                lemma_intern_st(s2, "\\+".spec_bytes());
                let (rid, s3) = intern_st(s2, "\\+".spec_bytes());
                if rid is Ok {
                    lemma_mono(r->Ok_0, s2, s3);
                    lemma_push_sub(s3, r->Ok_0);
                }
            }
        },
        Some(_) => lemma_term_ok(ts, st),
        None => {},
    }
}

pub proof fn lemma_add_ok(ts: Seq<TokenV>, st: PState)
    requires
        st_ok(st),
    ensures
        step_ok(st, add_spec(ts, st).0, add_spec(ts, st).1),
    decreases rem(ts, st.pos), 4nat,
{
    lemma_goal_ok(ts, st);
    let (r, s1) = goal_spec(ts, st);
    if r is Ok && rem(ts, s1.pos) <= rem(ts, st.pos) {
        lemma_add_loop_ok(ts, s1, r->Ok_0);
    }
}

proof fn lemma_add_loop_ok(ts: Seq<TokenV>, st: PState, left: TermV)
    requires
        st_ok(st),
        t_ok(left, st),
    ensures
        step_ok(st, add_loop_spec(ts, st, left).0, add_loop_spec(ts, st, left).1),
    decreases rem(ts, st.pos), 3nat,
{
    match crate::parse::add_op(crate::parse::peek(ts, st.pos)) {
        None => {},
        Some(op) => {
            let s1 = with_pos(st, st.pos + 1);
            lemma_goal_ok(ts, s1);
            let (r, s2) = goal_spec(ts, s1);
            if r is Ok && rem(ts, s2.pos) <= rem(ts, s1.pos) {
                lemma_mono(left, st, s2);
                lemma_infix(s2, op, left, r->Ok_0);
                let (rb, s3) = infix_spec(s2, op, left, r->Ok_0);
                if rb is Ok {
                    lemma_add_loop_ok(ts, s3, rb->Ok_0);
                }
            }
        },
    }
}

proof fn lemma_rel_ok(ts: Seq<TokenV>, st: PState)
    requires
        st_ok(st),
    ensures
        step_ok(st, rel_spec(ts, st).0, rel_spec(ts, st).1),
    decreases rem(ts, st.pos), 5nat,
{
    lemma_add_ok(ts, st);
    let (r, s1) = add_spec(ts, st);
    if r is Ok {
        match crate::parse::rel_op(crate::parse::peek(ts, s1.pos)) {
            None => {},
            Some(op) => if rem(ts, s1.pos) <= rem(ts, st.pos) {
                let s1b = with_pos(s1, s1.pos + 1);
                lemma_add_ok(ts, s1b);
                let (r2, s3) = add_spec(ts, s1b);
                if r2 is Ok {
                    lemma_mono(r->Ok_0, s1, s3);
                    lemma_infix(s3, op, r->Ok_0, r2->Ok_0);
                }
            },
        }
    }
}

proof fn lemma_goal_expr_ok(ts: Seq<TokenV>, st: PState)
    requires
        st_ok(st),
    ensures
        step_ok(st, goal_expr_spec(ts, st).0, goal_expr_spec(ts, st).1),
    decreases rem(ts, st.pos), 6nat,
{
    lemma_rel_ok(ts, st);
    let (r, s1) = rel_spec(ts, st);
    if r is Ok && crate::parse::is_infix_is(ts, s1.pos) && rem(ts, s1.pos) <= rem(ts, st.pos) {
        let s1b = with_pos(s1, s1.pos + 1);
        lemma_add_ok(ts, s1b);
        let (r2, s3) = add_spec(ts, s1b);
        if r2 is Ok {
            lemma_mono(r->Ok_0, s1, s3);
            lemma_infix(s3, "is".spec_bytes(), r->Ok_0, r2->Ok_0);
        }
    }
}

proof fn lemma_body_ok(ts: Seq<TokenV>, st: PState, body: Seq<TermV>)
    requires
        st_ok(st),
        forall|j: int| 0 <= j < body.len() ==> t_ok(#[trigger] body[j], st),
    ensures
        st_ok(body_spec(ts, st, body).1),
        grows(st, body_spec(ts, st, body).1),
        body_spec(ts, st, body).0 matches Ok(b) ==> b.len() >= 1 && forall|j: int|
            0 <= j < b.len() ==> t_ok(#[trigger] b[j], body_spec(ts, st, body).1),
    decreases rem(ts, st.pos), 7nat,
{
    lemma_goal_expr_ok(ts, st);
    let (r, s1) = goal_expr_spec(ts, st);
    if r is Ok && body.len() < crate::parse::MAX_BODY {
        let b2 = body.push(r->Ok_0);
        assert forall|j: int| 0 <= j < b2.len() implies t_ok(#[trigger] b2[j], s1) by {
            if j < body.len() {
                assert(b2[j] == body[j]);
                lemma_mono(body[j], st, s1);
            }
        }
        if crate::parse::peek(ts, s1.pos) == Some(TokenV::Comma) && rem(ts, s1.pos) <= rem(ts, st.pos) {
            lemma_body_ok(ts, with_pos(s1, s1.pos + 1), b2);
        }
    }
}

proof fn lemma_clause_ok(ts: Seq<TokenV>, st: PState)
    requires
        st.atoms.len() <= MAX_ATOMS,
    ensures
        clause_spec(ts, st).1.atoms.len() <= MAX_ATOMS,
        st.atoms.len() <= clause_spec(ts, st).1.atoms.len(),
        clause_spec(ts, st).0 matches Ok(c) ==> clause_wf(c, clause_spec(ts, st).1.atoms.len()),
{
    reveal(clause_spec);
    let s0 = PState { subs: Seq::empty(), vars: Seq::empty(), ..st };
    assert(st_ok(s0));
    if crate::parse::peek(ts, s0.pos) == Some(TokenV::Query) {
        let s0b = with_pos(s0, s0.pos + 1);
        lemma_body_ok(ts, s0b, Seq::empty());
    } else {
        lemma_term_ok(ts, s0);
        let (rh, s1) = term_spec(ts, s0);
        if rh is Ok {
            match crate::parse::peek(ts, s1.pos) {
                Some(TokenV::Neck) => if rem(ts, s1.pos) <= rem(ts, st.pos) {
                    let s1b = with_pos(s1, s1.pos + 1);
                    lemma_body_ok(ts, s1b, Seq::empty());
                    let (rb, s2) = body_spec(ts, s1b, Seq::empty());
                    lemma_mono(rh->Ok_0, s1, s2);
                },
                _ => {},
            }
        }
    }
}

proof fn lemma_clauses_ok(ts: Seq<TokenV>, st: PState, acc: Seq<ClauseV>)
    requires
        st.atoms.len() <= MAX_ATOMS,
        forall|i: int| 0 <= i < acc.len() ==> clause_wf(#[trigger] acc[i], st.atoms.len()),
    ensures
        clauses_spec(ts, st, acc).0 matches Ok(cs) ==> forall|i: int|
            0 <= i < cs.len() ==> clause_wf(#[trigger] cs[i], clauses_spec(ts, st, acc).1.atoms.len()),
    decreases rem(ts, st.pos), 9nat,
{
    if !crate::parse::at_end(ts, st.pos) {
        lemma_clause_ok(ts, st);
        let (rc, s1) = clause_spec(ts, st);
        if rc is Ok && acc.len() < crate::parse::MAX_CLAUSES && rem(ts, s1.pos) < rem(ts, st.pos) {
            let acc2 = acc.push(rc->Ok_0);
            let s2 = PState { subs: Seq::empty(), vars: Seq::empty(), ..s1 };
            assert forall|i: int| 0 <= i < acc2.len() implies clause_wf(#[trigger] acc2[i], s2.atoms.len()) by {
                if i < acc.len() {
                    assert(acc2[i] == acc[i]);
                    lemma_clause_mono(acc[i], st.atoms.len(), s2.atoms.len());
                }
            }
            lemma_clauses_ok(ts, s2, acc2);
        }
    }
}

proof fn lemma_clause_mono(c: ClauseV, n1: nat, n2: nat)
    requires
        clause_wf(c, n1),
        n1 <= n2,
    ensures
        clause_wf(c, n2),
{
    let ns = c.subterms.len();
    let nv = c.vars.len();
    assert forall|i: int| 0 <= i < c.body.len() implies term_wf(#[trigger] c.body[i], ns, nv, n2) by {
        assert(term_wf(c.body[i], ns, nv, n1));
    }
    assert forall|i: int| 0 <= i < ns implies term_wf(#[trigger] c.subterms[i], ns, nv, n2) by {
        assert(term_wf(c.subterms[i], ns, nv, n1));
    }
}

} // verus!
