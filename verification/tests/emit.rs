use rust_to_prolog::text::push_signed;
use rust_to_prolog::compile::{compile, Instr, LABEL_CAP, MAX_INSTR};
use rust_to_prolog::emit::{emit, EmitError};
use rust_to_prolog::parse::{parse, AtomTable, NAME_CAP};
use rust_to_prolog::port::{BoundedArr, BoundedStr};
use rust_to_prolog::tokenize::tokenize;

const ANCESTOR_PL: &str = "parent(bob, ann).\nparent(ann, liz).\nancestor(X, Y) :- parent(X, Y).\nancestor(X, Y) :- parent(X, Z), ancestor(Z, Y).\n?- ancestor(bob, liz).\n";

const ANCESTOR_LAM: &str = ".atom 0 parent
.atom 1 bob
.atom 2 ann
.atom 3 liz
.atom 4 ancestor

    EXECUTE query

parent_c1_body:
    GET_CONST A0, atom(bob)
    GET_CONST A1, atom(ann)
    PROCEED

parent_c2_body:
    GET_CONST A0, atom(ann)
    GET_CONST A1, atom(liz)
    PROCEED

parent_entry:
    TRY parent_c2
    EXECUTE parent_c1_body
parent_c2:
    TRUST
    EXECUTE parent_c2_body

ancestor_c1_body:
    GET_VAR X0, A0
    GET_VAR X1, A1
    PUT_VAL X0, A0
    PUT_VAL X1, A1
    EXECUTE parent_entry

ancestor_c2_body:
    ALLOCATE 2
    GET_VAR X0, A0
    GET_Y_VAR Y0, A1
    PUT_VAL X0, A0
    PUT_VAR X1, A1
    GET_Y_VAR Y1, A1
    CALL parent_entry
    PUT_Y_VAL Y1, A0
    PUT_Y_VAL Y0, A1
    DEALLOCATE
    EXECUTE ancestor_entry

ancestor_entry:
    TRY ancestor_c2
    EXECUTE ancestor_c1_body
ancestor_c2:
    TRUST
    EXECUTE ancestor_c2_body

query:
    PUT_CONST A0, atom(bob)
    PUT_CONST A1, atom(liz)
    CALL ancestor_entry
    HALT
";

fn prog_for(src: &str) -> (BoundedArr<Instr, MAX_INSTR>, AtomTable) {
    let toks = tokenize(src).expect("tokenize ok");
    let mut atoms = AtomTable::new();
    let clauses = parse(&toks, &mut atoms).expect("parse ok");
    let prog = compile(&clauses, &atoms).expect("compile ok");
    (prog, atoms)
}

fn lbl(s: &str) -> BoundedStr<LABEL_CAP> {
    BoundedStr::<LABEL_CAP>::from_str(s).expect("label fits")
}

fn nm(s: &str) -> BoundedStr<NAME_CAP> {
    BoundedStr::<NAME_CAP>::from_str(s).expect("name fits")
}

fn one(i: Instr) -> String {
    let mut prog: BoundedArr<Instr, MAX_INSTR> = BoundedArr::new();
    prog.push(i).expect("one");
    let atoms = AtomTable::new();
    emit(&prog, &atoms).expect("emit ok")
}

#[test]
fn format_put_var() {
    assert_eq!(one(Instr::PutVar { ai: 1, xi: 2 }), "    PUT_VAR X2, A1\n");
}

#[test]
fn format_put_val() {
    assert_eq!(one(Instr::PutVal { ai: 0, xi: 0 }), "    PUT_VAL X0, A0\n");
}

#[test]
fn format_get_var() {
    assert_eq!(one(Instr::GetVar { ai: 0, xi: 0 }), "    GET_VAR X0, A0\n");
}

#[test]
fn format_trust_has_no_operand() {
    assert_eq!(one(Instr::Trust { label: lbl("p_c2_body") }), "    TRUST\n");
}

#[test]
fn format_call_and_execute() {
    assert_eq!(one(Instr::Call { label: lbl("p_entry") }), "    CALL p_entry\n");
    assert_eq!(
        one(Instr::Execute { label: lbl("p_c1_body") }),
        "    EXECUTE p_c1_body\n"
    );
}

#[test]
fn format_simple_opcodes() {
    assert_eq!(one(Instr::Proceed), "    PROCEED\n");
    assert_eq!(one(Instr::Halt), "    HALT\n");
    assert_eq!(one(Instr::BNl), "    B_NL\n");
    assert_eq!(one(Instr::Deallocate), "    DEALLOCATE\n");
}

#[test]
fn format_atom_dir_and_const() {
    let mut atoms = AtomTable::new();
    let id = atoms.intern("bob").expect("intern");
    let mut prog: BoundedArr<Instr, MAX_INSTR> = BoundedArr::new();
    prog.push(Instr::AtomDir { id, name: nm("bob") }).expect("dir");
    prog.push(Instr::PutConst { ai: 0, atom: id }).expect("pc");
    let out = emit(&prog, &atoms).expect("emit ok");
    // Blank line separates atom-dir preamble from the first non-dir
    // instruction.
    assert_eq!(out, ".atom 0 bob\n\n    PUT_CONST A0, atom(bob)\n");
}

#[test]
fn format_label_line_no_indent() {
    let prog = {
        let mut p: BoundedArr<Instr, MAX_INSTR> = BoundedArr::new();
        p.push(Instr::Label(lbl("parent_c2"))).expect("lbl");
        p.push(Instr::Trust { label: lbl("parent_c2_body") }).expect("t");
        p
    };
    let out = emit(&prog, &AtomTable::new()).expect("emit ok");
    // `_cK` retry label gets no blank line before it.
    assert_eq!(out, "parent_c2:\n    TRUST\n");
}

#[test]
fn blank_line_before_body_and_entry_labels() {
    let mut prog: BoundedArr<Instr, MAX_INSTR> = BoundedArr::new();
    prog.push(Instr::Proceed).expect("p1");
    prog.push(Instr::Label(lbl("p_c2_body"))).expect("l1");
    prog.push(Instr::Proceed).expect("p2");
    prog.push(Instr::Label(lbl("p_entry"))).expect("l2");
    prog.push(Instr::Execute { label: lbl("p_c1_body") }).expect("e");
    let out = emit(&prog, &AtomTable::new()).expect("emit ok");
    let expected =
        "    PROCEED\n\np_c2_body:\n    PROCEED\n\np_entry:\n    EXECUTE p_c1_body\n";
    assert_eq!(out, expected);
}

#[test]
fn emit_ancestor_matches_golden_fixture() {
    let (prog, atoms) = prog_for(ANCESTOR_PL);
    let actual = emit(&prog, &atoms).expect("emit ok");
    let expected = ANCESTOR_LAM;
    assert_eq!(actual, expected);
}

#[test]
fn emit_ancestor_no_trailing_whitespace() {
    let (prog, atoms) = prog_for(ANCESTOR_PL);
    let out = emit(&prog, &atoms).expect("emit ok");
    for (i, line) in out.lines().enumerate() {
        assert_eq!(
            line.trim_end(),
            line,
            "line {i} has trailing whitespace: {line:?}"
        );
    }
}

#[test]
fn emit_ancestor_file_ends_with_newline() {
    let (prog, atoms) = prog_for(ANCESTOR_PL);
    let out = emit(&prog, &atoms).expect("emit ok");
    assert!(out.ends_with('\n'));
}

#[test]
fn format_constants_and_structs() {
    let mut atoms = AtomTable::new();
    let f = atoms.intern("f").expect("intern");
    assert_eq!(one(Instr::PutInt { ai: 2, value: -7 }), "    PUT_CONST A2, int(-7)\n");
    assert_eq!(one(Instr::GetInt { ai: 0, value: 42 }), "    GET_CONST A0, int(42)\n");
    assert_eq!(one(Instr::UnifyInt { value: 3 }), "    UNIFY_CONST int(3)\n");
    assert_eq!(one(Instr::GetVal { ai: 1, xi: 9 }), "    GET_VAL X9, A1\n");
    assert_eq!(one(Instr::Allocate { n: 2 }), "    ALLOCATE 2\n");
    let mut prog: BoundedArr<Instr, MAX_INSTR> = BoundedArr::new();
    prog.push(Instr::GetStruct { ai: 1, atom: f, arity: 2 }).expect("gs");
    prog.push(Instr::UnifyVar { xi: 3 }).expect("uv");
    prog.push(Instr::UnifyVal { xi: 4 }).expect("ul");
    prog.push(Instr::UnifyConst { atom: f }).expect("uc");
    let out = emit(&prog, &atoms).expect("emit ok");
    assert_eq!(out, "    GET_STRUCT A1, f/2\n    UNIFY_VAR X3\n    UNIFY_VAL X4\n    UNIFY_CONST atom(f)\n");
}

#[test]
fn unknown_atom_is_an_error() {
    let mut prog: BoundedArr<Instr, MAX_INSTR> = BoundedArr::new();
    prog.push(Instr::PutConst { ai: 0, atom: 3 }).expect("pc");
    assert_eq!(emit(&prog, &AtomTable::new()), Err(EmitError::UnknownAtom));
}

#[test]
fn query_label_gets_a_blank_line() {
    let mut prog: BoundedArr<Instr, MAX_INSTR> = BoundedArr::new();
    prog.push(Instr::Halt).expect("h");
    prog.push(Instr::Label(lbl("query"))).expect("q");
    prog.push(Instr::Halt).expect("h");
    let out = emit(&prog, &AtomTable::new()).expect("emit ok");
    assert_eq!(out, "    HALT\n\nquery:\n    HALT\n");
}

#[test]
fn push_signed_handles_the_most_negative_value() {
    let mut out: Vec<u8> = Vec::new();
    push_signed(&mut out, i64::MIN);
    assert_eq!(out, b"-9223372036854775808".to_vec());
    out.clear();
    push_signed(&mut out, -7);
    assert_eq!(out, b"-7".to_vec());
}
