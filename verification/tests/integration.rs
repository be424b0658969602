use rust_to_prolog::assembler::{assemble, write_flat, Cells};
use rust_to_prolog::compile::compile;
use rust_to_prolog::emit::emit;
use rust_to_prolog::parse::{parse, AtomId, AtomTable};
use rust_to_prolog::refvm::{run_with, run_with_atoms, RunResult};
use rust_to_prolog::tokenize::tokenize;

const ANCESTOR_SRC: &str = "parent(bob, ann).\nparent(ann, liz).\nancestor(X, Y) :- parent(X, Y).\nancestor(X, Y) :- parent(X, Z), ancestor(Z, Y).\n?- ancestor(bob, liz).\n";
const ANCESTOR_GOLDEN: &str = ".atom 0 parent
.atom 1 bob
.atom 2 ann
.atom 3 liz
.atom 4 ancestor

    EXECUTE query

parent_c1_body:
    GET_CONST A0, atom(bob)
    GET_CONST A1, atom(ann)
    PROCEED

parent_c2_body:
    GET_CONST A0, atom(ann)
    GET_CONST A1, atom(liz)
    PROCEED

parent_entry:
    TRY parent_c2
    EXECUTE parent_c1_body
parent_c2:
    TRUST
    EXECUTE parent_c2_body

ancestor_c1_body:
    GET_VAR X0, A0
    GET_VAR X1, A1
    PUT_VAL X0, A0
    PUT_VAL X1, A1
    EXECUTE parent_entry

ancestor_c2_body:
    ALLOCATE 2
    GET_VAR X0, A0
    GET_Y_VAR Y0, A1
    PUT_VAL X0, A0
    PUT_VAR X1, A1
    GET_Y_VAR Y1, A1
    CALL parent_entry
    PUT_Y_VAL Y1, A0
    PUT_Y_VAL Y0, A1
    DEALLOCATE
    EXECUTE ancestor_entry

ancestor_entry:
    TRY ancestor_c2
    EXECUTE ancestor_c1_body
ancestor_c2:
    TRUST
    EXECUTE ancestor_c2_body

query:
    PUT_CONST A0, atom(bob)
    PUT_CONST A1, atom(liz)
    CALL ancestor_entry
    HALT
";
const ANCESTOR_LAM: &str = ANCESTOR_GOLDEN;
const ANCESTOR_BIN: &[u8] = &[
    0, 0, 3, 0, 45, 0, 0, 0, 0, 0, 18, 0, 1, 0, 64, 0,
    0, 1, 18, 0, 2, 0, 64, 0, 0, 0, 4, 0, 0, 0, 18, 0,
    2, 0, 64, 0, 0, 1, 18, 0, 3, 0, 64, 0, 0, 0, 4, 0,
    0, 0, 6, 0, 16, 0, 0, 0, 0, 0, 3, 0, 2, 0, 0, 0,
    0, 0, 8, 0, 0, 0, 3, 0, 7, 0, 0, 0, 0, 8, 16, 0,
    1, 9, 16, 0, 0, 8, 11, 0, 1, 9, 11, 0, 0, 0, 3, 0,
    12, 0, 0, 0, 0, 2, 28, 0, 0, 8, 16, 0, 1, 0, 20, 0,
    0, 8, 11, 0, 1, 9, 10, 0, 1, 1, 20, 0, 0, 0, 2, 0,
    12, 0, 0, 0, 0, 1, 13, 0, 1, 0, 13, 0, 0, 0, 29, 0,
    0, 0, 3, 0, 38, 0, 0, 0, 0, 0, 6, 0, 42, 0, 0, 0,
    0, 0, 3, 0, 19, 0, 0, 0, 0, 0, 8, 0, 0, 0, 3, 0,
    25, 0, 0, 0, 0, 0, 12, 0, 1, 0, 64, 0, 0, 1, 12, 0,
    3, 0, 64, 0, 0, 0, 2, 0, 38, 0, 0, 0, 0, 0, 1, 0,
];
const COLOR_PL: &str = "color(red).\ncolor(green).\ncolor(blue).\n\n?- color(X), write(X), nl, fail.\n";
const MEMBER_PL: &str = "member(X, [X|_]).\nmember(X, [_|T]) :- member(X, T).\n\n?- member(X, [a, b, c]), write(X), nl, fail.\n";



fn compile_ancestor_lam() -> String {
    let toks = tokenize(ANCESTOR_SRC).expect("tokenize ok");
    let mut atoms = AtomTable::new();
    let clauses = parse(&toks, &mut atoms).expect("parse ok");
    let prog = compile(&clauses, &atoms).expect("compile ok");
    emit(&prog, &atoms).expect("emit ok")
}

#[test]
fn ancestor_emit_byte_matches_golden() {
    let actual = compile_ancestor_lam();
    if actual != ANCESTOR_GOLDEN {
        println!("--- expected ({} bytes) ---", ANCESTOR_GOLDEN.len());
        println!("{ANCESTOR_GOLDEN}");
        println!("--- actual ({} bytes) ---", actual.len());
        println!("{actual}");
        panic!("ancestor.lam drifted from golden fixture");
    }
}




fn cells_of() -> Vec<u32> {
    let c = assemble(ANCESTOR_LAM).expect("assemble ok");
    (0..c.len()).map(|i| *c.get(i).expect("in range")).collect()
}

#[derive(Clone, Copy, Debug, PartialEq, Eq)]
struct Decoded {
    addr: usize,
    opcode: u8,
    op1: u8,
    op2: u8,
    imm: Option<u32>,
}

fn decode(cells: &[u32]) -> Vec<Decoded> {
    let mut out = Vec::new();
    let mut i = 0;
    while i < cells.len() {
        let c = cells[i];
        let opcode = ((c >> 16) & 0xFF) as u8;
        let op1 = ((c >> 8) & 0xFF) as u8;
        let op2 = (c & 0xFF) as u8;
        let (imm, width) = if is_two_cell(opcode) {
            let imm = cells.get(i + 1).copied();
            (imm, 2)
        } else {
            (None, 1)
        };
        out.push(Decoded {
            addr: i,
            opcode,
            op1,
            op2,
            imm,
        });
        i += width;
    }
    out
}

fn is_two_cell(opcode: u8) -> bool {
    matches!(opcode, 2 | 3 | 6 | 7 | 12 | 18 | 19)
    // CALL, EXECUTE, TRY, RETRY, PUT_CONST, GET_CONST, GET_STRUCT
}

fn count_opcode(decoded: &[Decoded], op: u8) -> usize {
    decoded.iter().filter(|d| d.opcode == op).count()
}

fn opcode_set(decoded: &[Decoded]) -> Vec<u8> {
    let mut seen: Vec<u8> = decoded.iter().map(|d| d.opcode).collect();
    seen.sort_unstable();
    seen.dedup();
    seen
}

#[test]
fn ancestor_bytecode_uses_only_expected_opcodes() {
    let cells = cells_of();
    let decoded = decode(&cells);
    let set = opcode_set(&decoded);
    // Expected: HALT(1), CALL(2), EXECUTE(3), PROCEED(4), TRY(6),
    // TRUST(8), PUT_VAR(10), PUT_VAL(11), PUT_CONST(12), PUT_Y_VAL(13),
    // GET_VAR(16), GET_CONST(18), GET_Y_VAR(20), ALLOCATE(28),
    // DEALLOCATE(29). No RETRY (2-clause preds only), no builtins.
    let expected: Vec<u8> = vec![1, 2, 3, 4, 6, 8, 10, 11, 12, 13, 16, 18, 20, 28, 29];
    assert_eq!(set, expected, "unexpected opcodes: {set:?}");
}

#[test]
fn ancestor_bytecode_has_balanced_env_frame() {
    let cells = cells_of();
    let decoded = decode(&cells);
    assert_eq!(
        count_opcode(&decoded, 28),
        1,
        "expected exactly one ALLOCATE"
    );
    assert_eq!(
        count_opcode(&decoded, 29),
        1,
        "expected exactly one DEALLOCATE"
    );

    // ALLOCATE must come before DEALLOCATE in cell order.
    let alloc_ix = decoded
        .iter()
        .position(|d| d.opcode == 28)
        .expect("ALLOCATE present");
    let dealloc_ix = decoded
        .iter()
        .position(|d| d.opcode == 29)
        .expect("DEALLOCATE present");
    assert!(alloc_ix < dealloc_ix, "ALLOCATE must precede DEALLOCATE");

    // ALLOCATE's op1 is the frame size. Conservative 2-Y layout.
    let alloc = decoded[alloc_ix];
    assert_eq!(alloc.op1, 2, "expected ALLOCATE 2 (conservative Y-reg)");
}

#[test]
fn ancestor_bytecode_terminates_in_single_halt() {
    let cells = cells_of();
    let decoded = decode(&cells);
    assert_eq!(count_opcode(&decoded, 1), 1, "expected exactly one HALT");
    let last = decoded.last().expect("non-empty");
    assert_eq!(last.opcode, 1, "HALT must be the final instruction");
}

#[test]
fn ancestor_bytecode_has_two_try_trust_pairs() {
    // Two multi-clause predicates (parent/2 and ancestor/2), each
    // dispatched by a TRY-TRUST pair — no RETRY because neither
    // predicate has 3+ clauses.
    let cells = cells_of();
    let decoded = decode(&cells);
    assert_eq!(
        count_opcode(&decoded, 6),
        2,
        "expected 2 TRY (one per predicate)"
    );
    assert_eq!(
        count_opcode(&decoded, 8),
        2,
        "expected 2 TRUST (one per predicate)"
    );
    assert_eq!(
        count_opcode(&decoded, 7),
        0,
        "expected 0 RETRY (2-clause preds)"
    );
}

#[test]
fn ancestor_bytecode_emits_one_nontail_call_to_parent() {
    // Inside ancestor_c2_body, parent/2 is invoked via CALL (not
    // EXECUTE) because the recursive EXECUTE ancestor_entry follows.
    // The body of ancestor_c1_body is a single-goal tail call to
    // parent (EXECUTE, no env frame needed).
    let cells = cells_of();
    let decoded = decode(&cells);
    assert_eq!(
        count_opcode(&decoded, 2),
        2,
        "expected 2 CALLs (query+ancestor_c2_body)"
    );
}

#[test]
fn ancestor_bytecode_uses_three_y_slot_ops() {
    // ancestor_c2_body: GET_Y_VAR Y0, A1 (save Y from head);
    // GET_Y_VAR Y1, A1 (save fresh Z); PUT_Y_VAL Y1, A0; PUT_Y_VAL Y0, A1.
    // That's 2 GET_Y_VAR + 2 PUT_Y_VAL.
    let cells = cells_of();
    let decoded = decode(&cells);
    assert_eq!(count_opcode(&decoded, 20), 2, "expected 2 GET_Y_VAR");
    assert_eq!(count_opcode(&decoded, 13), 2, "expected 2 PUT_Y_VAL");
}

#[test]
fn ancestor_bytecode_cell_count_matches_golden() {
    let cells = cells_of();
    assert_eq!(
        cells.len(),
        52,
        "cell count changed — inspect bytecode drift"
    );
}




#[test]
fn ancestor_asm_byte_matches_lam_asm_py() {
    let cells = assemble(ANCESTOR_LAM).expect("assemble ok");
    let mut actual = Vec::with_capacity(ANCESTOR_BIN.len());
    write_flat(&cells, &mut actual);
    if actual != ANCESTOR_BIN {
        println!("expected {} bytes, got {} bytes", ANCESTOR_BIN.len(), actual.len());
        panic!("ancestor.bin drifted from lam_asm.py output");
    }
}



fn cells_to_vec(c: &Cells) -> Vec<u32> {
    (0..c.len()).map(|i| *c.get(i).expect("in range")).collect()
}

fn run(src: &str) -> (RunResult, Vec<u8>) {
    let cells = assemble(src).expect("assemble ok");
    let code = cells_to_vec(&cells);
    let mut out = Vec::new();
    let res = run_with(code, &mut out);
    (res, out)
}

#[test]
fn fact_lookup_halts_on_matching_atom() {
    let src = "\
.atom 0 p
.atom 1 bob

    EXECUTE query

p_c1_body:
    GET_CONST A0, atom(bob)
    PROCEED

p_entry:
    EXECUTE p_c1_body

query:
    PUT_CONST A0, atom(bob)
    CALL p_entry
    HALT
";
    let (r, _) = run(src);
    assert_eq!(r, RunResult::Halt);
}

#[test]
fn fact_fail_when_head_does_not_unify() {
    let src = "\
.atom 0 p
.atom 1 bob
.atom 2 ann

    EXECUTE query

p_c1_body:
    GET_CONST A0, atom(ann)
    PROCEED

p_entry:
    EXECUTE p_c1_body

query:
    PUT_CONST A0, atom(bob)
    CALL p_entry
    HALT
";
    let (r, _) = run(src);
    assert_eq!(r, RunResult::Fail);
}

#[test]
fn put_var_binds_unbound_query_arg_to_atom() {
    let src = "\
.atom 0 p
.atom 1 bob

    EXECUTE query

p_c1_body:
    GET_VAR X0, A0
    PROCEED

p_entry:
    EXECUTE p_c1_body

query:
    PUT_CONST A0, atom(bob)
    CALL p_entry
    HALT
";
    let (r, _) = run(src);
    assert_eq!(r, RunResult::Halt);
}

#[test]
fn put_var_shared_arg_unifies_across_positions() {
    let src = "\
.atom 0 p
.atom 1 bob

    EXECUTE query

p_c1_body:
    GET_CONST A0, atom(bob)
    GET_CONST A1, atom(bob)
    PROCEED

p_entry:
    EXECUTE p_c1_body

query:
    PUT_VAR X0, A0
    PUT_VAL X0, A1
    CALL p_entry
    HALT
";
    let (r, _) = run(src);
    assert_eq!(r, RunResult::Halt);
}

#[test]
fn try_trust_first_clause_succeeds() {
    let src = "\
.atom 0 p
.atom 1 bob
.atom 2 ann

    EXECUTE query

p_c1_body:
    GET_CONST A0, atom(bob)
    PROCEED
p_c2_body:
    GET_CONST A0, atom(ann)
    PROCEED

p_entry:
    TRY p_c2
    EXECUTE p_c1_body
p_c2:
    TRUST
    EXECUTE p_c2_body

query:
    PUT_CONST A0, atom(bob)
    CALL p_entry
    HALT
";
    let (r, _) = run(src);
    assert_eq!(r, RunResult::Halt);
}

#[test]
fn backtrack_to_second_clause_succeeds() {
    let src = "\
.atom 0 p
.atom 1 bob
.atom 2 ann

    EXECUTE query

p_c1_body:
    GET_CONST A0, atom(bob)
    PROCEED
p_c2_body:
    GET_CONST A0, atom(ann)
    PROCEED

p_entry:
    TRY p_c2
    EXECUTE p_c1_body
p_c2:
    TRUST
    EXECUTE p_c2_body

query:
    PUT_CONST A0, atom(ann)
    CALL p_entry
    HALT
";
    let (r, _) = run(src);
    assert_eq!(r, RunResult::Halt);
}

#[test]
fn two_facts_both_fail_yields_fail() {
    let src = "\
.atom 0 p
.atom 1 bob
.atom 2 ann
.atom 3 liz

    EXECUTE query

p_c1_body:
    GET_CONST A0, atom(bob)
    PROCEED
p_c2_body:
    GET_CONST A0, atom(ann)
    PROCEED

p_entry:
    TRY p_c2
    EXECUTE p_c1_body
p_c2:
    TRUST
    EXECUTE p_c2_body

query:
    PUT_CONST A0, atom(liz)
    CALL p_entry
    HALT
";
    let (r, _) = run(src);
    assert_eq!(r, RunResult::Fail);
}

#[test]
fn retry_three_clauses_all_fail_yields_fail() {
    let src = "\
.atom 0 p
.atom 1 a
.atom 2 b
.atom 3 c
.atom 4 x

    EXECUTE query

p_c1_body:
    GET_CONST A0, atom(a)
    PROCEED
p_c2_body:
    GET_CONST A0, atom(b)
    PROCEED
p_c3_body:
    GET_CONST A0, atom(c)
    PROCEED

p_entry:
    TRY p_c2
    EXECUTE p_c1_body
p_c2:
    RETRY p_c3
    EXECUTE p_c2_body
p_c3:
    TRUST
    EXECUTE p_c3_body

query:
    PUT_CONST A0, atom(x)
    CALL p_entry
    HALT
";
    let (r, _) = run(src);
    assert_eq!(r, RunResult::Fail);
}

#[test]
fn retry_three_clauses_middle_matches() {
    let src = "\
.atom 0 p
.atom 1 a
.atom 2 b
.atom 3 c

    EXECUTE query

p_c1_body:
    GET_CONST A0, atom(a)
    PROCEED
p_c2_body:
    GET_CONST A0, atom(b)
    PROCEED
p_c3_body:
    GET_CONST A0, atom(c)
    PROCEED

p_entry:
    TRY p_c2
    EXECUTE p_c1_body
p_c2:
    RETRY p_c3
    EXECUTE p_c2_body
p_c3:
    TRUST
    EXECUTE p_c3_body

query:
    PUT_CONST A0, atom(b)
    CALL p_entry
    HALT
";
    let (r, _) = run(src);
    assert_eq!(r, RunResult::Halt);
}

#[test]
fn b_write_and_b_nl_capture_output() {
    let src = "\
.atom 0 hello

    EXECUTE query

query:
    PUT_CONST A0, atom(hello)
    B_WRITE A0
    B_NL
    HALT
";
    let (r, out) = run(src);
    assert_eq!(r, RunResult::Halt);
    assert_eq!(out, b"atom(0)\n");
}

fn compile_pipeline(src: &str) -> String {
    let toks = tokenize(src).expect("tokenize ok");
    let mut atoms = AtomTable::new();
    let clauses = parse(&toks, &mut atoms).expect("parse ok");
    let instrs = compile(&clauses, &atoms).expect("compile ok");
    emit(&instrs, &atoms).expect("emit ok")
}

fn compile_pipeline_with_atoms(src: &str) -> (String, Vec<String>) {
    let toks = tokenize(src).expect("tokenize ok");
    let mut atoms = AtomTable::new();
    let clauses = parse(&toks, &mut atoms).expect("parse ok");
    let instrs = compile(&clauses, &atoms).expect("compile ok");
    let lam = emit(&instrs, &atoms).expect("emit ok");
    let names: Vec<String> = (0..atoms.len() as AtomId)
        .map(|i| atoms.name(i).expect("id in range").as_str().to_string())
        .collect();
    (lam, names)
}

fn run_with_compiled_atoms(src: &str) -> (RunResult, String) {
    let (lam, names) = compile_pipeline_with_atoms(src);
    let cells = assemble(&lam).expect("assemble ok");
    let code = cells_to_vec(&cells);
    let mut buf = Vec::new();
    let res = run_with_atoms(code, names, &mut buf);
    (res, String::from_utf8(buf).expect("utf8"))
}

#[test]
fn compiled_parent_runs_on_refvm() {
    let lam = compile_pipeline("parent(bob, ann). parent(ann, liz). ?- parent(bob, ann).");
    let (r, _) = run(&lam);
    assert_eq!(r, RunResult::Halt);
}

#[test]
fn compiled_ancestor_runs_on_refvm() {
    // Full Rust pipeline on examples/ancestor.pl. Exercises the
    // ALLOCATE / GET_Y_VAR / PUT_Y_VAL / DEALLOCATE env-frame path
    // that the recursive ancestor_c2 clause needs. Pre-fix, this
    // case infinite-looped because CALL parent_entry clobbered CP
    // and the subsequent tail-call EXECUTE ancestor_entry couldn't
    // return to the query's HALT.
    let src = ANCESTOR_SRC;
    let lam = compile_pipeline(src);
    let (r, _) = run(&lam);
    assert_eq!(r, RunResult::Halt);
}

#[test]
fn compiled_color_prints_all_colors_via_backtracking() {
    // examples/color.pl: `color(X), write(X), nl, fail.` enumerates
    // red/green/blue through TRY/RETRY/TRUST, printing each via the
    // inline B_WRITE builtin. `fail` forces the next retry; when
    // color's choice points exhaust, the whole query returns FAIL.
    let src = COLOR_PL;
    let (r, out) = run_with_compiled_atoms(src);
    assert_eq!(r, RunResult::Fail);
    assert_eq!(out, "red\ngreen\nblue\n");
}

#[test]
fn compiled_member_prints_each_element_via_backtracking() {
    let src = MEMBER_PL;
    let (r, out) = run_with_compiled_atoms(src);
    assert_eq!(r, RunResult::Fail);
    assert_eq!(out, "a\nb\nc\n");
}

#[test]
fn compiled_write_hello_terminates_via_halt() {
    // `?- write(hello), nl.` — all inline builtins, no user-pred
    // CALL, so no ALLOCATE. Falls through to HALT after nl.
    let (r, out) = run_with_compiled_atoms("?- write(hello), nl.");
    assert_eq!(r, RunResult::Halt);
    assert_eq!(out, "hello\n");
}

#[test]
fn compiled_ancestor_fails_when_no_solution() {
    // Same program, query with no answer: ancestor(liz, bob) has no
    // solution, so the search exhausts all choice points and the VM
    // returns RunResult::Fail rather than looping.
    let lam = compile_pipeline(
        "parent(bob, ann). parent(ann, liz). \
         ancestor(X, Y) :- parent(X, Y). \
         ancestor(X, Y) :- parent(X, Z), ancestor(Z, Y). \
         ?- ancestor(liz, bob).",
    );
    let (r, _) = run(&lam);
    assert_eq!(r, RunResult::Fail);
}
