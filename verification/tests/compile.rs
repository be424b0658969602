use rust_to_prolog::compile::{build_label, compile, u8_to_decimal, CompileError, Instr, MAX_INSTR};
use rust_to_prolog::parse::{parse, AtomId, AtomTable};
use rust_to_prolog::port::BoundedArr;
use rust_to_prolog::tokenize::tokenize;

const ANCESTOR_PL: &str = "parent(bob, ann).\nparent(ann, liz).\nancestor(X, Y) :- parent(X, Y).\nancestor(X, Y) :- parent(X, Z), ancestor(Z, Y).\n?- ancestor(bob, liz).\n";

fn compile_src(src: &str) -> BoundedArr<Instr, MAX_INSTR> {
    let toks = tokenize(src).expect("tokenize ok");
    let mut atoms = AtomTable::new();
    let clauses = parse(&toks, &mut atoms).expect("parse ok");
    compile(&clauses, &atoms).expect("compile ok")
}

fn atom_id(atoms: &AtomTable, name: &str) -> AtomId {
    for i in 0..atoms.len() as AtomId {
        if atoms.name(i).expect("id in range").as_str() == name {
            return i;
        }
    }
    panic!("atom {name:?} not interned");
}

fn as_label(i: &Instr) -> Option<&str> {
    match i {
        Instr::Label(l) => Some(l.as_str()),
        _ => None,
    }
}

/// Pinned reference for examples/ancestor.pl with the ALLOCATE /
/// DEALLOCATE env frames that the recursive `ancestor_c2` clause
/// needs: ancestor_c2_body grows from 9 Instr entries (pre-fix)
/// to 12 (adds ALLOCATE, a GET_Y_VAR pair for Z, DEALLOCATE),
/// bumping the total from 46 to 49 Instr entries.
const ANCESTOR_INSTR_COUNT: usize = 49;

#[test]
fn compile_ancestor_instruction_count() {
    let src = ANCESTOR_PL;
    let prog = compile_src(src);
    assert_eq!(prog.len(), ANCESTOR_INSTR_COUNT);
}

#[test]
fn compile_ancestor_first_and_last_instructions() {
    let src = ANCESTOR_PL;
    let prog = compile_src(src);
    match prog.get(0).expect("first") {
        Instr::AtomDir { id, .. } => assert_eq!(*id, 0),
        other => panic!("expected AtomDir, got {other:?}"),
    }
    assert!(matches!(prog.get(prog.len() - 1), Some(Instr::Halt)));
}

#[test]
fn compile_ancestor_has_expected_labels() {
    let src = ANCESTOR_PL;
    let prog = compile_src(src);
    let labels: Vec<&str> = prog.iter().filter_map(as_label).collect();
    assert_eq!(
        labels,
        vec![
            "parent_c1_body",
            "parent_c2_body",
            "parent_entry",
            "parent_c2",
            "ancestor_c1_body",
            "ancestor_c2_body",
            "ancestor_entry",
            "ancestor_c2",
            "query",
        ]
    );
}

#[test]
fn compile_ancestor_initial_execute_query() {
    let src = ANCESTOR_PL;
    let prog = compile_src(src);
    let mut after_atoms = 0;
    for i in 0..prog.len() {
        match prog.get(i).unwrap() {
            Instr::AtomDir { .. } => after_atoms = i + 1,
            _ => break,
        }
    }
    match prog.get(after_atoms).expect("exec query") {
        Instr::Execute { label } => assert_eq!(label.as_str(), "query"),
        other => panic!("expected Execute(query), got {other:?}"),
    }
}

#[test]
fn compile_ancestor_query_tail_is_call_then_halt() {
    let src = ANCESTOR_PL;
    let toks = tokenize(src).expect("tokenize ok");
    let mut atoms = AtomTable::new();
    let clauses = parse(&toks, &mut atoms).expect("parse ok");
    let prog = compile(&clauses, &atoms).expect("compile ok");
    let bob = atom_id(&atoms, "bob");
    let liz = atom_id(&atoms, "liz");
    let mut qi = None;
    for i in 0..prog.len() {
        if matches!(prog.get(i), Some(Instr::Label(l)) if l.as_str() == "query") {
            qi = Some(i);
            break;
        }
    }
    let qi = qi.expect("query label found");
    assert!(matches!(
        prog.get(qi + 1),
        Some(Instr::PutConst { ai: 0, atom }) if *atom == bob
    ));
    assert!(matches!(
        prog.get(qi + 2),
        Some(Instr::PutConst { ai: 1, atom }) if *atom == liz
    ));
    match prog.get(qi + 3).expect("call") {
        Instr::Call { label } => assert_eq!(label.as_str(), "ancestor_entry"),
        other => panic!("expected Call(ancestor_entry), got {other:?}"),
    }
    assert!(matches!(prog.get(qi + 4), Some(Instr::Halt)));
    assert_eq!(qi + 4, prog.len() - 1);
}

#[test]
fn compile_ancestor_c2_body_opens_env_and_emits_y_regs() {
    let src = ANCESTOR_PL;
    let prog = compile_src(src);
    let mut ci = None;
    for i in 0..prog.len() {
        if matches!(
            prog.get(i),
            Some(Instr::Label(l)) if l.as_str() == "ancestor_c2_body"
        ) {
            ci = Some(i);
            break;
        }
    }
    let ci = ci.expect("ancestor_c2_body label found");
    // Expected sequence after label:
    //   ALLOCATE 2
    //   GET_VAR X0, A0             ; X (temp)
    //   GET_Y_VAR Y0, A1           ; Y (perm, first-occ in head)
    //   PUT_VAL X0, A0             ; X (X-seen)
    //   PUT_VAR X1, A1             ; scratch for Z
    //   GET_Y_VAR Y1, A1           ; save fresh Z to Y1
    //   CALL parent_entry
    //   PUT_Y_VAL Y1, A0           ; Z
    //   PUT_Y_VAL Y0, A1           ; Y
    //   DEALLOCATE
    //   EXECUTE ancestor_entry
    assert!(matches!(prog.get(ci + 1), Some(Instr::Allocate { n: 2 })));
    assert!(matches!(
        prog.get(ci + 2),
        Some(Instr::GetVar { ai: 0, xi: 0 })
    ));
    assert!(matches!(
        prog.get(ci + 3),
        Some(Instr::GetYVar { ai: 1, yi: 0 })
    ));
    assert!(matches!(
        prog.get(ci + 4),
        Some(Instr::PutVal { ai: 0, xi: 0 })
    ));
    assert!(matches!(
        prog.get(ci + 5),
        Some(Instr::PutVar { ai: 1, xi: 1 })
    ));
    assert!(matches!(
        prog.get(ci + 6),
        Some(Instr::GetYVar { ai: 1, yi: 1 })
    ));
    match prog.get(ci + 7).expect("call parent_entry") {
        Instr::Call { label } => assert_eq!(label.as_str(), "parent_entry"),
        other => panic!("expected Call(parent_entry), got {other:?}"),
    }
    assert!(matches!(
        prog.get(ci + 8),
        Some(Instr::PutYVal { ai: 0, yi: 1 })
    ));
    assert!(matches!(
        prog.get(ci + 9),
        Some(Instr::PutYVal { ai: 1, yi: 0 })
    ));
    assert!(matches!(prog.get(ci + 10), Some(Instr::Deallocate)));
    match prog.get(ci + 11).expect("execute ancestor_entry") {
        Instr::Execute { label } => assert_eq!(label.as_str(), "ancestor_entry"),
        other => panic!("expected Execute(ancestor_entry), got {other:?}"),
    }
}

#[test]
fn compile_ancestor_c1_body_has_no_env_frame() {
    // ancestor_c1 is `ancestor(X, Y) :- parent(X, Y).` — one body
    // goal, so no chunk boundaries, so no permanent vars, so no
    // ALLOCATE / DEALLOCATE. Sequence should be head + body
    // PUT_VAL pair + tail call with no env frame.
    let src = ANCESTOR_PL;
    let prog = compile_src(src);
    let mut ci = None;
    for i in 0..prog.len() {
        if matches!(
            prog.get(i),
            Some(Instr::Label(l)) if l.as_str() == "ancestor_c1_body"
        ) {
            ci = Some(i);
            break;
        }
    }
    let ci = ci.expect("ancestor_c1_body label found");
    assert!(!matches!(prog.get(ci + 1), Some(Instr::Allocate { .. })));
    assert!(matches!(
        prog.get(ci + 1),
        Some(Instr::GetVar { ai: 0, xi: 0 })
    ));
    assert!(matches!(
        prog.get(ci + 2),
        Some(Instr::GetVar { ai: 1, xi: 1 })
    ));
    match prog.get(ci + 5).expect("execute parent_entry") {
        Instr::Execute { label } => assert_eq!(label.as_str(), "parent_entry"),
        other => panic!("expected Execute(parent_entry), got {other:?}"),
    }
}

#[test]
fn compile_single_fact() {
    let prog = compile_src("p(a). ?- p(a).");
    // atom dirs (p, a) + Execute(query)                = 3
    //   + p_c1_body label + GET_CONST a + PROCEED      = 3
    //   + p_entry label + EXECUTE p_c1_body            = 2
    //   + query label + PUT_CONST a + CALL p_entry + HALT = 4
    assert_eq!(prog.len(), 12);
    assert!(matches!(prog.get(0), Some(Instr::AtomDir { id: 0, .. })));
}

#[test]
fn compile_single_clause_predicate_dispatcher_has_no_try() {
    let prog = compile_src("p(a). q(X) :- p(X). ?- q(a).");
    let mut saw_q_entry = false;
    for i in 0..prog.len() {
        if matches!(prog.get(i), Some(Instr::Label(l)) if l.as_str() == "q_entry") {
            saw_q_entry = true;
            match prog.get(i + 1).expect("after q_entry") {
                Instr::Execute { label } => {
                    assert_eq!(label.as_str(), "q_c1_body");
                }
                other => panic!("expected Execute, got {other:?}"),
            }
            assert!(!matches!(prog.get(i + 1), Some(Instr::Try { .. })));
            break;
        }
    }
    assert!(saw_q_entry);
}

#[test]
fn compile_error_on_missing_query() {
    let src = "parent(bob, ann).";
    let toks = tokenize(src).expect("tokenize ok");
    let mut atoms = AtomTable::new();
    let clauses = parse(&toks, &mut atoms).expect("parse ok");
    let err = compile(&clauses, &atoms).unwrap_err();
    assert!(matches!(err, CompileError::NoQuery));
}

#[test]
fn compile_error_on_multiple_queries() {
    let src = "p(a). ?- p(a). ?- p(a).";
    let toks = tokenize(src).expect("tokenize ok");
    let mut atoms = AtomTable::new();
    let clauses = parse(&toks, &mut atoms).expect("parse ok");
    let err = compile(&clauses, &atoms).unwrap_err();
    assert!(matches!(err, CompileError::MultipleQueries));
}

#[test]
fn u8_to_decimal_basic_cases() {
    let mut buf = [0u8; 4];
    assert_eq!(u8_to_decimal(0, &mut buf), "0");
    assert_eq!(u8_to_decimal(1, &mut buf), "1");
    assert_eq!(u8_to_decimal(9, &mut buf), "9");
    assert_eq!(u8_to_decimal(10, &mut buf), "10");
    assert_eq!(u8_to_decimal(99, &mut buf), "99");
    assert_eq!(u8_to_decimal(100, &mut buf), "100");
    assert_eq!(u8_to_decimal(255, &mut buf), "255");
}

#[test]
fn build_label_concatenation() {
    let parts = ["parent", "_c", "10", "_body"];
    let lbl = build_label(&parts).expect("fits");
    assert_eq!(lbl.as_str(), "parent_c10_body");
}

#[test]
fn compile_three_clause_predicate_uses_retry() {
    let prog = compile_src("c(a). c(b). c(d). ?- c(X).");
    let mut tries = 0;
    let mut retries = 0;
    let mut trusts = 0;
    for i in 0..prog.len() {
        match prog.get(i).unwrap() {
            Instr::Try { .. } => tries += 1,
            Instr::Retry { .. } => retries += 1,
            Instr::Trust { .. } => trusts += 1,
            _ => {}
        }
    }
    assert_eq!((tries, retries, trusts), (1, 1, 1));
}

#[test]
fn compile_builtins_inline() {
    let prog = compile_src("?- write(hello), nl.");
    let mut saw_write = false;
    let mut saw_nl = false;
    for i in 0..prog.len() {
        match prog.get(i).unwrap() {
            Instr::BWrite { ai: 0 } => saw_write = true,
            Instr::BNl => saw_nl = true,
            Instr::Call { .. } => panic!("builtins are not called"),
            _ => {}
        }
    }
    assert!(saw_write && saw_nl);
    assert!(matches!(prog.get(prog.len() - 1), Some(Instr::Halt)));
}

#[test]
fn build_label_too_long_is_refused() {
    let long = "p".repeat(60);
    let err = build_label(&[long.as_str(), "_entry"]).unwrap_err();
    assert_eq!(err, CompileError::LabelOverflow);
}

#[test]
fn variable_shared_past_an_inline_builtin_is_permanent() {
    // Chunk 0 is {r(X), write(X)}, chunk 1 is {p(X)}: X is in two chunks,
    // so r's clause is the only one that opens an environment.
    let prog = compile_src("r(X) :- write(X), p(X).\np(a).\n?- r(a).\n");
    let mut allocs = 0;
    for i in 0..prog.len() {
        match prog.get(i).unwrap() {
            Instr::Allocate { n } => {
                assert_eq!(*n, 1);
                allocs += 1;
            }
            _ => {}
        }
    }
    assert_eq!(allocs, 1);
}
