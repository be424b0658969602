use rust_to_prolog::refvm::dispatch::step;
use rust_to_prolog::refvm::{RunError, Vm};
use rust_to_prolog::refvm::builtin::{write_nl, write_term};
use rust_to_prolog::refvm::choice::{pop, push_choice, restore_top, top_alt, update_alt, ChoicePt};
use rust_to_prolog::refvm::heap::{
    alloc_unbound, bind, deref, fun_arity, fun_atom_id, is_unbound, make, make_fun, make_ref, make_str, payload,
    tag, unify, unwind_trail, TAG_ATOM, TAG_INT, TAG_REF,
};

#[test]
fn tag_and_payload_roundtrip() {
    let c = make(TAG_ATOM, 42);
    assert_eq!(tag(c), TAG_ATOM);
    assert_eq!(payload(c), 42);
}

#[test]
fn deref_follows_ref_chain() {
    let mut heap = vec![make_ref(0); 4];
    heap[0] = make_ref(1);
    heap[1] = make_ref(2);
    heap[2] = make(TAG_ATOM, 7);
    heap[3] = make_ref(3);
    assert_eq!(deref(make_ref(0), &heap), make(TAG_ATOM, 7));
    assert_eq!(deref(make_ref(3), &heap), make_ref(3));
}

#[test]
fn alloc_unbound_returns_self_ref() {
    let mut heap: Vec<u32> = Vec::new();
    let r = alloc_unbound(&mut heap);
    assert_eq!(heap.len(), 1);
    assert_eq!(tag(r), TAG_REF);
    assert_eq!(heap[0], r);
    assert!(is_unbound(r, &heap));
}

#[test]
fn unify_atom_with_atom() {
    let mut heap: Vec<u32> = Vec::new();
    let mut trail: Vec<u32> = Vec::new();
    let a = make(TAG_ATOM, 1);
    let b = make(TAG_ATOM, 1);
    let c = make(TAG_ATOM, 2);
    assert!(unify(a, b, &mut heap, &mut trail));
    assert!(!unify(a, c, &mut heap, &mut trail));
}

#[test]
fn unify_unbound_with_atom_binds() {
    let mut heap: Vec<u32> = Vec::new();
    let mut trail: Vec<u32> = Vec::new();
    let r = alloc_unbound(&mut heap);
    let a = make(TAG_ATOM, 3);
    assert!(unify(r, a, &mut heap, &mut trail));
    assert_eq!(deref(r, &heap), a);
    assert_eq!(trail.len(), 1);
}

#[test]
fn unwind_trail_restores_unbound() {
    let mut heap: Vec<u32> = Vec::new();
    let mut trail: Vec<u32> = Vec::new();
    let r = alloc_unbound(&mut heap);
    let a = make(TAG_ATOM, 4);
    assert!(unify(r, a, &mut heap, &mut trail));
    assert_eq!(deref(r, &heap), a);
    unwind_trail(0, &mut heap, &mut trail);
    assert!(is_unbound(r, &heap));
    assert_eq!(trail.len(), 0);
}

#[test]
fn unify_two_unbound_binds_one_to_other() {
    let mut heap: Vec<u32> = Vec::new();
    let mut trail: Vec<u32> = Vec::new();
    let a = alloc_unbound(&mut heap);
    let b = alloc_unbound(&mut heap);
    assert!(unify(a, b, &mut heap, &mut trail));
    let atom = make(TAG_ATOM, 9);
    assert!(unify(a, atom, &mut heap, &mut trail));
    assert_eq!(deref(a, &heap), atom);
    assert_eq!(deref(b, &heap), atom);
}

#[test]
fn fun_cell_roundtrip() {
    let f = make_fun(300, 3);
    assert_eq!(fun_atom_id(f), 300);
    assert_eq!(fun_arity(f), 3);
}

#[test]
fn unify_structures_by_arguments() {
    // f(X, b) = f(a, Y) binds X to a and Y to b.
    let mut heap: Vec<u32> = Vec::new();
    let mut trail: Vec<u32> = Vec::new();
    let x = alloc_unbound(&mut heap);
    let y = alloc_unbound(&mut heap);
    let s1 = heap.len();
    heap.push(make_fun(7, 2));
    heap.push(x);
    heap.push(make(TAG_ATOM, 2));
    let s2 = heap.len();
    heap.push(make_fun(7, 2));
    heap.push(make(TAG_ATOM, 1));
    heap.push(y);
    assert!(unify(make_str(s1), make_str(s2), &mut heap, &mut trail));
    assert_eq!(deref(x, &heap), make(TAG_ATOM, 1));
    assert_eq!(deref(y, &heap), make(TAG_ATOM, 2));
}

#[test]
fn writes_atom_id_when_table_empty() {
    let mut buf = Vec::new();
    write_term(make(TAG_ATOM, 5), &[], &[], &mut buf);
    assert_eq!(buf, b"atom(5)");
}

#[test]
fn writes_atom_name_from_table() {
    let atoms = vec!["parent".to_string(), "bob".to_string(), "ann".to_string()];
    let mut buf = Vec::new();
    write_term(make(TAG_ATOM, 1), &[], &atoms, &mut buf);
    assert_eq!(buf, b"bob");
}

#[test]
fn falls_back_to_atom_id_when_out_of_range() {
    let atoms = vec!["parent".to_string()];
    let mut buf = Vec::new();
    write_term(make(TAG_ATOM, 5), &[], &atoms, &mut buf);
    assert_eq!(buf, b"atom(5)");
}

#[test]
fn writes_positive_int() {
    let mut buf = Vec::new();
    write_term(make(TAG_INT, 42), &[], &[], &mut buf);
    assert_eq!(buf, b"42");
}

#[test]
fn writes_negative_int_with_sign_extension() {
    let mut buf = Vec::new();
    write_term(make(TAG_INT, 0x1F_FFFF), &[], &[], &mut buf);
    assert_eq!(buf, b"-1");
}

#[test]
fn writes_newline() {
    let mut buf = Vec::new();
    write_nl(&mut buf);
    assert_eq!(buf, b"\n");
}

#[test]
fn writes_unbound_ref_as_named_placeholder() {
    let mut heap: Vec<u32> = Vec::new();
    let r = alloc_unbound(&mut heap);
    let mut buf = Vec::new();
    write_term(r, &heap, &[], &mut buf);
    assert_eq!(buf, b"_G0");
}

#[test]
fn push_and_pop_restores_no_state_if_empty() {
    let mut stack: Vec<ChoicePt> = Vec::new();
    let mut regs = [0u32; 16];
    let mut heap: Vec<u32> = Vec::new();
    let mut trail: Vec<u32> = Vec::new();
    assert!(restore_top(&stack, &mut regs, &mut heap, &mut trail).is_none());
    pop(&mut stack);
}

#[test]
fn restore_rewinds_heap_and_trail() {
    let mut stack: Vec<ChoicePt> = Vec::new();
    let mut regs = [0u32; 16];
    let mut heap: Vec<u32> = Vec::new();
    let mut trail: Vec<u32> = Vec::new();
    let _ = alloc_unbound(&mut heap);
    push_choice(&mut stack, &regs, 99, 7, heap.len(), trail.len(), 0);
    let r = alloc_unbound(&mut heap);
    bind(1, make(TAG_ATOM, 5), &mut heap, &mut trail);
    let (cp, _) = restore_top(&stack, &mut regs, &mut heap, &mut trail).expect("top");
    assert_eq!(cp, 7);
    assert_eq!(heap.len(), 1);
    assert!(trail.is_empty());
    let _ = tag(r);
}

#[test]
fn restore_brings_back_saved_argument_regs() {
    let mut stack: Vec<ChoicePt> = Vec::new();
    let mut regs = [0u32; 16];
    for i in 0..8 {
        regs[i] = make(TAG_ATOM, i as u32 + 1);
    }
    let heap: Vec<u32> = Vec::new();
    let trail: Vec<u32> = Vec::new();
    push_choice(&mut stack, &regs, 0, 0, heap.len(), trail.len(), 0);
    for i in 0..8 {
        regs[i] = 0;
    }
    let mut heap: Vec<u32> = Vec::new();
    let mut trail: Vec<u32> = Vec::new();
    restore_top(&stack, &mut regs, &mut heap, &mut trail);
    for i in 0..8 {
        assert_eq!(regs[i], make(TAG_ATOM, i as u32 + 1));
    }
}

#[test]
fn update_alt_changes_top_frame() {
    let mut stack: Vec<ChoicePt> = Vec::new();
    let regs = [0u32; 16];
    push_choice(&mut stack, &regs, 10, 0, 0, 0, 0);
    update_alt(&mut stack, 99);
    assert_eq!(top_alt(&stack), Some(99));
}

#[test]
fn binding_beyond_saved_hp_is_untrailed_on_restore() {
    let mut heap: Vec<u32> = Vec::new();
    let mut trail: Vec<u32> = Vec::new();
    let r = alloc_unbound(&mut heap);
    let mut stack: Vec<ChoicePt> = Vec::new();
    let regs = [0u32; 16];
    push_choice(&mut stack, &regs, 0, 0, heap.len(), trail.len(), 0);
    bind(0, make(TAG_ATOM, 1), &mut heap, &mut trail);
    assert!(!is_unbound(r, &heap));
    let mut regs = [0u32; 16];
    restore_top(&stack, &mut regs, &mut heap, &mut trail);
    assert_eq!(deref(r, &heap), r);
}

#[test]
fn restore_truncates_env_stack() {
    let mut stack: Vec<ChoicePt> = Vec::new();
    let regs = [0u32; 16];
    let heap: Vec<u32> = Vec::new();
    let trail: Vec<u32> = Vec::new();
    push_choice(&mut stack, &regs, 0, 0, heap.len(), trail.len(), 3);
    let mut heap = Vec::new();
    let mut trail = Vec::new();
    let mut regs = [0u32; 16];
    let saw = restore_top(&stack, &mut regs, &mut heap, &mut trail).map(|(_, ep)| ep);
    assert_eq!(saw, Some(3));
}

#[test]
fn pop_removes_the_top_frame() {
    let mut stack: Vec<ChoicePt> = Vec::new();
    let regs = [0u32; 16];
    push_choice(&mut stack, &regs, 10, 0, 0, 0, 0);
    push_choice(&mut stack, &regs, 20, 0, 0, 0, 0);
    pop(&mut stack);
    assert_eq!(top_alt(&stack), Some(10));
    pop(&mut stack);
    assert_eq!(top_alt(&stack), None);
}

#[test]
fn failed_struct_unify_is_undone_by_the_trail() {
    // f(X, b) against f(a, c): X is bound to a, then b against c fails.
    let mut heap: Vec<u32> = Vec::new();
    let mut trail: Vec<u32> = vec![7];
    let x = alloc_unbound(&mut heap);
    let f1 = heap.len();
    heap.push(make_fun(1, 2));
    heap.push(x);
    heap.push(make(TAG_ATOM, 2));
    let f2 = heap.len();
    heap.push(make_fun(1, 2));
    heap.push(make(TAG_ATOM, 3));
    heap.push(make(TAG_ATOM, 4));
    let before = heap.clone();
    assert!(!unify(make_str(f1), make_str(f2), &mut heap, &mut trail));
    assert_eq!(deref(x, &heap), make(TAG_ATOM, 3));
    assert_eq!(trail.len(), 2);
    unwind_trail(1, &mut heap, &mut trail);
    assert_eq!(heap, before);
    assert_eq!(trail, vec![7]);
}

#[test]
fn put_var_with_a_bad_register_has_already_allocated() {
    // PUT_VAR X20, A0: opcode 10, first register 20 is out of range.
    let mut vm = Vm::new(vec![(10u32 << 16) | (20u32 << 8)]);
    let mut out: Vec<u8> = Vec::new();
    let r = step(&mut vm, &mut out);
    assert!(matches!(r, Err(RunError::BadRegister { op: 20 })));
    assert_eq!(vm.heap.len(), 1);
    assert_eq!(vm.pc, 0);
}
