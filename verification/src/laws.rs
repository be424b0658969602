//! Properties that relate several operations of the library, stated
//! over the spec functions that the operations' contracts use.

use crate::assembler::encode::{encode_spec, opcode_spec, shape_spec, two_cell_spec, width_spec, Shape};
use crate::assembler::table::TabV;
use crate::assembler::{assemble_spec, line_end, line_kind, pass1_from, pass1_step, pass2_from, pass2_step, LineKindV};
use crate::compile::{
    compile_spec, emit1, eval_leaf_spec, goal_spec, inline_spec, is_inline_spec, name_of, order_test_spec,
    query_clause_spec, role_of, sub_of, two_subs, CompileError, InstrV, RmV, VarRole, MAX_INSTR,
};
use crate::parse::{
    add_spec, intern_st, peek, rel_op, rel_spec, with_pos, AtomId, ClauseV, PState, TermIdx, TermV, MAX_ATOMS,
};
use crate::tokenize::TokenV;
use crate::text::{decimal, signed_decimal};
use crate::clause_wf::{lemma_add_ok, st_ok};
use crate::emit::{emit_from, emit_spec, line_spec, needs_blank, sb};
use crate::parse::{find_from, intern_spec};
use crate::refvm::choice::{restored_heap, restored_trail, ChoicePt};
use crate::refvm::dispatch::{
    op1_of_cell, op2_of_cell, opcode_of_cell, step_spec, OP_ALLOCATE, OP_B_GT, OP_B_IS_ADD, OP_B_IS_SUB, OP_B_LT,
    OP_B_NL, OP_B_WRITE, OP_CALL, OP_CUT, OP_DEALLOCATE, OP_EXECUTE, OP_FAIL, OP_GET_CONST, OP_GET_STRUCT,
    OP_GET_VAL, OP_GET_VAR, OP_GET_Y_VAR, OP_HALT, OP_PROCEED, OP_PUT_CONST, OP_PUT_VAL, OP_PUT_VAR,
    OP_PUT_Y_VAL, OP_RETRY, OP_TRUST, OP_TRY, OP_UNIFY_CONST, OP_UNIFY_VAL, OP_UNIFY_VAR,
};
use crate::refvm::builtin::{args_text, atom_text, inner_text, int_value, is_cons, term_text};
use crate::refvm::chains::{acyclic, cells24, lemma_unify_undo, lemma_unwind_restores, undo_inv};
use crate::refvm::heap::{
    cell_payload, cell_tag, deref_spec, fun_ar, fun_atom, ref_cell, unify_budget, unify_spec, unwind_spec, TAG_FUN,
    TAG_INT, TAG_STR,
};
use crate::refvm::{run_spec, RunError, Step, VmState};
use vstd::prelude::*;
use vstd::string::StringSliceAdditionalSpecFns;
use vstd::utf8::is_ascii_chars_encode_utf8;

verus! {

/// `find_from` gives the first index at or after `i` that holds `s`.
proof fn lemma_find_first(names: Seq<Seq<u8>>, s: Seq<u8>, i: nat, k: nat)
    requires
        i <= k < names.len(),
        names[k as int] == s,
        forall|j: int| i <= j < k ==> names[j] != s,
    ensures
        find_from(names, s, i) == Some(k),
    decreases k - i,
{
    if i < k {
        lemma_find_first(names, s, i + 1, k);
    }
}

/// No index at or after `i` holds `s` when `find_from` finds none.
proof fn lemma_find_none(names: Seq<Seq<u8>>, s: Seq<u8>, i: nat)
    requires
        find_from(names, s, i) is None,
    ensures
        forall|j: int| i <= j < names.len() ==> names[j] != s,
    decreases names.len() - i,
{
    if i < names.len() {
        lemma_find_none(names, s, i + 1);
    }
}

/// Interning a name twice gives the same id, and the second interning
/// leaves the table as the first left it; the id names `s`.
pub proof fn law_intern_idempotent(names: Seq<Seq<u8>>, s: Seq<u8>, cap: nat)
    requires
        intern_spec(names, s, cap) is Some,
    ensures
        ({
            let (id, after) = intern_spec(names, s, cap)->0;
            &&& id < after.len()
            &&& after[id as int] == s
            &&& after.subrange(0, names.len() as int) == names
            &&& intern_spec(after, s, cap) == Some((id, after))
        }),
{
    let (id, after) = intern_spec(names, s, cap)->0;
    match find_from(names, s, 0) {
        Some(i) => {
            lemma_find_some(names, s, 0);
            assert(after =~= names);
            assert(after.subrange(0, names.len() as int) =~= names);
        },
        None => {
            lemma_find_none(names, s, 0);
            assert forall|j: int| 0 <= j < id implies after[j] != s by {
                assert(after[j] == names[j]);
            }
            lemma_find_first(after, s, 0, id);
            assert(after.subrange(0, names.len() as int) =~= names);
        },
    }
}

/// A found index holds the name.
proof fn lemma_find_some(names: Seq<Seq<u8>>, s: Seq<u8>, i: nat)
    ensures
        find_from(names, s, i) matches Some(k) ==> i <= k < names.len() && names[k as int] == s,
    decreases names.len() - i,
{
    if i < names.len() && names[i as int] != s {
        lemma_find_some(names, s, i + 1);
    }
}

/// Unwinding the trail back over one binding of an unbound cell gives
/// back the heap as it was before the binding.
pub proof fn law_unwind_undoes_bind(heap: Seq<u32>, trail: Seq<u32>, a: u32, v: u32)
    requires
        (a as int) < heap.len(),
        heap[a as int] == ref_cell(a as usize),
    ensures
        unwind_spec(trail.len(), heap.update(a as int, v), trail.push(a)) == heap,
{
    let t2 = trail.push(a);
    let h1 = heap.update(a as int, v);
    assert(t2.drop_last() =~= trail);
    assert(t2.last() == a);
    assert(h1.update(a as int, ref_cell(a as usize)) =~= heap);
    assert(unwind_spec(trail.len(), heap, trail) == heap);
    assert(unwind_spec(trail.len(), h1, t2) == unwind_spec(trail.len(), h1.update(a as int, ref_cell(a as usize)), trail));
}

/// Unwinding to `target` resets exactly the cells named by the trail
/// entries from `target` on, and keeps the heap's length.
pub proof fn lemma_unwind_at(target: nat, heap: Seq<u32>, trail: Seq<u32>)
    ensures
        unwind_spec(target, heap, trail).len() == heap.len(),
        forall|a: int|
            0 <= a < heap.len() ==> #[trigger] unwind_spec(target, heap, trail)[a] == if (exists|k: int|
                target <= k < trail.len() && trail[k] == a) {
                ref_cell(a as usize)
            } else {
                heap[a]
            },
    decreases trail.len(),
{
    if trail.len() > target {
        let last = trail.last();
        let h2 = if (last as int) < heap.len() {
            heap.update(last as int, ref_cell(last as usize))
        } else {
            heap
        };
        let rest = trail.drop_last();
        lemma_unwind_at(target, h2, rest);
        assert forall|a: int| 0 <= a < heap.len() implies #[trigger] unwind_spec(target, heap, trail)[a] == if (exists|k: int|
            target <= k < trail.len() && trail[k] == a) {
            ref_cell(a as usize)
        } else {
            heap[a]
        } by {
            if exists|k: int| target <= k < trail.len() && trail[k] == a {
                let k = choose|k: int| target <= k < trail.len() && trail[k] == a;
                if k < trail.len() - 1 {
                    assert(rest[k] == a);
                } else {
                    assert(last == a);
                }
            } else {
                assert forall|k: int| target <= k < rest.len() implies rest[k] != a by {
                    assert(rest[k] == trail[k]);
                }
                assert(last != a);
            }
        }
    }
}

/// Backtracking to a choice point gives back the heap it saved: every
/// cell below the saved heap top that changed since was unbound at the
/// choice point and trailed after it, and every trailed cell below the
/// saved top was unbound then.
pub proof fn law_restore_undoes_bindings(frame: ChoicePt, heap0: Seq<u32>, trail0: Seq<u32>, heap: Seq<u32>, trail: Seq<u32>)
    requires
        frame.saved_hp == heap0.len(),
        frame.saved_tr == trail0.len(),
        heap0.len() <= heap.len(),
        trail0.len() <= trail.len(),
        trail.subrange(0, trail0.len() as int) == trail0,
        forall|a: int|
            0 <= a < heap0.len() && #[trigger] heap[a] != heap0[a] ==> exists|k: int|
                trail0.len() <= k < trail.len() && trail[k] == a,
        forall|k: int|
            trail0.len() <= k < trail.len() && (#[trigger] trail[k] as int) < heap0.len() ==> heap0[trail[k] as int]
                == ref_cell(trail[k] as usize),
    ensures
        restored_heap(frame, heap, trail) == heap0,
        restored_trail(frame, trail) == trail0,
{
    lemma_unwind_at(trail0.len(), heap, trail);
    let h = unwind_spec(trail0.len(), heap, trail);
    assert forall|a: int| 0 <= a < heap0.len() implies h[a] == heap0[a] by {
        if exists|k: int| trail0.len() <= k < trail.len() && trail[k] == a {
            let k = choose|k: int| trail0.len() <= k < trail.len() && trail[k] == a;
            assert((trail[k] as int) < heap0.len());
        } else {
            assert(!(heap[a] != heap0[a]));
        }
    }
    assert(h.subrange(0, heap0.len() as int) =~= heap0);
    assert(trail.subrange(0, trail0.len() as int) =~= trail0);
}

/// The bytes of a line break.
proof fn lemma_newline_bytes()
    ensures
        sb("\n") == seq![10u8],
{
    reveal_strlit("\n");
    is_ascii_chars_encode_utf8("\n"@);
    assert(sb("\n") =~= seq![10u8]);
}

/// The text from instruction `i` on extends `acc`, and ends with a
/// line break once any instruction or a broken line is in it.
proof fn lemma_emit_from_newline(instrs: Seq<InstrV>, atoms: Seq<Seq<u8>>, i: nat, acc: Seq<u8>)
    requires
        emit_from(instrs, atoms, i, acc) is Ok,
        i < instrs.len() || (acc.len() > 0 && acc.last() == 10),
    ensures
        ({
            let b = emit_from(instrs, atoms, i, acc)->Ok_0;
            b.len() > 0 && b.last() == 10
        }),
    decreases instrs.len() - i,
{
    if i < instrs.len() {
        lemma_newline_bytes();
        let acc1 = if needs_blank(instrs, i as int) { acc + sb("\n") } else { acc };
        let l = line_spec(instrs[i as int], atoms)->Ok_0;
        let next = acc1 + l + sb("\n");
        assert(next.last() == 10);
        lemma_emit_from_newline(instrs, atoms, i + 1, next);
    }
}

/// The text of a non-empty program ends with a line break.
pub proof fn law_emit_ends_with_newline(instrs: Seq<InstrV>, atoms: Seq<Seq<u8>>)
    requires
        instrs.len() > 0,
        emit_spec(instrs, atoms) is Ok,
    ensures
        emit_spec(instrs, atoms)->Ok_0.len() > 0,
        emit_spec(instrs, atoms)->Ok_0.last() == 10,
{
    lemma_emit_from_newline(instrs, atoms, 0, Seq::empty());
}

/// A compiled program ends with `HALT`.
pub proof fn law_compile_ends_with_halt(cs: Seq<crate::parse::ClauseV>, atoms: Seq<Seq<u8>>)
    requires
        compile_spec(cs, atoms) is Ok,
    ensures
        compile_spec(cs, atoms)->Ok_0.len() > 0,
        compile_spec(cs, atoms)->Ok_0.last() == InstrV::Halt,
{
    reveal(query_clause_spec);
}

/// A step appends its output to what was written before.
pub proof fn lemma_step_extends(s: VmState, out: Seq<u8>)
    ensures
        step_spec(s, out).1.len() >= out.len(),
        step_spec(s, out).1.subrange(0, out.len() as int) == out,
{
    let o = step_spec(s, out).1;
    assert(o.subrange(0, out.len() as int) =~= out);
}

/// A run only appends to the output it starts with.
pub proof fn law_run_output_grows(s: VmState, out: Seq<u8>, ticks: nat, limit: nat)
    ensures
        run_spec(s, out, ticks, limit).1.len() >= out.len(),
        run_spec(s, out, ticks, limit).1.subrange(0, out.len() as int) == out,
    decreases limit - ticks,
{
    if ticks < limit {
        lemma_step_extends(s, out);
        let (s2, o2, r) = step_spec(s, out);
        if r matches Ok(crate::refvm::Step::Continue) {
            law_run_output_grows(s2, o2, ticks + 1, limit);
            let o3 = run_spec(s2, o2, ticks + 1, limit).1;
            assert(o3.subrange(0, out.len() as int) =~= o3.subrange(0, o2.len() as int).subrange(0, out.len() as int));
        } else {
            assert(run_spec(s, out, ticks, limit).1 == o2);
        }
    } else {
        assert(out.subrange(0, out.len() as int) =~= out);
    }
}

/// The byte lengths of the one-cell mnemonics that `two_cell_spec`
/// must tell apart from `UNIFY_CONST`.
proof fn lemma_mnemonic_lengths()
    ensures
        sb("PUT_VAR").len() == 7,
        sb("PUT_VAL").len() == 7,
        sb("GET_VAR").len() == 7,
        sb("GET_VAL").len() == 7,
        sb("PUT_Y_VAL").len() == 9,
        sb("GET_Y_VAR").len() == 9,
        sb("ALLOCATE").len() == 8,
        sb("B_WRITE").len() == 7,
        sb("UNIFY_VAR").len() == 9,
        sb("UNIFY_VAL").len() == 9,
        sb("UNIFY_CONST").len() == 11,
{
    reveal_strlit("PUT_VAR");
    is_ascii_chars_encode_utf8("PUT_VAR"@);
    reveal_strlit("PUT_VAL");
    is_ascii_chars_encode_utf8("PUT_VAL"@);
    reveal_strlit("GET_VAR");
    is_ascii_chars_encode_utf8("GET_VAR"@);
    reveal_strlit("GET_VAL");
    is_ascii_chars_encode_utf8("GET_VAL"@);
    reveal_strlit("PUT_Y_VAL");
    is_ascii_chars_encode_utf8("PUT_Y_VAL"@);
    reveal_strlit("GET_Y_VAR");
    is_ascii_chars_encode_utf8("GET_Y_VAR"@);
    reveal_strlit("ALLOCATE");
    is_ascii_chars_encode_utf8("ALLOCATE"@);
    reveal_strlit("B_WRITE");
    is_ascii_chars_encode_utf8("B_WRITE"@);
    reveal_strlit("UNIFY_VAR");
    is_ascii_chars_encode_utf8("UNIFY_VAR"@);
    reveal_strlit("UNIFY_VAL");
    is_ascii_chars_encode_utf8("UNIFY_VAL"@);
    reveal_strlit("UNIFY_CONST");
    is_ascii_chars_encode_utf8("UNIFY_CONST"@);
}

/// Whether an operand shape takes a second cell.
pub open spec fn two_cell_shape(sh: Shape) -> bool {
    sh == Shape::Lbl || sh == Shape::AiConst || sh == Shape::AiStruct || sh == Shape::ConstOnly
}

/// A mnemonic takes a second cell exactly when its shape does.
proof fn lemma_two_cell_shape(m: Seq<u8>)
    ensures
        two_cell_spec(m) == two_cell_shape(shape_spec(m)),
{
    lemma_mnemonic_lengths();
    let sh = shape_spec(m);
    if sh == Shape::XnAi || sh == Shape::YiAi || sh == Shape::Alloc || sh == Shape::Reg1 {
        assert(m != sb("UNIFY_CONST"));
    }
}

/// The cells of a shape are two for the two-cell shapes and one
/// otherwise.
proof fn lemma_shape_cells_len(sh: Shape, opc: u8, a: Seq<Seq<u8>>, line: u32, atoms: TabV, labels: TabV)
    requires
        crate::assembler::encode::shape_cells(sh, opc, a, line, atoms, labels) is Ok,
    ensures
        crate::assembler::encode::shape_cells(sh, opc, a, line, atoms, labels)->Ok_0.len() == if two_cell_shape(sh) { 2nat } else { 1nat },
{
}

/// An instruction takes as many cells in pass 2 as pass 1 counted for
/// its mnemonic.
pub proof fn law_encode_width(mnem: Seq<u8>, ops: Seq<u8>, line: u32, atoms: TabV, labels: TabV)
    requires
        encode_spec(mnem, ops, line, atoms, labels) is Ok,
    ensures
        width_spec(mnem, line) == Ok::<u32, crate::assembler::AsmError>(encode_spec(mnem, ops, line, atoms, labels)->Ok_0.len() as u32),
{
    reveal(encode_spec);
    let opc = crate::assembler::encode::opcode_spec(mnem)->0;
    let a = crate::assembler::encode::args_of(ops);
    lemma_shape_cells_len(shape_spec(mnem), opc, a, line, atoms, labels);
    lemma_two_cell_shape(mnem);
}

/// Pass 2 keeps step with pass 1: with as many cells emitted as the
/// address pass 1 has reached at a line, pass 2 ends with as many cells
/// as pass 1's final address. So each label's address, taken in pass 1
/// at its line, is the number of cells pass 2 emits before that line.
pub proof fn law_pass2_follows_pass1(b: Seq<u8>, pos: nat, ix: nat, addr: nat, at: TabV, lt: TabV, atoms: TabV, labels: TabV, cells: Seq<u32>)
    requires
        pass1_from(b, pos, ix, addr, at, lt) matches Ok((a, l, _)) && a == atoms && l == labels,
        addr == cells.len(),
        pass2_from(b, pos, ix, atoms, labels, cells) is Ok,
    ensures
        pass2_from(b, pos, ix, atoms, labels, cells)->Ok_0.len() == pass1_from(b, pos, ix, addr, at, lt)->Ok_0.2,
    decreases b.len() - pos,
{
    if pos < b.len() {
        let (addr2, a2, l2) = pass1_step(b, pos, ix, addr, at, lt)->Ok_0;
        let c2 = pass2_step(b, pos, ix, atoms, labels, cells)->Ok_0;
        assert(c2.len() == addr2) by {
            match line_kind(b, pos, ix) {
                Ok(LineKindV::Instr { mnem, ops }) => {
                    law_encode_width(mnem, ops, crate::assembler::line_no(ix), atoms, labels);
                },
                _ => {},
            }
        }
        let e = line_end(b, pos as int);
        if e < b.len() {
            law_pass2_follows_pass1(b, (e + 1) as nat, ix + 1, addr2, a2, l2, atoms, labels, c2);
        }
    }
}

/// An assembled program has as many cells as pass 1's final address.
pub proof fn law_assembled_length(b: Seq<u8>)
    requires
        assemble_spec(b) is Ok,
    ensures
        assemble_spec(b)->Ok_0.len() == pass1_from(b, 0, 0, 0, Seq::empty(), Seq::empty())->Ok_0.2,
{
    let (atoms, labels, _) = pass1_from(b, 0, 0, 0, Seq::empty(), Seq::empty())->Ok_0;
    law_pass2_follows_pass1(b, 0, 0, 0, Seq::empty(), Seq::empty(), atoms, labels, Seq::empty());
}

/// A step that stops on an error changes neither the machine nor the
/// output, except a `PUT_VAR` with a bad register, which has already
/// allocated its fresh heap cell.
#[verifier::rlimit(50)]
pub proof fn law_step_error_keeps_state(s: VmState, out: Seq<u8>)
    requires
        s.pc < s.code.len() && opcode_of_cell(s.code[s.pc as int]) == OP_PUT_VAR ==> op1_of_cell(s.code[s.pc as int]) < 16
            && op2_of_cell(s.code[s.pc as int]) < 16,
    ensures
        step_spec(s, out).2 is Err ==> step_spec(s, out).0 == s && step_spec(s, out).1 == out,
{
}

/// Unifying two cells and then undoing the trail back to its length
/// before the unification gives back the heap as it was and the trail
/// as it was, whether or not the unification succeeded. This holds for
/// 24-bit cells on a heap whose reference chains have no cycles.
pub proof fn law_unify_then_unwind_restores(a: u32, b: u32, heap: Seq<u32>, trail: Seq<u32>)
    requires
        a < 0x100_0000u32,
        b < 0x100_0000u32,
        cells24(heap),
        acyclic(heap),
    ensures
        ({
            let (_, h1, t1) = unify_spec(a, b, heap, trail, unify_budget(heap.len()));
            &&& unwind_spec(trail.len(), h1, t1) == heap
            &&& t1.len() >= trail.len()
            &&& t1.subrange(0, trail.len() as int) == trail
        }),
{
    assert(undo_inv(heap, trail.len(), heap, trail));
    lemma_unify_undo(a, b, heap, trail, unify_budget(heap.len()), heap, trail.len());
    let (_, h1, t1) = unify_spec(a, b, heap, trail, unify_budget(heap.len()));
    lemma_unwind_restores(heap, trail.len(), h1, t1);
}

/// `B_LT` compares the integers held (after dereference) in A0 and A1:
/// the machine goes on to the next instruction exactly when A0 < A1;
/// otherwise it backtracks to the newest choice point's alternative, or
/// ends the run in failure when there is none. `B_GT` does the same
/// with A0 > A1. Neither writes output.
pub proof fn law_order_tests(s: VmState, out: Seq<u8>)
    requires
        s.pc < s.code.len(),
        opcode_of_cell(s.code[s.pc as int]) == OP_B_LT || opcode_of_cell(s.code[s.pc as int]) == OP_B_GT,
        cell_tag(deref_spec(s.regs[0], s.heap)) == TAG_INT,
        cell_tag(deref_spec(s.regs[1], s.heap)) == TAG_INT,
    ensures
        ({
            let a = int_value(cell_payload(deref_spec(s.regs[0], s.heap))) as int;
            let b = int_value(cell_payload(deref_spec(s.regs[1], s.heap))) as int;
            let holds = if opcode_of_cell(s.code[s.pc as int]) == OP_B_LT { a < b } else { a > b };
            let (s2, o2, r) = step_spec(s, out);
            &&& o2 == out
            &&& holds ==> s2 == (VmState { pc: (s.pc + 1) as usize, ..s }) && r == Ok::<Step, RunError>(Step::Continue)
            &&& !holds && s.choice.len() > 0 ==> s2 == (VmState { pc: s.choice.last().alt_pc, ..s }) && r == Ok::<
                Step,
                RunError,
            >(Step::Continue)
            &&& !holds && s.choice.len() == 0 ==> s2 == s && r == Ok::<Step, RunError>(Step::Fail)
        }),
{
}

/// Byte strings with `", "` before each.
pub open spec fn comma_prefixed(ts: Seq<Seq<u8>>) -> Seq<u8>
    decreases ts.len(),
{
    if ts.len() == 0 {
        Seq::empty()
    } else {
        ", ".spec_bytes() + ts[0] + comma_prefixed(ts.skip(1))
    }
}

/// Byte strings joined with `", "` between neighbours.
pub open spec fn comma_join(ts: Seq<Seq<u8>>) -> Seq<u8> {
    if ts.len() == 0 {
        Seq::empty()
    } else {
        ts[0] + comma_prefixed(ts.skip(1))
    }
}

proof fn lemma_args_joined(addr: nat, n: nat, i: nat, heap: Seq<u32>, atoms: Seq<String>, fuel: nat)
    requires
        1 <= i <= n,
        addr + n < heap.len(),
    ensures
        args_text(addr, n, i, heap, atoms, fuel) == comma_prefixed(
            Seq::new(n, |j: int| inner_text(heap[addr + 1 + j], heap, atoms, fuel)).skip(i as int),
        ),
    decreases n - i,
{
    let ts = Seq::new(n, |j: int| inner_text(heap[addr + 1 + j], heap, atoms, fuel));
    if i < n {
        lemma_args_joined(addr, n, i + 1, heap, atoms, fuel);
        assert(ts.skip(i as int).skip(1) =~= ts.skip(i + 1 as int));
        assert(ts.skip(i as int)[0] == ts[i as int]);
    } else {
        assert(ts.skip(i as int) =~= Seq::<Seq<u8>>::empty());
    }
}

/// `write/1` of a structure that is not a list cell prints the
/// functor's name, `(`, the text of each argument in order with `", "`
/// between neighbours, and `)`: an arity of `n` gives `n` argument texts
/// and `n - 1` separators.
pub proof fn law_write_structure(cell: u32, heap: Seq<u32>, atoms: Seq<String>, fuel: nat)
    requires
        cell_tag(cell) == TAG_STR,
        (cell_payload(cell) as int) < heap.len(),
        cell_tag(heap[cell_payload(cell) as int]) == TAG_FUN,
        !is_cons(cell_payload(cell) as nat, heap, atoms),
        cell_payload(cell) + fun_ar(heap[cell_payload(cell) as int]) < heap.len(),
    ensures
        ({
            let addr = cell_payload(cell) as int;
            let f = heap[addr];
            term_text(cell, heap, atoms, fuel) == atom_text(fun_atom(f) as nat, atoms) + "(".spec_bytes()
                + comma_join(Seq::new(fun_ar(f) as nat, |j: int| inner_text(heap[addr + 1 + j], heap, atoms, fuel)))
                + ")".spec_bytes()
        }),
{
    let addr = cell_payload(cell) as nat;
    let f = heap[addr as int];
    let n = fun_ar(f) as nat;
    let ts = Seq::new(n, |j: int| inner_text(heap[addr + 1 + j], heap, atoms, fuel));
    assert(deref_spec(cell, heap) == cell);
    if n == 0 {
        assert(args_text(addr, n, 0, heap, atoms, fuel) == comma_join(ts));
    } else {
        lemma_args_joined(addr, n, 1, heap, atoms, fuel);
        assert(args_text(addr, n, 0, heap, atoms, fuel) == ts[0] + args_text(addr, n, 1, heap, atoms, fuel)) by {
            assert(Seq::<u8>::empty() + ts[0] =~= ts[0]);
        }
        assert(args_text(addr, n, 0, heap, atoms, fuel) == comma_join(ts));
    }
}

/// `o` is `out` with more instructions after it.
pub open spec fn extends(o: Seq<InstrV>, out: Seq<InstrV>) -> bool {
    o.len() >= out.len() && o.subrange(0, out.len() as int) == out
}

proof fn lemma_extends_trans(a: Seq<InstrV>, b: Seq<InstrV>, c: Seq<InstrV>)
    requires
        extends(b, a),
        extends(c, b),
    ensures
        extends(c, a),
{
    assert forall|j: int| 0 <= j < a.len() implies c[j] == a[j] by {
        assert(c.subrange(0, b.len() as int)[j] == c[j]);
        assert(b.subrange(0, a.len() as int)[j] == b[j]);
    }
    assert(c.subrange(0, a.len() as int) =~= a);
}

proof fn lemma_emit1_extends(out: Seq<InstrV>, rm: RmV, i: InstrV)
    ensures
        emit1(out, rm, i) matches Ok((o, _)) ==> extends(o, out) && o == out.push(i),
{
    if emit1(out, rm, i) is Ok {
        assert(out.push(i).subrange(0, out.len() as int) =~= out);
    }
}

proof fn lemma_leaf_extends(out: Seq<InstrV>, rm: RmV, ai: u8, t: TermV)
    ensures
        eval_leaf_spec(out, rm, ai, t) matches Ok((o, _)) ==> extends(o, out),
{
    match t {
        TermV::Int(n) => lemma_emit1_extends(out, rm, InstrV::PutInt { ai, value: n }),
        TermV::Var(slot) => {
            match role_of(rm, slot) {
                Some(VarRole::Temp { xi, seen }) => {
                    lemma_emit1_extends(out, rm, InstrV::PutVar { ai, xi });
                    lemma_emit1_extends(out, rm, InstrV::PutVal { ai, xi });
                },
                Some(VarRole::Perm { yi, seen }) => {
                    lemma_emit1_extends(out, rm, InstrV::PutYVal { ai, yi });
                    lemma_emit1_extends(out, rm, InstrV::PutVar { ai, xi: rm.n_temp });
                    match emit1(out, rm, InstrV::PutVar { ai, xi: rm.n_temp }) {
                        Ok((o, m)) => {
                            lemma_emit1_extends(o, m, InstrV::GetYVar { ai, yi });
                            if emit1(o, m, InstrV::GetYVar { ai, yi }) is Ok {
                                lemma_extends_trans(out, o, emit1(o, m, InstrV::GetYVar { ai, yi })->Ok_0.0);
                            }
                        },
                        Err(_) => {},
                    }
                },
                _ => {},
            }
        },
        _ => {},
    }
}

proof fn lemma_order_symbols()
    ensures
        sb("<") == seq![60u8],
        sb(">") == seq![62u8],
        sb("is") == seq![105u8, 115u8],
        sb("write") != sb("<") && sb("write") != sb(">"),
{
    reveal_strlit("<");
    is_ascii_chars_encode_utf8("<"@);
    reveal_strlit(">");
    is_ascii_chars_encode_utf8(">"@);
    reveal_strlit("is");
    is_ascii_chars_encode_utf8("is"@);
    reveal_strlit("write");
    is_ascii_chars_encode_utf8("write"@);
    assert(sb("<") =~= seq![60u8]);
    assert(sb(">") =~= seq![62u8]);
    assert(sb("is") =~= seq![105u8, 115u8]);
    assert(sb("write").len() == 5);
}

/// A body goal whose functor is the atom named `<` with two arguments,
/// when it is not the last goal, compiles to code appended to what came
/// before that loads its operands and ends with `B_LT` on A0 and A1; a
/// goal named `>` ends with `B_GT`. With two integer operands `x` and
/// `y`, and room for three instructions, the code is exactly
/// `PUT_CONST A0, int(x)`, `PUT_CONST A1, int(y)` and the test.
pub proof fn law_order_goal(out: Seq<InstrV>, rm: RmV, c: ClauseV, atoms: Seq<Seq<u8>>, functor: AtomId, args: Seq<TermIdx>, fuel: nat)
    requires
        name_of(atoms, functor) == Some(sb("<")) || name_of(atoms, functor) == Some(sb(">")),
        args.len() == 2,
    ensures
        ({
            let g = TermV::Struct { functor, args };
            let test = if name_of(atoms, functor) == Some(sb("<")) {
                InstrV::BLt { a: 0, b: 1 }
            } else {
                InstrV::BGt { a: 0, b: 1 }
            };
            &&& goal_spec(out, rm, c, atoms, g, false, fuel) matches Ok((o, _)) ==> extends(o, out) && o.len() > out.len()
                && o.last() == test
            &&& forall|x: i32, y: i32|
                sub_of(c, args[0]) == Some(TermV::Int(x)) && sub_of(c, args[1]) == Some(TermV::Int(y)) && out.len() + 3
                    <= MAX_INSTR ==> goal_spec(out, rm, c, atoms, g, false, fuel) == Ok::<(Seq<InstrV>, RmV), CompileError>(
                    (out + seq![InstrV::PutInt { ai: 0, value: x }, InstrV::PutInt { ai: 1, value: y }, test], rm),
                )
        }),
{
    lemma_order_symbols();
    let g = TermV::Struct { functor, args };
    assert(is_inline_spec(g, atoms));
    let lt = name_of(atoms, functor) == Some(sb("<"));
    assert(inline_spec(out, rm, c, atoms, g, fuel) == order_test_spec(out, rm, c, args, lt));
    match two_subs(c, args) {
        None => {},
        Some((a, b)) => {
            lemma_leaf_extends(out, rm, 0, a);
            match eval_leaf_spec(out, rm, 0, a) {
                Err(_) => {},
                Ok((o1, m1)) => {
                    lemma_leaf_extends(o1, m1, 1, b);
                    match eval_leaf_spec(o1, m1, 1, b) {
                        Err(_) => {},
                        Ok((o2, m2)) => {
                            let test = if lt { InstrV::BLt { a: 0, b: 1 } } else { InstrV::BGt { a: 0, b: 1 } };
                            lemma_emit1_extends(o2, m2, test);
                            lemma_extends_trans(out, o1, o2);
                            if emit1(o2, m2, test) is Ok {
                                lemma_extends_trans(out, o2, o2.push(test));
                            }
                        },
                    }
                },
            }
        },
    }
    assert forall|x: i32, y: i32|
        sub_of(c, args[0]) == Some(TermV::Int(x)) && sub_of(c, args[1]) == Some(TermV::Int(y)) && out.len() + 3
            <= MAX_INSTR implies goal_spec(out, rm, c, atoms, g, false, fuel) == Ok::<(Seq<InstrV>, RmV), CompileError>(
            (out + seq![InstrV::PutInt { ai: 0, value: x }, InstrV::PutInt { ai: 1, value: y }, if lt {
                InstrV::BLt { a: 0, b: 1 }
            } else {
                InstrV::BGt { a: 0, b: 1 }
            }], rm),
        ) by {
        let test = if lt { InstrV::BLt { a: 0, b: 1 } } else { InstrV::BGt { a: 0, b: 1 } };
        assert(out.push(InstrV::PutInt { ai: 0, value: x }).push(InstrV::PutInt { ai: 1, value: y }).push(test)
            =~= out + seq![InstrV::PutInt { ai: 0, value: x }, InstrV::PutInt { ai: 1, value: y }, test]);
    }
}

/// The name of the structure a comparison token builds.
pub open spec fn comparison_name(t: TokenV) -> Option<Seq<u8>> {
    match t {
        TokenV::Lt => Some("<".spec_bytes()),
        TokenV::Gt => Some(">".spec_bytes()),
        TokenV::Eq => Some("=".spec_bytes()),
        _ => None,
    }
}

/// Interning into a table of at most `MAX_ATOMS` names gives an id that
/// fits an `AtomId` and names `s`.
proof fn lemma_intern_names(names: Seq<Seq<u8>>, s: Seq<u8>)
    requires
        names.len() <= MAX_ATOMS,
        intern_spec(names, s, MAX_ATOMS as nat) is Some,
    ensures
        ({
            let (id, after) = intern_spec(names, s, MAX_ATOMS as nat)->0;
            &&& id < MAX_ATOMS
            &&& id < after.len()
            &&& (id as AtomId) as int == id
            &&& after[(id as AtomId) as int] == s
        }),
{
    law_intern_idempotent(names, s, MAX_ATOMS as nat);
}

/// A comparison `L op R`, with `op` the token `<`, `>` or `=`, parses to
/// the two-argument structure whose functor is the atom named `<`, `>`
/// or `=` respectively, with first argument the parse of `L` and second
/// argument the parse of `R`, both kept in the clause's arena.
pub proof fn law_comparison_parse(ts: Seq<TokenV>, st: PState)
    requires
        st_ok(st),
    ensures
        ({
            let (r, s_end) = rel_spec(ts, st);
            let (rl, s1) = add_spec(ts, st);
            let (rr, _) = add_spec(ts, with_pos(s1, s1.pos + 1));
            r is Ok && rl is Ok && peek(ts, s1.pos) is Some && comparison_name(peek(ts, s1.pos)->0) is Some ==> {
                &&& r->Ok_0 matches TermV::Struct { functor, args } && args.len() == 2
                    && (functor as int) < s_end.atoms.len()
                    && s_end.atoms[functor as int] == comparison_name(peek(ts, s1.pos)->0)->0
                    && (args[0] as int) < s_end.subs.len() && s_end.subs[args[0] as int] == rl->Ok_0
                    && (args[1] as int) < s_end.subs.len() && rr is Ok && s_end.subs[args[1] as int] == rr->Ok_0
            }
        }),
{
    let (r, s_end) = rel_spec(ts, st);
    let (rl, s1) = add_spec(ts, st);
    if r is Ok && rl is Ok && peek(ts, s1.pos) is Some && comparison_name(peek(ts, s1.pos)->0) is Some {
        lemma_add_ok(ts, st);
        let op = comparison_name(peek(ts, s1.pos)->0)->0;
        assert(rel_op(peek(ts, s1.pos)) == Some(op));
        let s1b = with_pos(s1, s1.pos + 1);
        let (rr, s3) = add_spec(ts, s1b);
        lemma_add_ok(ts, s1b);
        assert(rr is Ok);
        let left = rl->Ok_0;
        let right = rr->Ok_0;
        assert(r == crate::parse::infix_spec(s3, op, left, right).0);
        assert(s_end == crate::parse::infix_spec(s3, op, left, right).1);
        let (rid, s4) = intern_st(s3, op);
        assert(rid is Ok);
        lemma_intern_names(s3.atoms, op);
        let id = rid->Ok_0;
        assert(s4.atoms[id as int] == op);
        let (rli, s5) = crate::parse::push_sub_st(s4, left);
        assert(rli is Ok);
        let (rri, s6) = crate::parse::push_sub_st(s5, right);
        assert(rri is Ok);
        assert(s_end == s6);
        assert(s6.atoms == s4.atoms);
        assert((rli->Ok_0 as int) < s6.subs.len());
        assert((rri->Ok_0 as int) < s6.subs.len());
        assert(r->Ok_0 == TermV::Struct { functor: id, args: seq![rli->Ok_0, rri->Ok_0] });
        assert(s6.subs[rli->Ok_0 as int] == left);
        assert(s6.subs[rri->Ok_0 as int] == right);
    }
}


/// The bytes of each mnemonic.
proof fn lemma_mnemonic_bytes()
    ensures
        sb("NOP") == seq![78u8, 79u8, 80u8],
        sb("HALT") == seq![72u8, 65u8, 76u8, 84u8],
        sb("CALL") == seq![67u8, 65u8, 76u8, 76u8],
        sb("EXECUTE") == seq![69u8, 88u8, 69u8, 67u8, 85u8, 84u8, 69u8],
        sb("PROCEED") == seq![80u8, 82u8, 79u8, 67u8, 69u8, 69u8, 68u8],
        sb("FAIL") == seq![70u8, 65u8, 73u8, 76u8],
        sb("TRY") == seq![84u8, 82u8, 89u8],
        sb("RETRY") == seq![82u8, 69u8, 84u8, 82u8, 89u8],
        sb("TRUST") == seq![84u8, 82u8, 85u8, 83u8, 84u8],
        sb("CUT") == seq![67u8, 85u8, 84u8],
        sb("PUT_VAR") == seq![80u8, 85u8, 84u8, 95u8, 86u8, 65u8, 82u8],
        sb("PUT_VAL") == seq![80u8, 85u8, 84u8, 95u8, 86u8, 65u8, 76u8],
        sb("PUT_CONST") == seq![80u8, 85u8, 84u8, 95u8, 67u8, 79u8, 78u8, 83u8, 84u8],
        sb("PUT_Y_VAL") == seq![80u8, 85u8, 84u8, 95u8, 89u8, 95u8, 86u8, 65u8, 76u8],
        sb("GET_VAR") == seq![71u8, 69u8, 84u8, 95u8, 86u8, 65u8, 82u8],
        sb("GET_VAL") == seq![71u8, 69u8, 84u8, 95u8, 86u8, 65u8, 76u8],
        sb("GET_CONST") == seq![71u8, 69u8, 84u8, 95u8, 67u8, 79u8, 78u8, 83u8, 84u8],
        sb("GET_STRUCT") == seq![71u8, 69u8, 84u8, 95u8, 83u8, 84u8, 82u8, 85u8, 67u8, 84u8],
        sb("GET_Y_VAR") == seq![71u8, 69u8, 84u8, 95u8, 89u8, 95u8, 86u8, 65u8, 82u8],
        sb("UNIFY_VAR") == seq![85u8, 78u8, 73u8, 70u8, 89u8, 95u8, 86u8, 65u8, 82u8],
        sb("UNIFY_VAL") == seq![85u8, 78u8, 73u8, 70u8, 89u8, 95u8, 86u8, 65u8, 76u8],
        sb("UNIFY_CONST") == seq![85u8, 78u8, 73u8, 70u8, 89u8, 95u8, 67u8, 79u8, 78u8, 83u8, 84u8],
        sb("ALLOCATE") == seq![65u8, 76u8, 76u8, 79u8, 67u8, 65u8, 84u8, 69u8],
        sb("DEALLOCATE") == seq![68u8, 69u8, 65u8, 76u8, 76u8, 79u8, 67u8, 65u8, 84u8, 69u8],
        sb("B_WRITE") == seq![66u8, 95u8, 87u8, 82u8, 73u8, 84u8, 69u8],
        sb("B_NL") == seq![66u8, 95u8, 78u8, 76u8],
        sb("B_IS_ADD") == seq![66u8, 95u8, 73u8, 83u8, 95u8, 65u8, 68u8, 68u8],
        sb("B_IS_SUB") == seq![66u8, 95u8, 73u8, 83u8, 95u8, 83u8, 85u8, 66u8],
        sb("B_LT") == seq![66u8, 95u8, 76u8, 84u8],
        sb("B_GT") == seq![66u8, 95u8, 71u8, 84u8],
{
    reveal_strlit("NOP");
    is_ascii_chars_encode_utf8("NOP"@);
    assert(sb("NOP") =~= seq![78u8, 79u8, 80u8]);
    reveal_strlit("HALT");
    is_ascii_chars_encode_utf8("HALT"@);
    assert(sb("HALT") =~= seq![72u8, 65u8, 76u8, 84u8]);
    reveal_strlit("CALL");
    is_ascii_chars_encode_utf8("CALL"@);
    assert(sb("CALL") =~= seq![67u8, 65u8, 76u8, 76u8]);
    reveal_strlit("EXECUTE");
    is_ascii_chars_encode_utf8("EXECUTE"@);
    assert(sb("EXECUTE") =~= seq![69u8, 88u8, 69u8, 67u8, 85u8, 84u8, 69u8]);
    reveal_strlit("PROCEED");
    is_ascii_chars_encode_utf8("PROCEED"@);
    assert(sb("PROCEED") =~= seq![80u8, 82u8, 79u8, 67u8, 69u8, 69u8, 68u8]);
    reveal_strlit("FAIL");
    is_ascii_chars_encode_utf8("FAIL"@);
    assert(sb("FAIL") =~= seq![70u8, 65u8, 73u8, 76u8]);
    reveal_strlit("TRY");
    is_ascii_chars_encode_utf8("TRY"@);
    assert(sb("TRY") =~= seq![84u8, 82u8, 89u8]);
    reveal_strlit("RETRY");
    is_ascii_chars_encode_utf8("RETRY"@);
    assert(sb("RETRY") =~= seq![82u8, 69u8, 84u8, 82u8, 89u8]);
    reveal_strlit("TRUST");
    is_ascii_chars_encode_utf8("TRUST"@);
    assert(sb("TRUST") =~= seq![84u8, 82u8, 85u8, 83u8, 84u8]);
    reveal_strlit("CUT");
    is_ascii_chars_encode_utf8("CUT"@);
    assert(sb("CUT") =~= seq![67u8, 85u8, 84u8]);
    reveal_strlit("PUT_VAR");
    is_ascii_chars_encode_utf8("PUT_VAR"@);
    assert(sb("PUT_VAR") =~= seq![80u8, 85u8, 84u8, 95u8, 86u8, 65u8, 82u8]);
    reveal_strlit("PUT_VAL");
    is_ascii_chars_encode_utf8("PUT_VAL"@);
    assert(sb("PUT_VAL") =~= seq![80u8, 85u8, 84u8, 95u8, 86u8, 65u8, 76u8]);
    reveal_strlit("PUT_CONST");
    is_ascii_chars_encode_utf8("PUT_CONST"@);
    assert(sb("PUT_CONST") =~= seq![80u8, 85u8, 84u8, 95u8, 67u8, 79u8, 78u8, 83u8, 84u8]);
    reveal_strlit("PUT_Y_VAL");
    is_ascii_chars_encode_utf8("PUT_Y_VAL"@);
    assert(sb("PUT_Y_VAL") =~= seq![80u8, 85u8, 84u8, 95u8, 89u8, 95u8, 86u8, 65u8, 76u8]);
    reveal_strlit("GET_VAR");
    is_ascii_chars_encode_utf8("GET_VAR"@);
    assert(sb("GET_VAR") =~= seq![71u8, 69u8, 84u8, 95u8, 86u8, 65u8, 82u8]);
    reveal_strlit("GET_VAL");
    is_ascii_chars_encode_utf8("GET_VAL"@);
    assert(sb("GET_VAL") =~= seq![71u8, 69u8, 84u8, 95u8, 86u8, 65u8, 76u8]);
    reveal_strlit("GET_CONST");
    is_ascii_chars_encode_utf8("GET_CONST"@);
    assert(sb("GET_CONST") =~= seq![71u8, 69u8, 84u8, 95u8, 67u8, 79u8, 78u8, 83u8, 84u8]);
    reveal_strlit("GET_STRUCT");
    is_ascii_chars_encode_utf8("GET_STRUCT"@);
    assert(sb("GET_STRUCT") =~= seq![71u8, 69u8, 84u8, 95u8, 83u8, 84u8, 82u8, 85u8, 67u8, 84u8]);
    reveal_strlit("GET_Y_VAR");
    is_ascii_chars_encode_utf8("GET_Y_VAR"@);
    assert(sb("GET_Y_VAR") =~= seq![71u8, 69u8, 84u8, 95u8, 89u8, 95u8, 86u8, 65u8, 82u8]);
    reveal_strlit("UNIFY_VAR");
    is_ascii_chars_encode_utf8("UNIFY_VAR"@);
    assert(sb("UNIFY_VAR") =~= seq![85u8, 78u8, 73u8, 70u8, 89u8, 95u8, 86u8, 65u8, 82u8]);
    reveal_strlit("UNIFY_VAL");
    is_ascii_chars_encode_utf8("UNIFY_VAL"@);
    assert(sb("UNIFY_VAL") =~= seq![85u8, 78u8, 73u8, 70u8, 89u8, 95u8, 86u8, 65u8, 76u8]);
    reveal_strlit("UNIFY_CONST");
    is_ascii_chars_encode_utf8("UNIFY_CONST"@);
    assert(sb("UNIFY_CONST") =~= seq![85u8, 78u8, 73u8, 70u8, 89u8, 95u8, 67u8, 79u8, 78u8, 83u8, 84u8]);
    reveal_strlit("ALLOCATE");
    is_ascii_chars_encode_utf8("ALLOCATE"@);
    assert(sb("ALLOCATE") =~= seq![65u8, 76u8, 76u8, 79u8, 67u8, 65u8, 84u8, 69u8]);
    reveal_strlit("DEALLOCATE");
    is_ascii_chars_encode_utf8("DEALLOCATE"@);
    assert(sb("DEALLOCATE") =~= seq![68u8, 69u8, 65u8, 76u8, 76u8, 79u8, 67u8, 65u8, 84u8, 69u8]);
    reveal_strlit("B_WRITE");
    is_ascii_chars_encode_utf8("B_WRITE"@);
    assert(sb("B_WRITE") =~= seq![66u8, 95u8, 87u8, 82u8, 73u8, 84u8, 69u8]);
    reveal_strlit("B_NL");
    is_ascii_chars_encode_utf8("B_NL"@);
    assert(sb("B_NL") =~= seq![66u8, 95u8, 78u8, 76u8]);
    reveal_strlit("B_IS_ADD");
    is_ascii_chars_encode_utf8("B_IS_ADD"@);
    assert(sb("B_IS_ADD") =~= seq![66u8, 95u8, 73u8, 83u8, 95u8, 65u8, 68u8, 68u8]);
    reveal_strlit("B_IS_SUB");
    is_ascii_chars_encode_utf8("B_IS_SUB"@);
    assert(sb("B_IS_SUB") =~= seq![66u8, 95u8, 73u8, 83u8, 95u8, 83u8, 85u8, 66u8]);
    reveal_strlit("B_LT");
    is_ascii_chars_encode_utf8("B_LT"@);
    assert(sb("B_LT") =~= seq![66u8, 95u8, 76u8, 84u8]);
    reveal_strlit("B_GT");
    is_ascii_chars_encode_utf8("B_GT"@);
    assert(sb("B_GT") =~= seq![66u8, 95u8, 71u8, 84u8]);
}


/// The mnemonic word an instruction's line carries.
pub open spec fn mnemonic_of(i: InstrV) -> Seq<u8> {
    match i {
        InstrV::PutConst { .. } => sb("PUT_CONST"),
        InstrV::PutInt { .. } => sb("PUT_CONST"),
        InstrV::PutVar { .. } => sb("PUT_VAR"),
        InstrV::PutVal { .. } => sb("PUT_VAL"),
        InstrV::PutYVal { .. } => sb("PUT_Y_VAL"),
        InstrV::GetVar { .. } => sb("GET_VAR"),
        InstrV::GetVal { .. } => sb("GET_VAL"),
        InstrV::GetYVar { .. } => sb("GET_Y_VAR"),
        InstrV::GetConst { .. } => sb("GET_CONST"),
        InstrV::GetInt { .. } => sb("GET_CONST"),
        InstrV::GetStruct { .. } => sb("GET_STRUCT"),
        InstrV::UnifyVar { .. } => sb("UNIFY_VAR"),
        InstrV::UnifyVal { .. } => sb("UNIFY_VAL"),
        InstrV::UnifyConst { .. } => sb("UNIFY_CONST"),
        InstrV::UnifyInt { .. } => sb("UNIFY_CONST"),
        InstrV::Allocate { .. } => sb("ALLOCATE"),
        InstrV::Deallocate => sb("DEALLOCATE"),
        InstrV::Call { .. } => sb("CALL"),
        InstrV::Execute { .. } => sb("EXECUTE"),
        InstrV::Proceed => sb("PROCEED"),
        InstrV::Try { .. } => sb("TRY"),
        InstrV::Retry { .. } => sb("RETRY"),
        InstrV::Trust { .. } => sb("TRUST"),
        InstrV::Cut => sb("CUT"),
        InstrV::Fail => sb("FAIL"),
        InstrV::BWrite { .. } => sb("B_WRITE"),
        InstrV::BNl => sb("B_NL"),
        InstrV::BIsAdd { .. } => sb("B_IS_ADD"),
        InstrV::BIsSub { .. } => sb("B_IS_SUB"),
        InstrV::BLt { .. } => sb("B_LT"),
        InstrV::BGt { .. } => sb("B_GT"),
        InstrV::Halt => sb("HALT"),
        _ => Seq::empty(),
    }
}

/// The VM opcode that executes each instruction; labels and atom
/// directives are no instructions.
pub open spec fn vm_opcode(i: InstrV) -> Option<u8> {
    match i {
        InstrV::PutConst { .. } | InstrV::PutInt { .. } => Some(OP_PUT_CONST),
        InstrV::PutVar { .. } => Some(OP_PUT_VAR),
        InstrV::PutVal { .. } => Some(OP_PUT_VAL),
        InstrV::PutYVal { .. } => Some(OP_PUT_Y_VAL),
        InstrV::GetVar { .. } => Some(OP_GET_VAR),
        InstrV::GetVal { .. } => Some(OP_GET_VAL),
        InstrV::GetYVar { .. } => Some(OP_GET_Y_VAR),
        InstrV::GetConst { .. } | InstrV::GetInt { .. } => Some(OP_GET_CONST),
        InstrV::GetStruct { .. } => Some(OP_GET_STRUCT),
        InstrV::UnifyVar { .. } => Some(OP_UNIFY_VAR),
        InstrV::UnifyVal { .. } => Some(OP_UNIFY_VAL),
        InstrV::UnifyConst { .. } | InstrV::UnifyInt { .. } => Some(OP_UNIFY_CONST),
        InstrV::Allocate { .. } => Some(OP_ALLOCATE),
        InstrV::Deallocate => Some(OP_DEALLOCATE),
        InstrV::Call { .. } => Some(OP_CALL),
        InstrV::Execute { .. } => Some(OP_EXECUTE),
        InstrV::Proceed => Some(OP_PROCEED),
        InstrV::Try { .. } => Some(OP_TRY),
        InstrV::Retry { .. } => Some(OP_RETRY),
        InstrV::Trust { .. } => Some(OP_TRUST),
        InstrV::Cut => Some(OP_CUT),
        InstrV::Fail => Some(OP_FAIL),
        InstrV::BWrite { .. } => Some(OP_B_WRITE),
        InstrV::BNl => Some(OP_B_NL),
        InstrV::BIsAdd { .. } => Some(OP_B_IS_ADD),
        InstrV::BIsSub { .. } => Some(OP_B_IS_SUB),
        InstrV::BLt { .. } => Some(OP_B_LT),
        InstrV::BGt { .. } => Some(OP_B_GT),
        InstrV::Halt => Some(OP_HALT),
        _ => None,
    }
}

/// Line `l` is the four-space indent, the word `m`, then the end of the
/// line or a space.
pub open spec fn names_word(l: Seq<u8>, m: Seq<u8>) -> bool {
    &&& l.len() >= 4 + m.len()
    &&& l.subrange(0, 4) == seq![32u8, 32u8, 32u8, 32u8]
    &&& l.subrange(4, 4 + m.len() as int) == m
    &&& (l.len() == 4 + m.len() || l[4 + m.len() as int] == 32u8)
}

/// A line that starts with `p` names the word `m` when `p` does and
/// either goes on past it or ends with `p`.
proof fn lemma_names_word(l: Seq<u8>, p: Seq<u8>, m: Seq<u8>)
    requires
        l.len() >= p.len(),
        l.subrange(0, p.len() as int) == p,
        p.len() >= 4 + m.len(),
        p.subrange(0, 4) == seq![32u8, 32u8, 32u8, 32u8],
        p.subrange(4, 4 + m.len() as int) == m,
        p.len() > 4 + m.len() ==> p[4 + m.len() as int] == 32u8,
        p.len() == 4 + m.len() ==> l.len() == p.len(),
    ensures
        names_word(l, m),
{
    assert(l.subrange(0, 4) =~= p.subrange(0, 4)) by {
        assert forall|j: int| 0 <= j < 4 implies l[j] == p[j] by {
            assert(l.subrange(0, p.len() as int)[j] == l[j]);
        }
    }
    assert(l.subrange(4, 4 + m.len() as int) =~= p.subrange(4, 4 + m.len() as int)) by {
        assert forall|j: int| 4 <= j < 4 + m.len() implies l[j] == p[j] by {
            assert(l.subrange(0, p.len() as int)[j] == l[j]);
        }
    }
    if p.len() > 4 + m.len() {
        assert(l.subrange(0, p.len() as int)[4 + m.len() as int] == l[4 + m.len() as int]);
    }
}


/// Each instruction's line is the four-space indent, then a mnemonic
/// word ending at a space or at the end of the line; the assembler
/// maps that word to the opcode with which the VM executes the
/// instruction (for instance `B_LT` to 36 and `B_GT` to 37).
pub proof fn law_line_names_opcode(i: InstrV, atoms: Seq<Seq<u8>>)
    requires
        vm_opcode(i) is Some,
    ensures
        line_spec(i, atoms) matches Ok(l) ==> names_word(l, mnemonic_of(i)),
        opcode_spec(mnemonic_of(i)) == vm_opcode(i),
{
    match i {
        InstrV::PutVar { .. } => lemma_line_put_var(i, atoms),
        InstrV::PutVal { .. } => lemma_line_put_val(i, atoms),
        InstrV::GetVar { .. } => lemma_line_get_var(i, atoms),
        InstrV::GetVal { .. } => lemma_line_get_val(i, atoms),
        InstrV::PutYVal { .. } => lemma_line_put_y_val(i, atoms),
        InstrV::GetYVar { .. } => lemma_line_get_y_var(i, atoms),
        InstrV::Call { .. } => lemma_line_call(i, atoms),
        InstrV::Execute { .. } => lemma_line_execute(i, atoms),
        InstrV::Try { .. } => lemma_line_try(i, atoms),
        InstrV::Retry { .. } => lemma_line_retry(i, atoms),
        InstrV::Deallocate => lemma_line_deallocate(i, atoms),
        InstrV::Proceed => lemma_line_proceed(i, atoms),
        InstrV::Trust { .. } => lemma_line_trust(i, atoms),
        InstrV::Cut => lemma_line_cut(i, atoms),
        InstrV::Fail => lemma_line_fail(i, atoms),
        InstrV::BNl => lemma_line_b_nl(i, atoms),
        InstrV::BIsAdd { .. } => lemma_line_b_is_add(i, atoms),
        InstrV::BIsSub { .. } => lemma_line_b_is_sub(i, atoms),
        InstrV::BLt { .. } => lemma_line_b_lt(i, atoms),
        InstrV::BGt { .. } => lemma_line_b_gt(i, atoms),
        InstrV::Halt => lemma_line_halt(i, atoms),
        InstrV::PutConst { .. } => lemma_line_put_const(i, atoms),
        InstrV::PutInt { .. } => lemma_line_put_int(i, atoms),
        InstrV::GetConst { .. } => lemma_line_get_const(i, atoms),
        InstrV::GetInt { .. } => lemma_line_get_int(i, atoms),
        InstrV::GetStruct { .. } => lemma_line_get_struct(i, atoms),
        InstrV::UnifyVar { .. } => lemma_line_unify_var(i, atoms),
        InstrV::UnifyVal { .. } => lemma_line_unify_val(i, atoms),
        InstrV::UnifyConst { .. } => lemma_line_unify_const(i, atoms),
        InstrV::UnifyInt { .. } => lemma_line_unify_int(i, atoms),
        InstrV::Allocate { .. } => lemma_line_allocate(i, atoms),
        InstrV::BWrite { .. } => lemma_line_b_write(i, atoms),
        _ => {},
    }
    lemma_opcode_of_mnemonic(i);
}


/// `l` starts with `p`.
pub open spec fn has_prefix(l: Seq<u8>, p: Seq<u8>) -> bool {
    l.len() >= p.len() && l.subrange(0, p.len() as int) == p
}

proof fn lemma_prefix_add(a: Seq<u8>, b: Seq<u8>)
    ensures
        has_prefix(a + b, a),
{
    assert((a + b).subrange(0, a.len() as int) =~= a);
}

proof fn lemma_prefix_trans(x: Seq<u8>, y: Seq<u8>, z: Seq<u8>)
    requires
        has_prefix(x, y),
        has_prefix(y, z),
    ensures
        has_prefix(x, z),
{
    assert forall|j: int| 0 <= j < z.len() implies x[j] == z[j] by {
        assert(x.subrange(0, y.len() as int)[j] == x[j]);
        assert(y.subrange(0, z.len() as int)[j] == y[j]);
    }
    assert(x.subrange(0, z.len() as int) =~= z);
}


proof fn lemma_line_put_var(i: InstrV, atoms: Seq<Seq<u8>>)
    requires
        i matches InstrV::PutVar { .. },
    ensures
        line_spec(i, atoms) matches Ok(l) ==> names_word(l, mnemonic_of(i)),
{
    match i {
        InstrV::PutVar { ai, xi } => {
            reveal_strlit("    ");
            is_ascii_chars_encode_utf8("    "@);
            assert(sb("    ") =~= seq![32u8, 32u8, 32u8, 32u8]);
            reveal_strlit("PUT_VAR");
            is_ascii_chars_encode_utf8("PUT_VAR"@);
            assert(sb("PUT_VAR") =~= seq![80u8, 85u8, 84u8, 95u8, 86u8, 65u8, 82u8]);
            reveal_strlit(" X");
            is_ascii_chars_encode_utf8(" X"@);
            assert(sb(" X") =~= seq![32u8, 88u8]);
            let p = sb("    ") + sb("PUT_VAR") + sb(" X");
            let q0 = p + decimal(xi as nat);
            let q1 = q0 + sb(", A");
            let q2 = q1 + decimal(ai as nat);
            let l = q2;
            assert(line_spec(i, atoms) == Ok::<Seq<u8>, crate::emit::EmitError>(l));
            lemma_prefix_add(p, decimal(xi as nat));
            lemma_prefix_add(q0, sb(", A"));
            lemma_prefix_add(q1, decimal(ai as nat));
            lemma_prefix_trans(l, q1, q0);
            lemma_prefix_trans(l, q0, p);
            assert(p =~= seq![32u8, 32u8, 32u8, 32u8, 80u8, 85u8, 84u8, 95u8, 86u8, 65u8, 82u8, 32u8, 88u8]);
            assert(p.subrange(0, 4) =~= seq![32u8, 32u8, 32u8, 32u8]);
            assert(p.subrange(4, 11) =~= sb("PUT_VAR"));
            lemma_names_word(l, p, sb("PUT_VAR"));
        },
        _ => {},
    }
}

proof fn lemma_line_put_val(i: InstrV, atoms: Seq<Seq<u8>>)
    requires
        i matches InstrV::PutVal { .. },
    ensures
        line_spec(i, atoms) matches Ok(l) ==> names_word(l, mnemonic_of(i)),
{
    match i {
        InstrV::PutVal { ai, xi } => {
            reveal_strlit("    ");
            is_ascii_chars_encode_utf8("    "@);
            assert(sb("    ") =~= seq![32u8, 32u8, 32u8, 32u8]);
            reveal_strlit("PUT_VAL");
            is_ascii_chars_encode_utf8("PUT_VAL"@);
            assert(sb("PUT_VAL") =~= seq![80u8, 85u8, 84u8, 95u8, 86u8, 65u8, 76u8]);
            reveal_strlit(" X");
            is_ascii_chars_encode_utf8(" X"@);
            assert(sb(" X") =~= seq![32u8, 88u8]);
            let p = sb("    ") + sb("PUT_VAL") + sb(" X");
            let q0 = p + decimal(xi as nat);
            let q1 = q0 + sb(", A");
            let q2 = q1 + decimal(ai as nat);
            let l = q2;
            assert(line_spec(i, atoms) == Ok::<Seq<u8>, crate::emit::EmitError>(l));
            lemma_prefix_add(p, decimal(xi as nat));
            lemma_prefix_add(q0, sb(", A"));
            lemma_prefix_add(q1, decimal(ai as nat));
            lemma_prefix_trans(l, q1, q0);
            lemma_prefix_trans(l, q0, p);
            assert(p =~= seq![32u8, 32u8, 32u8, 32u8, 80u8, 85u8, 84u8, 95u8, 86u8, 65u8, 76u8, 32u8, 88u8]);
            assert(p.subrange(0, 4) =~= seq![32u8, 32u8, 32u8, 32u8]);
            assert(p.subrange(4, 11) =~= sb("PUT_VAL"));
            lemma_names_word(l, p, sb("PUT_VAL"));
        },
        _ => {},
    }
}

proof fn lemma_line_get_var(i: InstrV, atoms: Seq<Seq<u8>>)
    requires
        i matches InstrV::GetVar { .. },
    ensures
        line_spec(i, atoms) matches Ok(l) ==> names_word(l, mnemonic_of(i)),
{
    match i {
        InstrV::GetVar { ai, xi } => {
            reveal_strlit("    ");
            is_ascii_chars_encode_utf8("    "@);
            assert(sb("    ") =~= seq![32u8, 32u8, 32u8, 32u8]);
            reveal_strlit("GET_VAR");
            is_ascii_chars_encode_utf8("GET_VAR"@);
            assert(sb("GET_VAR") =~= seq![71u8, 69u8, 84u8, 95u8, 86u8, 65u8, 82u8]);
            reveal_strlit(" X");
            is_ascii_chars_encode_utf8(" X"@);
            assert(sb(" X") =~= seq![32u8, 88u8]);
            let p = sb("    ") + sb("GET_VAR") + sb(" X");
            let q0 = p + decimal(xi as nat);
            let q1 = q0 + sb(", A");
            let q2 = q1 + decimal(ai as nat);
            let l = q2;
            assert(line_spec(i, atoms) == Ok::<Seq<u8>, crate::emit::EmitError>(l));
            lemma_prefix_add(p, decimal(xi as nat));
            lemma_prefix_add(q0, sb(", A"));
            lemma_prefix_add(q1, decimal(ai as nat));
            lemma_prefix_trans(l, q1, q0);
            lemma_prefix_trans(l, q0, p);
            assert(p =~= seq![32u8, 32u8, 32u8, 32u8, 71u8, 69u8, 84u8, 95u8, 86u8, 65u8, 82u8, 32u8, 88u8]);
            assert(p.subrange(0, 4) =~= seq![32u8, 32u8, 32u8, 32u8]);
            assert(p.subrange(4, 11) =~= sb("GET_VAR"));
            lemma_names_word(l, p, sb("GET_VAR"));
        },
        _ => {},
    }
}

proof fn lemma_line_get_val(i: InstrV, atoms: Seq<Seq<u8>>)
    requires
        i matches InstrV::GetVal { .. },
    ensures
        line_spec(i, atoms) matches Ok(l) ==> names_word(l, mnemonic_of(i)),
{
    match i {
        InstrV::GetVal { ai, xi } => {
            reveal_strlit("    ");
            is_ascii_chars_encode_utf8("    "@);
            assert(sb("    ") =~= seq![32u8, 32u8, 32u8, 32u8]);
            reveal_strlit("GET_VAL");
            is_ascii_chars_encode_utf8("GET_VAL"@);
            assert(sb("GET_VAL") =~= seq![71u8, 69u8, 84u8, 95u8, 86u8, 65u8, 76u8]);
            reveal_strlit(" X");
            is_ascii_chars_encode_utf8(" X"@);
            assert(sb(" X") =~= seq![32u8, 88u8]);
            let p = sb("    ") + sb("GET_VAL") + sb(" X");
            let q0 = p + decimal(xi as nat);
            let q1 = q0 + sb(", A");
            let q2 = q1 + decimal(ai as nat);
            let l = q2;
            assert(line_spec(i, atoms) == Ok::<Seq<u8>, crate::emit::EmitError>(l));
            lemma_prefix_add(p, decimal(xi as nat));
            lemma_prefix_add(q0, sb(", A"));
            lemma_prefix_add(q1, decimal(ai as nat));
            lemma_prefix_trans(l, q1, q0);
            lemma_prefix_trans(l, q0, p);
            assert(p =~= seq![32u8, 32u8, 32u8, 32u8, 71u8, 69u8, 84u8, 95u8, 86u8, 65u8, 76u8, 32u8, 88u8]);
            assert(p.subrange(0, 4) =~= seq![32u8, 32u8, 32u8, 32u8]);
            assert(p.subrange(4, 11) =~= sb("GET_VAL"));
            lemma_names_word(l, p, sb("GET_VAL"));
        },
        _ => {},
    }
}

proof fn lemma_line_put_y_val(i: InstrV, atoms: Seq<Seq<u8>>)
    requires
        i matches InstrV::PutYVal { .. },
    ensures
        line_spec(i, atoms) matches Ok(l) ==> names_word(l, mnemonic_of(i)),
{
    match i {
        InstrV::PutYVal { ai, yi } => {
            reveal_strlit("    ");
            is_ascii_chars_encode_utf8("    "@);
            assert(sb("    ") =~= seq![32u8, 32u8, 32u8, 32u8]);
            reveal_strlit("PUT_Y_VAL");
            is_ascii_chars_encode_utf8("PUT_Y_VAL"@);
            assert(sb("PUT_Y_VAL") =~= seq![80u8, 85u8, 84u8, 95u8, 89u8, 95u8, 86u8, 65u8, 76u8]);
            reveal_strlit(" Y");
            is_ascii_chars_encode_utf8(" Y"@);
            assert(sb(" Y") =~= seq![32u8, 89u8]);
            let p = sb("    ") + sb("PUT_Y_VAL") + sb(" Y");
            let q0 = p + decimal(yi as nat);
            let q1 = q0 + sb(", A");
            let q2 = q1 + decimal(ai as nat);
            let l = q2;
            assert(line_spec(i, atoms) == Ok::<Seq<u8>, crate::emit::EmitError>(l));
            lemma_prefix_add(p, decimal(yi as nat));
            lemma_prefix_add(q0, sb(", A"));
            lemma_prefix_add(q1, decimal(ai as nat));
            lemma_prefix_trans(l, q1, q0);
            lemma_prefix_trans(l, q0, p);
            assert(p =~= seq![32u8, 32u8, 32u8, 32u8, 80u8, 85u8, 84u8, 95u8, 89u8, 95u8, 86u8, 65u8, 76u8, 32u8, 89u8]);
            assert(p.subrange(0, 4) =~= seq![32u8, 32u8, 32u8, 32u8]);
            assert(p.subrange(4, 13) =~= sb("PUT_Y_VAL"));
            lemma_names_word(l, p, sb("PUT_Y_VAL"));
        },
        _ => {},
    }
}

proof fn lemma_line_get_y_var(i: InstrV, atoms: Seq<Seq<u8>>)
    requires
        i matches InstrV::GetYVar { .. },
    ensures
        line_spec(i, atoms) matches Ok(l) ==> names_word(l, mnemonic_of(i)),
{
    match i {
        InstrV::GetYVar { ai, yi } => {
            reveal_strlit("    ");
            is_ascii_chars_encode_utf8("    "@);
            assert(sb("    ") =~= seq![32u8, 32u8, 32u8, 32u8]);
            reveal_strlit("GET_Y_VAR");
            is_ascii_chars_encode_utf8("GET_Y_VAR"@);
            assert(sb("GET_Y_VAR") =~= seq![71u8, 69u8, 84u8, 95u8, 89u8, 95u8, 86u8, 65u8, 82u8]);
            reveal_strlit(" Y");
            is_ascii_chars_encode_utf8(" Y"@);
            assert(sb(" Y") =~= seq![32u8, 89u8]);
            let p = sb("    ") + sb("GET_Y_VAR") + sb(" Y");
            let q0 = p + decimal(yi as nat);
            let q1 = q0 + sb(", A");
            let q2 = q1 + decimal(ai as nat);
            let l = q2;
            assert(line_spec(i, atoms) == Ok::<Seq<u8>, crate::emit::EmitError>(l));
            lemma_prefix_add(p, decimal(yi as nat));
            lemma_prefix_add(q0, sb(", A"));
            lemma_prefix_add(q1, decimal(ai as nat));
            lemma_prefix_trans(l, q1, q0);
            lemma_prefix_trans(l, q0, p);
            assert(p =~= seq![32u8, 32u8, 32u8, 32u8, 71u8, 69u8, 84u8, 95u8, 89u8, 95u8, 86u8, 65u8, 82u8, 32u8, 89u8]);
            assert(p.subrange(0, 4) =~= seq![32u8, 32u8, 32u8, 32u8]);
            assert(p.subrange(4, 13) =~= sb("GET_Y_VAR"));
            lemma_names_word(l, p, sb("GET_Y_VAR"));
        },
        _ => {},
    }
}

proof fn lemma_line_call(i: InstrV, atoms: Seq<Seq<u8>>)
    requires
        i matches InstrV::Call { .. },
    ensures
        line_spec(i, atoms) matches Ok(l) ==> names_word(l, mnemonic_of(i)),
{
    match i {
        InstrV::Call { label } => {
            reveal_strlit("    ");
            is_ascii_chars_encode_utf8("    "@);
            assert(sb("    ") =~= seq![32u8, 32u8, 32u8, 32u8]);
            reveal_strlit("CALL");
            is_ascii_chars_encode_utf8("CALL"@);
            assert(sb("CALL") =~= seq![67u8, 65u8, 76u8, 76u8]);
            reveal_strlit(" ");
            is_ascii_chars_encode_utf8(" "@);
            assert(sb(" ") =~= seq![32u8]);
            let p = sb("    ") + sb("CALL") + sb(" ");
            let q0 = p + label;
            let l = q0;
            assert(line_spec(i, atoms) == Ok::<Seq<u8>, crate::emit::EmitError>(l));
            lemma_prefix_add(p, label);
            assert(p =~= seq![32u8, 32u8, 32u8, 32u8, 67u8, 65u8, 76u8, 76u8, 32u8]);
            assert(p.subrange(0, 4) =~= seq![32u8, 32u8, 32u8, 32u8]);
            assert(p.subrange(4, 8) =~= sb("CALL"));
            lemma_names_word(l, p, sb("CALL"));
        },
        _ => {},
    }
}

proof fn lemma_line_execute(i: InstrV, atoms: Seq<Seq<u8>>)
    requires
        i matches InstrV::Execute { .. },
    ensures
        line_spec(i, atoms) matches Ok(l) ==> names_word(l, mnemonic_of(i)),
{
    match i {
        InstrV::Execute { label } => {
            reveal_strlit("    ");
            is_ascii_chars_encode_utf8("    "@);
            assert(sb("    ") =~= seq![32u8, 32u8, 32u8, 32u8]);
            reveal_strlit("EXECUTE");
            is_ascii_chars_encode_utf8("EXECUTE"@);
            assert(sb("EXECUTE") =~= seq![69u8, 88u8, 69u8, 67u8, 85u8, 84u8, 69u8]);
            reveal_strlit(" ");
            is_ascii_chars_encode_utf8(" "@);
            assert(sb(" ") =~= seq![32u8]);
            let p = sb("    ") + sb("EXECUTE") + sb(" ");
            let q0 = p + label;
            let l = q0;
            assert(line_spec(i, atoms) == Ok::<Seq<u8>, crate::emit::EmitError>(l));
            lemma_prefix_add(p, label);
            assert(p =~= seq![32u8, 32u8, 32u8, 32u8, 69u8, 88u8, 69u8, 67u8, 85u8, 84u8, 69u8, 32u8]);
            assert(p.subrange(0, 4) =~= seq![32u8, 32u8, 32u8, 32u8]);
            assert(p.subrange(4, 11) =~= sb("EXECUTE"));
            lemma_names_word(l, p, sb("EXECUTE"));
        },
        _ => {},
    }
}

proof fn lemma_line_try(i: InstrV, atoms: Seq<Seq<u8>>)
    requires
        i matches InstrV::Try { .. },
    ensures
        line_spec(i, atoms) matches Ok(l) ==> names_word(l, mnemonic_of(i)),
{
    match i {
        InstrV::Try { label } => {
            reveal_strlit("    ");
            is_ascii_chars_encode_utf8("    "@);
            assert(sb("    ") =~= seq![32u8, 32u8, 32u8, 32u8]);
            reveal_strlit("TRY");
            is_ascii_chars_encode_utf8("TRY"@);
            assert(sb("TRY") =~= seq![84u8, 82u8, 89u8]);
            reveal_strlit(" ");
            is_ascii_chars_encode_utf8(" "@);
            assert(sb(" ") =~= seq![32u8]);
            let p = sb("    ") + sb("TRY") + sb(" ");
            let q0 = p + label;
            let l = q0;
            assert(line_spec(i, atoms) == Ok::<Seq<u8>, crate::emit::EmitError>(l));
            lemma_prefix_add(p, label);
            assert(p =~= seq![32u8, 32u8, 32u8, 32u8, 84u8, 82u8, 89u8, 32u8]);
            assert(p.subrange(0, 4) =~= seq![32u8, 32u8, 32u8, 32u8]);
            assert(p.subrange(4, 7) =~= sb("TRY"));
            lemma_names_word(l, p, sb("TRY"));
        },
        _ => {},
    }
}

proof fn lemma_line_retry(i: InstrV, atoms: Seq<Seq<u8>>)
    requires
        i matches InstrV::Retry { .. },
    ensures
        line_spec(i, atoms) matches Ok(l) ==> names_word(l, mnemonic_of(i)),
{
    match i {
        InstrV::Retry { label } => {
            reveal_strlit("    ");
            is_ascii_chars_encode_utf8("    "@);
            assert(sb("    ") =~= seq![32u8, 32u8, 32u8, 32u8]);
            reveal_strlit("RETRY");
            is_ascii_chars_encode_utf8("RETRY"@);
            assert(sb("RETRY") =~= seq![82u8, 69u8, 84u8, 82u8, 89u8]);
            reveal_strlit(" ");
            is_ascii_chars_encode_utf8(" "@);
            assert(sb(" ") =~= seq![32u8]);
            let p = sb("    ") + sb("RETRY") + sb(" ");
            let q0 = p + label;
            let l = q0;
            assert(line_spec(i, atoms) == Ok::<Seq<u8>, crate::emit::EmitError>(l));
            lemma_prefix_add(p, label);
            assert(p =~= seq![32u8, 32u8, 32u8, 32u8, 82u8, 69u8, 84u8, 82u8, 89u8, 32u8]);
            assert(p.subrange(0, 4) =~= seq![32u8, 32u8, 32u8, 32u8]);
            assert(p.subrange(4, 9) =~= sb("RETRY"));
            lemma_names_word(l, p, sb("RETRY"));
        },
        _ => {},
    }
}

proof fn lemma_line_deallocate(i: InstrV, atoms: Seq<Seq<u8>>)
    requires
        i matches InstrV::Deallocate,
    ensures
        line_spec(i, atoms) matches Ok(l) ==> names_word(l, mnemonic_of(i)),
{
    match i {
        InstrV::Deallocate => {
            reveal_strlit("    ");
            is_ascii_chars_encode_utf8("    "@);
            assert(sb("    ") =~= seq![32u8, 32u8, 32u8, 32u8]);
            reveal_strlit("DEALLOCATE");
            is_ascii_chars_encode_utf8("DEALLOCATE"@);
            assert(sb("DEALLOCATE") =~= seq![68u8, 69u8, 65u8, 76u8, 76u8, 79u8, 67u8, 65u8, 84u8, 69u8]);
            let p = sb("    ") + sb("DEALLOCATE");
            let l = p;
            assert(l.subrange(0, p.len() as int) =~= p);
            assert(line_spec(i, atoms) == Ok::<Seq<u8>, crate::emit::EmitError>(l));
            assert(p =~= seq![32u8, 32u8, 32u8, 32u8, 68u8, 69u8, 65u8, 76u8, 76u8, 79u8, 67u8, 65u8, 84u8, 69u8]);
            assert(p.subrange(0, 4) =~= seq![32u8, 32u8, 32u8, 32u8]);
            assert(p.subrange(4, 14) =~= sb("DEALLOCATE"));
            lemma_names_word(l, p, sb("DEALLOCATE"));
        },
        _ => {},
    }
}

proof fn lemma_line_proceed(i: InstrV, atoms: Seq<Seq<u8>>)
    requires
        i matches InstrV::Proceed,
    ensures
        line_spec(i, atoms) matches Ok(l) ==> names_word(l, mnemonic_of(i)),
{
    match i {
        InstrV::Proceed => {
            reveal_strlit("    ");
            is_ascii_chars_encode_utf8("    "@);
            assert(sb("    ") =~= seq![32u8, 32u8, 32u8, 32u8]);
            reveal_strlit("PROCEED");
            is_ascii_chars_encode_utf8("PROCEED"@);
            assert(sb("PROCEED") =~= seq![80u8, 82u8, 79u8, 67u8, 69u8, 69u8, 68u8]);
            let p = sb("    ") + sb("PROCEED");
            let l = p;
            assert(l.subrange(0, p.len() as int) =~= p);
            assert(line_spec(i, atoms) == Ok::<Seq<u8>, crate::emit::EmitError>(l));
            assert(p =~= seq![32u8, 32u8, 32u8, 32u8, 80u8, 82u8, 79u8, 67u8, 69u8, 69u8, 68u8]);
            assert(p.subrange(0, 4) =~= seq![32u8, 32u8, 32u8, 32u8]);
            assert(p.subrange(4, 11) =~= sb("PROCEED"));
            lemma_names_word(l, p, sb("PROCEED"));
        },
        _ => {},
    }
}

proof fn lemma_line_trust(i: InstrV, atoms: Seq<Seq<u8>>)
    requires
        i matches InstrV::Trust { .. },
    ensures
        line_spec(i, atoms) matches Ok(l) ==> names_word(l, mnemonic_of(i)),
{
    match i {
        InstrV::Trust { .. } => {
            reveal_strlit("    ");
            is_ascii_chars_encode_utf8("    "@);
            assert(sb("    ") =~= seq![32u8, 32u8, 32u8, 32u8]);
            reveal_strlit("TRUST");
            is_ascii_chars_encode_utf8("TRUST"@);
            assert(sb("TRUST") =~= seq![84u8, 82u8, 85u8, 83u8, 84u8]);
            let p = sb("    ") + sb("TRUST");
            let l = p;
            assert(l.subrange(0, p.len() as int) =~= p);
            assert(line_spec(i, atoms) == Ok::<Seq<u8>, crate::emit::EmitError>(l));
            assert(p =~= seq![32u8, 32u8, 32u8, 32u8, 84u8, 82u8, 85u8, 83u8, 84u8]);
            assert(p.subrange(0, 4) =~= seq![32u8, 32u8, 32u8, 32u8]);
            assert(p.subrange(4, 9) =~= sb("TRUST"));
            lemma_names_word(l, p, sb("TRUST"));
        },
        _ => {},
    }
}

proof fn lemma_line_cut(i: InstrV, atoms: Seq<Seq<u8>>)
    requires
        i matches InstrV::Cut,
    ensures
        line_spec(i, atoms) matches Ok(l) ==> names_word(l, mnemonic_of(i)),
{
    match i {
        InstrV::Cut => {
            reveal_strlit("    ");
            is_ascii_chars_encode_utf8("    "@);
            assert(sb("    ") =~= seq![32u8, 32u8, 32u8, 32u8]);
            reveal_strlit("CUT");
            is_ascii_chars_encode_utf8("CUT"@);
            assert(sb("CUT") =~= seq![67u8, 85u8, 84u8]);
            let p = sb("    ") + sb("CUT");
            let l = p;
            assert(l.subrange(0, p.len() as int) =~= p);
            assert(line_spec(i, atoms) == Ok::<Seq<u8>, crate::emit::EmitError>(l));
            assert(p =~= seq![32u8, 32u8, 32u8, 32u8, 67u8, 85u8, 84u8]);
            assert(p.subrange(0, 4) =~= seq![32u8, 32u8, 32u8, 32u8]);
            assert(p.subrange(4, 7) =~= sb("CUT"));
            lemma_names_word(l, p, sb("CUT"));
        },
        _ => {},
    }
}

proof fn lemma_line_fail(i: InstrV, atoms: Seq<Seq<u8>>)
    requires
        i matches InstrV::Fail,
    ensures
        line_spec(i, atoms) matches Ok(l) ==> names_word(l, mnemonic_of(i)),
{
    match i {
        InstrV::Fail => {
            reveal_strlit("    ");
            is_ascii_chars_encode_utf8("    "@);
            assert(sb("    ") =~= seq![32u8, 32u8, 32u8, 32u8]);
            reveal_strlit("FAIL");
            is_ascii_chars_encode_utf8("FAIL"@);
            assert(sb("FAIL") =~= seq![70u8, 65u8, 73u8, 76u8]);
            let p = sb("    ") + sb("FAIL");
            let l = p;
            assert(l.subrange(0, p.len() as int) =~= p);
            assert(line_spec(i, atoms) == Ok::<Seq<u8>, crate::emit::EmitError>(l));
            assert(p =~= seq![32u8, 32u8, 32u8, 32u8, 70u8, 65u8, 73u8, 76u8]);
            assert(p.subrange(0, 4) =~= seq![32u8, 32u8, 32u8, 32u8]);
            assert(p.subrange(4, 8) =~= sb("FAIL"));
            lemma_names_word(l, p, sb("FAIL"));
        },
        _ => {},
    }
}

proof fn lemma_line_b_nl(i: InstrV, atoms: Seq<Seq<u8>>)
    requires
        i matches InstrV::BNl,
    ensures
        line_spec(i, atoms) matches Ok(l) ==> names_word(l, mnemonic_of(i)),
{
    match i {
        InstrV::BNl => {
            reveal_strlit("    ");
            is_ascii_chars_encode_utf8("    "@);
            assert(sb("    ") =~= seq![32u8, 32u8, 32u8, 32u8]);
            reveal_strlit("B_NL");
            is_ascii_chars_encode_utf8("B_NL"@);
            assert(sb("B_NL") =~= seq![66u8, 95u8, 78u8, 76u8]);
            let p = sb("    ") + sb("B_NL");
            let l = p;
            assert(l.subrange(0, p.len() as int) =~= p);
            assert(line_spec(i, atoms) == Ok::<Seq<u8>, crate::emit::EmitError>(l));
            assert(p =~= seq![32u8, 32u8, 32u8, 32u8, 66u8, 95u8, 78u8, 76u8]);
            assert(p.subrange(0, 4) =~= seq![32u8, 32u8, 32u8, 32u8]);
            assert(p.subrange(4, 8) =~= sb("B_NL"));
            lemma_names_word(l, p, sb("B_NL"));
        },
        _ => {},
    }
}

proof fn lemma_line_b_is_add(i: InstrV, atoms: Seq<Seq<u8>>)
    requires
        i matches InstrV::BIsAdd { .. },
    ensures
        line_spec(i, atoms) matches Ok(l) ==> names_word(l, mnemonic_of(i)),
{
    match i {
        InstrV::BIsAdd { .. } => {
            reveal_strlit("    ");
            is_ascii_chars_encode_utf8("    "@);
            assert(sb("    ") =~= seq![32u8, 32u8, 32u8, 32u8]);
            reveal_strlit("B_IS_ADD");
            is_ascii_chars_encode_utf8("B_IS_ADD"@);
            assert(sb("B_IS_ADD") =~= seq![66u8, 95u8, 73u8, 83u8, 95u8, 65u8, 68u8, 68u8]);
            let p = sb("    ") + sb("B_IS_ADD");
            let l = p;
            assert(l.subrange(0, p.len() as int) =~= p);
            assert(line_spec(i, atoms) == Ok::<Seq<u8>, crate::emit::EmitError>(l));
            assert(p =~= seq![32u8, 32u8, 32u8, 32u8, 66u8, 95u8, 73u8, 83u8, 95u8, 65u8, 68u8, 68u8]);
            assert(p.subrange(0, 4) =~= seq![32u8, 32u8, 32u8, 32u8]);
            assert(p.subrange(4, 12) =~= sb("B_IS_ADD"));
            lemma_names_word(l, p, sb("B_IS_ADD"));
        },
        _ => {},
    }
}

proof fn lemma_line_b_is_sub(i: InstrV, atoms: Seq<Seq<u8>>)
    requires
        i matches InstrV::BIsSub { .. },
    ensures
        line_spec(i, atoms) matches Ok(l) ==> names_word(l, mnemonic_of(i)),
{
    match i {
        InstrV::BIsSub { .. } => {
            reveal_strlit("    ");
            is_ascii_chars_encode_utf8("    "@);
            assert(sb("    ") =~= seq![32u8, 32u8, 32u8, 32u8]);
            reveal_strlit("B_IS_SUB");
            is_ascii_chars_encode_utf8("B_IS_SUB"@);
            assert(sb("B_IS_SUB") =~= seq![66u8, 95u8, 73u8, 83u8, 95u8, 83u8, 85u8, 66u8]);
            let p = sb("    ") + sb("B_IS_SUB");
            let l = p;
            assert(l.subrange(0, p.len() as int) =~= p);
            assert(line_spec(i, atoms) == Ok::<Seq<u8>, crate::emit::EmitError>(l));
            assert(p =~= seq![32u8, 32u8, 32u8, 32u8, 66u8, 95u8, 73u8, 83u8, 95u8, 83u8, 85u8, 66u8]);
            assert(p.subrange(0, 4) =~= seq![32u8, 32u8, 32u8, 32u8]);
            assert(p.subrange(4, 12) =~= sb("B_IS_SUB"));
            lemma_names_word(l, p, sb("B_IS_SUB"));
        },
        _ => {},
    }
}

proof fn lemma_line_b_lt(i: InstrV, atoms: Seq<Seq<u8>>)
    requires
        i matches InstrV::BLt { .. },
    ensures
        line_spec(i, atoms) matches Ok(l) ==> names_word(l, mnemonic_of(i)),
{
    match i {
        InstrV::BLt { .. } => {
            reveal_strlit("    ");
            is_ascii_chars_encode_utf8("    "@);
            assert(sb("    ") =~= seq![32u8, 32u8, 32u8, 32u8]);
            reveal_strlit("B_LT");
            is_ascii_chars_encode_utf8("B_LT"@);
            assert(sb("B_LT") =~= seq![66u8, 95u8, 76u8, 84u8]);
            let p = sb("    ") + sb("B_LT");
            let l = p;
            assert(l.subrange(0, p.len() as int) =~= p);
            assert(line_spec(i, atoms) == Ok::<Seq<u8>, crate::emit::EmitError>(l));
            assert(p =~= seq![32u8, 32u8, 32u8, 32u8, 66u8, 95u8, 76u8, 84u8]);
            assert(p.subrange(0, 4) =~= seq![32u8, 32u8, 32u8, 32u8]);
            assert(p.subrange(4, 8) =~= sb("B_LT"));
            lemma_names_word(l, p, sb("B_LT"));
        },
        _ => {},
    }
}

proof fn lemma_line_b_gt(i: InstrV, atoms: Seq<Seq<u8>>)
    requires
        i matches InstrV::BGt { .. },
    ensures
        line_spec(i, atoms) matches Ok(l) ==> names_word(l, mnemonic_of(i)),
{
    match i {
        InstrV::BGt { .. } => {
            reveal_strlit("    ");
            is_ascii_chars_encode_utf8("    "@);
            assert(sb("    ") =~= seq![32u8, 32u8, 32u8, 32u8]);
            reveal_strlit("B_GT");
            is_ascii_chars_encode_utf8("B_GT"@);
            assert(sb("B_GT") =~= seq![66u8, 95u8, 71u8, 84u8]);
            let p = sb("    ") + sb("B_GT");
            let l = p;
            assert(l.subrange(0, p.len() as int) =~= p);
            assert(line_spec(i, atoms) == Ok::<Seq<u8>, crate::emit::EmitError>(l));
            assert(p =~= seq![32u8, 32u8, 32u8, 32u8, 66u8, 95u8, 71u8, 84u8]);
            assert(p.subrange(0, 4) =~= seq![32u8, 32u8, 32u8, 32u8]);
            assert(p.subrange(4, 8) =~= sb("B_GT"));
            lemma_names_word(l, p, sb("B_GT"));
        },
        _ => {},
    }
}

proof fn lemma_line_halt(i: InstrV, atoms: Seq<Seq<u8>>)
    requires
        i matches InstrV::Halt,
    ensures
        line_spec(i, atoms) matches Ok(l) ==> names_word(l, mnemonic_of(i)),
{
    match i {
        InstrV::Halt => {
            reveal_strlit("    ");
            is_ascii_chars_encode_utf8("    "@);
            assert(sb("    ") =~= seq![32u8, 32u8, 32u8, 32u8]);
            reveal_strlit("HALT");
            is_ascii_chars_encode_utf8("HALT"@);
            assert(sb("HALT") =~= seq![72u8, 65u8, 76u8, 84u8]);
            let p = sb("    ") + sb("HALT");
            let l = p;
            assert(l.subrange(0, p.len() as int) =~= p);
            assert(line_spec(i, atoms) == Ok::<Seq<u8>, crate::emit::EmitError>(l));
            assert(p =~= seq![32u8, 32u8, 32u8, 32u8, 72u8, 65u8, 76u8, 84u8]);
            assert(p.subrange(0, 4) =~= seq![32u8, 32u8, 32u8, 32u8]);
            assert(p.subrange(4, 8) =~= sb("HALT"));
            lemma_names_word(l, p, sb("HALT"));
        },
        _ => {},
    }
}

proof fn lemma_line_put_const(i: InstrV, atoms: Seq<Seq<u8>>)
    requires
        i matches InstrV::PutConst { .. },
    ensures
        line_spec(i, atoms) matches Ok(l) ==> names_word(l, mnemonic_of(i)),
{
    match i {
        InstrV::PutConst { ai, atom } => {
            if (atom as int) < atoms.len() {
                reveal_strlit("    PUT_CONST A");
                is_ascii_chars_encode_utf8("    PUT_CONST A"@);
                assert(sb("    PUT_CONST A") =~= seq![32u8, 32u8, 32u8, 32u8, 80u8, 85u8, 84u8, 95u8, 67u8, 79u8, 78u8, 83u8, 84u8, 32u8, 65u8]);
                reveal_strlit("PUT_CONST");
                is_ascii_chars_encode_utf8("PUT_CONST"@);
                assert(sb("PUT_CONST") =~= seq![80u8, 85u8, 84u8, 95u8, 67u8, 79u8, 78u8, 83u8, 84u8]);
                let p = sb("    PUT_CONST A");
                let q0 = p + decimal(ai as nat);
                let q1 = q0 + sb(", atom(");
                let q2 = q1 + atoms[atom as int];
                let q3 = q2 + sb(")");
                let l = q3;
                assert(line_spec(i, atoms) == Ok::<Seq<u8>, crate::emit::EmitError>(l));
                lemma_prefix_add(p, decimal(ai as nat));
                lemma_prefix_add(q0, sb(", atom("));
                lemma_prefix_add(q1, atoms[atom as int]);
                lemma_prefix_add(q2, sb(")"));
                lemma_prefix_trans(l, q2, q1);
                lemma_prefix_trans(l, q1, q0);
                lemma_prefix_trans(l, q0, p);
                assert(p =~= seq![32u8, 32u8, 32u8, 32u8, 80u8, 85u8, 84u8, 95u8, 67u8, 79u8, 78u8, 83u8, 84u8, 32u8, 65u8]);
                assert(p.subrange(0, 4) =~= seq![32u8, 32u8, 32u8, 32u8]);
                assert(p.subrange(4, 13) =~= sb("PUT_CONST"));
                lemma_names_word(l, p, sb("PUT_CONST"));
            }
        },
        _ => {},
    }
}

proof fn lemma_line_put_int(i: InstrV, atoms: Seq<Seq<u8>>)
    requires
        i matches InstrV::PutInt { .. },
    ensures
        line_spec(i, atoms) matches Ok(l) ==> names_word(l, mnemonic_of(i)),
{
    match i {
        InstrV::PutInt { ai, value } => {
            reveal_strlit("    PUT_CONST A");
            is_ascii_chars_encode_utf8("    PUT_CONST A"@);
            assert(sb("    PUT_CONST A") =~= seq![32u8, 32u8, 32u8, 32u8, 80u8, 85u8, 84u8, 95u8, 67u8, 79u8, 78u8, 83u8, 84u8, 32u8, 65u8]);
            reveal_strlit("PUT_CONST");
            is_ascii_chars_encode_utf8("PUT_CONST"@);
            assert(sb("PUT_CONST") =~= seq![80u8, 85u8, 84u8, 95u8, 67u8, 79u8, 78u8, 83u8, 84u8]);
            let p = sb("    PUT_CONST A");
            let q0 = p + decimal(ai as nat);
            let q1 = q0 + sb(", int(");
            let q2 = q1 + signed_decimal(value as int);
            let q3 = q2 + sb(")");
            let l = q3;
            assert(line_spec(i, atoms) == Ok::<Seq<u8>, crate::emit::EmitError>(l));
            lemma_prefix_add(p, decimal(ai as nat));
            lemma_prefix_add(q0, sb(", int("));
            lemma_prefix_add(q1, signed_decimal(value as int));
            lemma_prefix_add(q2, sb(")"));
            lemma_prefix_trans(l, q2, q1);
            lemma_prefix_trans(l, q1, q0);
            lemma_prefix_trans(l, q0, p);
            assert(p =~= seq![32u8, 32u8, 32u8, 32u8, 80u8, 85u8, 84u8, 95u8, 67u8, 79u8, 78u8, 83u8, 84u8, 32u8, 65u8]);
            assert(p.subrange(0, 4) =~= seq![32u8, 32u8, 32u8, 32u8]);
            assert(p.subrange(4, 13) =~= sb("PUT_CONST"));
            lemma_names_word(l, p, sb("PUT_CONST"));
        },
        _ => {},
    }
}

proof fn lemma_line_get_const(i: InstrV, atoms: Seq<Seq<u8>>)
    requires
        i matches InstrV::GetConst { .. },
    ensures
        line_spec(i, atoms) matches Ok(l) ==> names_word(l, mnemonic_of(i)),
{
    match i {
        InstrV::GetConst { ai, atom } => {
            if (atom as int) < atoms.len() {
                reveal_strlit("    GET_CONST A");
                is_ascii_chars_encode_utf8("    GET_CONST A"@);
                assert(sb("    GET_CONST A") =~= seq![32u8, 32u8, 32u8, 32u8, 71u8, 69u8, 84u8, 95u8, 67u8, 79u8, 78u8, 83u8, 84u8, 32u8, 65u8]);
                reveal_strlit("GET_CONST");
                is_ascii_chars_encode_utf8("GET_CONST"@);
                assert(sb("GET_CONST") =~= seq![71u8, 69u8, 84u8, 95u8, 67u8, 79u8, 78u8, 83u8, 84u8]);
                let p = sb("    GET_CONST A");
                let q0 = p + decimal(ai as nat);
                let q1 = q0 + sb(", atom(");
                let q2 = q1 + atoms[atom as int];
                let q3 = q2 + sb(")");
                let l = q3;
                assert(line_spec(i, atoms) == Ok::<Seq<u8>, crate::emit::EmitError>(l));
                lemma_prefix_add(p, decimal(ai as nat));
                lemma_prefix_add(q0, sb(", atom("));
                lemma_prefix_add(q1, atoms[atom as int]);
                lemma_prefix_add(q2, sb(")"));
                lemma_prefix_trans(l, q2, q1);
                lemma_prefix_trans(l, q1, q0);
                lemma_prefix_trans(l, q0, p);
                assert(p =~= seq![32u8, 32u8, 32u8, 32u8, 71u8, 69u8, 84u8, 95u8, 67u8, 79u8, 78u8, 83u8, 84u8, 32u8, 65u8]);
                assert(p.subrange(0, 4) =~= seq![32u8, 32u8, 32u8, 32u8]);
                assert(p.subrange(4, 13) =~= sb("GET_CONST"));
                lemma_names_word(l, p, sb("GET_CONST"));
            }
        },
        _ => {},
    }
}

proof fn lemma_line_get_int(i: InstrV, atoms: Seq<Seq<u8>>)
    requires
        i matches InstrV::GetInt { .. },
    ensures
        line_spec(i, atoms) matches Ok(l) ==> names_word(l, mnemonic_of(i)),
{
    match i {
        InstrV::GetInt { ai, value } => {
            reveal_strlit("    GET_CONST A");
            is_ascii_chars_encode_utf8("    GET_CONST A"@);
            assert(sb("    GET_CONST A") =~= seq![32u8, 32u8, 32u8, 32u8, 71u8, 69u8, 84u8, 95u8, 67u8, 79u8, 78u8, 83u8, 84u8, 32u8, 65u8]);
            reveal_strlit("GET_CONST");
            is_ascii_chars_encode_utf8("GET_CONST"@);
            assert(sb("GET_CONST") =~= seq![71u8, 69u8, 84u8, 95u8, 67u8, 79u8, 78u8, 83u8, 84u8]);
            let p = sb("    GET_CONST A");
            let q0 = p + decimal(ai as nat);
            let q1 = q0 + sb(", int(");
            let q2 = q1 + signed_decimal(value as int);
            let q3 = q2 + sb(")");
            let l = q3;
            assert(line_spec(i, atoms) == Ok::<Seq<u8>, crate::emit::EmitError>(l));
            lemma_prefix_add(p, decimal(ai as nat));
            lemma_prefix_add(q0, sb(", int("));
            lemma_prefix_add(q1, signed_decimal(value as int));
            lemma_prefix_add(q2, sb(")"));
            lemma_prefix_trans(l, q2, q1);
            lemma_prefix_trans(l, q1, q0);
            lemma_prefix_trans(l, q0, p);
            assert(p =~= seq![32u8, 32u8, 32u8, 32u8, 71u8, 69u8, 84u8, 95u8, 67u8, 79u8, 78u8, 83u8, 84u8, 32u8, 65u8]);
            assert(p.subrange(0, 4) =~= seq![32u8, 32u8, 32u8, 32u8]);
            assert(p.subrange(4, 13) =~= sb("GET_CONST"));
            lemma_names_word(l, p, sb("GET_CONST"));
        },
        _ => {},
    }
}

proof fn lemma_line_get_struct(i: InstrV, atoms: Seq<Seq<u8>>)
    requires
        i matches InstrV::GetStruct { .. },
    ensures
        line_spec(i, atoms) matches Ok(l) ==> names_word(l, mnemonic_of(i)),
{
    match i {
        InstrV::GetStruct { ai, atom, arity } => {
            if (atom as int) < atoms.len() {
                reveal_strlit("    GET_STRUCT A");
                is_ascii_chars_encode_utf8("    GET_STRUCT A"@);
                assert(sb("    GET_STRUCT A") =~= seq![32u8, 32u8, 32u8, 32u8, 71u8, 69u8, 84u8, 95u8, 83u8, 84u8, 82u8, 85u8, 67u8, 84u8, 32u8, 65u8]);
                reveal_strlit("GET_STRUCT");
                is_ascii_chars_encode_utf8("GET_STRUCT"@);
                assert(sb("GET_STRUCT") =~= seq![71u8, 69u8, 84u8, 95u8, 83u8, 84u8, 82u8, 85u8, 67u8, 84u8]);
                let p = sb("    GET_STRUCT A");
                let q0 = p + decimal(ai as nat);
                let q1 = q0 + sb(", ");
                let q2 = q1 + atoms[atom as int];
                let q3 = q2 + sb("/");
                let q4 = q3 + decimal(arity as nat);
                let l = q4;
                assert(line_spec(i, atoms) == Ok::<Seq<u8>, crate::emit::EmitError>(l));
                lemma_prefix_add(p, decimal(ai as nat));
                lemma_prefix_add(q0, sb(", "));
                lemma_prefix_add(q1, atoms[atom as int]);
                lemma_prefix_add(q2, sb("/"));
                lemma_prefix_add(q3, decimal(arity as nat));
                lemma_prefix_trans(l, q3, q2);
                lemma_prefix_trans(l, q2, q1);
                lemma_prefix_trans(l, q1, q0);
                lemma_prefix_trans(l, q0, p);
                assert(p =~= seq![32u8, 32u8, 32u8, 32u8, 71u8, 69u8, 84u8, 95u8, 83u8, 84u8, 82u8, 85u8, 67u8, 84u8, 32u8, 65u8]);
                assert(p.subrange(0, 4) =~= seq![32u8, 32u8, 32u8, 32u8]);
                assert(p.subrange(4, 14) =~= sb("GET_STRUCT"));
                lemma_names_word(l, p, sb("GET_STRUCT"));
            }
        },
        _ => {},
    }
}

proof fn lemma_line_unify_var(i: InstrV, atoms: Seq<Seq<u8>>)
    requires
        i matches InstrV::UnifyVar { .. },
    ensures
        line_spec(i, atoms) matches Ok(l) ==> names_word(l, mnemonic_of(i)),
{
    match i {
        InstrV::UnifyVar { xi } => {
            reveal_strlit("    UNIFY_VAR X");
            is_ascii_chars_encode_utf8("    UNIFY_VAR X"@);
            assert(sb("    UNIFY_VAR X") =~= seq![32u8, 32u8, 32u8, 32u8, 85u8, 78u8, 73u8, 70u8, 89u8, 95u8, 86u8, 65u8, 82u8, 32u8, 88u8]);
            reveal_strlit("UNIFY_VAR");
            is_ascii_chars_encode_utf8("UNIFY_VAR"@);
            assert(sb("UNIFY_VAR") =~= seq![85u8, 78u8, 73u8, 70u8, 89u8, 95u8, 86u8, 65u8, 82u8]);
            let p = sb("    UNIFY_VAR X");
            let q0 = p + decimal(xi as nat);
            let l = q0;
            assert(line_spec(i, atoms) == Ok::<Seq<u8>, crate::emit::EmitError>(l));
            lemma_prefix_add(p, decimal(xi as nat));
            assert(p =~= seq![32u8, 32u8, 32u8, 32u8, 85u8, 78u8, 73u8, 70u8, 89u8, 95u8, 86u8, 65u8, 82u8, 32u8, 88u8]);
            assert(p.subrange(0, 4) =~= seq![32u8, 32u8, 32u8, 32u8]);
            assert(p.subrange(4, 13) =~= sb("UNIFY_VAR"));
            lemma_names_word(l, p, sb("UNIFY_VAR"));
        },
        _ => {},
    }
}

proof fn lemma_line_unify_val(i: InstrV, atoms: Seq<Seq<u8>>)
    requires
        i matches InstrV::UnifyVal { .. },
    ensures
        line_spec(i, atoms) matches Ok(l) ==> names_word(l, mnemonic_of(i)),
{
    match i {
        InstrV::UnifyVal { xi } => {
            reveal_strlit("    UNIFY_VAL X");
            is_ascii_chars_encode_utf8("    UNIFY_VAL X"@);
            assert(sb("    UNIFY_VAL X") =~= seq![32u8, 32u8, 32u8, 32u8, 85u8, 78u8, 73u8, 70u8, 89u8, 95u8, 86u8, 65u8, 76u8, 32u8, 88u8]);
            reveal_strlit("UNIFY_VAL");
            is_ascii_chars_encode_utf8("UNIFY_VAL"@);
            assert(sb("UNIFY_VAL") =~= seq![85u8, 78u8, 73u8, 70u8, 89u8, 95u8, 86u8, 65u8, 76u8]);
            let p = sb("    UNIFY_VAL X");
            let q0 = p + decimal(xi as nat);
            let l = q0;
            assert(line_spec(i, atoms) == Ok::<Seq<u8>, crate::emit::EmitError>(l));
            lemma_prefix_add(p, decimal(xi as nat));
            assert(p =~= seq![32u8, 32u8, 32u8, 32u8, 85u8, 78u8, 73u8, 70u8, 89u8, 95u8, 86u8, 65u8, 76u8, 32u8, 88u8]);
            assert(p.subrange(0, 4) =~= seq![32u8, 32u8, 32u8, 32u8]);
            assert(p.subrange(4, 13) =~= sb("UNIFY_VAL"));
            lemma_names_word(l, p, sb("UNIFY_VAL"));
        },
        _ => {},
    }
}

proof fn lemma_line_unify_const(i: InstrV, atoms: Seq<Seq<u8>>)
    requires
        i matches InstrV::UnifyConst { .. },
    ensures
        line_spec(i, atoms) matches Ok(l) ==> names_word(l, mnemonic_of(i)),
{
    match i {
        InstrV::UnifyConst { atom } => {
            if (atom as int) < atoms.len() {
                reveal_strlit("    UNIFY_CONST atom(");
                is_ascii_chars_encode_utf8("    UNIFY_CONST atom("@);
                assert(sb("    UNIFY_CONST atom(") =~= seq![32u8, 32u8, 32u8, 32u8, 85u8, 78u8, 73u8, 70u8, 89u8, 95u8, 67u8, 79u8, 78u8, 83u8, 84u8, 32u8, 97u8, 116u8, 111u8, 109u8, 40u8]);
                reveal_strlit("UNIFY_CONST");
                is_ascii_chars_encode_utf8("UNIFY_CONST"@);
                assert(sb("UNIFY_CONST") =~= seq![85u8, 78u8, 73u8, 70u8, 89u8, 95u8, 67u8, 79u8, 78u8, 83u8, 84u8]);
                let p = sb("    UNIFY_CONST atom(");
                let q0 = p + atoms[atom as int];
                let q1 = q0 + sb(")");
                let l = q1;
                assert(line_spec(i, atoms) == Ok::<Seq<u8>, crate::emit::EmitError>(l));
                lemma_prefix_add(p, atoms[atom as int]);
                lemma_prefix_add(q0, sb(")"));
                lemma_prefix_trans(l, q0, p);
                assert(p =~= seq![32u8, 32u8, 32u8, 32u8, 85u8, 78u8, 73u8, 70u8, 89u8, 95u8, 67u8, 79u8, 78u8, 83u8, 84u8, 32u8, 97u8, 116u8, 111u8, 109u8, 40u8]);
                assert(p.subrange(0, 4) =~= seq![32u8, 32u8, 32u8, 32u8]);
                assert(p.subrange(4, 15) =~= sb("UNIFY_CONST"));
                lemma_names_word(l, p, sb("UNIFY_CONST"));
            }
        },
        _ => {},
    }
}

proof fn lemma_line_unify_int(i: InstrV, atoms: Seq<Seq<u8>>)
    requires
        i matches InstrV::UnifyInt { .. },
    ensures
        line_spec(i, atoms) matches Ok(l) ==> names_word(l, mnemonic_of(i)),
{
    match i {
        InstrV::UnifyInt { value } => {
            reveal_strlit("    UNIFY_CONST int(");
            is_ascii_chars_encode_utf8("    UNIFY_CONST int("@);
            assert(sb("    UNIFY_CONST int(") =~= seq![32u8, 32u8, 32u8, 32u8, 85u8, 78u8, 73u8, 70u8, 89u8, 95u8, 67u8, 79u8, 78u8, 83u8, 84u8, 32u8, 105u8, 110u8, 116u8, 40u8]);
            reveal_strlit("UNIFY_CONST");
            is_ascii_chars_encode_utf8("UNIFY_CONST"@);
            assert(sb("UNIFY_CONST") =~= seq![85u8, 78u8, 73u8, 70u8, 89u8, 95u8, 67u8, 79u8, 78u8, 83u8, 84u8]);
            let p = sb("    UNIFY_CONST int(");
            let q0 = p + signed_decimal(value as int);
            let q1 = q0 + sb(")");
            let l = q1;
            assert(line_spec(i, atoms) == Ok::<Seq<u8>, crate::emit::EmitError>(l));
            lemma_prefix_add(p, signed_decimal(value as int));
            lemma_prefix_add(q0, sb(")"));
            lemma_prefix_trans(l, q0, p);
            assert(p =~= seq![32u8, 32u8, 32u8, 32u8, 85u8, 78u8, 73u8, 70u8, 89u8, 95u8, 67u8, 79u8, 78u8, 83u8, 84u8, 32u8, 105u8, 110u8, 116u8, 40u8]);
            assert(p.subrange(0, 4) =~= seq![32u8, 32u8, 32u8, 32u8]);
            assert(p.subrange(4, 15) =~= sb("UNIFY_CONST"));
            lemma_names_word(l, p, sb("UNIFY_CONST"));
        },
        _ => {},
    }
}

proof fn lemma_line_allocate(i: InstrV, atoms: Seq<Seq<u8>>)
    requires
        i matches InstrV::Allocate { .. },
    ensures
        line_spec(i, atoms) matches Ok(l) ==> names_word(l, mnemonic_of(i)),
{
    match i {
        InstrV::Allocate { n } => {
            reveal_strlit("    ALLOCATE ");
            is_ascii_chars_encode_utf8("    ALLOCATE "@);
            assert(sb("    ALLOCATE ") =~= seq![32u8, 32u8, 32u8, 32u8, 65u8, 76u8, 76u8, 79u8, 67u8, 65u8, 84u8, 69u8, 32u8]);
            reveal_strlit("ALLOCATE");
            is_ascii_chars_encode_utf8("ALLOCATE"@);
            assert(sb("ALLOCATE") =~= seq![65u8, 76u8, 76u8, 79u8, 67u8, 65u8, 84u8, 69u8]);
            let p = sb("    ALLOCATE ");
            let q0 = p + decimal(n as nat);
            let l = q0;
            assert(line_spec(i, atoms) == Ok::<Seq<u8>, crate::emit::EmitError>(l));
            lemma_prefix_add(p, decimal(n as nat));
            assert(p =~= seq![32u8, 32u8, 32u8, 32u8, 65u8, 76u8, 76u8, 79u8, 67u8, 65u8, 84u8, 69u8, 32u8]);
            assert(p.subrange(0, 4) =~= seq![32u8, 32u8, 32u8, 32u8]);
            assert(p.subrange(4, 12) =~= sb("ALLOCATE"));
            lemma_names_word(l, p, sb("ALLOCATE"));
        },
        _ => {},
    }
}

proof fn lemma_line_b_write(i: InstrV, atoms: Seq<Seq<u8>>)
    requires
        i matches InstrV::BWrite { .. },
    ensures
        line_spec(i, atoms) matches Ok(l) ==> names_word(l, mnemonic_of(i)),
{
    match i {
        InstrV::BWrite { ai } => {
            reveal_strlit("    B_WRITE A");
            is_ascii_chars_encode_utf8("    B_WRITE A"@);
            assert(sb("    B_WRITE A") =~= seq![32u8, 32u8, 32u8, 32u8, 66u8, 95u8, 87u8, 82u8, 73u8, 84u8, 69u8, 32u8, 65u8]);
            reveal_strlit("B_WRITE");
            is_ascii_chars_encode_utf8("B_WRITE"@);
            assert(sb("B_WRITE") =~= seq![66u8, 95u8, 87u8, 82u8, 73u8, 84u8, 69u8]);
            let p = sb("    B_WRITE A");
            let q0 = p + decimal(ai as nat);
            let l = q0;
            assert(line_spec(i, atoms) == Ok::<Seq<u8>, crate::emit::EmitError>(l));
            lemma_prefix_add(p, decimal(ai as nat));
            assert(p =~= seq![32u8, 32u8, 32u8, 32u8, 66u8, 95u8, 87u8, 82u8, 73u8, 84u8, 69u8, 32u8, 65u8]);
            assert(p.subrange(0, 4) =~= seq![32u8, 32u8, 32u8, 32u8]);
            assert(p.subrange(4, 11) =~= sb("B_WRITE"));
            lemma_names_word(l, p, sb("B_WRITE"));
        },
        _ => {},
    }
}

/// The assembler's opcode for each instruction's mnemonic.
proof fn lemma_opcode_of_mnemonic(i: InstrV)
    requires
        vm_opcode(i) is Some,
    ensures
        opcode_spec(mnemonic_of(i)) == vm_opcode(i),
{
    match i {
        InstrV::Halt => lemma_opcode_halt(),
        InstrV::Call { .. } => lemma_opcode_call(),
        InstrV::Execute { .. } => lemma_opcode_execute(),
        InstrV::Proceed => lemma_opcode_proceed(),
        InstrV::Fail => lemma_opcode_fail(),
        InstrV::Try { .. } => lemma_opcode_try(),
        InstrV::Retry { .. } => lemma_opcode_retry(),
        InstrV::Trust { .. } => lemma_opcode_trust(),
        InstrV::Cut => lemma_opcode_cut(),
        InstrV::PutVar { .. } => lemma_opcode_put_var(),
        InstrV::PutVal { .. } => lemma_opcode_put_val(),
        InstrV::PutConst { .. } | InstrV::PutInt { .. } => lemma_opcode_put_const(),
        InstrV::PutYVal { .. } => lemma_opcode_put_y_val(),
        InstrV::GetVar { .. } => lemma_opcode_get_var(),
        InstrV::GetVal { .. } => lemma_opcode_get_val(),
        InstrV::GetConst { .. } | InstrV::GetInt { .. } => lemma_opcode_get_const(),
        InstrV::GetStruct { .. } => lemma_opcode_get_struct(),
        InstrV::GetYVar { .. } => lemma_opcode_get_y_var(),
        InstrV::UnifyVar { .. } => lemma_opcode_unify_var(),
        InstrV::UnifyVal { .. } => lemma_opcode_unify_val(),
        InstrV::UnifyConst { .. } | InstrV::UnifyInt { .. } => lemma_opcode_unify_const(),
        InstrV::Allocate { .. } => lemma_opcode_allocate(),
        InstrV::Deallocate => lemma_opcode_deallocate(),
        InstrV::BWrite { .. } => lemma_opcode_b_write(),
        InstrV::BNl => lemma_opcode_b_nl(),
        InstrV::BIsAdd { .. } => lemma_opcode_b_is_add(),
        InstrV::BIsSub { .. } => lemma_opcode_b_is_sub(),
        InstrV::BLt { .. } => lemma_opcode_b_lt(),
        InstrV::BGt { .. } => lemma_opcode_b_gt(),
        _ => {},
    }
}

#[verifier::spinoff_prover]
#[verifier::rlimit(40)]
proof fn lemma_opcode_halt()
    ensures
        opcode_spec(sb("HALT")) == Some(1u8),
{
    lemma_mnemonic_bytes();
    let x = sb("HALT");
    assert(x.len() == 4 && x[0] == 72u8 && x[1] == 65u8 && x[2] == 76u8 && x[3] == 84u8);
}

#[verifier::spinoff_prover]
#[verifier::rlimit(40)]
proof fn lemma_opcode_call()
    ensures
        opcode_spec(sb("CALL")) == Some(2u8),
{
    lemma_mnemonic_bytes();
    let x = sb("CALL");
    assert(x.len() == 4 && x[0] == 67u8 && x[1] == 65u8 && x[2] == 76u8 && x[3] == 76u8);
}

#[verifier::spinoff_prover]
#[verifier::rlimit(40)]
proof fn lemma_opcode_execute()
    ensures
        opcode_spec(sb("EXECUTE")) == Some(3u8),
{
    lemma_mnemonic_bytes();
    let x = sb("EXECUTE");
    assert(x.len() == 7 && x[0] == 69u8 && x[1] == 88u8 && x[2] == 69u8 && x[3] == 67u8 && x[4] == 85u8 && x[5] == 84u8 && x[6] == 69u8);
}

#[verifier::spinoff_prover]
#[verifier::rlimit(40)]
proof fn lemma_opcode_proceed()
    ensures
        opcode_spec(sb("PROCEED")) == Some(4u8),
{
    lemma_mnemonic_bytes();
    let x = sb("PROCEED");
    assert(x.len() == 7 && x[0] == 80u8 && x[1] == 82u8 && x[2] == 79u8 && x[3] == 67u8 && x[4] == 69u8 && x[5] == 69u8 && x[6] == 68u8);
}

#[verifier::spinoff_prover]
#[verifier::rlimit(40)]
proof fn lemma_opcode_fail()
    ensures
        opcode_spec(sb("FAIL")) == Some(5u8),
{
    lemma_mnemonic_bytes();
    let x = sb("FAIL");
    assert(x.len() == 4 && x[0] == 70u8 && x[1] == 65u8 && x[2] == 73u8 && x[3] == 76u8);
}

#[verifier::spinoff_prover]
#[verifier::rlimit(40)]
proof fn lemma_opcode_try()
    ensures
        opcode_spec(sb("TRY")) == Some(6u8),
{
    lemma_mnemonic_bytes();
    let x = sb("TRY");
    assert(x.len() == 3 && x[0] == 84u8 && x[1] == 82u8 && x[2] == 89u8);
}

#[verifier::spinoff_prover]
#[verifier::rlimit(40)]
proof fn lemma_opcode_retry()
    ensures
        opcode_spec(sb("RETRY")) == Some(7u8),
{
    lemma_mnemonic_bytes();
    let x = sb("RETRY");
    assert(x.len() == 5 && x[0] == 82u8 && x[1] == 69u8 && x[2] == 84u8 && x[3] == 82u8 && x[4] == 89u8);
}

#[verifier::spinoff_prover]
#[verifier::rlimit(40)]
proof fn lemma_opcode_trust()
    ensures
        opcode_spec(sb("TRUST")) == Some(8u8),
{
    lemma_mnemonic_bytes();
    let x = sb("TRUST");
    assert(x.len() == 5 && x[0] == 84u8 && x[1] == 82u8 && x[2] == 85u8 && x[3] == 83u8 && x[4] == 84u8);
}

#[verifier::spinoff_prover]
#[verifier::rlimit(40)]
proof fn lemma_opcode_cut()
    ensures
        opcode_spec(sb("CUT")) == Some(9u8),
{
    lemma_mnemonic_bytes();
    let x = sb("CUT");
    assert(x.len() == 3 && x[0] == 67u8 && x[1] == 85u8 && x[2] == 84u8);
}

#[verifier::spinoff_prover]
#[verifier::rlimit(40)]
proof fn lemma_opcode_put_var()
    ensures
        opcode_spec(sb("PUT_VAR")) == Some(10u8),
{
    lemma_mnemonic_bytes();
    let x = sb("PUT_VAR");
    assert(x.len() == 7 && x[0] == 80u8 && x[1] == 85u8 && x[2] == 84u8 && x[3] == 95u8 && x[4] == 86u8 && x[5] == 65u8 && x[6] == 82u8);
}

#[verifier::spinoff_prover]
#[verifier::rlimit(40)]
proof fn lemma_opcode_put_val()
    ensures
        opcode_spec(sb("PUT_VAL")) == Some(11u8),
{
    lemma_mnemonic_bytes();
    let x = sb("PUT_VAL");
    assert(x.len() == 7 && x[0] == 80u8 && x[1] == 85u8 && x[2] == 84u8 && x[3] == 95u8 && x[4] == 86u8 && x[5] == 65u8 && x[6] == 76u8);
}

#[verifier::spinoff_prover]
#[verifier::rlimit(40)]
proof fn lemma_opcode_put_const()
    ensures
        opcode_spec(sb("PUT_CONST")) == Some(12u8),
{
    lemma_mnemonic_bytes();
    let x = sb("PUT_CONST");
    assert(x.len() == 9 && x[0] == 80u8 && x[1] == 85u8 && x[2] == 84u8 && x[3] == 95u8 && x[4] == 67u8 && x[5] == 79u8 && x[6] == 78u8 && x[7] == 83u8 && x[8] == 84u8);
}

#[verifier::spinoff_prover]
#[verifier::rlimit(40)]
proof fn lemma_opcode_put_y_val()
    ensures
        opcode_spec(sb("PUT_Y_VAL")) == Some(13u8),
{
    lemma_mnemonic_bytes();
    let x = sb("PUT_Y_VAL");
    assert(x.len() == 9 && x[0] == 80u8 && x[1] == 85u8 && x[2] == 84u8 && x[3] == 95u8 && x[4] == 89u8 && x[5] == 95u8 && x[6] == 86u8 && x[7] == 65u8 && x[8] == 76u8);
}

#[verifier::spinoff_prover]
#[verifier::rlimit(40)]
proof fn lemma_opcode_get_var()
    ensures
        opcode_spec(sb("GET_VAR")) == Some(16u8),
{
    lemma_mnemonic_bytes();
    let x = sb("GET_VAR");
    assert(x.len() == 7 && x[0] == 71u8 && x[1] == 69u8 && x[2] == 84u8 && x[3] == 95u8 && x[4] == 86u8 && x[5] == 65u8 && x[6] == 82u8);
}

#[verifier::spinoff_prover]
#[verifier::rlimit(40)]
proof fn lemma_opcode_get_val()
    ensures
        opcode_spec(sb("GET_VAL")) == Some(17u8),
{
    lemma_mnemonic_bytes();
    let x = sb("GET_VAL");
    assert(x.len() == 7 && x[0] == 71u8 && x[1] == 69u8 && x[2] == 84u8 && x[3] == 95u8 && x[4] == 86u8 && x[5] == 65u8 && x[6] == 76u8);
}

#[verifier::spinoff_prover]
#[verifier::rlimit(40)]
proof fn lemma_opcode_get_const()
    ensures
        opcode_spec(sb("GET_CONST")) == Some(18u8),
{
    lemma_mnemonic_bytes();
    let x = sb("GET_CONST");
    assert(x.len() == 9 && x[0] == 71u8 && x[1] == 69u8 && x[2] == 84u8 && x[3] == 95u8 && x[4] == 67u8 && x[5] == 79u8 && x[6] == 78u8 && x[7] == 83u8 && x[8] == 84u8);
}

#[verifier::spinoff_prover]
#[verifier::rlimit(40)]
proof fn lemma_opcode_get_struct()
    ensures
        opcode_spec(sb("GET_STRUCT")) == Some(19u8),
{
    lemma_mnemonic_bytes();
    let x = sb("GET_STRUCT");
    assert(x.len() == 10 && x[0] == 71u8 && x[1] == 69u8 && x[2] == 84u8 && x[3] == 95u8 && x[4] == 83u8 && x[5] == 84u8 && x[6] == 82u8 && x[7] == 85u8 && x[8] == 67u8 && x[9] == 84u8);
}

#[verifier::spinoff_prover]
#[verifier::rlimit(40)]
proof fn lemma_opcode_get_y_var()
    ensures
        opcode_spec(sb("GET_Y_VAR")) == Some(20u8),
{
    lemma_mnemonic_bytes();
    let x = sb("GET_Y_VAR");
    assert(x.len() == 9 && x[0] == 71u8 && x[1] == 69u8 && x[2] == 84u8 && x[3] == 95u8 && x[4] == 89u8 && x[5] == 95u8 && x[6] == 86u8 && x[7] == 65u8 && x[8] == 82u8);
}

#[verifier::spinoff_prover]
#[verifier::rlimit(40)]
proof fn lemma_opcode_unify_var()
    ensures
        opcode_spec(sb("UNIFY_VAR")) == Some(22u8),
{
    lemma_mnemonic_bytes();
    let x = sb("UNIFY_VAR");
    assert(x.len() == 9 && x[0] == 85u8 && x[1] == 78u8 && x[2] == 73u8 && x[3] == 70u8 && x[4] == 89u8 && x[5] == 95u8 && x[6] == 86u8 && x[7] == 65u8 && x[8] == 82u8);
}

#[verifier::spinoff_prover]
#[verifier::rlimit(40)]
proof fn lemma_opcode_unify_val()
    ensures
        opcode_spec(sb("UNIFY_VAL")) == Some(23u8),
{
    lemma_mnemonic_bytes();
    let x = sb("UNIFY_VAL");
    assert(x.len() == 9 && x[0] == 85u8 && x[1] == 78u8 && x[2] == 73u8 && x[3] == 70u8 && x[4] == 89u8 && x[5] == 95u8 && x[6] == 86u8 && x[7] == 65u8 && x[8] == 76u8);
}

#[verifier::spinoff_prover]
#[verifier::rlimit(40)]
proof fn lemma_opcode_unify_const()
    ensures
        opcode_spec(sb("UNIFY_CONST")) == Some(24u8),
{
    lemma_mnemonic_bytes();
    let x = sb("UNIFY_CONST");
    assert(x.len() == 11 && x[0] == 85u8 && x[1] == 78u8 && x[2] == 73u8 && x[3] == 70u8 && x[4] == 89u8 && x[5] == 95u8 && x[6] == 67u8 && x[7] == 79u8 && x[8] == 78u8 && x[9] == 83u8 && x[10] == 84u8);
}

#[verifier::spinoff_prover]
#[verifier::rlimit(40)]
proof fn lemma_opcode_allocate()
    ensures
        opcode_spec(sb("ALLOCATE")) == Some(28u8),
{
    lemma_mnemonic_bytes();
    let x = sb("ALLOCATE");
    assert(x.len() == 8 && x[0] == 65u8 && x[1] == 76u8 && x[2] == 76u8 && x[3] == 79u8 && x[4] == 67u8 && x[5] == 65u8 && x[6] == 84u8 && x[7] == 69u8);
}

#[verifier::spinoff_prover]
#[verifier::rlimit(40)]
proof fn lemma_opcode_deallocate()
    ensures
        opcode_spec(sb("DEALLOCATE")) == Some(29u8),
{
    lemma_mnemonic_bytes();
    let x = sb("DEALLOCATE");
    assert(x.len() == 10 && x[0] == 68u8 && x[1] == 69u8 && x[2] == 65u8 && x[3] == 76u8 && x[4] == 76u8 && x[5] == 79u8 && x[6] == 67u8 && x[7] == 65u8 && x[8] == 84u8 && x[9] == 69u8);
}

#[verifier::spinoff_prover]
#[verifier::rlimit(40)]
proof fn lemma_opcode_b_write()
    ensures
        opcode_spec(sb("B_WRITE")) == Some(32u8),
{
    lemma_mnemonic_bytes();
    let x = sb("B_WRITE");
    assert(x.len() == 7 && x[0] == 66u8 && x[1] == 95u8 && x[2] == 87u8 && x[3] == 82u8 && x[4] == 73u8 && x[5] == 84u8 && x[6] == 69u8);
}

#[verifier::spinoff_prover]
#[verifier::rlimit(40)]
proof fn lemma_opcode_b_nl()
    ensures
        opcode_spec(sb("B_NL")) == Some(33u8),
{
    lemma_mnemonic_bytes();
    let x = sb("B_NL");
    assert(x.len() == 4 && x[0] == 66u8 && x[1] == 95u8 && x[2] == 78u8 && x[3] == 76u8);
}

#[verifier::spinoff_prover]
#[verifier::rlimit(40)]
proof fn lemma_opcode_b_is_add()
    ensures
        opcode_spec(sb("B_IS_ADD")) == Some(34u8),
{
    lemma_mnemonic_bytes();
    let x = sb("B_IS_ADD");
    assert(x.len() == 8 && x[0] == 66u8 && x[1] == 95u8 && x[2] == 73u8 && x[3] == 83u8 && x[4] == 95u8 && x[5] == 65u8 && x[6] == 68u8 && x[7] == 68u8);
}

#[verifier::spinoff_prover]
#[verifier::rlimit(40)]
proof fn lemma_opcode_b_is_sub()
    ensures
        opcode_spec(sb("B_IS_SUB")) == Some(35u8),
{
    lemma_mnemonic_bytes();
    let x = sb("B_IS_SUB");
    assert(x.len() == 8 && x[0] == 66u8 && x[1] == 95u8 && x[2] == 73u8 && x[3] == 83u8 && x[4] == 95u8 && x[5] == 83u8 && x[6] == 85u8 && x[7] == 66u8);
}

#[verifier::spinoff_prover]
#[verifier::rlimit(40)]
proof fn lemma_opcode_b_lt()
    ensures
        opcode_spec(sb("B_LT")) == Some(36u8),
{
    lemma_mnemonic_bytes();
    let x = sb("B_LT");
    assert(x.len() == 4 && x[0] == 66u8 && x[1] == 95u8 && x[2] == 76u8 && x[3] == 84u8);
}

#[verifier::spinoff_prover]
#[verifier::rlimit(40)]
proof fn lemma_opcode_b_gt()
    ensures
        opcode_spec(sb("B_GT")) == Some(37u8),
{
    lemma_mnemonic_bytes();
    let x = sb("B_GT");
    assert(x.len() == 4 && x[0] == 66u8 && x[1] == 95u8 && x[2] == 71u8 && x[3] == 84u8);
}

} // verus!
