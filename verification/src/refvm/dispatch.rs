//! Decode-and-dispatch for the reference LAM VM.
//!
//! Instruction layout: the first cell is `(opcode << 16) | (op1 << 8) |
//! op2`; 2-cell instructions carry an immediate (a label address or a
//! tagged constant) in the next cell. PC advances by 1 or 2; CALL saves
//! PC+2 to CP; PROCEED sets PC = CP; EXECUTE is a tail call.
//!
//! `step_spec` is the semantics of one instruction; `step` executes it.
//! An instruction that returns an error leaves the machine unchanged.
//! A reference that points outside the heap cannot be bound: the
//! instruction that would bind it fails, as unification does.

use super::builtin::{int_value, term_text, write_nl, write_term};
use super::choice::{
    choice_frame, pop, push_choice, restore_top, restored_heap, restored_regs, restored_trail,
    top_alt, update_alt, ChoicePt,
};
use super::heap::{
    alloc_unbound, bind, cell_make, cell_payload, cell_tag, deref, deref_spec, fun_ar, fun_arity,
    fun_atom, fun_atom_id, fun_cell, make, make_fun, make_ref, make_str,
    payload, ref_cell, str_cell, tag, unify, unify_budget, unify_spec, TAG_FUN, TAG_INT, TAG_REF,
    TAG_STR,
};
use super::{EnvFrame, EnvView, RunError, Step, UnifyMode, Vm, VmState};
use vstd::prelude::*;
use vstd::string::StringSliceAdditionalSpecFns;

verus! {

pub const OP_NOP: u8 = 0;
pub const OP_HALT: u8 = 1;
pub const OP_CALL: u8 = 2;
pub const OP_EXECUTE: u8 = 3;
pub const OP_PROCEED: u8 = 4;
pub const OP_FAIL: u8 = 5;
pub const OP_TRY: u8 = 6;
pub const OP_RETRY: u8 = 7;
pub const OP_TRUST: u8 = 8;
pub const OP_CUT: u8 = 9;
pub const OP_PUT_VAR: u8 = 10;
pub const OP_PUT_VAL: u8 = 11;
pub const OP_PUT_CONST: u8 = 12;
pub const OP_PUT_Y_VAL: u8 = 13;
pub const OP_GET_VAR: u8 = 16;
pub const OP_GET_VAL: u8 = 17;
pub const OP_GET_CONST: u8 = 18;
pub const OP_GET_STRUCT: u8 = 19;
pub const OP_GET_Y_VAR: u8 = 20;
pub const OP_UNIFY_VAR: u8 = 22;
pub const OP_UNIFY_VAL: u8 = 23;
pub const OP_UNIFY_CONST: u8 = 24;
pub const OP_ALLOCATE: u8 = 28;
pub const OP_DEALLOCATE: u8 = 29;
pub const OP_B_WRITE: u8 = 32;
pub const OP_B_NL: u8 = 33;
pub const OP_B_IS_ADD: u8 = 34;
pub const OP_B_IS_SUB: u8 = 35;
pub const OP_B_LT: u8 = 36;
pub const OP_B_GT: u8 = 37;

pub type StepOut = Result<Step, RunError>;

pub open spec fn opcode_of_cell(cell: u32) -> u8 {
    ((cell >> 16u32) & 0xFFu32) as u8
}

pub open spec fn op1_of_cell(cell: u32) -> u8 {
    ((cell >> 8u32) & 0xFFu32) as u8
}

pub open spec fn op2_of_cell(cell: u32) -> u8 {
    (cell & 0xFFu32) as u8
}

/// The immediate cell after the instruction at PC.
pub open spec fn imm_spec(s: VmState) -> Result<u32, RunError> {
    if s.pc + 1 >= s.code.len() {
        Err(RunError::PcOutOfBounds { pc: (s.pc + 1) as usize })
    } else {
        Ok(s.code[s.pc + 1])
    }
}

pub open spec fn advance(s: VmState, n: int) -> VmState {
    VmState { pc: (s.pc + n) as usize, ..s }
}

/// Backtracking: jump to the top choice point's alternative, or fail
/// the run when there is none.
pub open spec fn fail_spec(s: VmState) -> (VmState, StepOut) {
    if s.choice.len() > 0 {
        (VmState { pc: s.choice.last().alt_pc, ..s }, Ok(Step::Continue))
    } else {
        (s, Ok(Step::Fail))
    }
}

/// Unifies `a` and `b`; on success advances by `width`, else
/// backtracks (bindings made before the mismatch stay until undone).
pub open spec fn unify_then(s: VmState, a: u32, b: u32, width: int) -> (VmState, StepOut) {
    let (ok, h, t) = unify_spec(a, b, s.heap, s.trail, unify_budget(s.heap.len()));
    let s2 = VmState { heap: h, trail: t, ..s };
    if ok {
        (advance(s2, width), Ok(Step::Continue))
    } else {
        fail_spec(s2)
    }
}

/// The integer in argument register `ai`, dereferenced.
pub open spec fn int_arg(s: VmState, ai: u8) -> Result<i32, RunError> {
    let c = deref_spec(s.regs[ai as int], s.heap);
    if cell_tag(c) != TAG_INT {
        Err(RunError::ArithNotInt { ai })
    } else {
        Ok(int_value(cell_payload(c)))
    }
}

/// The integer cell holding the low 21 bits of `v`.
pub open spec fn int_cell(v: i32) -> u32 {
    cell_make(TAG_INT, (v as u32) & 0x001F_FFFFu32)
}

/// The state after restoring the top choice point `top`.
pub open spec fn restore_spec(s: VmState, top: ChoicePt) -> VmState {
    VmState {
        regs: restored_regs(top, s.regs),
        heap: restored_heap(top, s.heap, s.trail),
        trail: restored_trail(top, s.trail),
        cp: top.saved_cp,
        ep: top.saved_ep,
        ..s
    }
}

/// The env top names a frame.
pub open spec fn env_ok(s: VmState) -> bool {
    s.ep != 0 && s.ep <= s.env.len()
}

pub open spec fn call_spec(s: VmState, tail: bool) -> (VmState, StepOut) {
    match imm_spec(s) {
        Err(e) => (s, Err(e)),
        Ok(t) => if tail {
            (VmState { pc: t as usize, ..s }, Ok(Step::Continue))
        } else {
            (VmState { cp: (s.pc + 2) as usize, pc: t as usize, ..s }, Ok(Step::Continue))
        },
    }
}

pub open spec fn try_spec(s: VmState) -> (VmState, StepOut) {
    match imm_spec(s) {
        Err(e) => (s, Err(e)),
        Ok(alt) => {
            let f = choose|f: ChoicePt|
                #[trigger] choice_frame(f, s.regs, alt as usize, s.cp, s.heap.len() as usize, s.trail.len() as usize, s.ep);
            (advance(VmState { choice: s.choice.push(f), ..s }, 2), Ok(Step::Continue))
        },
    }
}

pub open spec fn retry_spec(s: VmState) -> (VmState, StepOut) {
    match imm_spec(s) {
        Err(e) => (s, Err(e)),
        Ok(alt) => if s.choice.len() == 0 {
            (s, Err(RunError::EmptyChoiceStack))
        } else {
            let top = s.choice.last();
            let s2 = restore_spec(s, top);
            (
                advance(
                    VmState {
                        choice: s.choice.update(
                            s.choice.len() - 1,
                            ChoicePt { alt_pc: alt as usize, ..top },
                        ),
                        ..s2
                    },
                    2,
                ),
                Ok(Step::Continue),
            )
        },
    }
}

pub open spec fn trust_spec(s: VmState) -> (VmState, StepOut) {
    if s.choice.len() == 0 {
        (s, Err(RunError::EmptyChoiceStack))
    } else {
        let s2 = restore_spec(s, s.choice.last());
        (advance(VmState { choice: s.choice.drop_last(), ..s2 }, 1), Ok(Step::Continue))
    }
}

/// The register-to-register instructions. `PUT_VAR` allocates its fresh
/// unbound cell before it checks its registers, so a bad register there
/// leaves the heap one cell longer; the others change nothing on a bad
/// register.
pub open spec fn two_reg_spec(s: VmState, op: u8, a: u8, b: u8) -> (VmState, StepOut) {
    if op == OP_PUT_VAR {
        let c = ref_cell(s.heap.len() as usize);
        let s1 = VmState { heap: s.heap.push(c), ..s };
        if a >= 16 {
            (s1, Err(RunError::BadRegister { op: a }))
        } else if b >= 16 {
            (s1, Err(RunError::BadRegister { op: b }))
        } else {
            (advance(VmState { regs: s.regs.update(a as int, c).update(b as int, c), ..s1 }, 1), Ok(Step::Continue))
        }
    } else if a >= 16 {
        (s, Err(RunError::BadRegister { op: a }))
    } else if b >= 16 {
        (s, Err(RunError::BadRegister { op: b }))
    } else if op == OP_PUT_VAL {
        (advance(VmState { regs: s.regs.update(b as int, s.regs[a as int]), ..s }, 1), Ok(Step::Continue))
    } else if op == OP_GET_VAR {
        (advance(VmState { regs: s.regs.update(a as int, s.regs[b as int]), ..s }, 1), Ok(Step::Continue))
    } else {
        unify_then(s, s.regs[a as int], s.regs[b as int], 1)
    }
}

pub open spec fn const_spec(s: VmState, get: bool, ai: u8) -> (VmState, StepOut) {
    match imm_spec(s) {
        Err(e) => (s, Err(e)),
        Ok(imm) => if ai >= 16 {
            (s, Err(RunError::BadRegister { op: ai }))
        } else if get {
            unify_then(s, s.regs[ai as int], imm, 2)
        } else {
            (advance(VmState { regs: s.regs.update(ai as int, imm), ..s }, 2), Ok(Step::Continue))
        },
    }
}

pub open spec fn get_struct_spec(s: VmState, ai: u8, arity: u8) -> (VmState, StepOut) {
    match imm_spec(s) {
        Err(e) => (s, Err(e)),
        Ok(imm) => if ai >= 16 {
            (s, Err(RunError::BadRegister { op: ai }))
        } else {
            let atom_id = cell_payload(imm);
            let target = deref_spec(s.regs[ai as int], s.heap);
            if cell_tag(target) == TAG_STR {
                let addr = cell_payload(target) as int;
                if addr >= s.heap.len() {
                    fail_spec(s)
                } else {
                    let f = s.heap[addr];
                    if cell_tag(f) != TAG_FUN || fun_atom(f) != atom_id || fun_ar(f) != arity {
                        fail_spec(s)
                    } else {
                        (
                            advance(VmState { mode: UnifyMode::Read, up: (addr + 1) as usize, ..s }, 2),
                            Ok(Step::Continue),
                        )
                    }
                }
            } else if cell_tag(target) == TAG_REF {
                let slot = cell_payload(target) as int;
                if slot >= s.heap.len() {
                    fail_spec(s)
                } else {
                    let fa = s.heap.len();
                    let sc = str_cell(fa as usize);
                    (
                        advance(
                            VmState {
                                heap: s.heap.push(fun_cell(atom_id, arity)).update(slot, sc),
                                trail: s.trail.push(slot as u32),
                                regs: s.regs.update(ai as int, sc),
                                mode: UnifyMode::Write,
                                up: (fa + 1) as usize,
                                ..s
                            },
                            2,
                        ),
                        Ok(Step::Continue),
                    )
                }
            } else {
                fail_spec(s)
            }
        },
    }
}

pub open spec fn unify_var_spec(s: VmState, xi: u8) -> (VmState, StepOut) {
    if xi >= 16 {
        (s, Err(RunError::BadRegister { op: xi }))
    } else if s.mode == UnifyMode::Read {
        if s.up >= s.heap.len() {
            fail_spec(s)
        } else {
            (
                advance(VmState { regs: s.regs.update(xi as int, s.heap[s.up as int]), up: (s.up + 1) as usize, ..s }, 1),
                Ok(Step::Continue),
            )
        }
    } else {
        let slot = s.heap.len();
        let c = ref_cell(slot as usize);
        (
            advance(VmState { heap: s.heap.push(c), regs: s.regs.update(xi as int, c), up: (slot + 1) as usize, ..s }, 1),
            Ok(Step::Continue),
        )
    }
}

pub open spec fn unify_val_spec(s: VmState, xi: u8) -> (VmState, StepOut) {
    if xi >= 16 {
        (s, Err(RunError::BadRegister { op: xi }))
    } else if s.mode == UnifyMode::Read {
        if s.up >= s.heap.len() {
            fail_spec(s)
        } else {
            let (ok, h, t) = unify_spec(s.regs[xi as int], s.heap[s.up as int], s.heap, s.trail, unify_budget(s.heap.len()));
            let s2 = VmState { heap: h, trail: t, ..s };
            if ok {
                (advance(VmState { up: (s.up + 1) as usize, ..s2 }, 1), Ok(Step::Continue))
            } else {
                fail_spec(s2)
            }
        }
    } else {
        (
            advance(VmState { heap: s.heap.push(s.regs[xi as int]), up: (s.heap.len() + 1) as usize, ..s }, 1),
            Ok(Step::Continue),
        )
    }
}

pub open spec fn unify_const_spec(s: VmState) -> (VmState, StepOut) {
    match imm_spec(s) {
        Err(e) => (s, Err(e)),
        Ok(imm) => if s.mode == UnifyMode::Read {
            if s.up >= s.heap.len() {
                fail_spec(s)
            } else {
                let (ok, h, t) = unify_spec(s.heap[s.up as int], imm, s.heap, s.trail, unify_budget(s.heap.len()));
                let s2 = VmState { heap: h, trail: t, ..s };
                if ok {
                    (advance(VmState { up: (s.up + 1) as usize, ..s2 }, 2), Ok(Step::Continue))
                } else {
                    fail_spec(s2)
                }
            }
        } else {
            (
                advance(VmState { heap: s.heap.push(imm), up: (s.heap.len() + 1) as usize, ..s }, 2),
                Ok(Step::Continue),
            )
        },
    }
}

pub open spec fn y_spec(s: VmState, get: bool, yi: u8, ai: u8) -> (VmState, StepOut) {
    if ai >= 16 {
        (s, Err(RunError::BadRegister { op: ai }))
    } else if !env_ok(s) {
        (s, Err(RunError::EmptyEnvStack))
    } else {
        let f = s.env[s.ep - 1];
        if yi >= f.ys.len() {
            (s, Err(RunError::BadYSlot { y: yi }))
        } else if get {
            (
                advance(
                    VmState {
                        env: s.env.update(
                            s.ep - 1,
                            EnvView { ys: f.ys.update(yi as int, s.regs[ai as int]), ..f },
                        ),
                        ..s
                    },
                    1,
                ),
                Ok(Step::Continue),
            )
        } else {
            (advance(VmState { regs: s.regs.update(ai as int, f.ys[yi as int]), ..s }, 1), Ok(Step::Continue))
        }
    }
}

pub open spec fn allocate_spec(s: VmState, n: u8) -> (VmState, StepOut) {
    (
        advance(
            VmState {
                env: s.env.push(EnvView { saved_cp: s.cp, prev_ep: s.ep, ys: Seq::new(n as nat, |i: int| 0u32) }),
                ep: (s.env.len() + 1) as usize,
                ..s
            },
            1,
        ),
        Ok(Step::Continue),
    )
}

pub open spec fn deallocate_spec(s: VmState) -> (VmState, StepOut) {
    if !env_ok(s) {
        (s, Err(RunError::EmptyEnvStack))
    } else {
        let f = s.env[s.ep - 1];
        (advance(VmState { cp: f.saved_cp, ep: f.prev_ep, ..s }, 1), Ok(Step::Continue))
    }
}

pub open spec fn arith_spec(s: VmState, add: bool) -> (VmState, StepOut) {
    match int_arg(s, 1) {
        Err(e) => (s, Err(e)),
        Ok(a) => match int_arg(s, 2) {
            Err(e) => (s, Err(e)),
            Ok(b) => {
                let r = if add {
                    vstd::wrapping::i32_specs::wrapping_add(a, b)
                } else {
                    vstd::wrapping::i32_specs::wrapping_sub(a, b)
                };
                (advance(VmState { regs: s.regs.update(0, int_cell(r)), ..s }, 1), Ok(Step::Continue))
            },
        },
    }
}

pub open spec fn order_spec(s: VmState, lt: bool) -> (VmState, StepOut) {
    match int_arg(s, 0) {
        Err(e) => (s, Err(e)),
        Ok(a) => match int_arg(s, 1) {
            Err(e) => (s, Err(e)),
            Ok(b) => if (lt && a < b) || (!lt && a > b) {
                (advance(s, 1), Ok(Step::Continue))
            } else {
                fail_spec(s)
            },
        },
    }
}

/// One instruction without builtin output.
pub open spec fn exec_spec(s: VmState, op: u8, a: u8, b: u8) -> (VmState, StepOut) {
    if op == OP_NOP {
        (advance(s, 1), Ok(Step::Continue))
    } else if op == OP_HALT {
        (advance(s, 1), Ok(Step::Halt))
    } else if op == OP_PROCEED {
        (VmState { pc: s.cp, ..s }, Ok(Step::Continue))
    } else if op == OP_FAIL {
        fail_spec(s)
    } else if op == OP_CALL {
        call_spec(s, false)
    } else if op == OP_EXECUTE {
        call_spec(s, true)
    } else if op == OP_TRY {
        try_spec(s)
    } else if op == OP_RETRY {
        retry_spec(s)
    } else if op == OP_TRUST {
        trust_spec(s)
    } else if op == OP_CUT {
        (advance(VmState { choice: Seq::empty(), ..s }, 1), Ok(Step::Continue))
    } else if op == OP_PUT_VAR || op == OP_PUT_VAL || op == OP_GET_VAR || op == OP_GET_VAL {
        two_reg_spec(s, op, a, b)
    } else if op == OP_PUT_CONST {
        const_spec(s, false, a)
    } else if op == OP_GET_CONST {
        const_spec(s, true, a)
    } else if op == OP_PUT_Y_VAL {
        y_spec(s, false, a, b)
    } else if op == OP_GET_Y_VAR {
        y_spec(s, true, a, b)
    } else if op == OP_GET_STRUCT {
        get_struct_spec(s, a, b)
    } else if op == OP_UNIFY_VAR {
        unify_var_spec(s, a)
    } else if op == OP_UNIFY_VAL {
        unify_val_spec(s, a)
    } else if op == OP_UNIFY_CONST {
        unify_const_spec(s)
    } else if op == OP_ALLOCATE {
        allocate_spec(s, a)
    } else if op == OP_DEALLOCATE {
        deallocate_spec(s)
    } else if op == OP_B_IS_ADD {
        arith_spec(s, true)
    } else if op == OP_B_IS_SUB {
        arith_spec(s, false)
    } else if op == OP_B_LT {
        order_spec(s, true)
    } else if op == OP_B_GT {
        order_spec(s, false)
    } else {
        (s, Err(RunError::UnsupportedOpcode { op, pc: s.pc }))
    }
}

/// One instruction: the next state, the output after it and the
/// outcome.
pub open spec fn step_spec(s: VmState, out: Seq<u8>) -> (VmState, Seq<u8>, StepOut) {
    if s.pc >= s.code.len() {
        (s, out, Err(RunError::PcOutOfBounds { pc: s.pc }))
    } else {
        let cell = s.code[s.pc as int];
        let op = opcode_of_cell(cell);
        let a = op1_of_cell(cell);
        if op == OP_B_WRITE {
            if a >= 16 {
                (s, out, Err(RunError::BadRegister { op: a }))
            } else {
                (
                    advance(s, 1),
                    out + term_text(s.regs[a as int], s.heap, s.atoms, s.heap.len()),
                    Ok(Step::Continue),
                )
            }
        } else if op == OP_B_NL {
            (advance(s, 1), out + "\n".spec_bytes(), Ok(Step::Continue))
        } else {
            let (s2, r) = exec_spec(s, op, a, op2_of_cell(cell));
            (s2, out, r)
        }
    }
}

/// Executes the instruction at PC, appending builtin output to `out`.
pub fn step(vm: &mut Vm, out: &mut Vec<u8>) -> (r: StepOut)
    ensures
        (final(vm)@, final(out)@, r) == step_spec(old(vm)@, old(out)@),
        final(vm).tick_limit == old(vm).tick_limit,
{
    if vm.pc >= vm.code.len() {
        return Err(RunError::PcOutOfBounds { pc: vm.pc });
    }
    let cell = vm.code[vm.pc];
    let opcode = ((cell >> 16) & 0xFF) as u8;
    let op1 = ((cell >> 8) & 0xFF) as u8;
    let op2 = (cell & 0xFF) as u8;
    if opcode == OP_B_WRITE {
        return exec_b_write(vm, op1, out);
    }
    if opcode == OP_B_NL {
        write_nl(out);
        vm.pc = vm.pc + 1;
        return Ok(Step::Continue);
    }
    exec(vm, opcode, op1, op2)
}

fn exec(vm: &mut Vm, op: u8, a: u8, b: u8) -> (r: StepOut)
    requires
        old(vm).pc < old(vm).code.len(),
    ensures
        (final(vm)@, r) == exec_spec(old(vm)@, op, a, b),
        final(vm).tick_limit == old(vm).tick_limit,
{
    if op == OP_NOP {
        vm.pc = vm.pc + 1;
        Ok(Step::Continue)
    } else if op == OP_HALT {
        vm.pc = vm.pc + 1;
        Ok(Step::Halt)
    } else if op == OP_PROCEED {
        vm.pc = vm.cp;
        Ok(Step::Continue)
    } else if op == OP_FAIL {
        exec_fail(vm)
    } else if op == OP_CALL {
        exec_call(vm, false)
    } else if op == OP_EXECUTE {
        exec_call(vm, true)
    } else if op == OP_TRY {
        exec_try(vm)
    } else if op == OP_RETRY {
        exec_retry(vm)
    } else if op == OP_TRUST {
        exec_trust(vm)
    } else if op == OP_CUT {
        vm.choice = Vec::new();
        vm.pc = vm.pc + 1;
        proof {
            assert(vm@ == advance(VmState { choice: Seq::empty(), ..old(vm)@ }, 1));
        }
        Ok(Step::Continue)
    } else if op == OP_PUT_VAR || op == OP_PUT_VAL || op == OP_GET_VAR || op == OP_GET_VAL {
        exec_two_reg(vm, op, a, b)
    } else if op == OP_PUT_CONST {
        exec_const(vm, false, a)
    } else if op == OP_GET_CONST {
        exec_const(vm, true, a)
    } else if op == OP_PUT_Y_VAL {
        exec_put_y_val(vm, a, b)
    } else if op == OP_GET_Y_VAR {
        exec_get_y_var(vm, a, b)
    } else if op == OP_GET_STRUCT {
        exec_get_struct(vm, a, b)
    } else if op == OP_UNIFY_VAR {
        exec_unify_var(vm, a)
    } else if op == OP_UNIFY_VAL {
        exec_unify_val(vm, a)
    } else if op == OP_UNIFY_CONST {
        exec_unify_const(vm)
    } else if op == OP_ALLOCATE {
        exec_allocate(vm, a)
    } else if op == OP_DEALLOCATE {
        exec_deallocate(vm)
    } else if op == OP_B_IS_ADD {
        exec_arith(vm, true)
    } else if op == OP_B_IS_SUB {
        exec_arith(vm, false)
    } else if op == OP_B_LT {
        exec_order(vm, true)
    } else if op == OP_B_GT {
        exec_order(vm, false)
    } else {
        Err(RunError::UnsupportedOpcode { op, pc: vm.pc })
    }
}

fn exec_fail(vm: &mut Vm) -> (r: StepOut)
    ensures
        (final(vm)@, r) == fail_spec(old(vm)@),
        final(vm).tick_limit == old(vm).tick_limit,
{
    match top_alt(vm.choice.as_slice()) {
        Some(alt) => {
            vm.pc = alt;
            Ok(Step::Continue)
        },
        None => Ok(Step::Fail),
    }
}

fn read_imm(vm: &Vm) -> (r: Result<u32, RunError>)
    requires
        vm.pc < vm.code.len(),
    ensures
        r == imm_spec(vm@),
{
    if vm.pc + 1 >= vm.code.len() {
        return Err(RunError::PcOutOfBounds { pc: vm.pc + 1 });
    }
    Ok(vm.code[vm.pc + 1])
}

fn exec_call(vm: &mut Vm, tail: bool) -> (r: StepOut)
    requires
        old(vm).pc < old(vm).code.len(),
    ensures
        (final(vm)@, r) == call_spec(old(vm)@, tail),
        final(vm).tick_limit == old(vm).tick_limit,
{
    let target = match read_imm(vm) {
        Ok(t) => t,
        Err(e) => return Err(e),
    };
    if !tail {
        vm.cp = vm.pc + 2;
    }
    vm.pc = target as usize;
    Ok(Step::Continue)
}

/// Two frames recorded from the same state are the same frame.
proof fn lemma_frame_unique(
    f: ChoicePt,
    g: ChoicePt,
    regs: Seq<u32>,
    alt: usize,
    cp: usize,
    hp: usize,
    tr: usize,
    ep: usize,
)
    requires
        choice_frame(f, regs, alt, cp, hp, tr, ep),
        choice_frame(g, regs, alt, cp, hp, tr, ep),
    ensures
        f == g,
{
    assert(f.saved_regs =~= g.saved_regs);
}

fn exec_try(vm: &mut Vm) -> (r: StepOut)
    requires
        old(vm).pc < old(vm).code.len(),
    ensures
        (final(vm)@, r) == try_spec(old(vm)@),
        final(vm).tick_limit == old(vm).tick_limit,
{
    let alt = match read_imm(vm) {
        Ok(t) => t,
        Err(e) => return Err(e),
    };
    let ghost s = vm@;
    push_choice(&mut vm.choice, &vm.regs, alt as usize, vm.cp, vm.heap.len(), vm.trail.len(), vm.ep);
    vm.pc = vm.pc + 2;
    proof {
        let f = choose|f: ChoicePt|
            #[trigger] choice_frame(f, s.regs, alt as usize, s.cp, s.heap.len() as usize, s.trail.len() as usize, s.ep);
        let g = vm.choice@.last();
        lemma_frame_unique(f, g, s.regs, alt as usize, s.cp, s.heap.len() as usize, s.trail.len() as usize, s.ep);
        assert(vm.choice@ =~= s.choice.push(f));
    }
    Ok(Step::Continue)
}

fn exec_retry(vm: &mut Vm) -> (r: StepOut)
    requires
        old(vm).pc < old(vm).code.len(),
    ensures
        (final(vm)@, r) == retry_spec(old(vm)@),
        final(vm).tick_limit == old(vm).tick_limit,
{
    let new_alt = match read_imm(vm) {
        Ok(t) => t,
        Err(e) => return Err(e),
    };
    if vm.choice.len() == 0 {
        return Err(RunError::EmptyChoiceStack);
    }
    let (cp, ep) = restore_top(vm.choice.as_slice(), &mut vm.regs, &mut vm.heap, &mut vm.trail).unwrap();
    vm.cp = cp;
    vm.ep = ep;
    update_alt(&mut vm.choice, new_alt as usize);
    vm.pc = vm.pc + 2;
    Ok(Step::Continue)
}

fn exec_trust(vm: &mut Vm) -> (r: StepOut)
    requires
        old(vm).pc < old(vm).code.len(),
    ensures
        (final(vm)@, r) == trust_spec(old(vm)@),
        final(vm).tick_limit == old(vm).tick_limit,
{
    if vm.choice.len() == 0 {
        return Err(RunError::EmptyChoiceStack);
    }
    let (cp, ep) = restore_top(vm.choice.as_slice(), &mut vm.regs, &mut vm.heap, &mut vm.trail).unwrap();
    vm.cp = cp;
    vm.ep = ep;
    pop(&mut vm.choice);
    vm.pc = vm.pc + 1;
    Ok(Step::Continue)
}

fn exec_two_reg(vm: &mut Vm, op: u8, a: u8, b: u8) -> (r: StepOut)
    requires
        old(vm).pc < old(vm).code.len(),
        op == OP_PUT_VAR || op == OP_PUT_VAL || op == OP_GET_VAR || op == OP_GET_VAL,
    ensures
        (final(vm)@, r) == two_reg_spec(old(vm)@, op, a, b),
        final(vm).tick_limit == old(vm).tick_limit,
{
    if op == OP_PUT_VAR {
        let c = alloc_unbound(&mut vm.heap);
        if a >= 16 {
            return Err(RunError::BadRegister { op: a });
        }
        if b >= 16 {
            return Err(RunError::BadRegister { op: b });
        }
        vm.regs[a as usize] = c;
        vm.regs[b as usize] = c;
        vm.pc = vm.pc + 1;
        return Ok(Step::Continue);
    }
    if a >= 16 {
        return Err(RunError::BadRegister { op: a });
    }
    if b >= 16 {
        return Err(RunError::BadRegister { op: b });
    }
    let ai = a as usize;
    let bi = b as usize;
    if op == OP_PUT_VAL {
        vm.regs[bi] = vm.regs[ai];
        vm.pc = vm.pc + 1;
        Ok(Step::Continue)
    } else if op == OP_GET_VAR {
        vm.regs[ai] = vm.regs[bi];
        vm.pc = vm.pc + 1;
        Ok(Step::Continue)
    } else {
        let x = vm.regs[ai];
        let y = vm.regs[bi];
        unify_or_fail(vm, x, y, 1)
    }
}

/// Unifies `a` and `b` on the machine's heap; advances by `width` on
/// success, else backtracks.
fn unify_or_fail(vm: &mut Vm, a: u32, b: u32, width: usize) -> (r: StepOut)
    requires
        old(vm).pc < old(vm).code.len(),
        width <= 2,
        width == 2 ==> old(vm).pc + 1 < old(vm).code.len(),
    ensures
        (final(vm)@, r) == unify_then(old(vm)@, a, b, width as int),
        final(vm).tick_limit == old(vm).tick_limit,
{
    let ok = unify(a, b, &mut vm.heap, &mut vm.trail);
    if !ok {
        return exec_fail(vm);
    }
    vm.pc = vm.pc + width;
    Ok(Step::Continue)
}

fn exec_const(vm: &mut Vm, get: bool, ai: u8) -> (r: StepOut)
    requires
        old(vm).pc < old(vm).code.len(),
    ensures
        (final(vm)@, r) == const_spec(old(vm)@, get, ai),
        final(vm).tick_limit == old(vm).tick_limit,
{
    let imm = match read_imm(vm) {
        Ok(t) => t,
        Err(e) => return Err(e),
    };
    if ai >= 16 {
        return Err(RunError::BadRegister { op: ai });
    }
    let i = ai as usize;
    if get {
        let x = vm.regs[i];
        unify_or_fail(vm, x, imm, 2)
    } else {
        vm.regs[i] = imm;
        vm.pc = vm.pc + 2;
        Ok(Step::Continue)
    }
}

fn exec_get_struct(vm: &mut Vm, ai: u8, arity: u8) -> (r: StepOut)
    requires
        old(vm).pc < old(vm).code.len(),
    ensures
        (final(vm)@, r) == get_struct_spec(old(vm)@, ai, arity),
        final(vm).tick_limit == old(vm).tick_limit,
{
    let imm = match read_imm(vm) {
        Ok(t) => t,
        Err(e) => return Err(e),
    };
    if ai >= 16 {
        return Err(RunError::BadRegister { op: ai });
    }
    let atom_id = payload(imm);
    let i = ai as usize;
    let target = deref(vm.regs[i], vm.heap.as_slice());
    if tag(target) == TAG_STR {
        let addr = payload(target) as usize;
        if addr >= vm.heap.len() {
            return exec_fail(vm);
        }
        let f = vm.heap[addr];
        if tag(f) != TAG_FUN || fun_atom_id(f) != atom_id || fun_arity(f) != arity {
            return exec_fail(vm);
        }
        vm.mode = UnifyMode::Read;
        vm.up = addr + 1;
        vm.pc = vm.pc + 2;
        Ok(Step::Continue)
    } else if tag(target) == TAG_REF {
        let slot = payload(target) as usize;
        if slot >= vm.heap.len() {
            return exec_fail(vm);
        }
        let fa = vm.heap.len();
        vm.heap.push(make_fun(atom_id, arity));
        let sc = make_str(fa);
        bind(slot, sc, &mut vm.heap, &mut vm.trail);
        vm.regs[i] = sc;
        vm.mode = UnifyMode::Write;
        vm.up = vm.heap.len();
        vm.pc = vm.pc + 2;
        Ok(Step::Continue)
    } else {
        exec_fail(vm)
    }
}

fn exec_unify_var(vm: &mut Vm, xi: u8) -> (r: StepOut)
    requires
        old(vm).pc < old(vm).code.len(),
    ensures
        (final(vm)@, r) == unify_var_spec(old(vm)@, xi),
        final(vm).tick_limit == old(vm).tick_limit,
{
    if xi >= 16 {
        return Err(RunError::BadRegister { op: xi });
    }
    let i = xi as usize;
    match vm.mode {
        UnifyMode::Read => {
            if vm.up >= vm.heap.len() {
                return exec_fail(vm);
            }
            vm.regs[i] = vm.heap[vm.up];
            vm.up = vm.up + 1;
        },
        UnifyMode::Write => {
            let c = alloc_unbound(&mut vm.heap);
            vm.regs[i] = c;
            vm.up = vm.heap.len();
        },
    }
    vm.pc = vm.pc + 1;
    Ok(Step::Continue)
}

fn exec_unify_val(vm: &mut Vm, xi: u8) -> (r: StepOut)
    requires
        old(vm).pc < old(vm).code.len(),
    ensures
        (final(vm)@, r) == unify_val_spec(old(vm)@, xi),
        final(vm).tick_limit == old(vm).tick_limit,
{
    if xi >= 16 {
        return Err(RunError::BadRegister { op: xi });
    }
    let i = xi as usize;
    match vm.mode {
        UnifyMode::Read => {
            if vm.up >= vm.heap.len() {
                return exec_fail(vm);
            }
            let cell = vm.heap[vm.up];
            let x = vm.regs[i];
            let ok = unify(x, cell, &mut vm.heap, &mut vm.trail);
            if !ok {
                return exec_fail(vm);
            }
            vm.up = vm.up + 1;
            vm.pc = vm.pc + 1;
            Ok(Step::Continue)
        },
        UnifyMode::Write => {
            let x = vm.regs[i];
            vm.heap.push(x);
            vm.up = vm.heap.len();
            vm.pc = vm.pc + 1;
            Ok(Step::Continue)
        },
    }
}

fn exec_unify_const(vm: &mut Vm) -> (r: StepOut)
    requires
        old(vm).pc < old(vm).code.len(),
    ensures
        (final(vm)@, r) == unify_const_spec(old(vm)@),
        final(vm).tick_limit == old(vm).tick_limit,
{
    let imm = match read_imm(vm) {
        Ok(t) => t,
        Err(e) => return Err(e),
    };
    match vm.mode {
        UnifyMode::Read => {
            if vm.up >= vm.heap.len() {
                return exec_fail(vm);
            }
            let cell = vm.heap[vm.up];
            let ok = unify(cell, imm, &mut vm.heap, &mut vm.trail);
            if !ok {
                return exec_fail(vm);
            }
            vm.up = vm.up + 1;
            vm.pc = vm.pc + 2;
            Ok(Step::Continue)
        },
        UnifyMode::Write => {
            vm.heap.push(imm);
            vm.up = vm.heap.len();
            vm.pc = vm.pc + 2;
            Ok(Step::Continue)
        },
    }
}

fn exec_allocate(vm: &mut Vm, n: u8) -> (r: StepOut)
    requires
        old(vm).pc < old(vm).code.len(),
    ensures
        (final(vm)@, r) == allocate_spec(old(vm)@, n),
        final(vm).tick_limit == old(vm).tick_limit,
{
    let mut ys: Vec<u32> = Vec::new();
    let mut k: u8 = 0;
    while k < n
        invariant
            k <= n,
            ys@ == Seq::new(k as nat, |i: int| 0u32),
        decreases n - k,
    {
        ys.push(0);
        k = k + 1;
        proof {
            assert(ys@ =~= Seq::new(k as nat, |i: int| 0u32));
        }
    }
    let ghost s = vm@;
    vm.env.push(EnvFrame { saved_cp: vm.cp, prev_ep: vm.ep, ys });
    vm.ep = vm.env.len();
    vm.pc = vm.pc + 1;
    proof {
        assert(vm@.env =~= s.env.push(EnvView { saved_cp: s.cp, prev_ep: s.ep, ys: Seq::new(n as nat, |i: int| 0u32) }));
    }
    Ok(Step::Continue)
}

fn exec_deallocate(vm: &mut Vm) -> (r: StepOut)
    requires
        old(vm).pc < old(vm).code.len(),
    ensures
        (final(vm)@, r) == deallocate_spec(old(vm)@),
        final(vm).tick_limit == old(vm).tick_limit,
{
    if vm.ep == 0 || vm.ep > vm.env.len() {
        return Err(RunError::EmptyEnvStack);
    }
    let saved_cp = vm.env[vm.ep - 1].saved_cp;
    let prev_ep = vm.env[vm.ep - 1].prev_ep;
    vm.cp = saved_cp;
    vm.ep = prev_ep;
    vm.pc = vm.pc + 1;
    Ok(Step::Continue)
}

fn exec_get_y_var(vm: &mut Vm, yi: u8, ai: u8) -> (r: StepOut)
    requires
        old(vm).pc < old(vm).code.len(),
    ensures
        (final(vm)@, r) == y_spec(old(vm)@, true, yi, ai),
        final(vm).tick_limit == old(vm).tick_limit,
{
    if ai >= 16 {
        return Err(RunError::BadRegister { op: ai });
    }
    if vm.ep == 0 || vm.ep > vm.env.len() {
        return Err(RunError::EmptyEnvStack);
    }
    let e = vm.ep - 1;
    let y = yi as usize;
    if y >= vm.env[e].ys.len() {
        return Err(RunError::BadYSlot { y: yi });
    }
    let ghost s = vm@;
    let mut ys = vm.env[e].ys.clone();
    proof {
        assert(ys@ =~= vm.env@[e as int].ys@);
    }
    ys.set(y, vm.regs[ai as usize]);
    let frame = EnvFrame { saved_cp: vm.env[e].saved_cp, prev_ep: vm.env[e].prev_ep, ys };
    vm.env.set(e, frame);
    vm.pc = vm.pc + 1;
    proof {
        let f = s.env[s.ep - 1];
        assert(vm@.env =~= s.env.update(s.ep - 1, EnvView { ys: f.ys.update(yi as int, s.regs[ai as int]), ..f }));
    }
    Ok(Step::Continue)
}

fn exec_put_y_val(vm: &mut Vm, yi: u8, ai: u8) -> (r: StepOut)
    requires
        old(vm).pc < old(vm).code.len(),
    ensures
        (final(vm)@, r) == y_spec(old(vm)@, false, yi, ai),
        final(vm).tick_limit == old(vm).tick_limit,
{
    if ai >= 16 {
        return Err(RunError::BadRegister { op: ai });
    }
    if vm.ep == 0 || vm.ep > vm.env.len() {
        return Err(RunError::EmptyEnvStack);
    }
    let e = vm.ep - 1;
    let y = yi as usize;
    if y >= vm.env[e].ys.len() {
        return Err(RunError::BadYSlot { y: yi });
    }
    let v = vm.env[e].ys[y];
    vm.regs[ai as usize] = v;
    vm.pc = vm.pc + 1;
    Ok(Step::Continue)
}

/// The integer in argument register `ai`, dereferenced.
fn deref_to_int(vm: &Vm, ai: u8) -> (r: Result<i32, RunError>)
    requires
        ai < 16,
    ensures
        r == int_arg(vm@, ai),
{
    let cell = deref(vm.regs[ai as usize], vm.heap.as_slice());
    if tag(cell) != TAG_INT {
        return Err(RunError::ArithNotInt { ai });
    }
    let p = payload(cell);
    let v: i32 = if p & 0x0010_0000 != 0 {
        (p | 0xFFE0_0000) as i32
    } else {
        p as i32
    };
    Ok(v)
}

fn encode_int(v: i32) -> (r: u32)
    ensures
        r == int_cell(v),
{
    make(TAG_INT, (v as u32) & 0x001F_FFFF)
}

fn exec_arith(vm: &mut Vm, add: bool) -> (r: StepOut)
    requires
        old(vm).pc < old(vm).code.len(),
    ensures
        (final(vm)@, r) == arith_spec(old(vm)@, add),
        final(vm).tick_limit == old(vm).tick_limit,
{
    let a = match deref_to_int(vm, 1) {
        Ok(v) => v,
        Err(e) => return Err(e),
    };
    let b = match deref_to_int(vm, 2) {
        Ok(v) => v,
        Err(e) => return Err(e),
    };
    let r = if add {
        a.wrapping_add(b)
    } else {
        a.wrapping_sub(b)
    };
    vm.regs[0] = encode_int(r);
    vm.pc = vm.pc + 1;
    Ok(Step::Continue)
}

fn exec_order(vm: &mut Vm, lt: bool) -> (r: StepOut)
    requires
        old(vm).pc < old(vm).code.len(),
    ensures
        (final(vm)@, r) == order_spec(old(vm)@, lt),
        final(vm).tick_limit == old(vm).tick_limit,
{
    let a = match deref_to_int(vm, 0) {
        Ok(v) => v,
        Err(e) => return Err(e),
    };
    let b = match deref_to_int(vm, 1) {
        Ok(v) => v,
        Err(e) => return Err(e),
    };
    if (lt && a < b) || (!lt && a > b) {
        vm.pc = vm.pc + 1;
        Ok(Step::Continue)
    } else {
        exec_fail(vm)
    }
}

fn exec_b_write(vm: &mut Vm, ai: u8, out: &mut Vec<u8>) -> (r: StepOut)
    requires
        old(vm).pc < old(vm).code.len(),
    ensures
        ai >= 16 ==> r == Err::<Step, RunError>(RunError::BadRegister { op: ai }) && final(vm)@
            == old(vm)@ && final(out)@ == old(out)@,
        ai < 16 ==> r == Ok::<Step, RunError>(Step::Continue) && final(vm)@ == advance(old(vm)@, 1)
            && final(out)@ == old(out)@ + term_text(
            old(vm)@.regs[ai as int],
            old(vm)@.heap,
            old(vm)@.atoms,
            old(vm)@.heap.len(),
        ),
        final(vm).tick_limit == old(vm).tick_limit,
{
    if ai >= 16 {
        return Err(RunError::BadRegister { op: ai });
    }
    write_term(vm.regs[ai as usize], vm.heap.as_slice(), vm.atoms.as_slice(), out);
    vm.pc = vm.pc + 1;
    Ok(Step::Continue)
}

} // verus!
