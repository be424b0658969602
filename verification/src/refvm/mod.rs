//! Reference LAM VM.
//!
//! The machine state is a heap of tagged cells, a trail, sixteen
//! registers (A0-A7, X0-X7), the program and continuation counters, a
//! choice-point stack and an environment stack. `dispatch::step`
//! executes one instruction; `run_vm` steps until `HALT`, a failure
//! with no choice point left, an error, or the tick limit.
//!
//! Environment frames are never popped: the env stack grows
//! monotonically and `ep` names the current frame (`env[ep - 1]`).
//! `DEALLOCATE` moves `ep` back to the caller's frame and a choice
//! point restores the `ep` it saved, so a frame that a choice point
//! still needs comes back into scope on backtracking.
//!
//! Builtin output (`B_WRITE`, `B_NL`) is appended to a byte buffer.

pub mod builtin;
pub mod chains;
pub mod choice;
pub mod dispatch;
pub mod heap;

use vstd::prelude::*;

verus! {

pub const DEFAULT_TICK_LIMIT: u64 = 1_000_000;

#[derive(Debug, Clone, Copy, PartialEq, Eq, Structural)]
pub enum RunError {
    PcOutOfBounds { pc: usize },
    UnsupportedOpcode { op: u8, pc: usize },
    BadRegister { op: u8 },
    EmptyChoiceStack,
    EmptyEnvStack,
    BadYSlot { y: u8 },
    ArithNotInt { ai: u8 },
    TickLimit,
    Io,
}

#[derive(Debug, Clone, Copy, PartialEq, Eq, Structural)]
pub enum RunResult {
    Halt,
    Fail,
    Error(RunError),
}

#[derive(Debug, Clone, Copy, PartialEq, Eq, Structural)]
pub enum Step {
    Continue,
    Halt,
    Fail,
}

/// An environment frame: the caller's CP, the caller's frame and the
/// permanent variables Y0.. of the clause.
#[derive(Clone, Debug)]
pub struct EnvFrame {
    pub saved_cp: usize,
    pub prev_ep: usize,
    pub ys: Vec<u32>,
}

/// An environment frame as values.
pub struct EnvView {
    pub saved_cp: usize,
    pub prev_ep: usize,
    pub ys: Seq<u32>,
}

impl View for EnvFrame {
    type V = EnvView;

    open spec fn view(&self) -> EnvView {
        EnvView { saved_cp: self.saved_cp, prev_ep: self.prev_ep, ys: self.ys@ }
    }
}

#[derive(Clone, Copy, Debug, PartialEq, Eq, Structural)]
pub enum UnifyMode {
    Read,
    Write,
}

pub struct Vm {
    pub code: Vec<u32>,
    pub heap: Vec<u32>,
    pub trail: Vec<u32>,
    pub regs: [u32; 16],
    pub pc: usize,
    pub cp: usize,
    pub choice: Vec<choice::ChoicePt>,
    /// Env frames; grows monotonically.
    pub env: Vec<EnvFrame>,
    /// Logical env-stack top: `env[ep - 1]` is the current frame.
    pub ep: usize,
    pub atoms: Vec<String>,
    pub mode: UnifyMode,
    pub up: usize,
    pub tick_limit: u64,
}

/// The machine state as values.
pub struct VmState {
    pub code: Seq<u32>,
    pub heap: Seq<u32>,
    pub trail: Seq<u32>,
    pub regs: Seq<u32>,
    pub pc: usize,
    pub cp: usize,
    pub choice: Seq<choice::ChoicePt>,
    pub env: Seq<EnvView>,
    pub ep: usize,
    pub atoms: Seq<String>,
    pub mode: UnifyMode,
    pub up: usize,
    pub tick_limit: u64,
}

impl View for Vm {
    type V = VmState;

    open spec fn view(&self) -> VmState {
        VmState {
            code: self.code@,
            heap: self.heap@,
            trail: self.trail@,
            regs: self.regs@,
            pc: self.pc,
            cp: self.cp,
            choice: self.choice@,
            env: self.env@.map_values(|f: EnvFrame| f@),
            ep: self.ep,
            atoms: self.atoms@,
            mode: self.mode,
            up: self.up,
            tick_limit: self.tick_limit,
        }
    }
}

/// The state of a fresh machine loaded with `code`.
pub open spec fn initial_state(code: Seq<u32>, atoms: Seq<String>) -> VmState {
    VmState {
        code,
        heap: Seq::empty(),
        trail: Seq::empty(),
        regs: Seq::new(16, |i: int| 0u32),
        pc: 0,
        cp: 0,
        choice: Seq::empty(),
        env: Seq::empty(),
        ep: 0,
        atoms,
        mode: UnifyMode::Read,
        up: 0,
        tick_limit: DEFAULT_TICK_LIMIT,
    }
}

impl Vm {
    pub fn new(code: Vec<u32>) -> (r: Self)
        ensures
            r@ == initial_state(code@, Seq::empty()),
    {
        let r = Self {
            code,
            heap: Vec::new(),
            trail: Vec::new(),
            regs: [0u32; 16],
            pc: 0,
            cp: 0,
            choice: Vec::new(),
            env: Vec::new(),
            ep: 0,
            atoms: Vec::new(),
            mode: UnifyMode::Read,
            up: 0,
            tick_limit: DEFAULT_TICK_LIMIT,
        };
        proof {
            assert(r@.regs =~= Seq::new(16, |i: int| 0u32));
            assert(r@.env =~= Seq::<EnvView>::empty());
        }
        r
    }
}

/// Running from `s` with `ticks` of `limit` steps spent: the final
/// state, the output and the outcome.
pub open spec fn run_spec(s: VmState, out: Seq<u8>, ticks: nat, limit: nat) -> (
    VmState,
    Seq<u8>,
    RunResult,
)
    decreases limit - ticks,
{
    if ticks >= limit {
        (s, out, RunResult::Error(RunError::TickLimit))
    } else {
        let (s2, o2, r) = dispatch::step_spec(s, out);
        match r {
            Ok(Step::Continue) => run_spec(s2, o2, ticks + 1, limit),
            Ok(Step::Halt) => (s2, o2, RunResult::Halt),
            Ok(Step::Fail) => (s2, o2, RunResult::Fail),
            Err(e) => (s2, o2, RunResult::Error(e)),
        }
    }
}

/// Runs `code` on a fresh machine and discards builtin output.
pub fn run(code: Vec<u32>) -> (r: RunResult)
    ensures
        r == run_spec(initial_state(code@, Seq::empty()), Seq::empty(), 0, DEFAULT_TICK_LIMIT as nat).2,
{
    let mut sink: Vec<u8> = Vec::new();
    let r = run_with(code, &mut sink);
    proof {
        let (s, o, res) = run_spec(initial_state(code@, Seq::empty()), Seq::<u8>::empty(), 0, DEFAULT_TICK_LIMIT as nat);
        assert(sink@.len() >= 0);
    }
    r
}

/// Runs `code` on a fresh machine without an atom table, appending
/// builtin output to `out`.
pub fn run_with(code: Vec<u32>, out: &mut Vec<u8>) -> (r: RunResult)
    ensures
        ({
            let (s, o, res) = run_spec(
                initial_state(code@, Seq::empty()),
                old(out)@,
                0,
                DEFAULT_TICK_LIMIT as nat,
            );
            r == res && final(out)@ == o
        }),
{
    let mut vm = Vm::new(code);
    run_vm(&mut vm, out)
}

/// Runs `code` on a fresh machine whose builtins print atom names from
/// `atoms`.
pub fn run_with_atoms(code: Vec<u32>, atoms: Vec<String>, out: &mut Vec<u8>) -> (r: RunResult)
    ensures
        ({
            let (s, o, res) = run_spec(
                initial_state(code@, atoms@),
                old(out)@,
                0,
                DEFAULT_TICK_LIMIT as nat,
            );
            r == res && final(out)@ == o
        }),
{
    let mut vm = Vm::new(code);
    vm.atoms = atoms;
    proof {
        assert(vm@ == initial_state(vm.code@, atoms@));
    }
    run_vm(&mut vm, out)
}

/// Steps `vm` until it halts, fails, errs or has run `tick_limit`
/// instructions.
pub fn run_vm(vm: &mut Vm, out: &mut Vec<u8>) -> (r: RunResult)
    ensures
        ({
            let (s, o, res) = run_spec(old(vm)@, old(out)@, 0, old(vm).tick_limit as nat);
            r == res && final(vm)@ == s && final(out)@ == o
        }),
{
    let limit = vm.tick_limit;
    let ghost s0 = vm@;
    let ghost o0 = out@;
    let mut ticks: u64 = 0;
    loop
        invariant
            ticks <= limit,
            limit == vm.tick_limit,
            run_spec(vm@, out@, ticks as nat, limit as nat) == run_spec(s0, o0, 0, limit as nat),
            s0 == old(vm)@,
            o0 == old(out)@,
            limit == old(vm).tick_limit,
        decreases limit - ticks,
    {
        if ticks >= limit {
            return RunResult::Error(RunError::TickLimit);
        }
        ticks = ticks + 1;
        match dispatch::step(vm, out) {
            Ok(Step::Continue) => {},
            Ok(Step::Halt) => return RunResult::Halt,
            Ok(Step::Fail) => return RunResult::Fail,
            Err(e) => return RunResult::Error(e),
        }
    }
}

} // verus!
