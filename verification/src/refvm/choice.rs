//! Choice-point stack and backtracking.
//!
//! TRY pushes a frame with the current A0-A7, CP, heap top, trail top,
//! env top and the alternative PC. RETRY restores those fields and
//! updates the alternative; TRUST restores and pops. FAIL jumps to the
//! top frame's alternative (the restoring happens when the RETRY or
//! TRUST found there executes).

use super::heap::{unwind_spec, unwind_trail};
use vstd::prelude::*;

verus! {

#[derive(Clone, Copy, Debug)]
pub struct ChoicePt {
    pub saved_regs: [u32; 8],
    pub alt_pc: usize,
    pub saved_cp: usize,
    pub saved_hp: usize,
    pub saved_tr: usize,
    pub saved_ep: usize,
}

/// The frame that `push_choice` records for these arguments.
pub open spec fn choice_frame(
    frame: ChoicePt,
    regs: Seq<u32>,
    alt_pc: usize,
    cp: usize,
    hp: usize,
    tr: usize,
    ep: usize,
) -> bool {
    &&& frame.saved_regs@ == regs.subrange(0, 8)
    &&& frame.alt_pc == alt_pc
    &&& frame.saved_cp == cp
    &&& frame.saved_hp == hp
    &&& frame.saved_tr == tr
    &&& frame.saved_ep == ep
}

/// The heap after restoring to `frame`: trail entries above the saved
/// trail top are undone, then the heap is cut back to the saved top.
pub open spec fn restored_heap(frame: ChoicePt, heap: Seq<u32>, trail: Seq<u32>) -> Seq<u32> {
    let h = unwind_spec(frame.saved_tr as nat, heap, trail);
    if frame.saved_hp <= h.len() {
        h.subrange(0, frame.saved_hp as int)
    } else {
        h
    }
}

/// The trail after restoring to `frame`: cut back to the saved top.
pub open spec fn restored_trail(frame: ChoicePt, trail: Seq<u32>) -> Seq<u32> {
    if frame.saved_tr < trail.len() {
        trail.subrange(0, frame.saved_tr as int)
    } else {
        trail
    }
}

/// The register file after restoring to `frame`: A0-A7 come back, the
/// X registers stay.
pub open spec fn restored_regs(frame: ChoicePt, regs: Seq<u32>) -> Seq<u32> {
    frame.saved_regs@ + regs.subrange(8, 16)
}

pub fn push_choice(
    stack: &mut Vec<ChoicePt>,
    regs: &[u32; 16],
    alt_pc: usize,
    cp: usize,
    hp: usize,
    tr: usize,
    ep: usize,
)
    ensures
        final(stack)@.len() == old(stack)@.len() + 1,
        final(stack)@.subrange(0, old(stack)@.len() as int) == old(stack)@,
        choice_frame(final(stack)@.last(), regs@, alt_pc, cp, hp, tr, ep),
{
    let mut saved_regs = [0u32; 8];
    let mut i: usize = 0;
    while i < 8
        invariant
            i <= 8,
            saved_regs@.len() == 8,
            forall|j: int| 0 <= j < i ==> saved_regs@[j] == regs@[j],
        decreases 8 - i,
    {
        saved_regs[i] = regs[i];
        i = i + 1;
    }
    proof {
        assert(saved_regs@ =~= regs@.subrange(0, 8));
    }
    let ghost before = stack@;
    stack.push(ChoicePt { saved_regs, alt_pc, saved_cp: cp, saved_hp: hp, saved_tr: tr, saved_ep: ep });
    proof {
        assert(stack@.subrange(0, before.len() as int) =~= before);
    }
}

/// Restores the state saved in the top frame: A0-A7, the heap (trail
/// undone, then cut to the saved top) and the trail. Gives back the
/// saved CP and env top; `None`, with nothing changed, on an empty
/// stack.
pub fn restore_top(
    stack: &[ChoicePt],
    regs: &mut [u32; 16],
    heap: &mut Vec<u32>,
    trail: &mut Vec<u32>,
) -> (r: Option<(usize, usize)>)
    ensures
        stack@.len() == 0 ==> r is None && *final(regs) == *old(regs) && final(heap)@ == old(heap)@
            && final(trail)@ == old(trail)@,
        stack@.len() > 0 ==> r == Some((stack@.last().saved_cp, stack@.last().saved_ep))
            && final(regs)@ == restored_regs(stack@.last(), old(regs)@)
            && final(heap)@ == restored_heap(stack@.last(), old(heap)@, old(trail)@)
            && final(trail)@ == restored_trail(stack@.last(), old(trail)@),
{
    if stack.len() == 0 {
        return None;
    }
    let top = stack[stack.len() - 1];
    let mut i: usize = 0;
    let ghost r0 = regs@;
    while i < 8
        invariant
            i <= 8,
            regs@.len() == 16,
            r0.len() == 16,
            top.saved_regs@.len() == 8,
            forall|j: int| 0 <= j < i ==> regs@[j] == top.saved_regs@[j],
            forall|j: int| i <= j < 16 ==> regs@[j] == r0[j],
        decreases 8 - i,
    {
        regs[i] = top.saved_regs[i];
        i = i + 1;
    }
    proof {
        assert(regs@ =~= restored_regs(top, r0));
    }
    unwind_trail(top.saved_tr, heap, trail);
    heap.truncate(top.saved_hp);
    Some((top.saved_cp, top.saved_ep))
}

/// Sets the alternative PC of the top frame.
pub fn update_alt(stack: &mut Vec<ChoicePt>, new_alt: usize)
    ensures
        old(stack)@.len() == 0 ==> final(stack)@ == old(stack)@,
        old(stack)@.len() > 0 ==> final(stack)@ == old(stack)@.update(
            old(stack)@.len() - 1,
            ChoicePt { alt_pc: new_alt, ..old(stack)@.last() },
        ),
{
    let n = stack.len();
    if n > 0 {
        let mut top = stack[n - 1];
        top.alt_pc = new_alt;
        stack.set(n - 1, top);
    }
}

/// Drops the top frame, if any.
pub fn pop(stack: &mut Vec<ChoicePt>)
    ensures
        old(stack)@.len() == 0 ==> final(stack)@ == old(stack)@,
        old(stack)@.len() > 0 ==> final(stack)@ == old(stack)@.drop_last(),
{
    let _ = stack.pop();
}

/// The alternative PC of the top frame.
pub fn top_alt(stack: &[ChoicePt]) -> (r: Option<usize>)
    ensures
        stack@.len() == 0 ==> r is None,
        stack@.len() > 0 ==> r == Some(stack@.last().alt_pc),
{
    if stack.len() == 0 {
        None
    } else {
        Some(stack[stack.len() - 1].alt_pc)
    }
}

} // verus!
