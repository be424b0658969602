//! Tagged heap cells, dereference, binding with a trail, and
//! unification.
//!
//! Every value is a 24-bit tagged cell: the top 3 bits (21..23) are the
//! tag, the low 21 bits the payload. Cells live in registers, on the
//! heap and as immediates of 2-cell instructions.
//!
//! Dereference and unification follow chains and terms on the heap.
//! Both carry a step budget (the heap's length plus one for `deref`,
//! and that many nested terms for `unify`): on a heap without cycles
//! the budget is never reached; on a cyclic heap they stop instead of
//! running forever.

use vstd::prelude::*;

verus! {

pub const TAG_REF: u32 = 0;
pub const TAG_INT: u32 = 1;
pub const TAG_ATOM: u32 = 2;
pub const TAG_STR: u32 = 3;
pub const TAG_LIST: u32 = 4;
pub const TAG_FUN: u32 = 5;

pub const TAG_SHIFT: u32 = 21;
pub const PAYLOAD_MASK: u32 = 0x001F_FFFF;

pub open spec fn cell_tag(c: u32) -> u32 {
    (c >> 21u32) & 7u32
}

pub open spec fn cell_payload(c: u32) -> u32 {
    c & 0x001F_FFFFu32
}

pub open spec fn cell_make(t: u32, p: u32) -> u32 {
    (t << 21u32) | (p & 0x001F_FFFFu32)
}

pub open spec fn ref_cell(addr: usize) -> u32 {
    cell_make(TAG_REF, addr as u32)
}

pub open spec fn str_cell(addr: usize) -> u32 {
    cell_make(TAG_STR, addr as u32)
}

pub open spec fn fun_cell(atom_id: u32, arity: u8) -> u32 {
    cell_make(TAG_FUN, (atom_id << 5u32) | ((arity as u32) & 0x1Fu32))
}

pub open spec fn fun_atom(c: u32) -> u32 {
    (cell_payload(c) >> 5u32) & 0xFFFFu32
}

pub open spec fn fun_ar(c: u32) -> u8 {
    (cell_payload(c) & 0x1Fu32) as u8
}

pub fn tag(cell: u32) -> (r: u32)
    ensures
        r == cell_tag(cell),
        r < 8,
{
    assert(((cell >> 21u32) & 7u32) < 8) by (bit_vector);
    (cell >> TAG_SHIFT) & 0x7
}

pub fn payload(cell: u32) -> (r: u32)
    ensures
        r == cell_payload(cell),
        r <= PAYLOAD_MASK,
{
    assert(cell & 0x001F_FFFFu32 <= 0x001F_FFFFu32) by (bit_vector);
    cell & PAYLOAD_MASK
}

pub fn make(t: u32, p: u32) -> (r: u32)
    ensures
        r == cell_make(t, p),
{
    (t << TAG_SHIFT) | (p & PAYLOAD_MASK)
}

/// A cell made from tag `t` and payload `p` gives back the low three
/// bits of `t` as its tag and the low 21 bits of `p` as its payload.
pub proof fn lemma_make_roundtrip(t: u32, p: u32)
    ensures
        cell_tag(cell_make(t, p)) == t & 7u32,
        cell_payload(cell_make(t, p)) == p & 0x001F_FFFFu32,
{
    assert(((((t << 21u32) | (p & 0x001F_FFFFu32)) >> 21u32) & 7u32) == t & 7u32) by (bit_vector);
    assert((((t << 21u32) | (p & 0x001F_FFFFu32)) & 0x001F_FFFFu32) == p & 0x001F_FFFFu32)
        by (bit_vector);
}

/// A functor cell gives back its atom id (low 16 bits) and arity (low
/// 5 bits).
pub proof fn lemma_fun_roundtrip(atom_id: u32, arity: u8)
    ensures
        cell_tag(fun_cell(atom_id, arity)) == TAG_FUN,
        fun_atom(fun_cell(atom_id, arity)) == atom_id & 0xFFFFu32,
        fun_ar(fun_cell(atom_id, arity)) == arity & 0x1Fu8,
{
    let a = atom_id;
    let r = (arity as u32) & 0x1Fu32;
    assert(((((5u32 << 21u32) | (((a << 5u32) | r) & 0x001F_FFFFu32)) >> 21u32) & 7u32) == 5u32)
        by (bit_vector);
    assert(r <= 0x1F ==> (((((5u32 << 21u32) | (((a << 5u32) | r) & 0x001F_FFFFu32))
        & 0x001F_FFFFu32) >> 5u32) & 0xFFFFu32) == a & 0xFFFFu32) by (bit_vector);
    assert(r <= 0x1F ==> ((((5u32 << 21u32) | (((a << 5u32) | r) & 0x001F_FFFFu32))
        & 0x001F_FFFFu32) & 0x1Fu32) == r) by (bit_vector);
    assert(r <= 0x1F) by (bit_vector)
        requires
            r == (arity as u32) & 0x1Fu32,
    ;
    assert(((arity as u32) & 0x1Fu32) as u8 == arity & 0x1Fu8) by (bit_vector);
}

pub fn make_ref(addr: usize) -> (r: u32)
    ensures
        r == ref_cell(addr),
{
    make(TAG_REF, addr as u32)
}

pub fn make_str(addr: usize) -> (r: u32)
    ensures
        r == str_cell(addr),
{
    make(TAG_STR, addr as u32)
}

pub fn make_fun(atom_id: u32, arity: u8) -> (r: u32)
    ensures
        r == fun_cell(atom_id, arity),
{
    make(TAG_FUN, (atom_id << 5) | (arity as u32 & 0x1F))
}

pub fn fun_atom_id(fun_cell: u32) -> (r: u32)
    ensures
        r == fun_atom(fun_cell),
{
    (payload(fun_cell) >> 5) & 0xFFFF
}

pub fn fun_arity(fun_cell: u32) -> (r: u8)
    ensures
        r == fun_ar(fun_cell),
        r < 32,
{
    let p = payload(fun_cell);
    assert((p & 0x1Fu32) < 32) by (bit_vector);
    (p & 0x1F) as u8
}

/// `cell` is a reference to a heap slot that holds itself.
pub open spec fn unbound(cell: u32, heap: Seq<u32>) -> bool {
    cell_tag(cell) == TAG_REF && (cell_payload(cell) as int) < heap.len() && heap[cell_payload(
        cell,
    ) as int] == cell
}

pub fn is_unbound(cell: u32, heap: &[u32]) -> (r: bool)
    ensures
        r == unbound(cell, heap@),
{
    if tag(cell) != TAG_REF {
        return false;
    }
    let addr = payload(cell) as usize;
    addr < heap.len() && heap[addr] == cell
}

/// Follows reference chains for at most `n` steps.
pub open spec fn deref_n(c: u32, heap: Seq<u32>, n: nat) -> u32
    decreases n,
{
    if n == 0 || cell_tag(c) != TAG_REF || cell_payload(c) as int >= heap.len() || heap[cell_payload(
        c,
    ) as int] == c {
        c
    } else {
        deref_n(heap[cell_payload(c) as int], heap, (n - 1) as nat)
    }
}

/// The end of the reference chain from `c`: a non-reference cell, an
/// unbound variable, or a reference outside the heap.
pub open spec fn deref_spec(c: u32, heap: Seq<u32>) -> u32 {
    deref_n(c, heap, heap.len() + 1)
}

pub fn deref(cell: u32, heap: &[u32]) -> (r: u32)
    ensures
        r == deref_spec(cell, heap@),
{
    let mut c = cell;
    let mut n: usize = heap.len();
    let ghost total = heap@.len() + 1;
    loop
        invariant
            n < total,
            total == heap@.len() + 1,
            deref_n(c, heap@, (n + 1) as nat) == deref_spec(cell, heap@),
        decreases n,
    {
        if tag(c) != TAG_REF {
            return c;
        }
        let addr = payload(c) as usize;
        if addr >= heap.len() {
            return c;
        }
        let next = heap[addr];
        if next == c {
            return c;
        }
        if n == 0 {
            assert(deref_n(next, heap@, 0) == next);
            return next;
        }
        c = next;
        n = n - 1;
    }
}

pub fn alloc_unbound(heap: &mut Vec<u32>) -> (r: u32)
    ensures
        r == ref_cell(old(heap)@.len() as usize),
        final(heap)@ == old(heap)@.push(r),
{
    let h = heap.len();
    heap.push(make_ref(h));
    make_ref(h)
}

pub fn bind(addr: usize, value: u32, heap: &mut Vec<u32>, trail: &mut Vec<u32>)
    requires
        addr < old(heap)@.len(),
    ensures
        final(heap)@ == old(heap)@.update(addr as int, value),
        final(trail)@ == old(trail)@.push(addr as u32),
{
    heap.set(addr, value);
    trail.push(addr as u32);
}

/// The heap after undoing the trail entries above `target`: each
/// entry, newest first, resets its slot to an unbound variable.
/// Entries outside the heap are skipped.
pub open spec fn unwind_spec(target: nat, heap: Seq<u32>, trail: Seq<u32>) -> Seq<u32>
    decreases trail.len(),
{
    if trail.len() <= target {
        heap
    } else {
        let a = trail.last();
        let h2 = if (a as int) < heap.len() {
            heap.update(a as int, ref_cell(a as usize))
        } else {
            heap
        };
        unwind_spec(target, h2, trail.drop_last())
    }
}

pub fn unwind_trail(target_len: usize, heap: &mut Vec<u32>, trail: &mut Vec<u32>)
    ensures
        final(heap)@ == unwind_spec(target_len as nat, old(heap)@, old(trail)@),
        old(trail)@.len() <= target_len ==> final(trail)@ == old(trail)@,
        old(trail)@.len() > target_len ==> final(trail)@ == old(trail)@.subrange(
            0,
            target_len as int,
        ),
{
    while trail.len() > target_len
        invariant
            unwind_spec(target_len as nat, heap@, trail@) == unwind_spec(
                target_len as nat,
                old(heap)@,
                old(trail)@,
            ),
            old(trail)@.len() <= target_len ==> trail@ == old(trail)@,
            trail@.len() <= old(trail)@.len(),
            old(trail)@.len() > target_len ==> trail@.len() >= target_len && trail@
                == old(trail)@.subrange(0, trail@.len() as int),
        decreases trail@.len(),
    {
        let ghost tr0 = trail@;
        let addr = trail.pop().unwrap() as usize;
        proof {
            assert(trail@ =~= tr0.drop_last());
            if old(trail)@.len() > target_len {
                assert(tr0 == old(trail)@.subrange(0, tr0.len() as int));
                assert forall|j: int| 0 <= j < trail@.len() implies trail@[j] == old(trail)@[j] by {
                    assert(trail@[j] == tr0[j]);
                    assert(tr0[j] == old(trail)@.subrange(0, tr0.len() as int)[j]);
                }
                assert(trail@ =~= old(trail)@.subrange(0, trail@.len() as int));
            }
        }
        if addr < heap.len() {
            heap.set(addr, make_ref(addr));
        }
    }
}

/// Unification of cells `a` and `b` with a budget of `fuel` nested
/// terms: the outcome, the heap after it and the trail after it.
pub open spec fn unify_spec(a: u32, b: u32, heap: Seq<u32>, trail: Seq<u32>, fuel: nat) -> (
    bool,
    Seq<u32>,
    Seq<u32>,
)
    decreases fuel, 1nat, 0nat,
{
    if fuel == 0 {
        (false, heap, trail)
    } else {
        let da = deref_spec(a, heap);
        let db = deref_spec(b, heap);
        if da == db {
            (true, heap, trail)
        } else if cell_tag(da) == TAG_REF {
            if (cell_payload(da) as int) < heap.len() {
                (
                    true,
                    heap.update(cell_payload(da) as int, db),
                    trail.push(cell_payload(da)),
                )
            } else {
                (false, heap, trail)
            }
        } else if cell_tag(db) == TAG_REF {
            if (cell_payload(db) as int) < heap.len() {
                (
                    true,
                    heap.update(cell_payload(db) as int, da),
                    trail.push(cell_payload(db)),
                )
            } else {
                (false, heap, trail)
            }
        } else if cell_tag(da) == TAG_ATOM && cell_tag(db) == TAG_ATOM {
            (cell_payload(da) == cell_payload(db), heap, trail)
        } else if cell_tag(da) == TAG_INT && cell_tag(db) == TAG_INT {
            (cell_payload(da) == cell_payload(db), heap, trail)
        } else if cell_tag(da) == TAG_STR && cell_tag(db) == TAG_STR {
            let aa = cell_payload(da) as int;
            let ba = cell_payload(db) as int;
            if aa >= heap.len() || ba >= heap.len() {
                (false, heap, trail)
            } else if cell_tag(heap[aa]) != TAG_FUN || cell_tag(heap[ba]) != TAG_FUN {
                (false, heap, trail)
            } else if cell_payload(heap[aa]) != cell_payload(heap[ba]) {
                (false, heap, trail)
            } else {
                unify_args_spec(aa, ba, fun_ar(heap[aa]) as int, 0, heap, trail, fuel)
            }
        } else {
            (false, heap, trail)
        }
    }
}

/// The heap cell at `i`, or 0 outside the heap.
pub open spec fn cell_or_zero(heap: Seq<u32>, i: int) -> u32 {
    if 0 <= i < heap.len() {
        heap[i]
    } else {
        0
    }
}

/// Unifies the arguments `i..n` of the structures at `aa` and `ba`, in
/// order, stopping at the first failure.
pub open spec fn unify_args_spec(
    aa: int,
    ba: int,
    n: int,
    i: int,
    heap: Seq<u32>,
    trail: Seq<u32>,
    fuel: nat,
) -> (bool, Seq<u32>, Seq<u32>)
    decreases fuel, 0nat, n - i,
{
    if i >= n {
        (true, heap, trail)
    } else if fuel == 0 {
        (false, heap, trail)
    } else {
        let ea = cell_or_zero(heap, aa + 1 + i);
        let eb = cell_or_zero(heap, ba + 1 + i);
        let r = unify_spec(ea, eb, heap, trail, (fuel - 1) as nat);
        if !r.0 {
            (false, r.1, r.2)
        } else {
            unify_args_spec(aa, ba, n, i + 1, r.1, r.2, fuel)
        }
    }
}

/// Unification keeps the heap's length.
pub proof fn lemma_unify_keeps_len(a: u32, b: u32, heap: Seq<u32>, trail: Seq<u32>, fuel: nat)
    ensures
        unify_spec(a, b, heap, trail, fuel).1.len() == heap.len(),
    decreases fuel, 1nat, 0nat,
{
    if fuel > 0 {
        let da = deref_spec(a, heap);
        let db = deref_spec(b, heap);
        if da != db && cell_tag(da) != TAG_REF && cell_tag(db) != TAG_REF && cell_tag(da)
            == TAG_STR && cell_tag(db) == TAG_STR {
            let aa = cell_payload(da) as int;
            let ba = cell_payload(db) as int;
            if aa < heap.len() && ba < heap.len() {
                lemma_unify_args_keeps_len(aa, ba, fun_ar(heap[aa]) as int, 0, heap, trail, fuel);
            }
        }
    }
}

pub proof fn lemma_unify_args_keeps_len(
    aa: int,
    ba: int,
    n: int,
    i: int,
    heap: Seq<u32>,
    trail: Seq<u32>,
    fuel: nat,
)
    ensures
        unify_args_spec(aa, ba, n, i, heap, trail, fuel).1.len() == heap.len(),
    decreases fuel, 0nat, n - i,
{
    if i < n && fuel > 0 {
        let ea = cell_or_zero(heap, aa + 1 + i);
        let eb = cell_or_zero(heap, ba + 1 + i);
        lemma_unify_keeps_len(ea, eb, heap, trail, (fuel - 1) as nat);
        let r = unify_spec(ea, eb, heap, trail, (fuel - 1) as nat);
        if r.0 {
            lemma_unify_args_keeps_len(aa, ba, n, i + 1, r.1, r.2, fuel);
        }
    }
}

/// The nesting budget of `unify` on a heap of `len` cells: one nested
/// term per cell plus one.
pub open spec fn unify_budget(len: nat) -> nat {
    if len < usize::MAX { len + 1 } else { len }
}

/// Unifies `a` and `b`, binding variables on the heap and recording
/// each binding on the trail.
pub fn unify(a: u32, b: u32, heap: &mut Vec<u32>, trail: &mut Vec<u32>) -> (r: bool)
    ensures
        (r, final(heap)@, final(trail)@) == unify_spec(
            a,
            b,
            old(heap)@,
            old(trail)@,
            unify_budget(old(heap)@.len()),
        ),
{
    let n = heap.len();
    let fuel = if n < usize::MAX { n + 1 } else { n };
    unify_fuel(a, b, heap, trail, fuel)
}

fn unify_fuel(a: u32, b: u32, heap: &mut Vec<u32>, trail: &mut Vec<u32>, fuel: usize) -> (r: bool)
    ensures
        (r, final(heap)@, final(trail)@) == unify_spec(a, b, old(heap)@, old(trail)@, fuel as nat),
    decreases fuel, 1nat,
{
    if fuel == 0 {
        return false;
    }
    let da = deref(a, heap.as_slice());
    let db = deref(b, heap.as_slice());
    if da == db {
        return true;
    }
    let ta = tag(da);
    let tb = tag(db);
    if ta == TAG_REF {
        let addr = payload(da) as usize;
        if addr >= heap.len() {
            return false;
        }
        bind(addr, db, heap, trail);
        return true;
    }
    if tb == TAG_REF {
        let addr = payload(db) as usize;
        if addr >= heap.len() {
            return false;
        }
        bind(addr, da, heap, trail);
        return true;
    }
    if ta == TAG_ATOM && tb == TAG_ATOM {
        return payload(da) == payload(db);
    }
    if ta == TAG_INT && tb == TAG_INT {
        return payload(da) == payload(db);
    }
    if ta == TAG_STR && tb == TAG_STR {
        return unify_struct(payload(da) as usize, payload(db) as usize, heap, trail, fuel);
    }
    false
}

fn unify_struct(
    a_addr: usize,
    b_addr: usize,
    heap: &mut Vec<u32>,
    trail: &mut Vec<u32>,
    fuel: usize,
) -> (r: bool)
    requires
        a_addr <= PAYLOAD_MASK,
        b_addr <= PAYLOAD_MASK,
    ensures
        (r, final(heap)@, final(trail)@) == ({
            let h = old(heap)@;
            let aa = a_addr as int;
            let ba = b_addr as int;
            if aa >= h.len() || ba >= h.len() {
                (false, h, old(trail)@)
            } else if cell_tag(h[aa]) != TAG_FUN || cell_tag(h[ba]) != TAG_FUN {
                (false, h, old(trail)@)
            } else if cell_payload(h[aa]) != cell_payload(h[ba]) {
                (false, h, old(trail)@)
            } else {
                unify_args_spec(aa, ba, fun_ar(h[aa]) as int, 0, h, old(trail)@, fuel as nat)
            }
        }),
    decreases fuel, 0nat,
{
    if a_addr >= heap.len() || b_addr >= heap.len() {
        return false;
    }
    let fa = heap[a_addr];
    let fb = heap[b_addr];
    if tag(fa) != TAG_FUN || tag(fb) != TAG_FUN {
        return false;
    }
    if payload(fa) != payload(fb) {
        return false;
    }
    let arity = fun_arity(fa) as usize;
    if arity > 0 && fuel == 0 {
        return false;
    }
    let mut i: usize = 0;
    let ghost h0 = heap@;
    let ghost t0 = trail@;
    while i < arity
        invariant
            i <= arity,
            arity == fun_ar(h0[a_addr as int]),
            arity < 32,
            a_addr <= PAYLOAD_MASK,
            b_addr <= PAYLOAD_MASK,
            heap@.len() == h0.len(),
            arity > 0 ==> fuel > 0,
            h0 == old(heap)@,
            t0 == old(trail)@,
            (a_addr as int) < h0.len(),
            (b_addr as int) < h0.len(),
            cell_tag(h0[a_addr as int]) == TAG_FUN,
            cell_tag(h0[b_addr as int]) == TAG_FUN,
            cell_payload(h0[a_addr as int]) == cell_payload(h0[b_addr as int]),
            unify_args_spec(a_addr as int, b_addr as int, arity as int, 0, h0, t0, fuel as nat)
                == unify_args_spec(
                a_addr as int,
                b_addr as int,
                arity as int,
                i as int,
                heap@,
                trail@,
                fuel as nat,
            ),
        decreases arity - i,
    {
        let ea = if a_addr + 1 + i < heap.len() { heap[a_addr + 1 + i] } else { 0 };
        let eb = if b_addr + 1 + i < heap.len() { heap[b_addr + 1 + i] } else { 0 };
        let ghost hb = heap@;
        let ghost tb = trail@;
        let ok = unify_fuel(ea, eb, heap, trail, fuel - 1);
        proof {
            lemma_unify_keeps_len(ea, eb, hb, tb, (fuel - 1) as nat);
            assert(ea == cell_or_zero(hb, a_addr + 1 + i));
            assert(eb == cell_or_zero(hb, b_addr + 1 + i));
        }
        if !ok {
            assert(unify_args_spec(a_addr as int, b_addr as int, arity as int, i as int, hb, tb, fuel as nat)
                == (false, heap@, trail@));
            return false;
        }
        assert(unify_args_spec(a_addr as int, b_addr as int, arity as int, i as int, hb, tb, fuel as nat)
            == unify_args_spec(a_addr as int, b_addr as int, arity as int, i + 1, heap@, trail@, fuel as nat));
        i = i + 1;
    }
    true
}

} // verus!
