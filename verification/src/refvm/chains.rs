//! Reference chains on the heap, and what unification does to them.
//!
//! A heap slot `p` *links* to slot `q` when it holds a reference to `q`
//! and `q` does not hold that same reference, which is exactly the step
//! `deref` takes. A heap is *acyclic* when no walk along links comes
//! back to where it started. On an acyclic heap `deref` always reaches
//! the end of its chain within its budget, so `unify` binds only
//! unbound variables, and undoing the trail it wrote gives back the
//! heap it started from.

use crate::refvm::heap::{
    cell_or_zero, cell_payload, cell_tag, deref_n, deref_spec, fun_ar, ref_cell, unify_args_spec,
    unify_spec, unwind_spec, TAG_REF, TAG_STR,
};
use vstd::prelude::*;
use vstd::set_lib::{lemma_int_range, lemma_len_subset, set_int_range};

verus! {

/// Slot `p` links to the slot its reference names.
pub open spec fn link(h: Seq<u32>, p: int) -> bool {
    &&& 0 <= p < h.len()
    &&& cell_tag(h[p]) == TAG_REF
    &&& (cell_payload(h[p]) as int) < h.len()
    &&& h[cell_payload(h[p]) as int] != h[p]
}

/// The slot that slot `p` names.
pub open spec fn next_ix(h: Seq<u32>, p: int) -> int {
    cell_payload(h[p]) as int
}

/// The slot reached from `p` after `k` steps.
pub open spec fn walk(h: Seq<u32>, p: int, k: nat) -> int
    decreases k,
{
    if k == 0 {
        p
    } else {
        walk(h, next_ix(h, p), (k - 1) as nat)
    }
}

/// Each of the first `k` steps from `p` follows a link.
pub open spec fn walks(h: Seq<u32>, p: int, k: nat) -> bool
    decreases k,
{
    if k == 0 {
        true
    } else {
        link(h, p) && walks(h, next_ix(h, p), (k - 1) as nat)
    }
}

/// No walk along links returns to its start.
pub open spec fn acyclic(h: Seq<u32>) -> bool {
    forall|p: int, k: nat| k >= 1 && #[trigger] walks(h, p, k) ==> walk(h, p, k) != p
}

/// Every heap cell fits in 24 bits.
pub open spec fn cells24(h: Seq<u32>) -> bool {
    forall|i: int| 0 <= i < h.len() ==> #[trigger] h[i] < 0x100_0000u32
}

/// `deref` stopped at a reference that still leads on.
pub open spec fn stuck(c: u32, h: Seq<u32>) -> bool {
    &&& cell_tag(c) == TAG_REF
    &&& (cell_payload(c) as int) < h.len()
    &&& h[cell_payload(c) as int] != c
}

proof fn lemma_walk_split(h: Seq<u32>, p: int, a: nat, b: nat)
    ensures
        walk(h, p, a + b) == walk(h, walk(h, p, a), b),
        walks(h, p, a + b) ==> walks(h, p, a) && walks(h, walk(h, p, a), b),
    decreases a,
{
    if a > 0 {
        lemma_walk_split(h, next_ix(h, p), (a - 1) as nat, b);
        assert((a + b - 1) as nat == (a - 1) as nat + b);
    }
}

proof fn lemma_walk_in_range(h: Seq<u32>, p: int, k: nat, j: nat)
    requires
        walks(h, p, k),
        k >= 1,
        j <= k,
    ensures
        0 <= walk(h, p, j) < h.len(),
    decreases k,
{
    if j > 0 {
        if k > 1 {
            lemma_walk_in_range(h, next_ix(h, p), (k - 1) as nat, (j - 1) as nat);
        }
    }
}

/// On an acyclic heap every walk along links is shorter than the heap.
proof fn lemma_walk_short(h: Seq<u32>, p: int, k: nat)
    requires
        acyclic(h),
        walks(h, p, k),
    ensures
        k < h.len() || k == 0 && h.len() == 0,
{
    if k >= 1 && k >= h.len() {
        let s = Seq::new(k + 1, |j: int| walk(h, p, j as nat));
        assert forall|i: int, j: int| 0 <= i < s.len() && 0 <= j < s.len() && i != j implies s[i] != s[j] by {
            let lo = if i < j { i } else { j };
            let hi = if i < j { j } else { i };
            lemma_walk_split(h, p, hi as nat, (k - hi) as nat);
            assert(hi as nat + (k - hi) as nat == k);
            lemma_walk_split(h, p, lo as nat, (hi - lo) as nat);
            assert(lo as nat + (hi - lo) as nat == hi as nat);
            let q = walk(h, p, lo as nat);
            if s[i] == s[j] {
                assert(walks(h, q, (hi - lo) as nat));
                assert(walk(h, q, (hi - lo) as nat) == q);
            }
        }
        assert(s.no_duplicates());
        s.unique_seq_to_set();
        lemma_int_range(0, h.len() as int);
        assert forall|x: int| s.to_set().contains(x) implies set_int_range(0, h.len() as int).contains(x) by {
            let j = choose|j: int| 0 <= j < s.len() && s[j] == x;
            lemma_walk_in_range(h, p, k, j as nat);
        }
        lemma_len_subset(s.to_set(), set_int_range(0, h.len() as int));
    }
}

/// A `deref` that ends stuck took all its steps along links.
proof fn lemma_deref_stuck(c: u32, h: Seq<u32>, n: nat)
    requires
        stuck(deref_n(c, h, n), h),
    ensures
        stuck(c, h),
        walks(h, cell_payload(c) as int, n),
    decreases n,
{
    if n > 0 && cell_tag(c) == TAG_REF && (cell_payload(c) as int) < h.len() && h[cell_payload(c) as int]
        != c {
        let p0 = cell_payload(c) as int;
        lemma_deref_stuck(h[p0], h, (n - 1) as nat);
    }
}

/// On an acyclic heap `deref` reaches the end of its chain.
pub proof fn lemma_deref_ends(c: u32, h: Seq<u32>)
    requires
        acyclic(h),
    ensures
        !stuck(deref_spec(c, h), h),
{
    if stuck(deref_spec(c, h), h) {
        lemma_deref_stuck(c, h, h.len() + 1);
        lemma_walk_short(h, cell_payload(c) as int, h.len() + 1);
    }
}

proof fn lemma_deref_24(c: u32, h: Seq<u32>, n: nat)
    requires
        c < 0x100_0000u32,
        cells24(h),
    ensures
        deref_n(c, h, n) < 0x100_0000u32,
    decreases n,
{
    if n > 0 && cell_tag(c) == TAG_REF && (cell_payload(c) as int) < h.len() && h[cell_payload(c) as int]
        != c {
        lemma_deref_24(h[cell_payload(c) as int], h, (n - 1) as nat);
    }
}

/// A 24-bit reference cell is the reference to its own payload.
proof fn lemma_ref24(x: u32)
    requires
        x < 0x100_0000u32,
        cell_tag(x) == TAG_REF,
    ensures
        x == ref_cell(cell_payload(x) as usize),
{
    let p = cell_payload(x);
    assert(p <= 0x1F_FFFFu32) by (bit_vector)
        requires
            p == x & 0x001F_FFFFu32,
    ;
    assert((p as usize) as u32 == p);
    assert(x == ((0u32 << 21u32) | (p & 0x001F_FFFFu32))) by (bit_vector)
        requires
            x < 0x100_0000u32,
            (x >> 21u32) & 7u32 == 0u32,
            p == x & 0x001F_FFFFu32,
    ;
}

/// Walks in `h2`, which differs from `h` at slot `p` only and has no
/// link from `p`, that do not end at `p` are walks in `h`.
proof fn lemma_walk_avoid(h: Seq<u32>, h2: Seq<u32>, p: int, y: u32, i: int, k: nat)
    requires
        0 <= p < h.len(),
        h2 == h.update(p, y),
        !link(h2, p),
        walks(h2, i, k),
        walk(h2, i, k) != p,
    ensures
        walks(h, i, k),
        walk(h, i, k) == walk(h2, i, k),
    decreases k,
{
    if k > 0 {
        let y1 = next_ix(h2, i);
        assert(i != p);
        assert(h2[i] == h[i]);
        assert(walks(h2, y1, (k - 1) as nat));
        assert(walk(h2, i, k) == walk(h2, y1, (k - 1) as nat));
        if y1 == p {
            if k > 1 {
                assert(link(h2, y1));
                assert(false);
            } else {
                assert(walk(h2, y1, 0) == p);
                assert(false);
            }
        } else {
            assert(h2[y1] == h[y1]);
            lemma_walk_avoid(h, h2, p, y, y1, (k - 1) as nat);
        }
    }
}

/// What unification keeps while it runs, from heap `h0` and a trail of
/// length `n`: the heap's length, 24-bit cells, no cycles; each trail
/// entry past `n` names a slot that was unbound in `h0`; each changed
/// slot has such an entry.
pub open spec fn undo_inv(h0: Seq<u32>, n: nat, h: Seq<u32>, t: Seq<u32>) -> bool {
    &&& h.len() == h0.len()
    &&& cells24(h)
    &&& acyclic(h)
    &&& n <= t.len()
    &&& forall|j: int| n <= j < t.len() ==> (#[trigger] t[j] as int) < h0.len() && h0[t[j] as int] == ref_cell(t[j] as usize)
    &&& forall|i: int| 0 <= i < h.len() && #[trigger] h[i] != h0[i] ==> exists|j: int| n <= j < t.len() && t[j] == i
}

/// Binding the end of one chain to the end of another keeps the
/// invariant.
proof fn lemma_bind_keeps(h0: Seq<u32>, n: nat, h: Seq<u32>, t: Seq<u32>, x: u32, y: u32)
    requires
        undo_inv(h0, n, h, t),
        x < 0x100_0000u32,
        y < 0x100_0000u32,
        cell_tag(x) == TAG_REF,
        (cell_payload(x) as int) < h.len(),
        !stuck(x, h),
        !stuck(y, h),
        x != y,
    ensures
        undo_inv(h0, n, h.update(cell_payload(x) as int, y), t.push(cell_payload(x))),
{
    let p = cell_payload(x) as int;
    let h2 = h.update(p, y);
    let t2 = t.push(cell_payload(x));
    lemma_ref24(x);
    if h[p] != h0[p] {
        let j = choose|j: int| n <= j < t.len() && t[j] == p;
        assert(t[j] as int == p);
    }
    assert(h0[p] == ref_cell(p as usize));
    assert(!link(h2, p));
    assert(cells24(h2));
    assert forall|i: int, k: nat| k >= 1 && #[trigger] walks(h2, i, k) implies walk(h2, i, k) != i by {
        assert(link(h2, i));
        if walk(h2, i, k) == i {
            lemma_walk_avoid(h, h2, p, y, i, k);
        }
    }
    assert forall|j: int| n <= j < t2.len() implies (#[trigger] t2[j] as int) < h0.len() && h0[t2[j] as int]
        == ref_cell(t2[j] as usize) by {
        if j < t.len() {
            assert(t2[j] == t[j]);
        }
    }
    assert forall|i: int| 0 <= i < h2.len() && #[trigger] h2[i] != h0[i] implies exists|j: int|
        n <= j < t2.len() && t2[j] == i by {
        if i == p {
            assert(t2[t.len() as int] == i);
        } else {
            let j = choose|j: int| n <= j < t.len() && t[j] == i;
            assert(t2[j] == t[j]);
        }
    }
}

proof fn lemma_prefix_trans(t: Seq<u32>, t1: Seq<u32>, t2: Seq<u32>)
    requires
        t1.len() >= t.len(),
        t1.subrange(0, t.len() as int) == t,
        t2.len() >= t1.len(),
        t2.subrange(0, t1.len() as int) == t1,
    ensures
        t2.subrange(0, t.len() as int) == t,
{
    assert forall|j: int| 0 <= j < t.len() implies t2[j] == t[j] by {
        assert(t2.subrange(0, t1.len() as int)[j] == t2[j]);
        assert(t1.subrange(0, t.len() as int)[j] == t1[j]);
    }
    assert(t2.subrange(0, t.len() as int) =~= t);
}

/// Unification keeps the invariant and only appends to the trail.
pub proof fn lemma_unify_undo(a: u32, b: u32, h: Seq<u32>, t: Seq<u32>, fuel: nat, h0: Seq<u32>, n: nat)
    requires
        undo_inv(h0, n, h, t),
        a < 0x100_0000u32,
        b < 0x100_0000u32,
    ensures
        undo_inv(h0, n, unify_spec(a, b, h, t, fuel).1, unify_spec(a, b, h, t, fuel).2),
        unify_spec(a, b, h, t, fuel).2.len() >= t.len(),
        unify_spec(a, b, h, t, fuel).2.subrange(0, t.len() as int) == t,
    decreases fuel, 1nat, 0nat,
{
    assert(t.subrange(0, t.len() as int) =~= t);
    if fuel > 0 {
        let da = deref_spec(a, h);
        let db = deref_spec(b, h);
        lemma_deref_24(a, h, h.len() + 1);
        lemma_deref_24(b, h, h.len() + 1);
        lemma_deref_ends(a, h);
        lemma_deref_ends(b, h);
        if da == db {
        } else if cell_tag(da) == TAG_REF {
            if (cell_payload(da) as int) < h.len() {
                lemma_bind_keeps(h0, n, h, t, da, db);
                assert(t.push(cell_payload(da)).subrange(0, t.len() as int) =~= t);
            }
        } else if cell_tag(db) == TAG_REF {
            if (cell_payload(db) as int) < h.len() {
                lemma_bind_keeps(h0, n, h, t, db, da);
                assert(t.push(cell_payload(db)).subrange(0, t.len() as int) =~= t);
            }
        } else if cell_tag(da) == TAG_STR && cell_tag(db) == TAG_STR {
            let aa = cell_payload(da) as int;
            let ba = cell_payload(db) as int;
            if aa < h.len() && ba < h.len() {
                lemma_args_undo(aa, ba, fun_ar(h[aa]) as int, 0, h, t, fuel, h0, n);
            }
        }
    }
}

proof fn lemma_args_undo(aa: int, ba: int, m: int, i: int, h: Seq<u32>, t: Seq<u32>, fuel: nat, h0: Seq<u32>, n: nat)
    requires
        undo_inv(h0, n, h, t),
    ensures
        undo_inv(h0, n, unify_args_spec(aa, ba, m, i, h, t, fuel).1, unify_args_spec(aa, ba, m, i, h, t, fuel).2),
        unify_args_spec(aa, ba, m, i, h, t, fuel).2.len() >= t.len(),
        unify_args_spec(aa, ba, m, i, h, t, fuel).2.subrange(0, t.len() as int) == t,
    decreases fuel, 0nat, m - i,
{
    assert(t.subrange(0, t.len() as int) =~= t);
    if i < m && fuel > 0 {
        let ea = cell_or_zero(h, aa + 1 + i);
        let eb = cell_or_zero(h, ba + 1 + i);
        lemma_unify_undo(ea, eb, h, t, (fuel - 1) as nat, h0, n);
        let r = unify_spec(ea, eb, h, t, (fuel - 1) as nat);
        if r.0 {
            lemma_args_undo(aa, ba, m, i + 1, r.1, r.2, fuel, h0, n);
            lemma_prefix_trans(t, r.2, unify_args_spec(aa, ba, m, i + 1, r.1, r.2, fuel).2);
        }
    }
}

/// Undoing the trail past `n` gives back `h0` when each entry there
/// names a slot unbound in `h0` and each changed slot has an entry.
pub proof fn lemma_unwind_restores(h0: Seq<u32>, n: nat, h: Seq<u32>, t: Seq<u32>)
    requires
        h.len() == h0.len(),
        n <= t.len(),
        forall|j: int| n <= j < t.len() ==> (#[trigger] t[j] as int) < h0.len() && h0[t[j] as int] == ref_cell(t[j] as usize),
        forall|i: int| 0 <= i < h.len() && #[trigger] h[i] != h0[i] ==> exists|j: int| n <= j < t.len() && t[j] == i,
    ensures
        unwind_spec(n, h, t) == h0,
    decreases t.len(),
{
    if t.len() <= n {
        assert forall|i: int| 0 <= i < h.len() implies h[i] == h0[i] by {
            if h[i] != h0[i] {
                let j = choose|j: int| n <= j < t.len() && t[j] == i;
            }
        }
        assert(h =~= h0);
    } else {
        let a = t.last();
        let h2 = h.update(a as int, ref_cell(a as usize));
        let t2 = t.drop_last();
        assert(t[t.len() - 1] == a);
        assert forall|j: int| n <= j < t2.len() implies (#[trigger] t2[j] as int) < h0.len() && h0[t2[j] as int]
            == ref_cell(t2[j] as usize) by {
            assert(t2[j] == t[j]);
        }
        assert forall|i: int| 0 <= i < h2.len() && #[trigger] h2[i] != h0[i] implies exists|j: int|
            n <= j < t2.len() && t2[j] == i by {
            assert(i != a as int);
            assert(h2[i] == h[i]);
            let j = choose|j: int| n <= j < t.len() && t[j] == i;
            assert(j != t.len() - 1);
            assert(t2[j] == t[j]);
        }
        lemma_unwind_restores(h0, n, h2, t2);
    }
}

} // verus!
