//! Builtin predicates `B_WRITE` and `B_NL`.
//!
//! Both append text to a byte buffer. An integer payload is 21 bits
//! wide, bit 20 being the sign. Lists print as `[a, b | T]`; a functor
//! whose name is missing from the atom table prints as `atom(id)`.
//!
//! Terms nest at most as deep as the heap is long unless the heap holds
//! a cycle; the writer carries that depth (and, for list spines, that
//! many cells) as a budget and prints `...` where a cyclic term would
//! otherwise go on forever.

use super::heap::{
    cell_payload, cell_tag, deref, deref_spec, fun_ar, fun_arity, fun_atom, fun_atom_id, payload,
    tag, TAG_ATOM, TAG_FUN, TAG_INT, TAG_REF, TAG_STR,
};
use crate::text::{
    decimal, hex6, push_decimal, push_hex6, push_signed, push_str, signed_decimal, str_eq,
};
use vstd::prelude::*;
use vstd::string::StringSliceAdditionalSpecFns;
use vstd::utf8::encode_utf8;

verus! {

pub const INT_SIGN_BIT: u32 = 0x0010_0000;
pub const INT_SIGN_EXTEND: u32 = 0xFFE0_0000;

/// The bytes of a table name.
pub open spec fn name_bytes(s: String) -> Seq<u8> {
    encode_utf8(s@)
}

/// Atom `id` is in the table and named `lit`.
pub open spec fn is_named(atoms: Seq<String>, id: nat, lit: &str) -> bool {
    id < atoms.len() && name_bytes(atoms[id as int]) == lit.spec_bytes()
}

/// The text of atom `id`: its name, or `atom(id)` outside the table.
pub open spec fn atom_text(id: nat, atoms: Seq<String>) -> Seq<u8> {
    if id < atoms.len() {
        name_bytes(atoms[id as int])
    } else {
        "atom(".spec_bytes() + decimal(id) + ")".spec_bytes()
    }
}

/// The value of a 21-bit integer payload, bit 20 being the sign.
pub open spec fn int_value(p: u32) -> i32 {
    if p & INT_SIGN_BIT != 0 {
        (p | INT_SIGN_EXTEND) as i32
    } else {
        p as i32
    }
}

/// The text of a term nested inside another, with `fuel` levels left.
pub open spec fn inner_text(cell: u32, heap: Seq<u32>, atoms: Seq<String>, fuel: nat) -> Seq<u8>
    decreases fuel, 0nat, 0nat,
{
    if fuel == 0 {
        "...".spec_bytes()
    } else {
        term_text(cell, heap, atoms, (fuel - 1) as nat)
    }
}

/// The text that `write_term` prints for `cell`.
pub open spec fn term_text(cell: u32, heap: Seq<u32>, atoms: Seq<String>, fuel: nat) -> Seq<u8>
    decreases fuel, 4nat, 0nat,
{
    let c = deref_spec(cell, heap);
    let t = cell_tag(c);
    if t == TAG_ATOM {
        atom_text(cell_payload(c) as nat, atoms)
    } else if t == TAG_INT {
        signed_decimal(int_value(cell_payload(c)) as int)
    } else if t == TAG_REF {
        "_G".spec_bytes() + decimal(cell_payload(c) as nat)
    } else if t == TAG_STR {
        struct_text(cell_payload(c) as nat, heap, atoms, fuel)
    } else {
        "<unsupported:".spec_bytes() + hex6(c & 0x00FF_FFFFu32) + ">".spec_bytes()
    }
}

/// The structure whose functor cell is at `addr` is a list cell `'.'/2`.
pub open spec fn is_cons(addr: nat, heap: Seq<u32>, atoms: Seq<String>) -> bool {
    &&& addr < heap.len()
    &&& cell_tag(heap[addr as int]) == TAG_FUN
    &&& fun_ar(heap[addr as int]) == 2
    &&& is_named(atoms, fun_atom(heap[addr as int]) as nat, ".")
}

/// The text of the structure whose functor cell is at `addr`.
pub open spec fn struct_text(addr: nat, heap: Seq<u32>, atoms: Seq<String>, fuel: nat) -> Seq<u8>
    decreases fuel, 3nat, 0nat,
{
    if addr >= heap.len() {
        "<bad_str@".spec_bytes() + decimal(addr) + ">".spec_bytes()
    } else if cell_tag(heap[addr as int]) != TAG_FUN {
        "<not_fun@".spec_bytes() + decimal(addr) + ">".spec_bytes()
    } else if is_cons(addr, heap, atoms) {
        "[".spec_bytes() + list_text(addr, true, heap, atoms, fuel, heap.len())
    } else {
        let f = heap[addr as int];
        atom_text(fun_atom(f) as nat, atoms) + "(".spec_bytes() + args_text(
            addr,
            fun_ar(f) as nat,
            0,
            heap,
            atoms,
            fuel,
        ) + ")".spec_bytes()
    }
}

/// The arguments `i..n` of the structure at `addr`, comma-separated.
pub open spec fn args_text(
    addr: nat,
    n: nat,
    i: nat,
    heap: Seq<u32>,
    atoms: Seq<String>,
    fuel: nat,
) -> Seq<u8>
    decreases fuel, 2nat, n - i,
{
    if i >= n {
        Seq::empty()
    } else {
        let sep = if i > 0 { ", ".spec_bytes() } else { Seq::empty() };
        let arg = if addr + 1 + i >= heap.len() {
            "<oob>".spec_bytes()
        } else {
            inner_text(heap[(addr + 1 + i) as int], heap, atoms, fuel)
        };
        sep + arg + args_text(addr, n, i + 1, heap, atoms, fuel)
    }
}

/// The rest of a list from the cell at `addr` (the `[` is already
/// out), following at most `steps` further list cells.
pub open spec fn list_text(
    addr: nat,
    first: bool,
    heap: Seq<u32>,
    atoms: Seq<String>,
    fuel: nat,
    steps: nat,
) -> Seq<u8>
    decreases fuel, 1nat, steps,
{
    if addr + 2 >= heap.len() {
        "]".spec_bytes()
    } else {
        let sep = if first { Seq::empty() } else { ", ".spec_bytes() };
        let head = sep + inner_text(heap[(addr + 1) as int], heap, atoms, fuel);
        let tail = deref_spec(heap[(addr + 2) as int], heap);
        if cell_tag(tail) == TAG_ATOM {
            if is_named(atoms, cell_payload(tail) as nat, "[]") {
                head + "]".spec_bytes()
            } else {
                head + " | ".spec_bytes() + atom_text(cell_payload(tail) as nat, atoms)
                    + "]".spec_bytes()
            }
        } else if cell_tag(tail) == TAG_STR && is_cons(cell_payload(tail) as nat, heap, atoms) {
            if steps == 0 {
                head + "]".spec_bytes()
            } else {
                head + list_text(cell_payload(tail) as nat, false, heap, atoms, fuel, (steps - 1) as nat)
            }
        } else {
            head + " | ".spec_bytes() + inner_text(tail, heap, atoms, fuel) + "]".spec_bytes()
        }
    }
}

/// Appends the text of `cell`, dereferenced on `heap`, with names from
/// `atoms`.
pub fn write_term(cell: u32, heap: &[u32], atoms: &[String], out: &mut Vec<u8>)
    ensures
        final(out)@ == old(out)@ + term_text(cell, heap@, atoms@, heap@.len()),
{
    write_term_fuel(cell, heap, atoms, out, heap.len());
}

fn write_term_fuel(cell: u32, heap: &[u32], atoms: &[String], out: &mut Vec<u8>, fuel: usize)
    ensures
        final(out)@ == old(out)@ + term_text(cell, heap@, atoms@, fuel as nat),
    decreases fuel, 4nat,
{
    let c = deref(cell, heap);
    let t = tag(c);
    if t == TAG_ATOM {
        write_atom(payload(c), atoms, out);
    } else if t == TAG_INT {
        write_int(payload(c), out);
    } else if t == TAG_REF {
        push_str(out, "_G");
        push_decimal(out, payload(c) as u64);
        proof {
            assert(final(out)@ =~= old(out)@ + term_text(cell, heap@, atoms@, fuel as nat));
        }
    } else if t == TAG_STR {
        write_struct(payload(c) as usize, heap, atoms, out, fuel);
    } else {
        push_str(out, "<unsupported:");
        push_hex6(out, c & 0x00FF_FFFF);
        push_str(out, ">");
        proof {
            assert(final(out)@ =~= old(out)@ + term_text(cell, heap@, atoms@, fuel as nat));
        }
    }
}

fn write_inner(cell: u32, heap: &[u32], atoms: &[String], out: &mut Vec<u8>, fuel: usize)
    ensures
        final(out)@ == old(out)@ + inner_text(cell, heap@, atoms@, fuel as nat),
    decreases fuel, 0nat,
{
    if fuel == 0 {
        push_str(out, "...");
    } else {
        write_term_fuel(cell, heap, atoms, out, fuel - 1);
    }
}

/// Atom `id` is in the table and named `lit`.
fn atom_is(atoms: &[String], id: usize, lit: &str) -> (r: bool)
    ensures
        r == is_named(atoms@, id as nat, lit),
{
    if id < atoms.len() {
        str_eq(atoms[id].as_str(), lit)
    } else {
        false
    }
}

fn is_cons_at(addr: usize, heap: &[u32], atoms: &[String]) -> (r: bool)
    ensures
        r == is_cons(addr as nat, heap@, atoms@),
{
    if addr >= heap.len() {
        return false;
    }
    let f = heap[addr];
    tag(f) == TAG_FUN && fun_arity(f) == 2 && atom_is(atoms, fun_atom_id(f) as usize, ".")
}

fn write_struct(addr: usize, heap: &[u32], atoms: &[String], out: &mut Vec<u8>, fuel: usize)
    ensures
        final(out)@ == old(out)@ + struct_text(addr as nat, heap@, atoms@, fuel as nat),
    decreases fuel, 3nat,
{
    if addr >= heap.len() {
        push_str(out, "<bad_str@");
        push_decimal(out, addr as u64);
        push_str(out, ">");
        proof {
            assert(final(out)@ =~= old(out)@ + struct_text(addr as nat, heap@, atoms@, fuel as nat));
        }
        return;
    }
    let f = heap[addr];
    if tag(f) != TAG_FUN {
        push_str(out, "<not_fun@");
        push_decimal(out, addr as u64);
        push_str(out, ">");
        proof {
            assert(final(out)@ =~= old(out)@ + struct_text(addr as nat, heap@, atoms@, fuel as nat));
        }
        return;
    }
    if is_cons_at(addr, heap, atoms) {
        push_str(out, "[");
        write_list(addr, true, heap, atoms, out, fuel, heap.len());
        proof {
            assert(final(out)@ =~= old(out)@ + struct_text(addr as nat, heap@, atoms@, fuel as nat));
        }
        return;
    }
    write_atom(fun_atom_id(f), atoms, out);
    push_str(out, "(");
    write_args(addr, fun_arity(f) as usize, 0, heap, atoms, out, fuel);
    push_str(out, ")");
    proof {
        assert(final(out)@ =~= old(out)@ + struct_text(addr as nat, heap@, atoms@, fuel as nat));
    }
}

fn write_args(
    addr: usize,
    n: usize,
    i: usize,
    heap: &[u32],
    atoms: &[String],
    out: &mut Vec<u8>,
    fuel: usize,
)
    requires
        n < 32,
        addr < heap@.len(),
    ensures
        final(out)@ == old(out)@ + args_text(addr as nat, n as nat, i as nat, heap@, atoms@, fuel as nat),
    decreases fuel, 2nat, n - i,
{
    if i >= n {
        proof {
            assert(final(out)@ =~= old(out)@ + args_text(addr as nat, n as nat, i as nat, heap@, atoms@, fuel as nat));
        }
        return;
    }
    if i > 0 {
        push_str(out, ", ");
    }
    if i + 1 >= heap.len() - addr {
        push_str(out, "<oob>");
    } else {
        write_inner(heap[addr + 1 + i], heap, atoms, out, fuel);
    }
    write_args(addr, n, i + 1, heap, atoms, out, fuel);
    proof {
        assert(final(out)@ =~= old(out)@ + args_text(addr as nat, n as nat, i as nat, heap@, atoms@, fuel as nat));
    }
}

#[verifier::rlimit(40)]
fn write_list(
    addr: usize,
    first: bool,
    heap: &[u32],
    atoms: &[String],
    out: &mut Vec<u8>,
    fuel: usize,
    steps: usize,
)
    requires
        addr < heap@.len(),
    ensures
        final(out)@ == old(out)@ + list_text(addr as nat, first, heap@, atoms@, fuel as nat, steps as nat),
    decreases fuel, 1nat, steps,
{
    let ghost spec = list_text(addr as nat, first, heap@, atoms@, fuel as nat, steps as nat);
    if heap.len() - addr <= 2 {
        push_str(out, "]");
        return;
    }
    let ghost o = out@;
    if !first {
        push_str(out, ", ");
    }
    write_inner(heap[addr + 1], heap, atoms, out, fuel);
    let ghost head = out@.subrange(o.len() as int, out@.len() as int);
    proof {
        let sep = if first { Seq::<u8>::empty() } else { ", ".spec_bytes() };
        assert(head =~= sep + inner_text(heap@[(addr + 1) as int], heap@, atoms@, fuel as nat));
        assert(out@ =~= o + head);
    }
    let tail = deref(heap[addr + 2], heap);
    let ghost o2 = out@;
    if tag(tail) == TAG_ATOM {
        if atom_is(atoms, payload(tail) as usize, "[]") {
            push_str(out, "]");
            proof {
                assert(spec == head + "]".spec_bytes());
                assert(out@ =~= o + spec);
            }
        } else {
            push_str(out, " | ");
            write_atom(payload(tail), atoms, out);
            push_str(out, "]");
            proof {
                assert(spec == head + " | ".spec_bytes() + atom_text(cell_payload(tail) as nat, atoms@)
                    + "]".spec_bytes());
                assert(out@ =~= o + spec);
            }
        }
    } else if tag(tail) == TAG_STR && is_cons_at(payload(tail) as usize, heap, atoms) {
        if steps == 0 {
            push_str(out, "]");
            proof {
                assert(spec == head + "]".spec_bytes());
                assert(out@ =~= o + spec);
            }
        } else {
            write_list(payload(tail) as usize, false, heap, atoms, out, fuel, steps - 1);
            proof {
                assert(spec == head + list_text(cell_payload(tail) as nat, false, heap@, atoms@, fuel as nat, (steps - 1) as nat));
                assert(out@ =~= o + spec);
            }
        }
    } else {
        push_str(out, " | ");
        write_inner(tail, heap, atoms, out, fuel);
        push_str(out, "]");
        proof {
            assert(spec == head + " | ".spec_bytes() + inner_text(tail, heap@, atoms@, fuel as nat) + "]".spec_bytes());
            assert(out@ =~= o + spec);
        }
    }
}

/// Appends a newline.
pub fn write_nl(out: &mut Vec<u8>)
    ensures
        final(out)@ == old(out)@ + "\n".spec_bytes(),
{
    push_str(out, "\n");
}

fn write_atom(id: u32, atoms: &[String], out: &mut Vec<u8>)
    ensures
        final(out)@ == old(out)@ + atom_text(id as nat, atoms@),
{
    let ix = id as usize;
    if ix < atoms.len() {
        push_str(out, atoms[ix].as_str());
    } else {
        push_str(out, "atom(");
        push_decimal(out, id as u64);
        push_str(out, ")");
        proof {
            assert(final(out)@ =~= old(out)@ + atom_text(id as nat, atoms@));
        }
    }
}

fn write_int(p: u32, out: &mut Vec<u8>)
    ensures
        final(out)@ == old(out)@ + signed_decimal(int_value(p) as int),
{
    let value: i32 = if p & INT_SIGN_BIT != 0 {
        (p | INT_SIGN_EXTEND) as i32
    } else {
        p as i32
    };
    push_signed(out, value as i64);
}

} // verus!
