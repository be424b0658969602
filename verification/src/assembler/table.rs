//! The assembler's symbol tables: atom names to ids, label names to
//! cell addresses. A table has a fixed capacity; names longer than
//! `NAME_CAP` bytes are refused. Lookups return the first entry of a
//! name.

use super::AsmError;
use crate::text::bytes_eq;
use vstd::prelude::*;

verus! {

/// Longest atom or label name, in bytes.
pub const NAME_CAP: usize = 48;

/// Capacity of the atom table.
pub const MAX_ATOMS: usize = 64;

/// Capacity of the label table.
pub const MAX_LABELS: usize = 128;

/// Entries in insertion order.
pub type TabV = Seq<(Seq<u8>, u32)>;

/// Adding `name` with value `v`.
pub open spec fn tab_insert(t: TabV, name: Seq<u8>, v: u32, line: u32, cap: nat, overflow: AsmError) -> Result<TabV, AsmError> {
    if name.len() > NAME_CAP {
        Err(AsmError::NameTooLong { line })
    } else if t.len() >= cap {
        Err(overflow)
    } else {
        Ok(t.push((name, v)))
    }
}

/// The value of the first entry named `name` at or after index `i`.
pub open spec fn lookup_from(t: TabV, name: Seq<u8>, i: nat) -> Option<u32>
    decreases t.len() - i,
{
    if i >= t.len() {
        None
    } else if t[i as int].0 == name {
        Some(t[i as int].1)
    } else {
        lookup_from(t, name, i + 1)
    }
}

/// The value of the first entry named `name`.
pub open spec fn tab_lookup(t: TabV, name: Seq<u8>) -> Option<u32> {
    lookup_from(t, name, 0)
}

/// A bounded table of names borrowed from the source text.
pub struct SymTab<'a> {
    entries: Vec<(&'a [u8], u32)>,
    cap: usize,
    overflow: AsmError,
}

impl<'a> View for SymTab<'a> {
    type V = TabV;

    closed spec fn view(&self) -> TabV {
        self.entries@.map_values(|e: (&'a [u8], u32)| (e.0@, e.1))
    }
}

impl<'a> SymTab<'a> {
    /// The capacity given at construction.
    pub closed spec fn capacity(&self) -> nat {
        self.cap as nat
    }

    /// The error of a full table.
    pub closed spec fn full_error(&self) -> AsmError {
        self.overflow
    }

    /// An empty atom table.
    pub fn atoms() -> (r: Self)
        ensures
            r@ == Seq::<(Seq<u8>, u32)>::empty(),
            r.capacity() == MAX_ATOMS,
            r.full_error() == AsmError::AtomOverflow,
    {
        let r = SymTab { entries: Vec::new(), cap: MAX_ATOMS, overflow: AsmError::AtomOverflow };
        proof {
            assert(r@ =~= Seq::<(Seq<u8>, u32)>::empty());
        }
        r
    }

    /// An empty label table.
    pub fn labels() -> (r: Self)
        ensures
            r@ == Seq::<(Seq<u8>, u32)>::empty(),
            r.capacity() == MAX_LABELS,
            r.full_error() == AsmError::LabelOverflow,
    {
        let r = SymTab { entries: Vec::new(), cap: MAX_LABELS, overflow: AsmError::LabelOverflow };
        proof {
            assert(r@ =~= Seq::<(Seq<u8>, u32)>::empty());
        }
        r
    }

    /// Adds `name` with value `v`; `line` is reported with a name that
    /// is too long.
    pub fn insert(&mut self, name: &'a [u8], v: u32, line: u32) -> (r: Result<(), AsmError>)
        ensures
            final(self).capacity() == old(self).capacity(),
            final(self).full_error() == old(self).full_error(),
            match tab_insert(old(self)@, name@, v, line, old(self).capacity(), old(self).full_error()) {
                Ok(t) => r is Ok && final(self)@ == t,
                Err(e) => r == Err::<(), AsmError>(e) && final(self)@ == old(self)@,
            },
    {
        if name.len() > NAME_CAP {
            return Err(AsmError::NameTooLong { line });
        }
        if self.entries.len() >= self.cap {
            return Err(self.overflow);
        }
        self.entries.push((name, v));
        proof {
            assert(final(self)@ =~= old(self)@.push((name@, v)));
        }
        Ok(())
    }

    /// The value of the first entry named `name`.
    pub fn get(&self, name: &[u8]) -> (r: Option<u32>)
        ensures
            r == tab_lookup(self@, name@),
    {
        let mut i: usize = 0;
        while i < self.entries.len()
            invariant
                i <= self.entries@.len(),
                tab_lookup(self@, name@) == lookup_from(self@, name@, i as nat),
            decreases self.entries@.len() - i,
        {
            let e = self.entries[i];
            if bytes_eq(e.0, name) {
                return Some(e.1);
            }
            i = i + 1;
        }
        None
    }
}

} // verus!
