//! `Vmap<N>`: a linear-scan map from short string keys to `i32`,
//! holding at most `N` entries. Keys are `BoundedStr<16>`.

use super::bounded_arr::BoundedArr;
use super::bounded_str::BoundedStr;
use super::error::PortError;
use vstd::prelude::*;
use vstd::std_specs::iter::IteratorSpec;
use vstd::string::StringSliceAdditionalSpecFns;

verus! {

pub type VKey = BoundedStr<16>;

/// One key and its value.
#[derive(Clone, Copy, Debug)]
pub struct VEntry {
    pub key: VKey,
    pub val: i32,
}

/// A map of at most `N` entries, looked up by scanning from the front.
pub struct Vmap<const N: usize> {
    ents: BoundedArr<VEntry, N>,
}

/// The value of the first entry whose key has bytes `k`.
pub open spec fn lookup(es: Seq<VEntry>, k: Seq<u8>) -> Option<i32>
    decreases es.len(),
{
    if es.len() == 0 {
        None
    } else if es[0].key@ == k {
        Some(es[0].val)
    } else {
        lookup(es.subrange(1, es.len() as int), k)
    }
}

/// The index of the first entry whose key has bytes `k`.
pub open spec fn key_index(es: Seq<VEntry>, k: Seq<u8>) -> int
    decreases es.len(),
{
    if es.len() == 0 {
        -1
    } else if es[0].key@ == k {
        0
    } else {
        let r = key_index(es.subrange(1, es.len() as int), k);
        if r < 0 { -1 } else { r + 1 }
    }
}

proof fn lemma_key_index(es: Seq<VEntry>, k: Seq<u8>)
    ensures
        -1 <= key_index(es, k) < es.len(),
        key_index(es, k) >= 0 ==> es[key_index(es, k)].key@ == k
            && lookup(es, k) == Some(es[key_index(es, k)].val),
        key_index(es, k) >= 0 ==> forall|j: int| 0 <= j < key_index(es, k) ==> es[j].key@ != k,
        key_index(es, k) < 0 ==> lookup(es, k) is None && forall|j: int|
            0 <= j < es.len() ==> es[j].key@ != k,
    decreases es.len(),
{
    if es.len() > 0 && es[0].key@ != k {
        let rest = es.subrange(1, es.len() as int);
        lemma_key_index(rest, k);
        let r = key_index(rest, k);
        if r >= 0 {
            assert(es[r + 1] == rest[r]);
            assert forall|j: int| 0 <= j < r + 1 implies es[j].key@ != k by {
                if j > 0 {
                    assert(es[j] == rest[j - 1]);
                }
            }
        } else {
            assert forall|j: int| 0 <= j < es.len() implies es[j].key@ != k by {
                if j > 0 {
                    assert(es[j] == rest[j - 1]);
                }
            }
        }
    }
}

/// Replacing the value of entry `i`, or appending a new entry, changes
/// the lookup of key `k` to `v` and of no other key.
proof fn lemma_lookup_update(es: Seq<VEntry>, k: Seq<u8>, v: i32, e: VEntry, k2: Seq<u8>)
    requires
        e.key@ == k,
        e.val == v,
    ensures
        key_index(es, k) >= 0 ==> lookup(es.update(key_index(es, k), e), k2) == (if k2 == k {
            Some(v)
        } else {
            lookup(es, k2)
        }),
        key_index(es, k) < 0 ==> lookup(es.push(e), k2) == (if k2 == k {
            Some(v)
        } else {
            lookup(es, k2)
        }),
    decreases es.len(),
{
    lemma_key_index(es, k);
    let ki = key_index(es, k);
    if es.len() == 0 {
        let s = es.push(e);
        assert(s.subrange(1, s.len() as int) =~= Seq::<VEntry>::empty());
        assert(lookup(s.subrange(1, s.len() as int), k2) is None);
    } else {
        let rest = es.subrange(1, es.len() as int);
        lemma_lookup_update(rest, k, v, e, k2);
        if ki == 0 {
            let u = es.update(0, e);
            assert(u.subrange(1, u.len() as int) =~= rest);
        } else if ki > 0 {
            let u = es.update(ki, e);
            assert(key_index(rest, k) == ki - 1);
            assert(u.subrange(1, u.len() as int) =~= rest.update(ki - 1, e));
            assert(u[0] == es[0]);
        } else {
            let u = es.push(e);
            assert(key_index(rest, k) < 0);
            assert(u.subrange(1, u.len() as int) =~= rest.push(e));
            assert(u[0] == es[0]);
        }
    }
}

impl<const N: usize> View for Vmap<N> {
    type V = Seq<VEntry>;

    closed spec fn view(&self) -> Seq<VEntry> {
        self.ents@
    }
}

impl<const N: usize> Vmap<N> {
    /// The value stored under the key with bytes `k`.
    pub open spec fn spec_get(&self, k: Seq<u8>) -> Option<i32> {
        lookup(self@, k)
    }

    pub fn new() -> (r: Self)
        ensures
            r@ == Seq::<VEntry>::empty(),
    {
        Self { ents: BoundedArr::new() }
    }

    /// Sets the value of key `k` to `v`: an existing key is overwritten
    /// in place, a new key is appended when there is room.
    pub fn insert(&mut self, k: &str, v: i32) -> (r: Result<(), PortError>)
        ensures
            k.spec_bytes().len() > 16 ==> r == Err::<(), PortError>(PortError::Overflow)
                && final(self)@ == old(self)@,
            k.spec_bytes().len() <= 16 && key_index(old(self)@, k.spec_bytes()) >= 0 ==> r is Ok
                && final(self)@.len() == old(self)@.len(),
            k.spec_bytes().len() <= 16 && key_index(old(self)@, k.spec_bytes()) < 0 ==> (
            old(self)@.len() < N <==> r is Ok),
            k.spec_bytes().len() <= 16 && key_index(old(self)@, k.spec_bytes()) < 0 && r is Ok
                ==> final(self)@.len() == old(self)@.len() + 1,
            r is Ok ==> forall|k2: Seq<u8>|
                #![trigger final(self).spec_get(k2)]
                final(self).spec_get(k2) == (if k2 == k.spec_bytes() {
                    Some(v)
                } else {
                    old(self).spec_get(k2)
                }),
            r is Err ==> r == Err::<(), PortError>(PortError::Overflow) && final(self)@ == old(
                self,
            )@,
    {
        let key = match VKey::from_str(k) {
            Ok(key) => key,
            Err(e) => return Err(e),
        };
        let ghost ks = k.spec_bytes();
        let n = self.ents.len();
        let mut i: usize = 0;
        while i < n
            invariant
                n == self.ents@.len(),
                self.ents@ == old(self).ents@,
                key@ == ks,
                ks.len() <= 16,
                ks == k.spec_bytes(),
                i <= n,
                forall|j: int| 0 <= j < i ==> self.ents@[j].key@ != ks,
            decreases n - i,
        {
            let ek = self.ents.get(i).unwrap().key;
            if ek == key {
                proof {
                    lemma_key_index(self.ents@, ks);
                    if key_index(self.ents@, ks) < i {
                        assert(self.ents@[key_index(self.ents@, ks)].key@ != ks);
                    }
                    assert(key_index(self.ents@, ks) == i);
                }
                let ghost old_es = self.ents@;
                let entry = self.ents.get_mut(i).unwrap();
                entry.val = v;
                proof {
                    let ne = VEntry { key: old_es[i as int].key, val: v };
                    assert(self.ents@ == old_es.update(i as int, ne));
                    assert forall|k2: Seq<u8>| #![trigger self.spec_get(k2)]
                        self.spec_get(k2) == (if k2 == ks { Some(v) } else { lookup(old_es, k2) })
                    by {
                        lemma_lookup_update(old_es, ks, v, ne, k2);
                    }
                }
                return Ok(());
            }
            i = i + 1;
        }
        proof {
            lemma_key_index(self.ents@, ks);
            if key_index(self.ents@, ks) >= 0 {
                assert(self.ents@[key_index(self.ents@, ks)].key@ != ks);
            }
        }
        let ghost old_es = self.ents@;
        let r = self.ents.push(VEntry { key, val: v });
        proof {
            if r is Ok {
                assert forall|k2: Seq<u8>| #![trigger self.spec_get(k2)]
                    self.spec_get(k2) == (if k2 == ks { Some(v) } else { lookup(old_es, k2) })
                by {
                    lemma_lookup_update(old_es, ks, v, VEntry { key, val: v }, k2);
                }
            }
        }
        r
    }

    pub fn get(&self, k: &str) -> (r: Option<i32>)
        ensures
            k.spec_bytes().len() > 16 ==> r is None,
            k.spec_bytes().len() <= 16 ==> r == self.spec_get(k.spec_bytes()),
    {
        let key = match VKey::from_str(k) {
            Ok(key) => key,
            Err(_) => return None,
        };
        let ghost ks = k.spec_bytes();
        let n = self.ents.len();
        let mut i: usize = 0;
        while i < n
            invariant
                n == self.ents@.len(),
                key@ == ks,
                ks.len() <= 16,
                ks == k.spec_bytes(),
                i <= n,
                forall|j: int| 0 <= j < i ==> self.ents@[j].key@ != ks,
            decreases n - i,
        {
            let e = self.ents.get(i).unwrap();
            if e.key == key {
                proof {
                    lemma_key_index(self.ents@, ks);
                    if key_index(self.ents@, ks) < i {
                        assert(self.ents@[key_index(self.ents@, ks)].key@ != ks);
                    }
                    assert(key_index(self.ents@, ks) == i);
                }
                return Some(e.val);
            }
            i = i + 1;
        }
        proof {
            lemma_key_index(self.ents@, ks);
            if key_index(self.ents@, ks) >= 0 {
                assert(self.ents@[key_index(self.ents@, ks)].key@ != ks);
            }
        }
        None
    }

    pub fn len(&self) -> (r: usize)
        ensures
            r == self@.len(),
            r <= N,
    {
        self.ents.len()
    }

    pub fn is_empty(&self) -> (r: bool)
        ensures
            r == (self@.len() == 0),
    {
        self.ents.is_empty()
    }

    /// Each entry's key and value, in insertion order.
    pub fn iter(&self) -> (it: std::vec::IntoIter<(&VKey, i32)>)
        ensures
            it.remaining().len() == self@.len(),
            forall|i: int|
                0 <= i < self@.len() ==> #[trigger] it.remaining()[i] == (&self@[i].key, self@[i].val),
    {
        let mut v: Vec<(&VKey, i32)> = Vec::new();
        let n = self.ents.len();
        let mut i: usize = 0;
        while i < n
            invariant
                n == self@.len(),
                i <= n,
                v@.len() == i,
                forall|j: int| 0 <= j < i ==> #[trigger] v@[j] == (&self@[j].key, self@[j].val),
            decreases n - i,
        {
            let e = self.ents.get(i).unwrap();
            v.push((&e.key, e.val));
            i = i + 1;
        }
        v.into_iter()
    }
}

impl<const N: usize> Default for Vmap<N> {
    fn default() -> (r: Self)
        ensures
            r@ == Seq::<VEntry>::empty(),
    {
        Self::new()
    }
}

} // verus!
