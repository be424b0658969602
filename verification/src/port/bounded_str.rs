//! `BoundedStr<N>`: a UTF-8 string of at most `N` bytes (and at most
//! 255), stored inline so that the value is `Copy`.

use super::error::PortError;
use vstd::prelude::*;
use vstd::string::StringSliceAdditionalSpecFns;
use vstd::utf8::*;

verus! {

/// A string of at most `min(N, 255)` bytes of valid UTF-8.
#[derive(Clone, Copy, Debug)]
pub struct BoundedStr<const N: usize> {
    buf: [u8; N],
    len: u8,
}

impl<const N: usize> View for BoundedStr<N> {
    type V = Seq<u8>;

    closed spec fn view(&self) -> Seq<u8> {
        self.buf@.subrange(0, self.len as int)
    }
}

/// Every byte is below 0x80.
pub open spec fn ascii_bytes(b: Seq<u8>) -> bool {
    forall|i: int| 0 <= i < b.len() ==> #[trigger] b[i] < 0x80
}

/// ASCII bytes are valid UTF-8.
pub proof fn lemma_ascii_valid_utf8(b: Seq<u8>)
    requires
        ascii_bytes(b),
    ensures
        valid_utf8(b),
    decreases b.len(),
{
    if b.len() != 0 {
        assert(is_leading_byte_width_1(b[0]));
        let rest = b.subrange(1, b.len() as int);
        assert(pop_first_scalar(b) =~= rest);
        assert(ascii_bytes(rest)) by {
            assert forall|i: int| 0 <= i < rest.len() implies #[trigger] rest[i] < 0x80 by {
                assert(rest[i] == b[i + 1]);
            }
        }
        lemma_ascii_valid_utf8(rest);
    }
}

/// The string slice of a byte sequence (`core::str::from_utf8`). Its
/// documentation states that the call succeeds exactly when the bytes
/// are valid UTF-8, and that the slice then holds those same bytes.
#[verifier::external_body]
pub(crate) fn str_of_utf8(b: &[u8]) -> (r: Option<&str>)
    ensures
        r is Some <==> valid_utf8(b@),
        r matches Some(s) ==> s.spec_bytes() == b@,
{
    match core::str::from_utf8(b) {
        Ok(s) => Some(s),
        Err(_) => None,
    }
}

impl<const N: usize> BoundedStr<N> {
    #[verifier::type_invariant]
    spec fn inv(self) -> bool {
        &&& self.len as int <= N
        &&& valid_utf8(self.buf@.subrange(0, self.len as int))
    }

    /// The byte bound every value keeps.
    pub closed spec fn cap() -> int {
        if N < 255 { N as int } else { 255 }
    }

    pub fn new() -> (r: Self)
        ensures
            r@ == Seq::<u8>::empty(),
    {
        let r = Self { buf: [0u8; N], len: 0 };
        proof {
            assert(r@ =~= Seq::<u8>::empty());
        }
        r
    }

    /// Builds the string from `b[start..end]`.
    pub fn from_bytes(b: &[u8], start: usize, end: usize) -> (r: Result<Self, PortError>)
        requires
            start <= end <= b@.len(),
            valid_utf8(b@.subrange(start as int, end as int)),
        ensures
            (end - start <= N && end - start <= 255) ==> r is Ok && r->Ok_0@ == b@.subrange(
                start as int,
                end as int,
            ),
            !(end - start <= N && end - start <= 255) ==> r == Err::<Self, PortError>(
                PortError::Overflow,
            ),
    {
        let n = end - start;
        if n > N || n > 255 {
            return Err(PortError::Overflow);
        }
        let mut buf = [0u8; N];
        let mut i: usize = 0;
        while i < n
            invariant
                i <= n,
                n == end - start,
                n <= 255,
                start <= end <= b@.len(),
                buf@.len() == N,
                n <= N,
                forall|j: int| 0 <= j < i ==> buf@[j] == b@[start + j],
            decreases n - i,
        {
            buf[i] = b[start + i];
            i = i + 1;
        }
        proof {
            assert(buf@.subrange(0, n as int) =~= b@.subrange(start as int, end as int));
        }
        let r = Self { buf, len: n as u8 };
        Ok(r)
    }

    pub fn from_str(s: &str) -> (r: Result<Self, PortError>)
        ensures
            (s.spec_bytes().len() <= N && s.spec_bytes().len() <= 255) ==> r is Ok && r->Ok_0@
                == s.spec_bytes(),
            !(s.spec_bytes().len() <= N && s.spec_bytes().len() <= 255) ==> r == Err::<
                Self,
                PortError,
            >(PortError::Overflow),
    {
        let b = s.as_bytes();
        proof {
            encode_utf8_valid_utf8(s@);
            assert(b@.subrange(0, b@.len() as int) =~= b@);
        }
        Self::from_bytes(b, 0, b.len())
    }

    pub fn as_str(&self) -> (r: &str)
        ensures
            r.spec_bytes() == self@,
    {
        proof {
            use_type_invariant(self);
        }
        let n = self.len as usize;
        str_of_utf8(&self.buf.as_slice()[0..n]).unwrap()
    }

    pub fn len(&self) -> (r: usize)
        ensures
            r == self@.len(),
            r <= Self::cap(),
            valid_utf8(self@),
    {
        proof {
            use_type_invariant(self);
        }
        self.len as usize
    }

    pub fn is_empty(&self) -> (r: bool)
        ensures
            r == (self@.len() == 0),
    {
        proof {
            use_type_invariant(self);
        }
        self.len == 0
    }

    /// The byte at `i`.
    pub fn byte_at(&self, i: usize) -> (r: u8)
        requires
            i < self@.len(),
        ensures
            r == self@[i as int],
    {
        proof {
            use_type_invariant(self);
        }
        self.buf[i]
    }
}

impl<const N: usize> PartialEq for BoundedStr<N> {
    fn eq(&self, other: &Self) -> (r: bool) {
        proof {
            use_type_invariant(self);
            use_type_invariant(other);
        }
        if self.len != other.len {
            assert(self@.len() != other@.len());
            return false;
        }
        let n = self.len as usize;
        let mut i: usize = 0;
        while i < n
            invariant
                n == self.len,
                n == other.len,
                n <= N,
                forall|j: int| 0 <= j < i ==> self.buf@[j] == other.buf@[j],
            decreases n - i,
        {
            if self.buf[i] != other.buf[i] {
                assert(self@[i as int] != other@[i as int]);
                return false;
            }
            i = i + 1;
        }
        proof {
            assert(self@ =~= other@);
        }
        true
    }
}

impl<const N: usize> vstd::std_specs::cmp::PartialEqSpecImpl for BoundedStr<N> {
    open spec fn obeys_eq_spec() -> bool {
        true
    }

    open spec fn eq_spec(&self, other: &Self) -> bool {
        self@ == other@
    }
}

impl<const N: usize> Eq for BoundedStr<N> {
}

impl<const N: usize> Default for BoundedStr<N> {
    fn default() -> (r: Self)
        ensures
            r@ == Seq::<u8>::empty(),
    {
        Self::new()
    }
}

} // verus!
