//! Reference-counted byte buffers of the `bytes` crate.

use bytes::Bytes;
use vstd::prelude::*;

verus! {

/// `bytes::Bytes`: a cheaply clonable, immutable run of bytes.
#[verifier::external_type_specification]
#[verifier::external_body]
pub struct ExBytes(Bytes);

/// The bytes that a buffer holds, in order.
pub uninterp spec fn content(b: Bytes) -> Seq<u8>;

/// What each buffer of a sequence holds.
pub open spec fn contents(s: Seq<Bytes>) -> Seq<Seq<u8>> {
    s.map_values(|b: Bytes| content(b))
}

/// `Bytes::len`: the number of bytes held.
pub assume_specification[ Bytes::len ](b: &Bytes) -> (n: usize)
    ensures
        n == content(*b).len(),
;

/// `Bytes::is_empty`: whether no byte is held.
pub assume_specification[ Bytes::is_empty ](b: &Bytes) -> (r: bool)
    ensures
        r == (content(*b).len() == 0),
;

/// `Bytes::new`: the buffer without bytes.
pub assume_specification[ Bytes::new ]() -> (b: Bytes)
    ensures
        content(b) == Seq::<u8>::empty(),
;

/// `Bytes::copy_from_slice`: a new buffer with the bytes of `data`.
pub assume_specification[ Bytes::copy_from_slice ](data: &[u8]) -> (b: Bytes)
    ensures
        content(b) == data@,
;

/// `<Bytes as Deref>::deref`: the bytes held, as a slice.
#[verifier::external_body]
pub(crate) fn as_slice(b: &Bytes) -> (s: &[u8])
    ensures
        s@ == content(*b),
{
    b
}

/// `<Bytes as Clone>::clone`: another handle to the same bytes.
pub assume_specification[ <Bytes as Clone>::clone ](b: &Bytes) -> (r: Bytes)
    ensures
        content(r) == content(*b),
;

/// `Bytes::slice` on `begin..end`: the bytes from `begin` up to, but without,
/// `end`. It panics where the range is reversed or reaches past the end.
#[verifier::external_body]
pub(crate) fn slice(b: &Bytes, begin: usize, end: usize) -> (r: Bytes)
    requires
        begin <= end <= content(*b).len(),
    ensures
        content(r) == content(*b).subrange(begin as int, end as int),
{
    b.slice(begin..end)
}

/// `<Bytes as From<Vec<u8>>>::from`: the vector's bytes as a shared buffer.
#[verifier::external_body]
pub(crate) fn from_vec(v: Vec<u8>) -> (r: Bytes)
    ensures
        content(r) == v@,
{
    Bytes::from(v)
}

/// Whether two runs of bytes are the same.
pub fn same_bytes(a: &[u8], b: &[u8]) -> (r: bool)
    ensures
        r == (a@ == b@),
{
    if a.len() != b.len() {
        return false;
    }
    let mut i: usize = 0;
    while i < a.len()
        invariant
            a@.len() == b@.len(),
            i <= a@.len(),
            forall|j: int| 0 <= j < i ==> a@[j] == b@[j],
        decreases a@.len() - i,
    {
        if a[i] != b[i] {
            return false;
        }
        i = i + 1;
    }
    assert(a@ =~= b@);
    true
}

/// Appends the bytes of `src` to `dst`.
pub(crate) fn extend(dst: &mut Vec<u8>, src: &[u8])
    ensures
        final(dst)@ == old(dst)@ + src@,
{
    dst.extend_from_slice(src);
    assert(dst@ =~= old(dst)@ + src@);
}

} // verus!
