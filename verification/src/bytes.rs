//! Small verified helpers on byte slices.

use vstd::prelude::*;

verus! {

/// Copies `b[start..end]` into a fresh vector.
pub fn subvec(b: &[u8], start: usize, end: usize) -> (r: Vec<u8>)
    requires
        start <= end <= b@.len(),
    ensures
        r@ == b@.subrange(start as int, end as int),
{
    let mut out: Vec<u8> = Vec::new();
    for i in start..end
        invariant
            start <= i <= end <= b@.len(),
            out@ == b@.subrange(start as int, i as int),
    {
        out.push(b[i]);
        assert(out@ =~= b@.subrange(start as int, i + 1));
    }
    out
}

/// Concatenates two byte slices.
pub fn concat2(a: &[u8], b: &[u8]) -> (r: Vec<u8>)
    ensures
        r@ == a@ + b@,
{
    let mut out: Vec<u8> = Vec::new();
    let n = a.len();
    for i in 0..n
        invariant
            n == a@.len(),
            out@ == a@.take(i as int),
    {
        out.push(a[i]);
        assert(out@ =~= a@.take(i + 1));
    }
    assert(out@ =~= a@);
    let m = b.len();
    for i in 0..m
        invariant
            m == b@.len(),
            out@ == a@ + b@.take(i as int),
    {
        out.push(b[i]);
        assert(out@ =~= a@ + b@.take(i + 1));
    }
    assert(out@ =~= a@ + b@);
    out
}

/// Content equality of two byte slices.
pub fn bytes_eq(a: &[u8], b: &[u8]) -> (r: bool)
    ensures
        r == (a@ == b@),
{
    if a.len() != b.len() {
        return false;
    }
    let n = a.len();
    for i in 0..n
        invariant
            n == a@.len() == b@.len(),
            forall|j: int| 0 <= j < i ==> a@[j] == b@[j],
    {
        if a[i] != b[i] {
            return false;
        }
    }
    proof {
        assert(a@ =~= b@);
    }
    true
}

/// Copies a byte slice into a fresh vector.
pub fn clone_bytes(b: &[u8]) -> (r: Vec<u8>)
    ensures
        r@ == b@,
{
    let r = subvec(b, 0, b.len());
    proof {
        assert(r@ =~= b@);
    }
    r
}

} // verus!
