//! Small executable helpers over byte vectors.

use vstd::prelude::*;

verus! {

/// Compare two byte vectors for equality of their contents.
pub fn bytes_eq(a: &Vec<u8>, b: &Vec<u8>) -> (r: bool)
    ensures
        r == (a@ == b@),
{
    if a.len() != b.len() {
        proof {
            assert(a@ != b@);
        }
        return false;
    }
    let n: usize = a.len();
    let mut i: usize = 0;
    while i < n
        invariant
            n == a@.len() == b@.len(),
            i <= n,
            forall|j: int| 0 <= j < i ==> a@[j] == b@[j],
        decreases n - i,
    {
        if a[i] != b[i] {
            proof {
                assert(a@[i as int] != b@[i as int]);
            }
            return false;
        }
        i = i + 1;
    }
    proof {
        assert(a@ =~= b@);
    }
    true
}

/// Copy a byte vector.
pub fn clone_bytes(v: &Vec<u8>) -> (r: Vec<u8>)
    ensures
        r@ == v@,
{
    let mut out: Vec<u8> = Vec::new();
    let n: usize = v.len();
    let mut i: usize = 0;
    while i < n
        invariant
            n == v@.len(),
            i <= n,
            out@ =~= v@.subrange(0, i as int),
        decreases n - i,
    {
        out.push(v[i]);
        i = i + 1;
    }
    proof {
        assert(out@ =~= v@);
    }
    out
}

/// Copy an optional byte vector.
pub fn clone_opt_bytes(v: &Option<Vec<u8>>) -> (r: Option<Vec<u8>>)
    ensures
        r is Some <==> v is Some,
        r matches Some(rv) ==> v matches Some(vv) && rv@ == vv@,
{
    match v {
        Some(inner) => Some(clone_bytes(inner)),
        None => None,
    }
}

/// A mutable borrow of one element of a vector.
pub fn vec_mut_at<T>(v: &mut Vec<T>, i: usize) -> (e: &mut T)
    requires
        i < old(v)@.len(),
    ensures
        *e == old(v)@[i as int],
        final(v)@ == old(v)@.update(i as int, *final(e)),
{
    &mut v[i]
}

/// Append the contents of `src` to `out`.
pub fn append_bytes(out: &mut Vec<u8>, src: &Vec<u8>)
    ensures
        final(out)@ == old(out)@ + src@,
{
    let n: usize = src.len();
    let mut i: usize = 0;
    while i < n
        invariant
            n == src@.len(),
            i <= n,
            out@ =~= old(out)@ + src@.subrange(0, i as int),
        decreases n - i,
    {
        out.push(src[i]);
        i = i + 1;
    }
    proof {
        assert(out@ =~= old(out)@ + src@);
    }
}

/// Append `n` zero bytes to `out`.
pub fn append_zeros(out: &mut Vec<u8>, n: usize)
    ensures
        final(out)@ == old(out)@ + Seq::new(n as nat, |i: int| 0u8),
{
    let mut i: usize = 0;
    while i < n
        invariant
            i <= n,
            out@ =~= old(out)@ + Seq::new(i as nat, |j: int| 0u8),
        decreases n - i,
    {
        out.push(0u8);
        i = i + 1;
    }
    proof {
        assert(out@ =~= old(out)@ + Seq::new(n as nat, |i: int| 0u8));
    }
}

/// Append the eight little-endian bytes of `x` to `out`.
pub fn append_u64(out: &mut Vec<u8>, x: u64)
    ensures
        final(out)@ == old(out)@ + vstd::bytes::spec_u64_to_le_bytes(x),
{
    let le = vstd::bytes::u64_to_le_bytes(x);
    append_bytes(out, &le);
}

/// Copy `n` bytes of `v` starting at `off`.
pub fn read_exact(v: &Vec<u8>, off: usize, n: usize) -> (r: Vec<u8>)
    requires
        off + n <= v@.len(),
    ensures
        r@ == v@.subrange(off as int, off as int + n as int),
        r@.len() == n,
{
    let mut out: Vec<u8> = Vec::new();
    let total: usize = v.len();
    let mut i: usize = 0;
    while i < n
        invariant
            total == v@.len(),
            off + n <= total,
            i <= n,
            out@ =~= v@.subrange(off as int, off as int + i as int),
        decreases n - i,
    {
        out.push(v[off + i]);
        i = i + 1;
    }
    proof {
        assert(out@ =~= v@.subrange(off as int, off as int + n as int));
    }
    out
}

/// Read the little-endian 64-bit integer stored at `off`.
pub fn read_u64(v: &Vec<u8>, off: usize) -> (r: u64)
    requires
        off + 8 <= v@.len(),
    ensures
        r == vstd::bytes::spec_u64_from_le_bytes(v@.subrange(off as int, off as int + 8)),
{
    let piece = read_exact(v, off, 8);
    vstd::bytes::u64_from_le_bytes(piece.as_slice())
}

/// Copy a 32-byte vector into a fixed array.
pub fn to_array32(v: &Vec<u8>) -> (r: [u8; 32])
    requires
        v@.len() == 32,
    ensures
        r@ == v@,
{
    let mut arr: [u8; 32] = [0u8; 32];
    let mut i: usize = 0;
    while i < 32
        invariant
            v@.len() == 32,
            i <= 32,
            forall|j: int| 0 <= j < i ==> arr@[j] == v@[j],
        decreases 32 - i,
    {
        arr[i] = v[i];
        i = i + 1;
    }
    proof {
        assert(arr@ =~= v@);
    }
    arr
}

} // verus!
