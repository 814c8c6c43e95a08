//! Small helpers on byte buffers.

use vstd::prelude::*;

verus! {

/// Appends every byte of `src` to `buf`, in order.
pub fn append_bytes(buf: &mut Vec<u8>, src: &[u8])
    ensures
        final(buf)@ == old(buf)@ + src@,
{
    let n: usize = src.len();
    let mut i: usize = 0;
    while i < n
        invariant
            n == src@.len(),
            i <= n,
            buf@ == old(buf)@ + src@.subrange(0, i as int),
        decreases n - i,
    {
        buf.push(src[i]);
        i += 1;
    }
    assert(src@.subrange(0, n as int) == src@);
}

/// Copies `N` bytes of `data`, starting at `start`, into an array.
pub fn array_from_range<const N: usize>(data: &[u8], start: usize) -> (out: [u8; N])
    requires
        start + N <= data@.len(),
    ensures
        out@ == data@.subrange(start as int, start + N),
{
    let len: usize = data.len();
    let mut out: [u8; N] = [0u8; N];
    let mut i: usize = 0;
    while i < N
        invariant
            start + N <= data@.len(),
            len == data@.len(),
            i <= N,
            out@.len() == N,
            forall|j: int| 0 <= j < i ==> out@[j] == data@[start + j],
        decreases N - i,
    {
        out[i] = data[start + i];
        i += 1;
    }
    assert(out@ =~= data@.subrange(start as int, start + N));
    out
}

} // verus!
