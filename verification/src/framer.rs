//! Splitting an encoded message into fixed-size transport chunks.
//!
//! The transport moves data in fixed-size units, 16 bytes for this sign.
//! The framer only slices: the encoder's trailing-padding rule already
//! guarantees that a well-formed message ends exactly on a chunk
//! boundary, but a final partial chunk is still returned as-is rather
//! than padded — padding is exclusively the encoder's responsibility.

use vstd::prelude::*;

verus! {

/// The transport's chunk size in bytes.
pub const CHUNK_SIZE: usize = 16;

/// The views of a sequence of byte vectors.
pub open spec fn chunk_views(cs: Seq<Vec<u8>>) -> Seq<Seq<u8>> {
    cs.map_values(|c: Vec<u8>| c@)
}

/// Where chunk `i` of a stream of `len` bytes ends: after `chunk_size`
/// bytes, or at the end of the stream for a final partial chunk.
pub open spec fn chunk_end(len: int, chunk_size: int, i: int) -> int {
    if (i + 1) * chunk_size <= len {
        (i + 1) * chunk_size
    } else {
        len
    }
}

/// Splits a stream into consecutive chunks of `chunk_size` bytes.
///
/// Produces `ceil(len / chunk_size)` chunks; chunk `i` is exactly the
/// stream's bytes from `i * chunk_size` up to [`chunk_end`], so every
/// chunk but possibly the last is full, and concatenating all chunks in
/// order reproduces the stream exactly. A fresh call re-walks the same
/// stream unchanged.
pub fn chunks(stream: &Vec<u8>, chunk_size: usize) -> (r: Vec<Vec<u8>>)
    requires
        chunk_size >= 1,
    ensures
        r@.len() == (stream@.len() + chunk_size - 1) / (chunk_size as int),
        forall|i: int|
            0 <= i < r@.len() ==> r@[i]@ == stream@.subrange(
                i * chunk_size,
                chunk_end(stream@.len() as int, chunk_size as int, i),
            ),
        chunk_views(r@).flatten() == stream@,
{
    let n = stream.len();
    let mut r: Vec<Vec<u8>> = Vec::new();
    let mut start: usize = 0;
    proof {
        assert(chunk_views(r@) =~= Seq::<Seq<u8>>::empty());
        assert(stream@.take(0) =~= Seq::<u8>::empty());
    }
    while start < n
        invariant
            chunk_size >= 1,
            n == stream@.len(),
            start <= n,
            start == (if r@.len() * chunk_size <= n {
                r@.len() * chunk_size as int
            } else {
                n as int
            }),
            r@.len() == 0 || (r@.len() - 1) * chunk_size < n,
            forall|i: int|
                0 <= i < r@.len() ==> r@[i]@ == stream@.subrange(
                    i * chunk_size,
                    chunk_end(n as int, chunk_size as int, i),
                ),
            chunk_views(r@).flatten() == stream@.take(start as int),
        decreases n - start,
    {
        let ghost k = r@.len() as int;
        proof {
            assert(start == k * chunk_size);
        }
        let remaining = n - start;
        let len = if remaining < chunk_size {
            remaining
        } else {
            chunk_size
        };
        let end = start + len;
        let mut c: Vec<u8> = Vec::new();
        let mut j = start;
        while j < end
            invariant
                start <= j <= end <= n,
                n == stream@.len(),
                c@ == stream@.subrange(start as int, j as int),
            decreases end - j,
        {
            c.push(stream[j]);
            proof {
                assert(stream@.subrange(start as int, j + 1) =~= stream@.subrange(
                    start as int,
                    j as int,
                ).push(stream@[j as int]));
            }
            j += 1;
        }
        let ghost prev = r@;
        r.push(c);
        proof {
            assert((k + 1) * chunk_size == k * chunk_size + chunk_size) by (nonlinear_arith);
            assert(end == chunk_end(n as int, chunk_size as int, k));
            assert(chunk_views(r@) =~= chunk_views(prev).push(c@));
            chunk_views(prev).lemma_flatten_push(c@);
            assert(stream@.take(start as int) + stream@.subrange(start as int, end as int)
                =~= stream@.take(end as int));
        }
        start = end;
    }
    proof {
        assert(stream@.take(n as int) =~= stream@);
        let k = r@.len() as int;
        let cs = chunk_size as int;
        if n == 0 {
            assert(k == 0 || (k - 1) * cs < 0);
            assert(k >= 1 ==> (k - 1) * cs >= 0) by (nonlinear_arith)
                requires
                    cs >= 1,
            ;
            assert((0 + cs - 1) / cs == 0) by (nonlinear_arith)
                requires
                    cs >= 1,
            ;
        } else {
            assert(k * cs >= n);
            assert(k == (n + cs - 1) / cs) by (nonlinear_arith)
                requires
                    cs >= 1,
                    k >= 1,
                    (k - 1) * cs < n,
                    n <= k * cs,
            ;
        }
    }
    r
}

} // verus!
