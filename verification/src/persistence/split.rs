//! Cutting a payload into chunks of bounded size.
use vstd::prelude::*;
use vstd::slice::slice_to_vec;

verus! {

/// Chunk `k` of `src` when it is cut into chunks of `max` bytes.
pub open spec fn chunk(src: Seq<u8>, max: int, k: int) -> Seq<u8> {
    let end = if (k + 1) * max < src.len() {
        (k + 1) * max
    } else {
        src.len() as int
    };
    src.subrange(k * max, end)
}

/// How many chunks of `max` bytes `src` is cut into.
pub open spec fn chunk_count(len: int, max: int) -> int {
    (len + max - 1) / max
}

/// Cuts `src` into consecutive chunks of `max_payload_size` bytes; the last one may be shorter.
pub fn split(src: &[u8], max_payload_size: usize) -> (result: Vec<Vec<u8>>)
    requires
        max_payload_size > 0,
    ensures
        result@.len() == chunk_count(src@.len() as int, max_payload_size as int),
        forall|k: int| 0 <= k < result@.len() ==> (#[trigger] result@[k])@ == chunk(src@, max_payload_size as int, k),
{
    let mut result: Vec<Vec<u8>> = Vec::new();
    let mut pos: usize = 0;
    let ghost max = max_payload_size as int;
    proof {
        assert(0 * max == 0) by (nonlinear_arith);
        if src@.len() == 0 {
            assert(chunk_count(0, max) == 0) by (nonlinear_arith)
                requires
                    max > 0,
                    chunk_count(0, max) == (max - 1) / max,
            {
            }
        } else {
            assert(0 < chunk_count(src@.len() as int, max)) by (nonlinear_arith)
                requires
                    max > 0,
                    src@.len() > 0,
                    chunk_count(src@.len() as int, max) == (src@.len() + max - 1) / max,
            {
            }
        }
    }
    while pos < src.len()
        invariant
            max == max_payload_size as int,
            max > 0,
            pos <= src@.len(),
            pos < src@.len() ==> pos == result@.len() * max && result@.len() < chunk_count(src@.len() as int, max),
            pos == src@.len() ==> result@.len() == chunk_count(src@.len() as int, max),
            forall|k: int| 0 <= k < result@.len() ==> (#[trigger] result@[k])@ == chunk(src@, max, k),
        decreases src@.len() - pos,
    {
        let ghost k = result@.len() as int;
        proof {
            assert((k + 1) * max == k * max + max) by (nonlinear_arith);
        }
        if src.len() - pos < max_payload_size {
            let payload = slice_to_vec(&src[pos..src.len()]);
            result.push(payload);
            proof {
                assert(chunk_count(src@.len() as int, max) == k + 1) by (nonlinear_arith)
                    requires
                        k * max < src@.len(),
                        src@.len() < k * max + max,
                        max > 0,
                        chunk_count(src@.len() as int, max) == (src@.len() + max - 1) / max,
                {
                }
            }
            pos = src.len();
        } else {
            let payload = slice_to_vec(&src[pos..pos + max_payload_size]);
            result.push(payload);
            pos = pos + max_payload_size;
            proof {
                assert(pos == (k + 1) * max);
                if pos < src@.len() {
                    assert(k + 1 < chunk_count(src@.len() as int, max)) by (nonlinear_arith)
                        requires
                            (k + 1) * max < src@.len(),
                            max > 0,
                            chunk_count(src@.len() as int, max) == (src@.len() + max - 1) / max,
                    {
                    }
                } else {
                    assert(k + 1 == chunk_count(src@.len() as int, max)) by (nonlinear_arith)
                        requires
                            (k + 1) * max == src@.len(),
                            max > 0,
                            chunk_count(src@.len() as int, max) == (src@.len() + max - 1) / max,
                    {
                    }
                }
            }
        }
    }
    result
}

/// The first `n` chunks of `src`, joined in order.
pub open spec fn joined_chunks(src: Seq<u8>, max: int, n: nat) -> Seq<u8>
    decreases n,
{
    if n == 0 {
        Seq::<u8>::empty()
    } else {
        joined_chunks(src, max, (n - 1) as nat) + chunk(src, max, n - 1)
    }
}

proof fn lemma_joined_prefix(src: Seq<u8>, max: int, n: nat)
    requires
        max > 0,
        n == 0 || (n - 1) * max < src.len(),
    ensures
        joined_chunks(src, max, n) == src.subrange(0, if n * max < src.len() { n * max } else { src.len() as int }),
    decreases n,
{
    if n == 0 {
        assert(0 * max == 0) by (nonlinear_arith);
        assert(src.subrange(0, 0) =~= Seq::<u8>::empty());
    } else {
        let m = (n - 1) as nat;
        assert((n - 1) * max >= 0) by (nonlinear_arith)
            requires
                n >= 1,
                max > 0,
        ;
        assert(n * max == m * max + max) by (nonlinear_arith)
            requires
                m == n - 1,
        ;
        if m > 0 {
            assert((m - 1) * max < m * max) by (nonlinear_arith)
                requires
                    max > 0,
            ;
        }
        lemma_joined_prefix(src, max, m);
        let end = if n * max < src.len() { n * max } else { src.len() as int };
        assert(joined_chunks(src, max, n) =~= src.subrange(0, end));
    }
}

/// The chunks that `split` cuts `src` into give back `src` when joined in order; each is
/// non-empty and at most `max` bytes long.
pub proof fn lemma_split_chunks_rejoin(src: Seq<u8>, max: int)
    requires
        max > 0,
    ensures
        joined_chunks(src, max, chunk_count(src.len() as int, max) as nat) == src,
        forall|k: int|
            0 <= k < chunk_count(src.len() as int, max) ==> 0 < #[trigger] chunk(src, max, k).len() <= max,
{
    let len = src.len() as int;
    let c = chunk_count(len, max);
    assert(c * max <= len + max - 1 && len + max - 1 < c * max + max && c >= 0) by (nonlinear_arith)
        requires
            max > 0,
            len >= 0,
            c == (len + max - 1) / max,
    ;
    if c > 0 {
        assert((c - 1) * max == c * max - max) by (nonlinear_arith);
    }
    lemma_joined_prefix(src, max, c as nat);
    assert(src.subrange(0, len) =~= src);
    assert forall|k: int| 0 <= k < c implies 0 < #[trigger] chunk(src, max, k).len() <= max by {
        assert(k * max <= (c - 1) * max) by (nonlinear_arith)
            requires
                k <= c - 1,
                max > 0,
        ;
        assert((k + 1) * max == k * max + max) by (nonlinear_arith);
        assert(k * max >= 0) by (nonlinear_arith)
            requires
                k >= 0,
                max > 0,
        ;
    }
}

} // verus!
