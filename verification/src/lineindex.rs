use vstd::prelude::*;

verus! {

/// Chunks scanned for newlines are at least this large, so that small
/// files are handled in one piece and large files in bounded pieces.
pub const CHUNK_BYTES: usize = 64 * 1024 * 1024;

/// A byte position where a logical line begins: position 0, or any
/// in-buffer position immediately after a newline byte.
pub open spec fn is_line_start(data: Seq<u8>, p: int) -> bool {
    0 <= p < data.len() && (p == 0 || data[p - 1] == 10u8)
}

/// What a correct line index is: strictly increasing, holding only line
/// starts of the buffer, and holding every one of them.
pub open spec fn valid_offsets(data: Seq<u8>, off: Seq<u64>) -> bool {
    &&& forall|i: int, j: int| 0 <= i < j < off.len() ==> off[i] < off[j]
    &&& forall|i: int| 0 <= i < off.len() ==> is_line_start(data, #[trigger] off[i] as int)
    &&& forall|p: int|
        #[trigger] is_line_start(data, p) ==> exists|i: int|
            0 <= i < off.len() && #[trigger] off[i] as int == p
}

/// Relies on memchr::memchr_iter: yields the index of every occurrence
/// of the needle byte in the haystack, in ascending order.
#[verifier::external_body]
fn find_byte_positions(haystack: &[u8], needle: u8) -> (r: Vec<usize>)
    ensures
        forall|k: int| 0 <= k < r@.len() ==> #[trigger] r@[k] < haystack@.len(),
        forall|k: int| 0 <= k < r@.len() ==> haystack@[#[trigger] r@[k] as int] == needle,
        forall|k1: int, k2: int| 0 <= k1 < k2 < r@.len() ==> r@[k1] < r@[k2],
        forall|p: int|
            0 <= p < haystack@.len() && haystack@[p] == needle ==> exists|k: int|
                0 <= k < r@.len() && #[trigger] r@[k] as int == p,
{
    memchr::memchr_iter(needle, haystack).collect()
}

/// Relies on rayon::current_num_threads: the size of the worker pool,
/// which is never zero.
#[verifier::external_body]
fn worker_count() -> (r: usize)
    ensures
        1 <= r,
{
    rayon::current_num_threads()
}

/// Build the line index of a non-empty buffer: the buffer is cut into
/// chunks sized for the worker pool, each chunk is scanned for newlines
/// with a vectorized byte search, and the per-chunk results are merged
/// in chunk order, which keeps the sequence strictly increasing and free
/// of duplicates without a separate sort.
pub fn build_index(data: &[u8]) -> (r: Vec<u64>)
    requires
        data@.len() > 0,
    ensures
        valid_offsets(data@, r@),
        r@.len() >= 1,
        r@[0] == 0u64,
{
    let data_len: usize = data.len();
    let workers = worker_count();
    let per_worker = data_len / workers;
    let chunk_size: usize = if per_worker > CHUNK_BYTES {
        per_worker
    } else {
        CHUNK_BYTES
    };
    let mut offsets: Vec<u64> = Vec::new();
    offsets.push(0u64);
    proof {
        assert forall|p: int| #[trigger] is_line_start(data@, p) && p <= 0 implies exists|
            i: int,
        |
            0 <= i < offsets@.len() && #[trigger] offsets@[i] as int == p by {
            assert(offsets@[0] as int == p);
        }
    }
    let mut start: usize = 0;
    while start < data_len
        invariant
            data_len == data@.len(),
            chunk_size >= 1,
            start <= data_len,
            offsets@.len() >= 1,
            offsets@[0] == 0u64,
            forall|i: int, j: int| 0 <= i < j < offsets@.len() ==> offsets@[i] < offsets@[j],
            forall|i: int|
                0 <= i < offsets@.len() ==> is_line_start(data@, #[trigger] offsets@[i] as int),
            forall|i: int| 0 <= i < offsets@.len() ==> #[trigger] offsets@[i] as int <= start,
            forall|p: int|
                #[trigger] is_line_start(data@, p) && p <= start ==> exists|i: int|
                    0 <= i < offsets@.len() && #[trigger] offsets@[i] as int == p,
        decreases data_len - start,
    {
        let end: usize = if data_len - start > chunk_size {
            start + chunk_size
        } else {
            data_len
        };
        let chunk = vstd::slice::slice_subrange(data, start, end);
        let positions = find_byte_positions(chunk, 10u8);
        let m = positions.len();
        let mut k: usize = 0;
        while k < m
            invariant
                data_len == data@.len(),
                start < end <= data_len,
                chunk@ == data@.subrange(start as int, end as int),
                m == positions@.len(),
                k <= m,
                forall|t: int| 0 <= t < m ==> #[trigger] positions@[t] < end - start,
                forall|t: int|
                    0 <= t < m ==> chunk@[#[trigger] positions@[t] as int] == 10u8,
                forall|t1: int, t2: int| 0 <= t1 < t2 < m ==> positions@[t1] < positions@[t2],
                offsets@.len() >= 1,
                offsets@[0] == 0u64,
                forall|i: int, j: int| 0 <= i < j < offsets@.len() ==> offsets@[i] < offsets@[j],
                forall|i: int|
                    0 <= i < offsets@.len() ==> is_line_start(data@, #[trigger] offsets@[i] as int),
                forall|i: int|
                    0 <= i < offsets@.len() ==> #[trigger] offsets@[i] as int <= start + (if k
                        == 0 {
                        0int
                    } else {
                        positions@[k - 1] as int + 1
                    }),
                forall|p: int|
                    #[trigger] is_line_start(data@, p) && p <= start ==> exists|i: int|
                        0 <= i < offsets@.len() && #[trigger] offsets@[i] as int == p,
                forall|t: int|
                    0 <= t < k && start + #[trigger] positions@[t] + 1 < data_len
                        ==> exists|i: int|
                        0 <= i < offsets@.len() && #[trigger] offsets@[i] as int == start
                            + positions@[t] + 1,
            decreases m - k,
        {
            let p = positions[k];
            let abs: usize = start + p + 1;
            if abs < data_len {
                proof {
                    assert(data@[start + p] == chunk@[p as int]);
                    assert(is_line_start(data@, abs as int));
                }
                let ghost pre = offsets@;
                offsets.push(abs as u64);
                proof {
                    assert(offsets@ == pre.push(abs as u64));
                    assert forall|q: int| #[trigger] is_line_start(data@, q) && q <= start
                        implies exists|i: int|
                        0 <= i < offsets@.len() && #[trigger] offsets@[i] as int == q by {
                        let i = choose|i: int|
                            0 <= i < pre.len() && #[trigger] pre[i] as int == q;
                        assert(offsets@[i] as int == q);
                    }
                    assert forall|t: int|
                        0 <= t < k + 1 && start + #[trigger] positions@[t] + 1 < data_len
                        implies exists|i: int|
                        0 <= i < offsets@.len() && #[trigger] offsets@[i] as int == start
                            + positions@[t] + 1 by {
                        if t < k {
                            let i = choose|i: int|
                                0 <= i < pre.len() && #[trigger] pre[i] as int == start
                                    + positions@[t] + 1;
                            assert(offsets@[i] as int == start + positions@[t] + 1);
                        } else {
                            assert(offsets@[pre.len() as int] as int == start + positions@[t]
                                + 1);
                        }
                    }
                }
            }
            k = k + 1;
        }
        proof {
            // every line start inside (start, end] was found by the scan
            assert forall|p: int| is_line_start(data@, p) && p <= end implies exists|i: int|
                0 <= i < offsets@.len() && #[trigger] offsets@[i] as int == p by {
                if p > start {
                    assert(data@[p - 1] == 10u8);
                    assert(chunk@[p - 1 - start] == data@[p - 1]);
                    let t = choose|t: int|
                        0 <= t < positions@.len() && #[trigger] positions@[t] as int == p - 1
                            - start;
                    assert(start + positions@[t] + 1 == p);
                    assert(p < data_len);
                }
            }
        }
        start = end;
    }
    offsets
}

/// A buffer has exactly one correct line index: any two offset sequences
/// that satisfy `valid_offsets` for the same bytes are equal, so building
/// the index is idempotent.
pub proof fn lemma_offsets_unique(data: Seq<u8>, off1: Seq<u64>, off2: Seq<u64>)
    requires
        valid_offsets(data, off1),
        valid_offsets(data, off2),
    ensures
        off1 == off2,
    decreases off1.len(),
{
    if off1.len() == 0 {
        if off2.len() > 0 {
            assert(is_line_start(data, off2[0] as int));
            assert(false);
        }
        assert(off1 =~= off2);
    } else {
        if off2.len() == 0 {
            assert(is_line_start(data, off1[0] as int));
            assert(false);
        }
        // the last elements agree: each sequence's last element is the
        // largest line start, by soundness and completeness
        let l1 = off1[off1.len() - 1];
        let l2 = off2[off2.len() - 1];
        assert(is_line_start(data, l1 as int));
        assert(is_line_start(data, l2 as int));
        let j1 = choose|i: int| 0 <= i < off2.len() && #[trigger] off2[i] as int == l1 as int;
        let j2 = choose|i: int| 0 <= i < off1.len() && #[trigger] off1[i] as int == l2 as int;
        assert(off2[j1] <= l2) by {
            if j1 < off2.len() - 1 {
                assert(off2[j1] < off2[off2.len() - 1]);
            }
        }
        assert(off1[j2] <= l1) by {
            if j2 < off1.len() - 1 {
                assert(off1[j2] < off1[off1.len() - 1]);
            }
        }
        assert(l1 == l2);
        lemma_drop_last_valid(data, off1);
        lemma_drop_last_valid(data, off2);
        lemma_offsets_unique(data.take(l1 as int), off1.drop_last(), off2.drop_last());
        assert(off1.len() == off2.len());
        assert forall|i: int| 0 <= i < off1.len() implies off1[i] == off2[i] by {
            if i < off1.len() - 1 {
                assert(off1.drop_last()[i] == off2.drop_last()[i]);
            }
        }
        assert(off1 =~= off2);
    }
}

/// Dropping the last element of a correct index leaves a correct index
/// for the buffer cut just before that element, which was the largest
/// line start.
proof fn lemma_drop_last_valid(data: Seq<u8>, off: Seq<u64>)
    requires
        valid_offsets(data, off),
        off.len() >= 1,
    ensures
        valid_offsets(data.take(off[off.len() - 1] as int), off.drop_last()),
{
    let l = off[off.len() - 1] as int;
    let cut = data.take(l);
    let rest = off.drop_last();
    assert(is_line_start(data, l));
    assert forall|i: int| 0 <= i < rest.len() implies is_line_start(
        cut,
        #[trigger] rest[i] as int,
    ) by {
        assert(off[i] < off[off.len() - 1]);
        assert(is_line_start(data, off[i] as int));
    }
    assert forall|p: int| #[trigger] is_line_start(cut, p) implies exists|i: int|
        0 <= i < rest.len() && #[trigger] rest[i] as int == p by {
        assert(is_line_start(data, p));
        let i = choose|i: int| 0 <= i < off.len() && #[trigger] off[i] as int == p;
        assert(p < l);
        assert(i < off.len() - 1) by {
            if i == off.len() - 1 {
                assert(off[i] as int == l);
            }
        }
        assert(rest[i] as int == p);
    }
}

} // verus!
