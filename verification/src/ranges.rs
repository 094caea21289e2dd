//! Splitting a byte range into consecutive chunks of a fixed size.

use std::ops::Range;
use vstd::prelude::*;

verus! {

/// Number of positions in `range`; zero when the range is empty or reversed.
pub open spec fn range_len(range: Range<u64>) -> nat {
    if range.start < range.end {
        (range.end - range.start) as nat
    } else {
        0
    }
}

/// Number of chunks of `chunk_size` positions needed to cover `len` positions.
pub open spec fn num_chunks(len: nat, chunk_size: nat) -> nat {
    if len == 0 {
        0
    } else {
        ((len - 1) / (chunk_size as int) + 1) as nat
    }
}

/// The `i`-th chunk of `range`: it starts `i` whole chunks after the start of
/// the range and stops after `chunk_size` positions or at the end of the
/// range, whichever comes first.
pub open spec fn chunk_at(range: Range<u64>, chunk_size: u64, i: int) -> Range<u64> {
    let start = range.start + i * chunk_size;
    let end = if start + chunk_size <= range.end {
        start + chunk_size
    } else {
        range.end as int
    };
    Range { start: start as u64, end: end as u64 }
}

/// The chunks of `range`, in order.
pub open spec fn chunks_of(range: Range<u64>, chunk_size: u64) -> Seq<Range<u64>> {
    Seq::new(num_chunks(range_len(range), chunk_size as nat), |i: int| chunk_at(range, chunk_size, i))
}

/// `chunks` cuts `range` into consecutive pieces: every piece is non-empty and
/// at most `chunk_size` long, every piece but the last is exactly `chunk_size`
/// long, each piece starts where the one before it ends, the first starts at
/// the start of the range and the last ends at its end. An empty range has no
/// pieces.
pub open spec fn is_chunking(chunks: Seq<Range<u64>>, range: Range<u64>, chunk_size: u64) -> bool {
    &&& (chunks.len() == 0 <==> range_len(range) == 0)
    &&& chunks.len() > 0 ==> chunks[0].start == range.start && chunks.last().end == range.end
    &&& forall|i: int|
        0 <= i < chunks.len() ==> (#[trigger] chunks[i]).start < chunks[i].end && chunks[i].end
            - chunks[i].start <= chunk_size
    &&& forall|i: int|
        0 <= i < chunks.len() - 1 ==> (#[trigger] chunks[i]).end - chunks[i].start == chunk_size
    &&& forall|i: int, j: int|
        0 <= i && j == i + 1 && j < chunks.len() ==> (#[trigger] chunks[j]).start == (
        #[trigger] chunks[i]).end
}

/// Splits `range` into consecutive chunks of `chunk_size` positions; the last
/// chunk is shorter when the length of the range is no multiple of
/// `chunk_size`.
pub fn chunk_range(range: Range<u64>, chunk_size: u64) -> (chunks: Vec<Range<u64>>)
    requires
        chunk_size > 0,
    ensures
        chunks@ == chunks_of(range, chunk_size),
        is_chunking(chunks@, range, chunk_size),
{
    let mut chunks: Vec<Range<u64>> = Vec::new();
    if range.start >= range.end {
        assert(chunks@ =~= chunks_of(range, chunk_size));
        return chunks;
    }
    let mut start: u64 = range.start;
    assert(0 * chunk_size == 0);
    while start < range.end
        invariant
            chunk_size > 0,
            range.start < range.end,
            range.start <= start <= range.end,
            start < range.end ==> start == range.start + chunks@.len() * chunk_size,
            start == range.end ==> chunks@.len() == num_chunks(range_len(range), chunk_size as nat),
            chunks@.len() <= num_chunks(range_len(range), chunk_size as nat),
            forall|i: int| 0 <= i < chunks@.len() ==> chunks@[i] == chunk_at(range, chunk_size, i),
        decreases range.end - start,
    {
        let ghost k = chunks@.len() as int;
        let end: u64 = if range.end - start <= chunk_size {
            range.end
        } else {
            start + chunk_size
        };
        proof {
            lemma_chunk_count(range, chunk_size, k);
            assert((k + 1) * chunk_size == k * chunk_size + chunk_size) by (nonlinear_arith);
        }
        chunks.push(Range { start, end });
        start = end;
    }
    assert(chunks@ =~= chunks_of(range, chunk_size));
    proof {
        lemma_chunks_of_is_chunking(range, chunk_size);
    }
    chunks
}

/// Relates the position of the `k`-th chunk to the number of chunks: a chunk
/// that starts inside the range is one of the chunks, and it is the last one
/// exactly when it reaches the end of the range.
proof fn lemma_chunk_count(range: Range<u64>, chunk_size: u64, k: int)
    requires
        chunk_size > 0,
        k >= 0,
        range.start + k * chunk_size < range.end,
    ensures
        k < num_chunks(range_len(range), chunk_size as nat),
        range.end - (range.start + k * chunk_size) <= chunk_size <==> k + 1 == num_chunks(
            range_len(range),
            chunk_size as nat,
        ),
{
    let len = range.end - range.start;
    let c = chunk_size as int;
    let q = (len - 1) / c;
    assert(len - 1 == c * q + (len - 1) % c) by {
        vstd::arithmetic::div_mod::lemma_fundamental_div_mod(len - 1, c);
    }
    assert(0 <= (len - 1) % c < c) by {
        vstd::arithmetic::div_mod::lemma_mod_bound(len - 1, c);
    }
    assert(k <= q) by (nonlinear_arith)
        requires
            k * c < len,
            len - 1 == c * q + (len - 1) % c,
            0 <= (len - 1) % c < c,
            c > 0,
    ;
    assert(len - k * c <= c <==> k == q) by (nonlinear_arith)
        requires
            k * c < len,
            k <= q,
            len - 1 == c * q + (len - 1) % c,
            0 <= (len - 1) % c < c,
            c > 0,
    ;
}

/// The chunks of a range cut it into consecutive pieces.
pub proof fn lemma_chunks_of_is_chunking(range: Range<u64>, chunk_size: u64)
    requires
        chunk_size > 0,
    ensures
        is_chunking(chunks_of(range, chunk_size), range, chunk_size),
{
    let chunks = chunks_of(range, chunk_size);
    let n = chunks.len() as int;
    let c = chunk_size as int;
    if range_len(range) > 0 {
        let len = range.end - range.start;
        let q = (len - 1) / c;
        assert(len - 1 == c * q + (len - 1) % c) by {
            vstd::arithmetic::div_mod::lemma_fundamental_div_mod(len - 1, c);
        }
        assert(0 <= (len - 1) % c < c) by {
            vstd::arithmetic::div_mod::lemma_mod_bound(len - 1, c);
        }
        assert(q >= 0) by (nonlinear_arith)
            requires
                len - 1 == c * q + (len - 1) % c,
                0 <= (len - 1) % c < c,
                c > 0,
                len >= 1,
        ;
        assert(n == q + 1);
        assert(q * c == c * q) by (nonlinear_arith);
        assert(range.start + q * c + c >= range.end);
        assert forall|i: int| 0 <= i < n implies (#[trigger] chunks[i]).start == range.start + i * c
            && chunks[i].start < chunks[i].end && chunks[i].end - chunks[i].start <= c && (i < n
            - 1 ==> chunks[i].end - chunks[i].start == c) && (i == n - 1 ==> chunks[i].end
            == range.end) by {
            assert(i * c <= q * c) by (nonlinear_arith)
                requires
                    0 <= i <= q,
                    c > 0,
            ;
            if i < n - 1 {
                assert(i * c + c <= q * c) by (nonlinear_arith)
                    requires
                        0 <= i < q,
                        c > 0,
                ;
            }
            assert(chunks[i] == chunk_at(range, chunk_size, i));
        }
        assert(0 * c == 0);
        assert forall|i: int, j: int| 0 <= i && j == i + 1 && j < n implies (#[trigger] chunks[j]).start
            == (#[trigger] chunks[i]).end by {
            assert((i + 1) * c == i * c + c) by (nonlinear_arith);
        }
    }
}

/// A range has exactly one chunking: whatever cuts it into consecutive pieces
/// in this way is the sequence of its chunks.
pub proof fn lemma_chunking_is_unique(chunks: Seq<Range<u64>>, range: Range<u64>, chunk_size: u64)
    requires
        chunk_size > 0,
        is_chunking(chunks, range, chunk_size),
    ensures
        chunks == chunks_of(range, chunk_size),
{
    let expected = chunks_of(range, chunk_size);
    let c = chunk_size as int;
    if chunks.len() > 0 {
        let last = chunks.len() - 1;
        lemma_chunk_starts(chunks, range, chunk_size, last);
        assert(chunks[last].start < chunks[last].end);
        lemma_chunk_count(range, chunk_size, last);
        assert(chunks[last].end - chunks[last].start <= chunk_size);
        assert(chunks.len() == expected.len());
        assert forall|i: int| 0 <= i < chunks.len() implies chunks[i] == expected[i] by {
            lemma_chunk_starts(chunks, range, chunk_size, i);
            let r = chunks[i];
            assert(r.start < r.end && r.end - r.start <= chunk_size);
            if i < last {
                assert(r.end - r.start == chunk_size);
                assert((i + 1) * c <= last * c) by (nonlinear_arith)
                    requires
                        i + 1 <= last,
                        c > 0,
                ;
                assert((i + 1) * c == i * c + c) by (nonlinear_arith);
            } else {
                assert(r.end == range.end);
            }
            assert(expected[i] == chunk_at(range, chunk_size, i));
        }
    }
    assert(chunks =~= expected);
}

/// In a chunking, the `i`-th piece starts `i` whole chunks into the range.
proof fn lemma_chunk_starts(chunks: Seq<Range<u64>>, range: Range<u64>, chunk_size: u64, i: int)
    requires
        chunk_size > 0,
        is_chunking(chunks, range, chunk_size),
        0 <= i < chunks.len(),
    ensures
        chunks[i].start == range.start + i * chunk_size,
    decreases i,
{
    if i > 0 {
        lemma_chunk_starts(chunks, range, chunk_size, i - 1);
        let p = chunks[i - 1];
        let r = chunks[i];
        assert(r.start == p.end);
        assert(p.end - p.start == chunk_size);
        assert(i * chunk_size == (i - 1) * chunk_size + chunk_size) by (nonlinear_arith);
    } else {
        assert(0 * chunk_size == 0);
    }
}

/// Every chunk of a range lies inside the range and is not empty.
pub proof fn lemma_chunk_bounds(range: Range<u64>, chunk_size: u64, i: int)
    requires
        chunk_size > 0,
        0 <= i < chunks_of(range, chunk_size).len(),
    ensures
        range.start <= chunks_of(range, chunk_size)[i].start < chunks_of(range, chunk_size)[i].end
            <= range.end,
        chunks_of(range, chunk_size)[i].start == range.start + i * chunk_size,
{
    let chunks = chunks_of(range, chunk_size);
    lemma_chunks_of_is_chunking(range, chunk_size);
    lemma_chunk_starts(chunks, range, chunk_size, i);
    let last = chunks.len() - 1;
    lemma_chunk_starts(chunks, range, chunk_size, last);
    assert(chunks[last].start < chunks[last].end);
    assert(chunks[i].start < chunks[i].end);
    assert(0 <= i * chunk_size <= last * chunk_size) by (nonlinear_arith)
        requires
            0 <= i <= last,
            chunk_size > 0,
    ;
    if i < last {
        assert((i + 1) * chunk_size <= last * chunk_size) by (nonlinear_arith)
            requires
                i + 1 <= last,
                chunk_size > 0,
        ;
        assert((i + 1) * chunk_size == i * chunk_size + chunk_size) by (nonlinear_arith);
        assert(chunks[i].end - chunks[i].start == chunk_size);
    }
}

/// The chunks of a range cover it without overlap: every position of the
/// range lies in exactly one chunk, and no chunk holds a position outside the
/// range.
pub proof fn lemma_position_in_one_chunk(range: Range<u64>, chunk_size: u64, position: int)
    requires
        chunk_size > 0,
    ensures
        range.start <= position < range.end <==> exists|i: int|
            0 <= i < chunks_of(range, chunk_size).len() && (#[trigger] chunks_of(
                range,
                chunk_size,
            )[i]).start <= position < chunks_of(range, chunk_size)[i].end,
        forall|i: int, j: int|
            0 <= i < chunks_of(range, chunk_size).len() && 0 <= j < chunks_of(
                range,
                chunk_size,
            ).len() && (#[trigger] chunks_of(range, chunk_size)[i]).start <= position
                < chunks_of(range, chunk_size)[i].end && (#[trigger] chunks_of(
                range,
                chunk_size,
            )[j]).start <= position < chunks_of(range, chunk_size)[j].end ==> i == j,
{
    let chunks = chunks_of(range, chunk_size);
    let c = chunk_size as int;
    if range.start <= position < range.end {
        let offset = position - range.start;
        let i = offset / c;
        vstd::arithmetic::div_mod::lemma_fundamental_div_mod(offset, c);
        vstd::arithmetic::div_mod::lemma_mod_bound(offset, c);
        assert(i >= 0) by (nonlinear_arith)
            requires
                offset == c * i + offset % c,
                0 <= offset % c < c,
                offset >= 0,
                c > 0,
        ;
        assert(c * i == i * c) by (nonlinear_arith);
        assert(range.start + i * c < range.end);
        lemma_chunk_count(range, chunk_size, i);
        lemma_chunk_bounds(range, chunk_size, i);
        assert(chunks[i] == chunk_at(range, chunk_size, i));
        assert(chunks[i].start <= position < chunks[i].end);
    }
    assert forall|i: int| 0 <= i < chunks.len() && (#[trigger] chunks[i]).start <= position
        < chunks[i].end implies range.start <= position < range.end by {
        lemma_chunk_bounds(range, chunk_size, i);
    }
    assert forall|i: int, j: int|
        0 <= i < chunks.len() && 0 <= j < chunks.len() && (#[trigger] chunks[i]).start <= position
            < chunks[i].end && (#[trigger] chunks[j]).start <= position
            < chunks[j].end implies i == j by {
        lemma_chunk_bounds(range, chunk_size, i);
        lemma_chunk_bounds(range, chunk_size, j);
        assert(chunks[i] == chunk_at(range, chunk_size, i));
        assert(chunks[j] == chunk_at(range, chunk_size, j));
        if i < j {
            assert((i + 1) * c <= j * c) by (nonlinear_arith)
                requires
                    i + 1 <= j,
                    c > 0,
            ;
            assert((i + 1) * c == i * c + c) by (nonlinear_arith);
        }
        if j < i {
            assert((j + 1) * c <= i * c) by (nonlinear_arith)
                requires
                    j + 1 <= i,
                    c > 0,
            ;
            assert((j + 1) * c == j * c + c) by (nonlinear_arith);
        }
    }
}

} // verus!
