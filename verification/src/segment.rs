//! Division of a worker's bytes into the fixed-size segments of a vectored
//! call.
//!
//! A range of `total` bytes is walked in strides of `chunk_size`: segment `i`
//! begins at `i * chunk_size` and is `chunk_size` bytes long, but for the last
//! one, which ends with the range.
use vstd::prelude::*;

verus! {

/// One element of a vectored call: `iov_len` bytes that begin `iov_base`
/// bytes into the worker's part of the buffer.
#[derive(Clone, Copy, Debug, PartialEq, Eq, Structural)]
pub struct IoVec {
    pub iov_base: usize,
    pub iov_len: usize,
}

impl IoVec {
    /// The position just behind the last byte of the segment.
    pub open spec fn end(self) -> int {
        self.iov_base + self.iov_len
    }
}

/// How many segments a range of `total` bytes has.
pub open spec fn segment_count(total: int, chunk_size: int) -> int
    recommends
        total >= 0,
        chunk_size > 0,
{
    (total + chunk_size - 1) / chunk_size
}

/// Where segment `index` begins.
pub open spec fn segment_start(chunk_size: int, index: int) -> int {
    chunk_size * index
}

/// How long segment `index` is.
pub open spec fn segment_length(total: int, chunk_size: int, index: int) -> int {
    let left = total - segment_start(chunk_size, index);
    if chunk_size <= left {
        chunk_size
    } else {
        left
    }
}

/// Segment `index` of a range of `total` bytes.
pub open spec fn segment_of(total: usize, chunk_size: usize, index: int) -> IoVec {
    IoVec {
        iov_base: segment_start(chunk_size as int, index) as usize,
        iov_len: segment_length(total as int, chunk_size as int, index) as usize,
    }
}

/// The segments of a range of `total` bytes, in order.
pub open spec fn segment_plan(total: usize, chunk_size: usize) -> Seq<IoVec> {
    Seq::new(
        segment_count(total as int, chunk_size as int) as nat,
        |index: int| segment_of(total, chunk_size, index),
    )
}

/// The lengths of `segments` added up.
pub open spec fn total_bytes(segments: Seq<IoVec>) -> int
    decreases segments.len(),
{
    if segments.len() == 0 {
        0
    } else {
        total_bytes(segments.drop_last()) + segments.last().iov_len
    }
}

/// The segments reach the end of the range, and the last one is not empty.
pub proof fn lemma_segment_count(total: int, chunk_size: int)
    requires
        total >= 0,
        chunk_size >= 1,
    ensures
        0 <= segment_count(total, chunk_size) <= total,
        chunk_size * segment_count(total, chunk_size) >= total,
        chunk_size * (segment_count(total, chunk_size) - 1) < total || total == 0,
        total == 0 <==> segment_count(total, chunk_size) == 0,
{
    let count = segment_count(total, chunk_size);
    let top = total + chunk_size - 1;
    assert(top == chunk_size * (top / chunk_size) + top % chunk_size && 0 <= top % chunk_size
        < chunk_size) by {
        vstd::arithmetic::div_mod::lemma_fundamental_div_mod(top, chunk_size);
        vstd::arithmetic::div_mod::lemma_mod_bound(top, chunk_size);
    }
    assert(chunk_size * (count - 1) == chunk_size * count - chunk_size) by (nonlinear_arith);
    assert(0 <= count <= total) by (nonlinear_arith)
        requires
            chunk_size >= 1,
            total >= 0,
            chunk_size * count <= total + chunk_size - 1,
            chunk_size * count + chunk_size > total + chunk_size - 1,
    ;
    if count == 0 {
        assert(chunk_size * count == 0) by (nonlinear_arith)
            requires
                count == 0,
        ;
    }
}

/// The number of segments is the only `count` whose last stride begins
/// inside the range and ends at or behind its end.
pub proof fn lemma_segment_count_unique(total: int, chunk_size: int, count: int)
    requires
        total > 0,
        chunk_size >= 1,
        chunk_size * (count - 1) < total <= chunk_size * count,
    ensures
        count == segment_count(total, chunk_size),
{
    let exact = segment_count(total, chunk_size);
    lemma_segment_count(total, chunk_size);
    assert(count == exact) by (nonlinear_arith)
        requires
            chunk_size >= 1,
            chunk_size * (count - 1) < total <= chunk_size * count,
            chunk_size * (exact - 1) < total <= chunk_size * exact,
    ;
}

/// Every segment of a plan lies inside the range, is at most `chunk_size`
/// bytes long and not empty, and begins where the one before it ends. All but
/// the last are exactly `chunk_size` bytes long.
pub proof fn lemma_segments_contiguous(total: int, chunk_size: int, index: int)
    requires
        total >= 0,
        chunk_size >= 1,
        0 <= index < segment_count(total, chunk_size),
    ensures
        0 <= segment_start(chunk_size, index) < total,
        1 <= segment_length(total, chunk_size, index) <= chunk_size,
        segment_start(chunk_size, index) + segment_length(total, chunk_size, index) <= total,
        index + 1 < segment_count(total, chunk_size) ==> segment_length(total, chunk_size, index)
            == chunk_size && segment_start(chunk_size, index + 1) == segment_start(
            chunk_size,
            index,
        ) + chunk_size,
        index + 1 == segment_count(total, chunk_size) ==> segment_start(chunk_size, index)
            + segment_length(total, chunk_size, index) == total,
{
    let count = segment_count(total, chunk_size);
    lemma_segment_count(total, chunk_size);
    assert(chunk_size * (index + 1) == chunk_size * index + chunk_size) by (nonlinear_arith);
    assert(chunk_size * (count - 1) == chunk_size * count - chunk_size) by (nonlinear_arith);
    assert(0 <= chunk_size * index) by (nonlinear_arith)
        requires
            chunk_size >= 1,
            index >= 0,
    ;
    assert(chunk_size * index <= chunk_size * (count - 1)) by (nonlinear_arith)
        requires
            chunk_size >= 1,
            index <= count - 1,
    ;
    if index + 1 < count {
        assert(chunk_size * (index + 1) <= chunk_size * (count - 1)) by (nonlinear_arith)
            requires
                chunk_size >= 1,
                index + 1 <= count - 1,
        ;
    }
}

/// The lengths of the first `count` segments add up to the start of the
/// next, or to the whole range where there is no next.
pub proof fn lemma_prefix_bytes(total: usize, chunk_size: usize, count: int)
    requires
        chunk_size >= 1,
        0 <= count <= segment_count(total as int, chunk_size as int),
    ensures
        total_bytes(segment_plan(total, chunk_size).take(count)) == if count == segment_count(
            total as int,
            chunk_size as int,
        ) {
            total as int
        } else {
            segment_start(chunk_size as int, count)
        },
    decreases count,
{
    let plan = segment_plan(total, chunk_size);
    let prefix = plan.take(count);
    lemma_segment_count(total as int, chunk_size as int);
    if count > 0 {
        lemma_prefix_bytes(total, chunk_size, count - 1);
        lemma_segments_contiguous(total as int, chunk_size as int, count - 1);
        assert(prefix.drop_last() =~= plan.take(count - 1));
        assert(prefix.last() == segment_of(total, chunk_size, count - 1));
        assert(chunk_size * 0 == 0) by (nonlinear_arith);
    } else {
        assert(chunk_size * 0 == 0) by (nonlinear_arith);
    }
}

/// The segments of a plan cover the range exactly: the first begins at zero,
/// each begins where the one before it ends, the last ends with the range,
/// and their lengths add up to the length of the range.
pub proof fn lemma_plan_covers_range(total: usize, chunk_size: usize)
    requires
        chunk_size >= 1,
    ensures
        segment_plan(total, chunk_size).len() == segment_count(total as int, chunk_size as int),
        total > 0 ==> segment_plan(total, chunk_size)[0].iov_base == 0 && segment_plan(
            total,
            chunk_size,
        ).last().end() == total,
        forall|i: int|
            0 <= i < segment_plan(total, chunk_size).len() - 1 ==> (#[trigger] segment_plan(
                total,
                chunk_size,
            )[i]).end() == segment_plan(total, chunk_size)[i + 1].iov_base && segment_plan(
                total,
                chunk_size,
            )[i].iov_len == chunk_size,
        forall|i: int|
            0 <= i < segment_plan(total, chunk_size).len() ==> 1 <= (#[trigger] segment_plan(
                total,
                chunk_size,
            )[i]).iov_len <= chunk_size,
        total_bytes(segment_plan(total, chunk_size)) == total,
{
    let plan = segment_plan(total, chunk_size);
    let count = segment_count(total as int, chunk_size as int);
    lemma_segment_count(total as int, chunk_size as int);
    assert forall|i: int| 0 <= i < count implies ({
        &&& (#[trigger] plan[i]).iov_base == segment_start(chunk_size as int, i)
        &&& plan[i].iov_len == segment_length(total as int, chunk_size as int, i)
        &&& 1 <= plan[i].iov_len <= chunk_size
        &&& i + 1 < count ==> plan[i].end() == segment_start(chunk_size as int, i + 1)
            && plan[i].iov_len == chunk_size
        &&& i + 1 == count ==> plan[i].end() == total
    }) by {
        lemma_segments_contiguous(total as int, chunk_size as int, i);
    }
    if total > 0 {
        assert(chunk_size * 0 == 0) by (nonlinear_arith);
        assert(plan[0].iov_base == 0);
        assert(plan.last() == plan[count - 1]);
    }
    assert forall|i: int| 0 <= i < plan.len() - 1 implies (#[trigger] plan[i]).end() == plan[i
        + 1].iov_base && plan[i].iov_len == chunk_size by {
        assert(plan[i + 1].iov_base == segment_start(chunk_size as int, i + 1));
    }
    assert(plan.take(count) =~= plan);
    lemma_prefix_bytes(total, chunk_size, count);
}

/// The number of segments of a range of `total` bytes.
pub fn count_segments(total: usize, chunk_size: usize) -> (count: usize)
    requires
        chunk_size >= 1,
    ensures
        count == segment_count(total as int, chunk_size as int),
{
    let whole: usize = total / chunk_size;
    let rest: usize = total % chunk_size;
    proof {
        let bytes = total as int;
        let stride = chunk_size as int;
        lemma_segment_count(bytes, stride);
        assert(bytes == stride * (bytes / stride) + bytes % stride) by {
            vstd::arithmetic::div_mod::lemma_fundamental_div_mod(bytes, stride);
        }
        if bytes > 0 {
            if rest == 0 {
                assert(stride * (bytes / stride - 1) == stride * (bytes / stride) - stride)
                    by (nonlinear_arith);
                lemma_segment_count_unique(bytes, stride, bytes / stride);
            } else {
                assert(stride * (bytes / stride + 1) == stride * (bytes / stride) + stride)
                    by (nonlinear_arith);
                assert(stride * ((bytes / stride + 1) - 1) == stride * (bytes / stride))
                    by (nonlinear_arith);
                lemma_segment_count_unique(bytes, stride, bytes / stride + 1);
            }
        }
    }
    if rest == 0 {
        whole
    } else {
        whole + 1
    }
}

/// Walks a range of `total` bytes in strides of `chunk_size` and returns its
/// segments in order.
pub fn segments(total: usize, chunk_size: usize) -> (plan: Vec<IoVec>)
    requires
        chunk_size >= 1,
    ensures
        plan@ == segment_plan(total, chunk_size),
{
    let mut plan: Vec<IoVec> = Vec::new();
    let mut bytes: usize = 0;
    proof {
        assert(chunk_size * 0 == 0) by (nonlinear_arith);
    }
    while bytes < total
        invariant
            chunk_size >= 1,
            bytes <= total,
            bytes < total ==> bytes == chunk_size * plan@.len(),
            bytes == total && total > 0 ==> chunk_size * (plan@.len() - 1) < total <= chunk_size
                * plan@.len(),
            total == 0 ==> plan@.len() == 0,
            forall|i: int| 0 <= i < plan@.len() ==> plan@[i] == segment_of(total, chunk_size, i),
        decreases total - bytes,
    {
        let left: usize = total - bytes;
        let length: usize = if chunk_size <= left {
            chunk_size
        } else {
            left
        };
        proof {
            let index = plan@.len() as int;
            assert(chunk_size * (index + 1) == chunk_size * index + chunk_size)
                by (nonlinear_arith);
            assert(chunk_size * ((index + 1) - 1) == chunk_size * index) by (nonlinear_arith);
        }
        plan.push(IoVec { iov_base: bytes, iov_len: length });
        bytes = bytes + length;
    }
    proof {
        lemma_segment_count(total as int, chunk_size as int);
        if total > 0 {
            lemma_segment_count_unique(total as int, chunk_size as int, plan@.len() as int);
        }
        assert(plan@ =~= segment_plan(total, chunk_size));
    }
    plan
}

} // verus!
