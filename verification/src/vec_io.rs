//! Where a vectored call that fell short has stopped, and what completes
//! the segment it stopped in.
//!
//! A vectored call reports one number: how many bytes it moved over all its
//! segments together. With segments of one size the place where it stopped
//! follows from that number. Where it stopped inside a segment, the rest of
//! that segment is moved by a plain call, and the next vectored call begins
//! with the segment behind it. Where it stopped between two segments, the
//! next vectored call begins right there.
use crate::segment::{
    lemma_segment_count, lemma_segments_contiguous, segment_count, segment_length, segment_plan,
    segment_start, segments, IoVec,
};
use vstd::prelude::*;

verus! {

/// The most bytes that one vectored call moves on this platform.
pub const MAX_VECTORED_BYTES: usize = 0x7fff_f000;

/// The most segments that one vectored call takes on this platform.
pub const MAX_VECTORED_SEGMENTS: usize = 1024;

/// The rest of a segment that a vectored call left incomplete.
#[derive(Clone, Copy, Debug, PartialEq, Eq, Structural)]
pub struct Repair {
    /// The index of the incomplete segment.
    pub segment: usize,
    /// Where the missing bytes begin in the worker's part of the buffer.
    pub buf_start: usize,
    /// How many bytes are missing.
    pub len: usize,
}

/// Whether `position` lies between two segments, or at the end of the range.
pub open spec fn on_boundary(total: int, chunk_size: int, position: int) -> bool {
    position % chunk_size == 0 || position == total
}

/// The end of the segment that holds the byte at `position`.
pub open spec fn stride_end(total: int, chunk_size: int, position: int) -> int {
    let index = position / chunk_size;
    segment_start(chunk_size, index) + segment_length(total, chunk_size, index)
}

/// What is missing of the segment in which a call stopped at `position`, if
/// it stopped inside one.
pub open spec fn repair_of(total: usize, chunk_size: usize, position: usize) -> Option<Repair> {
    if on_boundary(total as int, chunk_size as int, position as int) {
        None
    } else {
        Some(
            Repair {
                segment: (position / chunk_size) as usize,
                buf_start: position,
                len: (stride_end(total as int, chunk_size as int, position as int)
                    - position) as usize,
            },
        )
    }
}

/// The segment that holds the byte at `position` is segment
/// `position / chunk_size`; it begins at or before `position` and ends
/// behind it. What is missing of it is its length less the bytes of it that
/// lie before `position`, which are `position % chunk_size`.
pub proof fn lemma_stride(total: int, chunk_size: int, position: int)
    requires
        chunk_size >= 1,
        0 <= position < total,
    ensures
        0 <= position / chunk_size < segment_count(total, chunk_size),
        segment_start(chunk_size, position / chunk_size) == position - position % chunk_size,
        0 <= position % chunk_size < segment_length(total, chunk_size, position / chunk_size),
        position < stride_end(total, chunk_size, position) <= total,
        stride_end(total, chunk_size, position) - position == segment_length(
            total,
            chunk_size,
            position / chunk_size,
        ) - position % chunk_size,
        stride_end(total, chunk_size, position) - position <= chunk_size,
        on_boundary(total, chunk_size, stride_end(total, chunk_size, position)),
        stride_end(total, chunk_size, position) < total ==> stride_end(total, chunk_size, position)
            == chunk_size * (position / chunk_size + 1),
{
    let index = position / chunk_size;
    let count = segment_count(total, chunk_size);
    assert(position == chunk_size * index + position % chunk_size && 0 <= position % chunk_size
        < chunk_size) by {
        vstd::arithmetic::div_mod::lemma_fundamental_div_mod(position, chunk_size);
        vstd::arithmetic::div_mod::lemma_mod_bound(position, chunk_size);
    }
    lemma_segment_count(total, chunk_size);
    assert(0 <= index < count) by (nonlinear_arith)
        requires
            chunk_size >= 1,
            0 <= position < total,
            position == chunk_size * index + position % chunk_size,
            0 <= position % chunk_size < chunk_size,
            chunk_size * count >= total,
    ;
    lemma_segments_contiguous(total, chunk_size, index);
    assert(chunk_size * (index + 1) == chunk_size * index + chunk_size) by (nonlinear_arith);
    let end = stride_end(total, chunk_size, position);
    if end < total {
        assert(end == chunk_size * (index + 1));
        assert(end % chunk_size == 0) by {
            vstd::arithmetic::div_mod::lemma_mod_multiples_basic(index + 1, chunk_size);
            assert(chunk_size * (index + 1) == (index + 1) * chunk_size) by (nonlinear_arith);
        }
    }
}

/// Finds the segment in which a call stopped that has moved the bytes before
/// `position`, and what is missing of it. There is none where the call
/// stopped between two segments or at the end of the range.
pub fn locate_partial(total: usize, chunk_size: usize, position: usize) -> (repair: Option<
    Repair,
>)
    requires
        chunk_size >= 1,
        position <= total,
    ensures
        repair == repair_of(total, chunk_size, position),
        repair matches Some(r) ==> r.buf_start + r.len <= total && 1 <= r.len <= chunk_size,
{
    if position == total {
        return None;
    }
    let inside: usize = position % chunk_size;
    if inside == 0 {
        return None;
    }
    proof {
        lemma_stride(total as int, chunk_size as int, position as int);
    }
    let left_in_stride: usize = chunk_size - inside;
    let left_in_range: usize = total - position;
    let len: usize = if left_in_stride <= left_in_range {
        left_in_stride
    } else {
        left_in_range
    };
    Some(Repair { segment: position / chunk_size, buf_start: position, len })
}

/// The longest run of whole segments that one vectored call can take: as
/// many segments of `chunk_size` bytes as fit into `max_bytes`, but no more
/// than `max_segments`, and one segment where that leaves none.
pub open spec fn batch_stride(chunk_size: int, max_bytes: int, max_segments: int) -> int {
    let fitting = max_bytes / chunk_size;
    let whole = if fitting <= max_segments {
        fitting
    } else {
        max_segments
    };
    if whole >= 1 {
        chunk_size * whole
    } else {
        chunk_size
    }
}

/// A batch is a whole number of segments and at least one. Where the limits
/// admit one segment at all, it is no longer than `max_bytes` and has no more
/// than `max_segments` segments.
pub proof fn lemma_batch_stride(chunk_size: int, max_bytes: int, max_segments: int)
    requires
        chunk_size >= 1,
        max_bytes >= 0,
        max_segments >= 0,
    ensures
        batch_stride(chunk_size, max_bytes, max_segments) >= chunk_size,
        batch_stride(chunk_size, max_bytes, max_segments) % chunk_size == 0,
        chunk_size <= max_bytes && max_segments >= 1 ==> batch_stride(
            chunk_size,
            max_bytes,
            max_segments,
        ) <= max_bytes && batch_stride(chunk_size, max_bytes, max_segments) <= chunk_size
            * max_segments,
{
    let fitting = max_bytes / chunk_size;
    let whole = if fitting <= max_segments {
        fitting
    } else {
        max_segments
    };
    assert(max_bytes == chunk_size * fitting + max_bytes % chunk_size && 0 <= max_bytes
        % chunk_size < chunk_size) by {
        vstd::arithmetic::div_mod::lemma_fundamental_div_mod(max_bytes, chunk_size);
        vstd::arithmetic::div_mod::lemma_mod_bound(max_bytes, chunk_size);
    }
    if chunk_size <= max_bytes {
        assert(fitting >= 1) by (nonlinear_arith)
            requires
                chunk_size >= 1,
                chunk_size <= max_bytes,
                max_bytes == chunk_size * fitting + max_bytes % chunk_size,
                0 <= max_bytes % chunk_size < chunk_size,
        ;
    }
    if whole >= 1 {
        assert(chunk_size * whole >= chunk_size) by (nonlinear_arith)
            requires
                chunk_size >= 1,
                whole >= 1,
        ;
        assert(chunk_size * whole <= chunk_size * fitting && chunk_size * whole <= chunk_size
            * max_segments) by (nonlinear_arith)
            requires
                chunk_size >= 1,
                whole <= fitting,
                whole <= max_segments,
        ;
        assert((chunk_size * whole) % chunk_size == 0) by {
            vstd::arithmetic::div_mod::lemma_mod_multiples_basic(whole, chunk_size);
            assert(chunk_size * whole == whole * chunk_size) by (nonlinear_arith);
        }
    } else {
        assert(chunk_size % chunk_size == 0) by {
            vstd::arithmetic::div_mod::lemma_mod_self_0(chunk_size);
        }
    }
}

/// Divides a range that is too long for one vectored call into batches
/// that are each moved by a transfer of their own. Every batch but the last
/// is the longest run of whole segments that the limits of one call admit,
/// so that each batch begins where a segment of the whole range begins.
pub fn split_for_vectored(
    total: usize,
    chunk_size: usize,
    max_bytes: usize,
    max_segments: usize,
) -> (batches: Vec<IoVec>)
    requires
        chunk_size >= 1,
    ensures
        batches@ == segment_plan(
            total,
            batch_stride(chunk_size as int, max_bytes as int, max_segments as int) as usize,
        ),
        1 <= batch_stride(chunk_size as int, max_bytes as int, max_segments as int) <= usize::MAX,
{
    let fitting: usize = max_bytes / chunk_size;
    let whole: usize = if fitting <= max_segments {
        fitting
    } else {
        max_segments
    };
    proof {
        lemma_batch_stride(chunk_size as int, max_bytes as int, max_segments as int);
        let c = chunk_size as int;
        let l = max_bytes as int;
        assert(l == c * (l / c) + l % c && 0 <= l % c) by {
            vstd::arithmetic::div_mod::lemma_fundamental_div_mod(l, c);
            vstd::arithmetic::div_mod::lemma_mod_bound(l, c);
        }
        assert(c * whole <= c * (l / c)) by (nonlinear_arith)
            requires
                c >= 1,
                0 <= whole <= l / c,
        ;
    }
    let stride: usize = if whole >= 1 {
        chunk_size * whole
    } else {
        chunk_size
    };
    segments(total, stride)
}

} // verus!
