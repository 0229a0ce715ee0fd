//! Division of a byte range into one contiguous share per worker.
//!
//! The span of a worker is the file size divided by the number of workers,
//! rounded up to whole bytes. Worker `i` starts at `span * i`, or at the end
//! of the file where that lies beyond it, and takes a span or what is left of
//! the file, whichever is less.
use vstd::prelude::*;

verus! {

/// One worker's share: `length` bytes that start `offset` bytes into the
/// file. The worker's part of the buffer is the same interval of the buffer.
#[derive(Clone, Copy, Debug, PartialEq, Eq, Structural)]
pub struct Shard {
    pub offset: u64,
    pub length: u64,
}

impl Shard {
    /// The position just behind the last byte of the shard.
    pub open spec fn end(self) -> int {
        self.offset + self.length
    }

    /// Whether the byte at `position` of the file belongs to the shard.
    pub open spec fn contains(self, position: int) -> bool {
        self.offset <= position < self.end()
    }
}

/// The quotient of `bytes` by `parts`, rounded up.
pub open spec fn span_of(bytes: int, parts: int) -> int
    recommends
        bytes >= 0,
        parts > 0,
{
    (bytes + parts - 1) / parts
}

/// Where worker `index` starts.
pub open spec fn shard_start(file_size: int, thread_count: int, index: int) -> int {
    let reach = span_of(file_size, thread_count) * index;
    if reach <= file_size {
        reach
    } else {
        file_size
    }
}

/// How many bytes worker `index` moves.
pub open spec fn shard_length(file_size: int, thread_count: int, index: int) -> int {
    let span = span_of(file_size, thread_count);
    let left = file_size - shard_start(file_size, thread_count, index);
    if span <= left {
        span
    } else {
        left
    }
}

/// The share of worker `index`.
pub open spec fn shard_of(file_size: u64, thread_count: u64, index: int) -> Shard {
    Shard {
        offset: shard_start(file_size as int, thread_count as int, index) as u64,
        length: shard_length(file_size as int, thread_count as int, index) as u64,
    }
}

/// The shares of all workers, by worker index.
pub open spec fn shard_plan(file_size: u64, thread_count: u64) -> Seq<Shard> {
    Seq::new(thread_count as nat, |index: int| shard_of(file_size, thread_count, index))
}

/// Whether one of `shards` holds the byte at `position`.
pub open spec fn covers(shards: Seq<Shard>, position: int) -> bool {
    exists|i: int| 0 <= i < shards.len() && #[trigger] shards[i].contains(position)
}

/// The lengths of `shards` added up.
pub open spec fn total_length(shards: Seq<Shard>) -> int
    decreases shards.len(),
{
    if shards.len() == 0 {
        0
    } else {
        total_length(shards.drop_last()) + shards.last().length
    }
}

/// A span is no longer than the file, and `parts` spans reach its end.
pub proof fn lemma_span_bounds(bytes: int, parts: int)
    requires
        bytes >= 0,
        parts >= 1,
    ensures
        0 <= span_of(bytes, parts) <= bytes,
        span_of(bytes, parts) * parts >= bytes,
        span_of(bytes, parts) * (parts - 1) <= bytes + parts,
        bytes > 0 ==> span_of(bytes, parts) >= 1,
{
    let span = span_of(bytes, parts);
    let top = bytes + parts - 1;
    assert(top == parts * (top / parts) + top % parts && 0 <= top % parts < parts) by {
        vstd::arithmetic::div_mod::lemma_fundamental_div_mod(top, parts);
        vstd::arithmetic::div_mod::lemma_mod_bound(top, parts);
    }
    assert(span * parts == parts * span) by (nonlinear_arith);
    assert(span * (parts - 1) == span * parts - span) by (nonlinear_arith);
    assert(span >= 0) by (nonlinear_arith)
        requires
            parts >= 1,
            parts * span + parts > 0,
    ;
    assert(span <= bytes) by (nonlinear_arith)
        requires
            parts >= 1,
            bytes >= 0,
            span >= 0,
            parts * span <= bytes + parts - 1,
    ;
    if bytes > 0 {
        assert(span >= 1) by (nonlinear_arith)
            requires
                parts >= 1,
                parts * span + parts > bytes + parts - 1,
                bytes > 0,
        ;
    }
}

/// Each share lies inside the file and begins where the one before it ends;
/// the first begins at zero and the last ends at the end of the file.
pub proof fn lemma_shards_contiguous(file_size: int, thread_count: int, index: int)
    requires
        file_size >= 0,
        thread_count >= 1,
        0 <= index,
    ensures
        0 <= shard_start(file_size, thread_count, index) <= file_size,
        0 <= shard_length(file_size, thread_count, index) <= span_of(file_size, thread_count),
        shard_start(file_size, thread_count, index) + shard_length(file_size, thread_count, index)
            == shard_start(file_size, thread_count, index + 1),
        shard_start(file_size, thread_count, 0) == 0,
        index >= thread_count ==> shard_start(file_size, thread_count, index) == file_size,
{
    let span = span_of(file_size, thread_count);
    lemma_span_bounds(file_size, thread_count);
    assert(span * (index + 1) == span * index + span) by (nonlinear_arith);
    assert(span * index >= 0) by (nonlinear_arith)
        requires
            span >= 0,
            index >= 0,
    ;
    assert(span * 0 == 0) by (nonlinear_arith);
    if index >= thread_count {
        assert(span * index >= span * thread_count) by (nonlinear_arith)
            requires
                span >= 0,
                index >= thread_count,
        ;
    }
}

/// The lengths of the first `count` shares add up to the start of the next.
pub proof fn lemma_prefix_length(file_size: u64, thread_count: u64, count: int)
    requires
        thread_count >= 1,
        0 <= count <= thread_count,
    ensures
        total_length(shard_plan(file_size, thread_count).take(count)) == shard_start(
            file_size as int,
            thread_count as int,
            count,
        ),
    decreases count,
{
    let plan = shard_plan(file_size, thread_count);
    let prefix = plan.take(count);
    lemma_shards_contiguous(file_size as int, thread_count as int, 0);
    if count > 0 {
        lemma_prefix_length(file_size, thread_count, count - 1);
        lemma_shards_contiguous(file_size as int, thread_count as int, count - 1);
        lemma_span_bounds(file_size as int, thread_count as int);
        assert(prefix.drop_last() =~= plan.take(count - 1));
        assert(prefix.last() == shard_of(file_size, thread_count, count - 1));
    }
}

/// The shares of a plan cover the file exactly: they follow one another from
/// byte zero to the end of the file without a gap, no byte belongs to two of
/// them, every byte of the file belongs to one, and their lengths add up to
/// the file size. This holds for every file size and every number of workers,
/// also where there are more workers than bytes.
pub proof fn lemma_plan_covers_file(file_size: u64, thread_count: u64)
    requires
        thread_count >= 1,
    ensures
        shard_plan(file_size, thread_count).len() == thread_count,
        shard_plan(file_size, thread_count)[0].offset == 0,
        shard_plan(file_size, thread_count).last().end() == file_size,
        forall|i: int|
            0 <= i < thread_count - 1 ==> (#[trigger] shard_plan(file_size, thread_count)[i]).end()
                == shard_plan(file_size, thread_count)[i + 1].offset,
        forall|i: int, j: int, position: int|
            0 <= i < j < thread_count ==> !(#[trigger] shard_plan(file_size, thread_count)[i].contains(
                position,
            ) && #[trigger] shard_plan(file_size, thread_count)[j].contains(position)),
        forall|position: int|
            0 <= position < file_size ==> #[trigger] covers(
                shard_plan(file_size, thread_count),
                position,
            ),
        forall|i: int, position: int|
            0 <= i < thread_count && #[trigger] shard_plan(file_size, thread_count)[i].contains(
                position,
            ) ==> 0 <= position < file_size,
        total_length(shard_plan(file_size, thread_count)) == file_size,
{
    let plan = shard_plan(file_size, thread_count);
    let size = file_size as int;
    let count = thread_count as int;
    lemma_span_bounds(size, count);
    assert forall|i: int| 0 <= i < count implies ({
        &&& (#[trigger] plan[i]).offset == shard_start(size, count, i)
        &&& plan[i].end() == shard_start(size, count, i + 1)
        &&& plan[i].end() <= size
    }) by {
        lemma_shards_contiguous(size, count, i);
        lemma_shards_contiguous(size, count, i + 1);
    }
    lemma_shards_contiguous(size, count, 0);
    lemma_shards_contiguous(size, count, count);
    assert forall|i: int, j: int| 0 <= i <= j <= count implies shard_start(size, count, i)
        <= shard_start(size, count, j) by {
        lemma_start_monotonic(size, count, i, j);
    }
    assert forall|i: int, j: int, position: int| 0 <= i < j < count implies !(
    #[trigger] plan[i].contains(position) && #[trigger] plan[j].contains(position)) by {
        lemma_start_monotonic(size, count, i + 1, j);
    }
    assert forall|position: int| 0 <= position < size implies #[trigger] covers(
        plan,
        position,
    ) by {
        let i = lemma_owner_exists(size, count, position, count);
        assert(plan[i].contains(position));
    }
    assert(plan.take(count) =~= plan);
    lemma_prefix_length(file_size, thread_count, count);
}

/// An empty file leaves every worker with an empty share at its beginning.
pub proof fn lemma_empty_file(thread_count: u64, index: int)
    requires
        thread_count >= 1,
        0 <= index < thread_count,
    ensures
        shard_plan(0, thread_count)[index] == (Shard { offset: 0, length: 0 }),
{
    lemma_shards_contiguous(0, thread_count as int, index);
    lemma_shards_contiguous(0, thread_count as int, index + 1);
}

/// Shares that come later start later.
pub proof fn lemma_start_monotonic(file_size: int, thread_count: int, i: int, j: int)
    requires
        file_size >= 0,
        thread_count >= 1,
        0 <= i <= j,
    ensures
        shard_start(file_size, thread_count, i) <= shard_start(file_size, thread_count, j),
{
    let span = span_of(file_size, thread_count);
    lemma_span_bounds(file_size, thread_count);
    assert(span * i <= span * j) by (nonlinear_arith)
        requires
            span >= 0,
            0 <= i <= j,
    ;
}

/// A byte that lies before the start of share `bound` belongs to one of the
/// shares before it.
proof fn lemma_owner_exists(file_size: int, thread_count: int, position: int, bound: int) -> (owner:
    int)
    requires
        file_size >= 0,
        thread_count >= 1,
        0 <= bound,
        0 <= position < shard_start(file_size, thread_count, bound),
    ensures
        0 <= owner < bound,
        shard_start(file_size, thread_count, owner) <= position < shard_start(
            file_size,
            thread_count,
            owner + 1,
        ),
    decreases bound,
{
    lemma_shards_contiguous(file_size, thread_count, 0);
    if position >= shard_start(file_size, thread_count, bound - 1) {
        bound - 1
    } else {
        lemma_owner_exists(file_size, thread_count, position, bound - 1)
    }
}

/// The length of a worker's span: `file_size / thread_count`, rounded up.
pub fn thread_span(file_size: u64, thread_count: u64) -> (span: u64)
    requires
        thread_count >= 1,
    ensures
        span == span_of(file_size as int, thread_count as int),
{
    let whole: u64 = file_size / thread_count;
    let rest: u64 = file_size % thread_count;
    proof {
        let size = file_size as int;
        let count = thread_count as int;
        assert(size == count * (size / count) + size % count) by {
            vstd::arithmetic::div_mod::lemma_fundamental_div_mod(size, count);
        }
        if rest == 0 {
            assert((size + count - 1) / count == size / count) by (nonlinear_arith)
                requires
                    count >= 1,
                    size == count * (size / count),
            ;
        } else {
            assert((size + count - 1) / count == size / count + 1) by (nonlinear_arith)
                requires
                    count >= 1,
                    size == count * (size / count) + size % count,
                    0 < size % count < count,
            ;
            lemma_span_bounds(size, count);
        }
    }
    if rest == 0 {
        whole
    } else {
        whole + 1
    }
}

/// The share of worker `index` among `thread_count` workers.
pub fn shard_at(file_size: u64, thread_count: u64, index: u64) -> (shard: Shard)
    requires
        thread_count >= 1,
    ensures
        shard == shard_of(file_size, thread_count, index as int),
        shard.end() <= file_size,
{
    let span: u64 = thread_span(file_size, thread_count);
    proof {
        lemma_shards_contiguous(file_size as int, thread_count as int, index as int);
        lemma_shards_contiguous(file_size as int, thread_count as int, index as int + 1);
        assert(0 <= span * index <= 0xffff_ffff_ffff_ffff * 0xffff_ffff_ffff_ffff)
            by (nonlinear_arith)
            requires
                0 <= span <= 0xffff_ffff_ffff_ffff,
                0 <= index <= 0xffff_ffff_ffff_ffff,
        ;
    }
    let reach: u128 = (span as u128) * (index as u128);
    let offset: u64 = if reach <= file_size as u128 {
        reach as u64
    } else {
        file_size
    };
    let left: u64 = file_size - offset;
    let length: u64 = if span <= left {
        span
    } else {
        left
    };
    Shard { offset, length }
}

/// The shares of all workers, in the order of their indices.
pub fn plan_shards(file_size: u64, thread_count: u64) -> (shards: Vec<Shard>)
    requires
        thread_count >= 1,
        thread_count <= usize::MAX,
    ensures
        shards@ == shard_plan(file_size, thread_count),
{
    let mut shards: Vec<Shard> = Vec::new();
    let mut index: u64 = 0;
    while index < thread_count
        invariant
            thread_count >= 1,
            index <= thread_count,
            shards@.len() == index,
            forall|i: int| 0 <= i < index ==> shards@[i] == shard_of(file_size, thread_count, i),
        decreases thread_count - index,
    {
        let shard = shard_at(file_size, thread_count, index);
        shards.push(shard);
        index = index + 1;
    }
    assert(shards@ =~= shard_plan(file_size, thread_count));
    shards
}

} // verus!
