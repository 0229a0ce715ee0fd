//! What the calls of a transfer do to the bytes of the buffer and the file,
//! and what follows for a transfer that has run to its end.
//!
//! The file and the worker's part of the buffer are sequences of bytes. A
//! call that returns a count has moved that many bytes, from where the
//! complete bytes ended, between the two. The returns of the calls of one
//! transfer, in order, are a run.
use crate::error::TransferError;
use crate::shard::{covers, lemma_plan_covers_file, shard_plan};
use crate::strategy::Strategy;
use crate::transfer::{
    lemma_action_in_order, lemma_step_advances, transfer_allowed, Action, Transfer, TransferState,
};
use crate::vec_io::lemma_stride;
use vstd::prelude::*;

verus! {

/// `dest` after `count` bytes have been copied to it at `dest_start` from
/// `source` at `source_start`.
pub open spec fn moved(
    dest: Seq<u8>,
    source: Seq<u8>,
    dest_start: int,
    source_start: int,
    count: int,
) -> Seq<u8> {
    Seq::new(
        dest.len(),
        |i: int|
            if dest_start <= i < dest_start + count {
                source[source_start + (i - dest_start)]
            } else {
                dest[i]
            },
    )
}

/// The buffer after the next call of a reading transfer has returned `ret`.
pub open spec fn read_effect(state: TransferState, ret: int, buffer: Seq<u8>, file: Seq<u8>) -> Seq<
    u8,
> {
    if state.accepts(ret) {
        moved(buffer, file, state.done, state.base + state.done, ret)
    } else {
        buffer
    }
}

/// The file after the next call of a writing transfer has returned `ret`.
pub open spec fn write_effect(state: TransferState, ret: int, file: Seq<u8>, buffer: Seq<u8>) -> Seq<
    u8,
> {
    if state.accepts(ret) {
        moved(file, buffer, state.base + state.done, state.done, ret)
    } else {
        file
    }
}

/// The state after the calls of a transfer have returned `rets`, in order.
pub open spec fn run(state: TransferState, rets: Seq<int>) -> TransferState
    decreases rets.len(),
{
    if rets.len() == 0 {
        state
    } else {
        run(state.after(rets[0]), rets.drop_first())
    }
}

/// The buffer after the calls of a reading transfer have returned `rets`.
pub open spec fn read_run(state: TransferState, rets: Seq<int>, buffer: Seq<u8>, file: Seq<u8>)
    -> Seq<u8>
    decreases rets.len(),
{
    if rets.len() == 0 {
        buffer
    } else {
        read_run(
            state.after(rets[0]),
            rets.drop_first(),
            read_effect(state, rets[0], buffer, file),
            file,
        )
    }
}

/// The file after the calls of a writing transfer have returned `rets`.
pub open spec fn write_run(state: TransferState, rets: Seq<int>, file: Seq<u8>, buffer: Seq<u8>)
    -> Seq<u8>
    decreases rets.len(),
{
    if rets.len() == 0 {
        file
    } else {
        write_run(
            state.after(rets[0]),
            rets.drop_first(),
            write_effect(state, rets[0], file, buffer),
            buffer,
        )
    }
}

/// Whether the first `count` bytes of the worker's part of the buffer are
/// the bytes of the file from `base` on.
pub open spec fn agree(buffer: Seq<u8>, file: Seq<u8>, base: int, count: int) -> bool {
    buffer.subrange(0, count) == file.subrange(base, base + count)
}

/// The returns of a primitive that first moves `n` bytes and from then on
/// all that it is asked for: the short first call and the two that follow.
pub open spec fn short_first_returns(state: TransferState, n: int) -> Seq<int> {
    let second = state.after(n);
    let third = second.after(second.requested());
    seq![n, second.requested(), third.requested()]
}

/// A run leaves a state that makes sense, for the same range, with no fewer
/// bytes complete than before.
pub proof fn lemma_run_advances(state: TransferState, rets: Seq<int>)
    requires
        state.wf(),
    ensures
        run(state, rets).wf(),
        run(state, rets).start() == state.start(),
        state.done <= run(state, rets).done <= state.total,
    decreases rets.len(),
{
    if rets.len() > 0 {
        lemma_step_advances(state, rets[0]);
        lemma_run_advances(state.after(rets[0]), rets.drop_first());
    }
}

/// While a transfer reads, the complete bytes of the buffer are those of
/// the file, and the bytes behind them are as they were. This holds after
/// every run, whatever the calls returned.
pub proof fn lemma_read_run_agrees(
    state: TransferState,
    rets: Seq<int>,
    buffer: Seq<u8>,
    file: Seq<u8>,
)
    requires
        state.wf(),
        buffer.len() >= state.total,
        file.len() >= state.base + state.total,
        agree(buffer, file, state.base, state.done),
    ensures
        read_run(state, rets, buffer, file).len() == buffer.len(),
        agree(read_run(state, rets, buffer, file), file, state.base, run(state, rets).done),
        forall|i: int|
            run(state, rets).done <= i < buffer.len() ==> read_run(state, rets, buffer, file)[i]
                == buffer[i],
    decreases rets.len(),
{
    if rets.len() > 0 {
        let ret = rets[0];
        let next = state.after(ret);
        let stepped = read_effect(state, ret, buffer, file);
        lemma_step_advances(state, ret);
        lemma_action_in_order(state);
        assert(agree(stepped, file, next.base, next.done)) by {
            assert forall|i: int| 0 <= i < next.done implies stepped.subrange(0, next.done)[i]
                == file.subrange(next.base, next.base + next.done)[i] by {
                if i < state.done {
                    assert(buffer.subrange(0, state.done)[i] == file.subrange(
                        state.base,
                        state.base + state.done,
                    )[i]);
                }
            }
            assert(stepped.subrange(0, next.done) =~= file.subrange(
                next.base,
                next.base + next.done,
            ));
        }
        lemma_read_run_agrees(next, rets.drop_first(), stepped, file);
        lemma_run_advances(next, rets.drop_first());
        let out = read_run(state, rets, buffer, file);
        assert forall|i: int| run(state, rets).done <= i < buffer.len() implies out[i]
            == buffer[i] by {
            assert(out[i] == stepped[i]);
        }
    }
}

/// While a transfer writes, the part of the file that stands for the
/// complete bytes holds those bytes of the buffer, and the rest of the file
/// is as it was. This holds after every run, whatever the calls returned.
pub proof fn lemma_write_run_agrees(
    state: TransferState,
    rets: Seq<int>,
    file: Seq<u8>,
    buffer: Seq<u8>,
)
    requires
        state.wf(),
        buffer.len() >= state.total,
        file.len() >= state.base + state.total,
        agree(buffer, file, state.base, state.done),
    ensures
        write_run(state, rets, file, buffer).len() == file.len(),
        agree(buffer, write_run(state, rets, file, buffer), state.base, run(state, rets).done),
        forall|i: int|
            0 <= i < file.len() && !(state.base + state.done <= i < state.base + run(
                state,
                rets,
            ).done) ==> write_run(state, rets, file, buffer)[i] == file[i],
    decreases rets.len(),
{
    if rets.len() > 0 {
        let ret = rets[0];
        let next = state.after(ret);
        let stepped = write_effect(state, ret, file, buffer);
        lemma_step_advances(state, ret);
        lemma_action_in_order(state);
        assert(agree(buffer, stepped, next.base, next.done)) by {
            assert forall|i: int| 0 <= i < next.done implies buffer.subrange(0, next.done)[i]
                == stepped.subrange(next.base, next.base + next.done)[i] by {
                if i < state.done {
                    assert(buffer.subrange(0, state.done)[i] == file.subrange(
                        state.base,
                        state.base + state.done,
                    )[i]);
                }
            }
            assert(buffer.subrange(0, next.done) =~= stepped.subrange(
                next.base,
                next.base + next.done,
            ));
        }
        lemma_write_run_agrees(next, rets.drop_first(), stepped, buffer);
        lemma_run_advances(next, rets.drop_first());
        let out = write_run(state, rets, file, buffer);
        assert forall|i: int|
            0 <= i < file.len() && !(state.base + state.done <= i < state.base + run(
                state,
                rets,
            ).done) implies out[i] == file[i] by {
            assert(out[i] == stepped[i]);
        }
    }
}

/// A reading transfer that has run to its end has filled the worker's part
/// of the buffer with the bytes of its range of the file, and has left the
/// rest of the buffer alone.
pub proof fn lemma_read_completes(
    state: TransferState,
    rets: Seq<int>,
    buffer: Seq<u8>,
    file: Seq<u8>,
)
    requires
        state.wf(),
        state.done == 0,
        buffer.len() >= state.total,
        file.len() >= state.base + state.total,
        run(state, rets).finished(),
    ensures
        read_run(state, rets, buffer, file).len() == buffer.len(),
        read_run(state, rets, buffer, file).subrange(0, state.total) == file.subrange(
            state.base,
            state.base + state.total,
        ),
        read_run(state, rets, buffer, file).subrange(state.total, buffer.len() as int)
            == buffer.subrange(state.total, buffer.len() as int),
{
    assert(buffer.subrange(0, 0) =~= file.subrange(state.base, state.base + 0));
    lemma_read_run_agrees(state, rets, buffer, file);
    lemma_run_advances(state, rets);
    assert(read_run(state, rets, buffer, file).subrange(state.total, buffer.len() as int)
        =~= buffer.subrange(state.total, buffer.len() as int));
}

/// A writing transfer that has run to its end has put the worker's part of
/// the buffer into its range of the file, and has left the rest of the file
/// alone.
pub proof fn lemma_write_completes(
    state: TransferState,
    rets: Seq<int>,
    file: Seq<u8>,
    buffer: Seq<u8>,
)
    requires
        state.wf(),
        state.done == 0,
        buffer.len() >= state.total,
        file.len() >= state.base + state.total,
        run(state, rets).finished(),
    ensures
        write_run(state, rets, file, buffer).len() == file.len(),
        write_run(state, rets, file, buffer).subrange(state.base, state.base + state.total)
            == buffer.subrange(0, state.total),
        write_run(state, rets, file, buffer).subrange(0, state.base) == file.subrange(
            0,
            state.base,
        ),
        write_run(state, rets, file, buffer).subrange(
            state.base + state.total,
            file.len() as int,
        ) == file.subrange(state.base + state.total, file.len() as int),
{
    assert(buffer.subrange(0, 0) =~= file.subrange(state.base, state.base + 0));
    lemma_write_run_agrees(state, rets, file, buffer);
    lemma_run_advances(state, rets);
    let written = write_run(state, rets, file, buffer);
    assert(written.subrange(0, state.base) =~= file.subrange(0, state.base));
    assert(written.subrange(state.base + state.total, file.len() as int) =~= file.subrange(
        state.base + state.total,
        file.len() as int,
    ));
}

/// Writing a buffer and reading it back gives the same bytes: after a
/// writing transfer has run to its end and a reading transfer of the same
/// range has run to its end on the file that the first one left, the bytes
/// read are the bytes written. The two transfers may follow different
/// strategies, with different chunk sizes, and their calls may have returned
/// any counts.
pub proof fn lemma_round_trip(
    writer: TransferState,
    writer_rets: Seq<int>,
    reader: TransferState,
    reader_rets: Seq<int>,
    buffer: Seq<u8>,
    scratch: Seq<u8>,
    file: Seq<u8>,
)
    requires
        writer.wf(),
        reader.wf(),
        writer.done == 0,
        reader.done == 0,
        writer.base == reader.base,
        writer.total == reader.total,
        buffer.len() >= writer.total,
        scratch.len() >= reader.total,
        file.len() >= writer.base + writer.total,
        run(writer, writer_rets).finished(),
        run(reader, reader_rets).finished(),
    ensures
        read_run(
            reader,
            reader_rets,
            scratch,
            write_run(writer, writer_rets, file, buffer),
        ).subrange(0, writer.total) == buffer.subrange(0, writer.total),
{
    lemma_write_completes(writer, writer_rets, file, buffer);
    lemma_read_completes(
        reader,
        reader_rets,
        scratch,
        write_run(writer, writer_rets, file, buffer),
    );
}

/// Reading the same range of an unchanged file twice gives the same bytes,
/// whatever strategies the two transfers follow, whatever their calls
/// returned and whatever the buffers held before. A second reading into the
/// buffer that the first one left changes nothing in it.
pub proof fn lemma_read_twice(
    first: TransferState,
    first_rets: Seq<int>,
    second: TransferState,
    second_rets: Seq<int>,
    first_buffer: Seq<u8>,
    second_buffer: Seq<u8>,
    file: Seq<u8>,
)
    requires
        first.wf(),
        second.wf(),
        first.done == 0,
        second.done == 0,
        first.base == second.base,
        first.total == second.total,
        first_buffer.len() >= first.total,
        second_buffer.len() >= second.total,
        file.len() >= first.base + first.total,
        run(first, first_rets).finished(),
        run(second, second_rets).finished(),
    ensures
        read_run(first, first_rets, first_buffer, file).subrange(0, first.total) == read_run(
            second,
            second_rets,
            second_buffer,
            file,
        ).subrange(0, first.total),
        read_run(second, second_rets, read_run(first, first_rets, first_buffer, file), file)
            == read_run(first, first_rets, first_buffer, file),
{
    let once = read_run(first, first_rets, first_buffer, file);
    lemma_read_completes(first, first_rets, first_buffer, file);
    lemma_read_completes(second, second_rets, second_buffer, file);
    lemma_read_completes(second, second_rets, once, file);
    let twice = read_run(second, second_rets, once, file);
    assert forall|i: int| 0 <= i < once.len() implies twice[i] == once[i] by {
        if i < first.total {
            assert(twice.subrange(0, first.total)[i] == once.subrange(0, first.total)[i]);
        } else {
            assert(twice.subrange(first.total, once.len() as int)[i - first.total]
                == once.subrange(first.total, once.len() as int)[i - first.total]);
        }
    }
    assert(twice =~= once);
}

/// A vectored transfer completes whatever its first call returns. Where the
/// first vectored call moves only `n` of the bytes of the range, `n` being
/// anything from nothing to all of them and no multiple of the chunk size in
/// particular, and every later call moves what it is asked for, two more
/// calls at most complete the range: a plain one for the rest of the segment
/// in which the first call stopped, and a vectored one for the segments behind
/// it. The bytes that a reading transfer leaves in the buffer, and those that
/// a writing transfer leaves in the file, are then the same as if the first
/// call had moved everything.
pub proof fn lemma_short_first_call_completes(
    state: TransferState,
    n: int,
    buffer: Seq<u8>,
    file: Seq<u8>,
)
    requires
        state.wf(),
        state.done == 0,
        state.strategy == Strategy::Vectored,
        0 <= n <= state.total,
        buffer.len() >= state.total,
        file.len() >= state.base + state.total,
    ensures
        state.accepts(n),
        state.after(n).done == n,
        run(state, short_first_returns(state, n)).finished(),
        read_run(state, short_first_returns(state, n), buffer, file).subrange(0, state.total)
            == file.subrange(state.base, state.base + state.total),
        write_run(state, short_first_returns(state, n), file, buffer).subrange(
            state.base,
            state.base + state.total,
        ) == buffer.subrange(0, state.total),
        read_run(state, short_first_returns(state, n), buffer, file) == read_run(
            state,
            seq![state.total],
            buffer,
            file,
        ),
        write_run(state, short_first_returns(state, n), file, buffer) == write_run(
            state,
            seq![state.total],
            file,
            buffer,
        ),
{
    let rets = short_first_returns(state, n);
    let second = state.after(n);
    let third = second.after(second.requested());
    let last = third.after(third.requested());
    lemma_action_in_order(state);
    assert(state.done % state.chunk_size == 0) by {
        vstd::arithmetic::div_mod::lemma_small_mod(0, state.chunk_size as nat);
    }
    lemma_step_advances(state, n);
    lemma_action_in_order(second);
    lemma_step_advances(second, second.requested());
    lemma_action_in_order(third);
    lemma_step_advances(third, third.requested());
    assert(last.finished()) by {
        if !second.finished() && !third.finished() {
            // The second call was a plain one: it ended where a segment ends.
            assert(second.done % second.chunk_size != 0);
            lemma_stride(second.total, second.chunk_size, second.done);
        }
    }
    assert(run(state, rets) == last) by {
        lemma_run_three(state, rets);
    }
    lemma_read_completes(state, rets, buffer, file);
    lemma_write_completes(state, rets, file, buffer);
    let whole = seq![state.total];
    assert(run(state, whole).finished()) by {
        lemma_step_advances(state, state.total);
        assert(whole.drop_first() =~= Seq::<int>::empty());
        reveal_with_fuel(run, 2);
    }
    lemma_read_completes(state, whole, buffer, file);
    lemma_write_completes(state, whole, file, buffer);
    let read_short = read_run(state, rets, buffer, file);
    let read_whole = read_run(state, whole, buffer, file);
    assert forall|i: int| 0 <= i < buffer.len() implies read_short[i] == read_whole[i] by {
        if i < state.total {
            assert(read_short.subrange(0, state.total)[i] == read_whole.subrange(
                0,
                state.total,
            )[i]);
        } else {
            assert(read_short.subrange(state.total, buffer.len() as int)[i - state.total]
                == read_whole.subrange(state.total, buffer.len() as int)[i - state.total]);
        }
    }
    assert(read_short =~= read_whole);
    let write_short = write_run(state, rets, file, buffer);
    let write_whole = write_run(state, whole, file, buffer);
    let stop = state.base + state.total;
    assert forall|i: int| 0 <= i < file.len() implies write_short[i] == write_whole[i] by {
        if i < state.base {
            assert(write_short.subrange(0, state.base)[i] == write_whole.subrange(
                0,
                state.base,
            )[i]);
        } else if i < stop {
            assert(write_short.subrange(state.base, stop)[i - state.base]
                == write_whole.subrange(state.base, stop)[i - state.base]);
        } else {
            assert(write_short.subrange(stop, file.len() as int)[i - stop]
                == write_whole.subrange(stop, file.len() as int)[i - stop]);
        }
    }
    assert(write_short =~= write_whole);
}

/// Copies `count` bytes from `source` at `source_start` to `dest` at
/// `dest_start`: what a call does that moves bytes between a mapping of the
/// file and the buffer, and what stands for a call on a file that is held in
/// memory.
pub fn copy_range(
    dest: &mut [u8],
    dest_start: usize,
    source: &[u8],
    source_start: usize,
    count: usize,
)
    requires
        dest_start + count <= old(dest)@.len(),
        source_start + count <= source@.len(),
    ensures
        final(dest)@ == moved(
            old(dest)@,
            source@,
            dest_start as int,
            source_start as int,
            count as int,
        ),
{
    let dest_len: usize = dest.len();
    let source_len: usize = source.len();
    let mut copied: usize = 0;
    while copied < count
        invariant
            copied <= count,
            dest_len == dest@.len(),
            source_len == source@.len(),
            dest_start + count <= dest_len,
            source_start + count <= source_len,
            dest@ == moved(
                old(dest)@,
                source@,
                dest_start as int,
                source_start as int,
                copied as int,
            ),
        decreases count - copied,
    {
        dest[dest_start + copied] = source[source_start + copied];
        copied = copied + 1;
        assert(dest@ =~= moved(
            old(dest)@,
            source@,
            dest_start as int,
            source_start as int,
            copied as int,
        ));
    }
    assert(dest@ =~= moved(
        old(dest)@,
        source@,
        dest_start as int,
        source_start as int,
        count as int,
    ));
}

/// Moves the bytes that a mapping of the file holds into the worker's part
/// of the buffer, or the other way round, chunk by chunk as a transfer under
/// the memory-mapped strategy asks for them. `source` begins with the first
/// byte that `dest` is to receive. A chunk size that the strategy cannot work
/// with, or a range that no file can hold, is a configuration error, and
/// leaves `dest` as it was.
pub fn copy_mapped(dest: &mut [u8], source: &[u8], chunk_size: u64) -> (copied: Result<
    (),
    TransferError,
>)
    requires
        source@.len() >= old(dest)@.len(),
    ensures
        transfer_allowed(Strategy::MemoryMapped, 0, old(dest)@.len() as u64, chunk_size)
            ==> copied is Ok && final(dest)@ == source@.subrange(0, old(dest)@.len() as int),
        !transfer_allowed(Strategy::MemoryMapped, 0, old(dest)@.len() as u64, chunk_size)
            ==> copied == Err::<(), TransferError>(TransferError::Configuration) && final(dest)@
            == old(dest)@,
{
    let total: usize = dest.len();
    let mut transfer = match Transfer::new(Strategy::MemoryMapped, 0, total as u64, chunk_size) {
        Ok(transfer) => transfer,
        Err(error) => {
            return Err(error);
        },
    };
    let mut action: Action = transfer.action();
    let most: usize = isize::MAX as usize;
    assert(dest@.subrange(0, 0) =~= source@.subrange(0, 0));
    loop
        invariant
            total == dest@.len(),
            total == old(dest)@.len(),
            source@.len() >= total,
            most == isize::MAX,
            transfer@.wf(),
            transfer@.strategy == Strategy::MemoryMapped,
            transfer@.total == total,
            action == transfer@.action(),
            dest@.subrange(0, transfer@.done) == source@.subrange(0, transfer@.done),
        ensures
            dest@.len() == total,
            dest@.subrange(0, total as int) == source@.subrange(0, total as int),
        decreases transfer@.total - transfer@.done,
    {
        proof {
            lemma_action_in_order(transfer@);
        }
        match action {
            Action::Finished => {
                break ;
            },
            Action::Vectored { .. } => {
                break ;
            },
            Action::Scalar { buf_start, len, .. } => {
                let count: usize = if len <= most {
                    len
                } else {
                    most
                };
                let before = Ghost(dest@);
                let state = Ghost(transfer@);
                copy_range(dest, buf_start, source, buf_start, count);
                match transfer.step(count as isize) {
                    Ok(next) => {
                        action = next;
                    },
                    Err(_) => {
                        break ;
                    },
                }
                proof {
                    lemma_step_advances(state@, count as int);
                    let done = state@.done;
                    let front = dest@.subrange(0, done + count);
                    let wanted = source@.subrange(0, done + count);
                    assert forall|i: int| 0 <= i < done + count implies #[trigger] front[i]
                        == wanted[i] by {
                        if i < done {
                            assert(before@.subrange(0, done)[i] == source@.subrange(0, done)[i]);
                        }
                    }
                    assert(front =~= wanted);
                }
            },
        }
    }
    assert(dest@ =~= dest@.subrange(0, total as int));
    Ok(())
}

/// A run of three returns is three steps.
proof fn lemma_run_three(state: TransferState, rets: Seq<int>)
    requires
        rets.len() == 3,
    ensures
        run(state, rets) == state.after(rets[0]).after(rets[1]).after(rets[2]),
{
    let tail = rets.drop_first();
    let end = tail.drop_first();
    assert(tail.len() == 2 && tail[0] == rets[1] && tail[1] == rets[2]);
    assert(end.len() == 1 && end[0] == rets[2]);
    assert(end.drop_first().len() == 0);
    reveal_with_fuel(run, 4);
}

/// Where every worker's part of the buffer holds the bytes of its share of
/// the file, the buffer holds the file. This is so for every file size and
/// every number of workers, also where some workers have nothing to move.
pub proof fn lemma_shares_assemble(
    file_size: u64,
    thread_count: u64,
    buffer: Seq<u8>,
    file: Seq<u8>,
)
    requires
        thread_count >= 1,
        buffer.len() == file_size,
        file.len() == file_size,
        forall|i: int|
            0 <= i < thread_count ==> buffer.subrange(
                (#[trigger] shard_plan(file_size, thread_count)[i]).offset as int,
                shard_plan(file_size, thread_count)[i].end(),
            ) == file.subrange(
                shard_plan(file_size, thread_count)[i].offset as int,
                shard_plan(file_size, thread_count)[i].end(),
            ),
    ensures
        buffer == file,
{
    let plan = shard_plan(file_size, thread_count);
    lemma_plan_covers_file(file_size, thread_count);
    assert forall|position: int| 0 <= position < file_size implies buffer[position]
        == file[position] by {
        assert(covers(plan, position));
        let i = choose|i: int| 0 <= i < plan.len() && #[trigger] plan[i].contains(position);
        let shard = plan[i];
        assert(shard.end() <= file_size);
        assert(buffer.subrange(shard.offset as int, shard.end())[position - shard.offset]
            == file.subrange(shard.offset as int, shard.end())[position - shard.offset]);
    }
    assert(buffer =~= file);
}

/// Whether worker `index` has read its share: its transfer was set up for
/// its share of the file, has run to its end, and has left in the worker's
/// part of the buffer what `after` holds there.
pub open spec fn share_read(
    file_size: u64,
    thread_count: u64,
    index: int,
    state: TransferState,
    rets: Seq<int>,
    before: Seq<u8>,
    after: Seq<u8>,
    file: Seq<u8>,
) -> bool {
    let shard = shard_plan(file_size, thread_count)[index];
    &&& state.wf()
    &&& state.done == 0
    &&& state.base == shard.offset
    &&& state.total == shard.length
    &&& run(state, rets).finished()
    &&& after.subrange(shard.offset as int, shard.end()) == read_run(
        state,
        rets,
        before.subrange(shard.offset as int, shard.end()),
        file,
    )
}

/// Whether worker `index` has written its share: its transfer was set up for
/// its share of the file, has run to its end on the file as it was before
/// the run, and has left in its share of the file what `after` holds there.
pub open spec fn share_written(
    file_size: u64,
    thread_count: u64,
    index: int,
    state: TransferState,
    rets: Seq<int>,
    before: Seq<u8>,
    after: Seq<u8>,
    buffer: Seq<u8>,
) -> bool {
    let shard = shard_plan(file_size, thread_count)[index];
    &&& state.wf()
    &&& state.done == 0
    &&& state.base == shard.offset
    &&& state.total == shard.length
    &&& run(state, rets).finished()
    &&& after.subrange(shard.offset as int, shard.end()) == write_run(
        state,
        rets,
        before,
        buffer.subrange(shard.offset as int, shard.end()),
    ).subrange(shard.offset as int, shard.end())
}

/// A run has read the whole file once each of its workers has read its
/// share: the buffer then holds the file, byte for byte. This is so for
/// every file size and every number of workers, whatever strategy each
/// worker follows and whatever its calls returned.
pub proof fn lemma_sharded_read_fills_buffer(
    file_size: u64,
    thread_count: u64,
    states: Seq<TransferState>,
    rets: Seq<Seq<int>>,
    before: Seq<u8>,
    after: Seq<u8>,
    file: Seq<u8>,
)
    requires
        thread_count >= 1,
        states.len() == thread_count,
        rets.len() == thread_count,
        before.len() == file_size,
        after.len() == file_size,
        file.len() == file_size,
        forall|i: int|
            0 <= i < thread_count ==> #[trigger] share_read(
                file_size,
                thread_count,
                i,
                states[i],
                rets[i],
                before,
                after,
                file,
            ),
    ensures
        after == file,
{
    let plan = shard_plan(file_size, thread_count);
    lemma_plan_covers_file(file_size, thread_count);
    assert forall|i: int| 0 <= i < thread_count implies after.subrange(
        (#[trigger] plan[i]).offset as int,
        plan[i].end(),
    ) == file.subrange(plan[i].offset as int, plan[i].end()) by {
        let shard = plan[i];
        assert(share_read(file_size, thread_count, i, states[i], rets[i], before, after, file));
        assert(shard.end() <= file_size);
        let part = before.subrange(shard.offset as int, shard.end());
        lemma_read_completes(states[i], rets[i], part, file);
        let filled = read_run(states[i], rets[i], part, file);
        assert(filled =~= filled.subrange(0, shard.length as int));
    }
    lemma_shares_assemble(file_size, thread_count, after, file);
}

/// A run has written the whole buffer once each of its workers has written
/// its share: the file then holds the buffer, byte for byte.
pub proof fn lemma_sharded_write_fills_file(
    file_size: u64,
    thread_count: u64,
    states: Seq<TransferState>,
    rets: Seq<Seq<int>>,
    before: Seq<u8>,
    after: Seq<u8>,
    buffer: Seq<u8>,
)
    requires
        thread_count >= 1,
        states.len() == thread_count,
        rets.len() == thread_count,
        before.len() == file_size,
        after.len() == file_size,
        buffer.len() == file_size,
        forall|i: int|
            0 <= i < thread_count ==> #[trigger] share_written(
                file_size,
                thread_count,
                i,
                states[i],
                rets[i],
                before,
                after,
                buffer,
            ),
    ensures
        after == buffer,
{
    let plan = shard_plan(file_size, thread_count);
    lemma_plan_covers_file(file_size, thread_count);
    assert forall|i: int| 0 <= i < thread_count implies after.subrange(
        (#[trigger] plan[i]).offset as int,
        plan[i].end(),
    ) == buffer.subrange(plan[i].offset as int, plan[i].end()) by {
        let shard = plan[i];
        assert(share_written(
            file_size,
            thread_count,
            i,
            states[i],
            rets[i],
            before,
            after,
            buffer,
        ));
        assert(shard.end() <= file_size);
        let part = buffer.subrange(shard.offset as int, shard.end());
        lemma_write_completes(states[i], rets[i], before, part);
        assert(part =~= part.subrange(0, shard.length as int));
    }
    lemma_shares_assemble(file_size, thread_count, after, buffer);
}

} // verus!
