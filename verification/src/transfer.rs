//! The course of one worker's transfer, as a state machine.
//!
//! A transfer knows how many bytes of its range are complete. From that it
//! says which call has to be made next; told how many bytes that call moved,
//! it says which call comes after it. Whoever makes the calls holds the file
//! and the buffer; the transfer holds neither.
//!
//! Every call begins with the first byte that is not yet complete, in the
//! buffer and in the file alike, so the range is moved in order and each byte
//! of it once.
use crate::error::TransferError;
use crate::segment::{count_segments, lemma_segment_count, segment_count};
use crate::strategy::{check_chunk_size, chunk_allowed, Strategy};
use crate::vec_io::{lemma_stride, locate_partial, stride_end};
use vstd::prelude::*;

verus! {

/// The largest position in a file that a positioned call can name.
pub const MAX_FILE_OFFSET: u64 = 0x7fff_ffff_ffff_ffff;

/// The call that a transfer asks for next. Positions in the buffer count
/// from the beginning of the worker's part of it.
#[derive(Clone, Copy, Debug, PartialEq, Eq, Structural)]
pub enum Action {
    /// Nothing is left to move.
    Finished,
    /// One plain call that moves up to `len` bytes between the buffer at
    /// `buf_start` and the file at `file_offset`.
    Scalar { buf_start: usize, len: usize, file_offset: u64 },
    /// One vectored call over `segment_count` segments from segment
    /// `first_segment` on. They begin at `buf_start`, hold `len` bytes
    /// together, and belong to the file at `file_offset`.
    Vectored {
        first_segment: usize,
        segment_count: usize,
        buf_start: usize,
        len: usize,
        file_offset: u64,
    },
}

impl Action {
    /// The most bytes that the call may move.
    pub open spec fn requested(self) -> int {
        match self {
            Action::Finished => 0,
            Action::Scalar { len, .. } => len as int,
            Action::Vectored { len, .. } => len as int,
        }
    }
}

/// A transfer as mathematical values: the strategy, the range of `total`
/// bytes that begins at `base` in the file, the chunk size, and the number
/// of bytes at the front of the range that are complete.
pub struct TransferState {
    pub strategy: Strategy,
    pub base: int,
    pub total: int,
    pub chunk_size: int,
    pub done: int,
}

impl TransferState {
    /// The state makes sense: a chunk is not empty, the complete bytes lie
    /// inside the range, and the range lies inside what a file can hold.
    pub open spec fn wf(self) -> bool {
        &&& 1 <= self.chunk_size <= usize::MAX
        &&& 0 <= self.done <= self.total <= usize::MAX
        &&& 0 <= self.base
        &&& self.base + self.total <= MAX_FILE_OFFSET
    }

    /// A transfer of the same range that has moved nothing yet.
    pub open spec fn start(self) -> TransferState {
        TransferState { done: 0, ..self }
    }

    /// Whether the whole range is complete.
    pub open spec fn finished(self) -> bool {
        self.done == self.total
    }

    /// Whether the next call is a vectored one: under the vectored strategy,
    /// wherever the complete bytes end between two segments.
    pub open spec fn at_vectored_call(self) -> bool {
        &&& !self.finished()
        &&& self.strategy == Strategy::Vectored
        &&& self.done % self.chunk_size == 0
    }

    /// The most bytes that the next call may move. A vectored call takes
    /// all that is left. Under the vectored strategy a plain call takes the
    /// rest of the segment that the last vectored call left incomplete. Under
    /// the other strategies a plain call takes a chunk, or what is left where
    /// that is less.
    pub open spec fn requested(self) -> int {
        if self.finished() {
            0
        } else if self.strategy == Strategy::Vectored {
            if self.done % self.chunk_size == 0 {
                self.total - self.done
            } else {
                stride_end(self.total, self.chunk_size, self.done) - self.done
            }
        } else if self.chunk_size <= self.total - self.done {
            self.chunk_size
        } else {
            self.total - self.done
        }
    }

    /// The call that has to be made next.
    pub open spec fn action(self) -> Action {
        if self.finished() {
            Action::Finished
        } else if self.at_vectored_call() {
            Action::Vectored {
                first_segment: (self.done / self.chunk_size) as usize,
                segment_count: (segment_count(self.total, self.chunk_size) - self.done
                    / self.chunk_size) as usize,
                buf_start: self.done as usize,
                len: self.requested() as usize,
                file_offset: (self.base + self.done) as u64,
            }
        } else {
            Action::Scalar {
                buf_start: self.done as usize,
                len: self.requested() as usize,
                file_offset: (self.base + self.done) as u64,
            }
        }
    }

    /// Whether `ret` is a byte count that the next call can have returned:
    /// not negative, and no more than was asked for.
    pub open spec fn accepts(self, ret: int) -> bool {
        0 <= ret <= self.requested()
    }

    /// The state after the next call has returned `ret`. Bytes that were
    /// moved are complete; a return that is not accepted changes nothing.
    pub open spec fn after(self, ret: int) -> TransferState {
        if self.accepts(ret) {
            TransferState { done: self.done + ret, ..self }
        } else {
            self
        }
    }

    /// What the transfer answers when the next call has returned `ret`: the
    /// call that follows, or a failure where `ret` is not accepted.
    pub open spec fn reply(self, ret: int) -> Result<Action, TransferError> {
        if self.accepts(ret) {
            Ok(self.after(ret).action())
        } else {
            Err(TransferError::Io)
        }
    }
}

/// Whether a transfer of `length` bytes at `offset` can be set up: the
/// strategy can work with the chunk size, the range and a chunk fit into
/// memory, and the range ends within what a file can hold.
pub open spec fn transfer_allowed(strategy: Strategy, offset: u64, length: u64, chunk_size: u64)
    -> bool {
    &&& chunk_allowed(strategy, chunk_size as int)
    &&& chunk_size <= usize::MAX
    &&& length <= usize::MAX
    &&& offset + length <= MAX_FILE_OFFSET
}

/// Every call begins where the complete bytes end, in the buffer and in the
/// file, moves at least one byte where it moves all it was asked for, and
/// stays inside the range. A vectored call begins with a whole segment and
/// takes all the segments that are left. Under the vectored strategy a plain
/// call ends where a segment ends.
pub proof fn lemma_action_in_order(state: TransferState)
    requires
        state.wf(),
    ensures
        state.action() is Finished <==> state.finished(),
        state.action().requested() == state.requested(),
        !state.finished() ==> 1 <= state.requested() <= state.total - state.done,
        state.action() matches Action::Scalar { buf_start, len, file_offset } ==> buf_start
            == state.done && file_offset == state.base + state.done && len == state.requested(),
        state.action() matches Action::Vectored {
            first_segment,
            segment_count: count,
            buf_start,
            len,
            file_offset,
        } ==> buf_start == state.done && file_offset == state.base + state.done && len
            == state.total - state.done && state.done == state.chunk_size * first_segment
            && first_segment + count == segment_count(state.total, state.chunk_size) && count >= 1,
        state.strategy == Strategy::Vectored && !state.finished() ==> (state.done
            + state.requested()) % state.chunk_size == 0 || state.done + state.requested()
            == state.total,
        state.strategy != Strategy::Vectored ==> !(state.action() is Vectored),
{
    if !state.finished() {
        lemma_stride(state.total, state.chunk_size, state.done);
        lemma_segment_count(state.total, state.chunk_size);
        if state.at_vectored_call() {
            assert(state.done == state.chunk_size * (state.done / state.chunk_size)) by {
                vstd::arithmetic::div_mod::lemma_fundamental_div_mod(state.done, state.chunk_size);
            }
        }
    }
}

/// A return that is accepted leaves a state that makes sense, with exactly
/// the returned bytes added to the complete ones; anything else of the
/// state stays as it was.
pub proof fn lemma_step_advances(state: TransferState, ret: int)
    requires
        state.wf(),
    ensures
        state.after(ret).wf(),
        state.after(ret).start() == state.start(),
        state.accepts(ret) ==> state.after(ret).done == state.done + ret,
        !state.accepts(ret) ==> state.after(ret) == state,
        state.done <= state.after(ret).done <= state.total,
{
    lemma_action_in_order(state);
}

/// Judges the return of a call that has to move everything at once, such as
/// a single submission to a completion queue: it succeeded where it moved
/// exactly the `requested` bytes, and is an I/O failure otherwise.
pub fn expect_complete(requested: usize, ret: isize) -> (judged: Result<(), TransferError>)
    ensures
        judged == if ret == requested {
            Ok::<(), TransferError>(())
        } else {
            Err::<(), TransferError>(TransferError::Io)
        },
{
    if ret < 0 {
        return Err(TransferError::Io);
    }
    if ret as usize == requested {
        Ok(())
    } else {
        Err(TransferError::Io)
    }
}

/// One worker's transfer: what is complete of its range, and which call
/// comes next.
#[derive(Debug)]
pub struct Transfer {
    strategy: Strategy,
    base: u64,
    total: usize,
    chunk_size: usize,
    done: usize,
}

impl View for Transfer {
    type V = TransferState;

    closed spec fn view(&self) -> TransferState {
        TransferState {
            strategy: self.strategy,
            base: self.base as int,
            total: self.total as int,
            chunk_size: self.chunk_size as int,
            done: self.done as int,
        }
    }
}

impl Transfer {
    #[verifier::type_invariant]
    spec fn inv(self) -> bool {
        self@.wf()
    }

    /// Sets up the transfer of `length` bytes that begin at `offset` in the
    /// file, in chunks of `chunk_size` bytes. Nothing is complete yet. A
    /// transfer that cannot be set up is a configuration error, and is
    /// refused before any call is asked for.
    pub fn new(strategy: Strategy, offset: u64, length: u64, chunk_size: u64) -> (made: Result<
        Transfer,
        TransferError,
    >)
        ensures
            transfer_allowed(strategy, offset, length, chunk_size) ==> made is Ok && made->Ok_0@
                == (TransferState {
                strategy,
                base: offset as int,
                total: length as int,
                chunk_size: chunk_size as int,
                done: 0,
            }) && made->Ok_0@.wf(),
            !transfer_allowed(strategy, offset, length, chunk_size) ==> made is Err && made->Err_0
                == TransferError::Configuration,
    {
        match check_chunk_size(strategy, chunk_size) {
            Err(_) => {
                return Err(TransferError::Configuration);
            },
            Ok(_) => {},
        }
        if chunk_size > usize::MAX as u64 || length > usize::MAX as u64 {
            return Err(TransferError::Configuration);
        }
        if offset > MAX_FILE_OFFSET || length > MAX_FILE_OFFSET - offset {
            return Err(TransferError::Configuration);
        }
        Ok(
            Transfer {
                strategy,
                base: offset,
                total: length as usize,
                chunk_size: chunk_size as usize,
                done: 0,
            },
        )
    }

    /// The number of bytes at the front of the range that are complete.
    pub fn done(&self) -> (done: usize)
        ensures
            done == self@.done,
            self@.wf(),
    {
        proof {
            use_type_invariant(self);
        }
        self.done
    }

    /// Whether the whole range is complete.
    pub fn is_finished(&self) -> (finished: bool)
        ensures
            finished == self@.finished(),
            self@.wf(),
    {
        proof {
            use_type_invariant(self);
        }
        self.done == self.total
    }

    /// The call that has to be made next.
    pub fn action(&self) -> (action: Action)
        ensures
            action == self@.action(),
            self@.wf(),
    {
        proof {
            use_type_invariant(self);
            lemma_action_in_order(self@);
        }
        if self.done == self.total {
            return Action::Finished;
        }
        proof {
            lemma_stride(self.total as int, self.chunk_size as int, self.done as int);
        }
        let file_offset: u64 = self.base + self.done as u64;
        match self.strategy {
            Strategy::Vectored => {
                match locate_partial(self.total, self.chunk_size, self.done) {
                    Some(repair) => Action::Scalar {
                        buf_start: repair.buf_start,
                        len: repair.len,
                        file_offset,
                    },
                    None => {
                        let first: usize = self.done / self.chunk_size;
                        let count: usize = count_segments(self.total, self.chunk_size);
                        Action::Vectored {
                            first_segment: first,
                            segment_count: count - first,
                            buf_start: self.done,
                            len: self.total - self.done,
                            file_offset,
                        }
                    },
                }
            },
            _ => {
                let left: usize = self.total - self.done;
                let len: usize = if self.chunk_size <= left {
                    self.chunk_size
                } else {
                    left
                };
                Action::Scalar { buf_start: self.done, len, file_offset }
            },
        }
    }

    /// Takes note of what the call that `action` asked for has returned, and
    /// says which call comes next. A negative return, or one that exceeds
    /// what was asked for, is an I/O failure and changes nothing. Any other
    /// return, zero included, counts that many bytes as complete.
    pub fn step(&mut self, ret: isize) -> (reply: Result<Action, TransferError>)
        ensures
            final(self)@ == old(self)@.after(ret as int),
            reply == old(self)@.reply(ret as int),
            final(self)@.wf(),
    {
        proof {
            use_type_invariant(&*self);
            lemma_action_in_order(self@);
            lemma_step_advances(self@, ret as int);
        }
        let pending: Action = self.action();
        let requested: usize = match pending {
            Action::Finished => 0,
            Action::Scalar { len, .. } => len,
            Action::Vectored { len, .. } => len,
        };
        if ret < 0 {
            return Err(TransferError::Io);
        }
        let moved: usize = ret as usize;
        if moved > requested {
            return Err(TransferError::Io);
        }
        self.done = self.done + moved;
        Ok(self.action())
    }
}

} // verus!
