//! The transfer strategies and what each demands of a run's parameters.
use crate::error::TransferError;
use crate::shard::{plan_shards, shard_plan, Shard};
use vstd::prelude::*;

verus! {

/// The sector size of the storage, which uncached transfers must respect.
pub const SECTOR_SIZE: u64 = 512;

/// How bytes are moved between the file and the buffer.
#[derive(Clone, Copy, Debug, PartialEq, Eq, Structural)]
pub enum Strategy {
    /// One plain read or write call per chunk.
    Syscall,
    /// As `Syscall`, through a buffering layer in user space.
    BufferedSyscall,
    /// The file is mapped into memory and copied chunk by chunk.
    MemoryMapped,
    /// Positioned calls on a descriptor that bypasses the page cache.
    DirectIO,
    /// One vectored call over all chunks, repaired where it falls short.
    Vectored,
}

/// Whether `strategy` can work with chunks of `chunk_size` bytes: a chunk is
/// never empty, and an uncached transfer moves whole sectors.
pub open spec fn chunk_allowed(strategy: Strategy, chunk_size: int) -> bool {
    &&& chunk_size >= 1
    &&& strategy == Strategy::DirectIO ==> chunk_size % (SECTOR_SIZE as int) == 0
}

/// Whether a run with these parameters may start.
pub open spec fn run_allowed(strategy: Strategy, chunk_size: int, thread_count: int) -> bool {
    &&& chunk_allowed(strategy, chunk_size)
    &&& thread_count >= 1
}

/// Refuses a chunk size that `strategy` cannot work with.
pub fn check_chunk_size(strategy: Strategy, chunk_size: u64) -> (checked: Result<
    (),
    TransferError,
>)
    ensures
        checked == if chunk_allowed(strategy, chunk_size as int) {
            Ok::<(), TransferError>(())
        } else {
            Err::<(), TransferError>(TransferError::Configuration)
        },
{
    if chunk_size == 0 {
        return Err(TransferError::Configuration);
    }
    match strategy {
        Strategy::DirectIO => {
            if chunk_size % SECTOR_SIZE != 0 {
                return Err(TransferError::Configuration);
            }
        },
        _ => {},
    }
    Ok(())
}

/// Refuses the parameters of a run that may not start: an empty chunk, a
/// chunk that is no whole number of sectors under `DirectIO`, or no worker.
pub fn check_run(strategy: Strategy, chunk_size: u64, thread_count: u64) -> (checked: Result<
    (),
    TransferError,
>)
    ensures
        checked == if run_allowed(strategy, chunk_size as int, thread_count as int) {
            Ok::<(), TransferError>(())
        } else {
            Err::<(), TransferError>(TransferError::Configuration)
        },
{
    match check_chunk_size(strategy, chunk_size) {
        Err(e) => Err(e),
        Ok(_) => {
            if thread_count == 0 {
                Err(TransferError::Configuration)
            } else {
                Ok(())
            }
        },
    }
}

/// How many bytes a write of `num_chunks` chunks takes from a buffer that
/// holds `available` bytes. More than the buffer holds is a configuration
/// error.
pub fn bytes_to_write(chunk_size: u64, num_chunks: u64, available: usize) -> (bytes: Result<
    usize,
    TransferError,
>)
    ensures
        bytes == if chunk_size * num_chunks <= available {
            Ok::<usize, TransferError>((chunk_size * num_chunks) as usize)
        } else {
            Err::<usize, TransferError>(TransferError::Configuration)
        },
{
    match chunk_size.checked_mul(num_chunks) {
        None => Err(TransferError::Configuration),
        Some(bytes) => {
            if bytes <= available as u64 {
                Ok(bytes as usize)
            } else {
                Err(TransferError::Configuration)
            }
        },
    }
}

/// Checks the parameters of a run and divides the file among its workers.
/// The parameters are refused before anything else is done; a run that is
/// allowed gets the one plan there is for its file size and worker count.
/// More workers than this machine can keep a list of are an allocation
/// failure.
pub fn schedule(strategy: Strategy, file_size: u64, chunk_size: u64, thread_count: u64) -> (plan:
    Result<Vec<Shard>, TransferError>)
    ensures
        !run_allowed(strategy, chunk_size as int, thread_count as int) ==> plan
            == Err::<Vec<Shard>, TransferError>(TransferError::Configuration),
        run_allowed(strategy, chunk_size as int, thread_count as int) && thread_count
            > usize::MAX ==> plan == Err::<Vec<Shard>, TransferError>(TransferError::Allocation),
        run_allowed(strategy, chunk_size as int, thread_count as int) && thread_count
            <= usize::MAX ==> plan is Ok && plan->Ok_0@ == shard_plan(file_size, thread_count),
{
    match check_run(strategy, chunk_size, thread_count) {
        Err(e) => Err(e),
        Ok(_) => {
            if thread_count > usize::MAX as u64 {
                Err(TransferError::Allocation)
            } else {
                Ok(plan_shards(file_size, thread_count))
            }
        },
    }
}

} // verus!
