use iobench::error::TransferError;
use iobench::shard::{plan_shards, shard_at, thread_span, Shard};
use iobench::strategy::{bytes_to_write, check_chunk_size, check_run, schedule, Strategy};

#[test]
fn ten_chunks_among_three_workers() {
    let plan = plan_shards(40960, 3);
    assert_eq!(thread_span(40960, 3), 13654);
    assert_eq!(
        plan,
        vec![
            Shard { offset: 0, length: 13654 },
            Shard { offset: 13654, length: 13654 },
            Shard { offset: 27308, length: 13652 },
        ]
    );
    let sum: u64 = plan.iter().map(|s| s.length).sum();
    assert_eq!(sum, 40960);
}

#[test]
fn shards_follow_one_another_and_add_up() {
    for file_size in 0u64..150 {
        for thread_count in 1u64..24 {
            let plan = plan_shards(file_size, thread_count);
            assert_eq!(plan.len() as u64, thread_count);
            let mut next = 0u64;
            let mut sum = 0u64;
            for shard in &plan {
                assert_eq!(shard.offset, next);
                next = shard.offset + shard.length;
                sum += shard.length;
            }
            assert_eq!(next, file_size);
            assert_eq!(sum, file_size);
        }
    }
}

#[test]
fn every_byte_has_one_owner() {
    let file_size = 101u64;
    let plan = plan_shards(file_size, 7);
    for position in 0..file_size {
        let owners = plan
            .iter()
            .filter(|s| s.offset <= position && position < s.offset + s.length)
            .count();
        assert_eq!(owners, 1);
    }
}

#[test]
fn more_workers_than_bytes() {
    let plan = plan_shards(2, 4);
    assert_eq!(
        plan,
        vec![
            Shard { offset: 0, length: 1 },
            Shard { offset: 1, length: 1 },
            Shard { offset: 2, length: 0 },
            Shard { offset: 2, length: 0 },
        ]
    );
}

#[test]
fn uneven_division_leaves_an_empty_last_share() {
    let plan = plan_shards(4, 3);
    assert_eq!(
        plan,
        vec![
            Shard { offset: 0, length: 2 },
            Shard { offset: 2, length: 2 },
            Shard { offset: 4, length: 0 },
        ]
    );
}

#[test]
fn empty_file_gives_empty_shares() {
    let plan = plan_shards(0, 5);
    assert_eq!(plan.len(), 5);
    for shard in plan {
        assert_eq!(shard, Shard { offset: 0, length: 0 });
    }
}

#[test]
fn span_is_rounded_up() {
    assert_eq!(thread_span(0, 5), 0);
    assert_eq!(thread_span(1, 5), 1);
    assert_eq!(thread_span(10, 5), 2);
    assert_eq!(thread_span(11, 5), 3);
    assert_eq!(thread_span(u64::MAX, 1), u64::MAX);
    assert_eq!(thread_span(u64::MAX, 2), 1u64 << 63);
    assert_eq!(thread_span(u64::MAX, u64::MAX), 1);
}

#[test]
fn shares_of_the_largest_file() {
    let span = 1u64 << 63;
    assert_eq!(
        shard_at(u64::MAX, 2, 0),
        Shard { offset: 0, length: span }
    );
    assert_eq!(
        shard_at(u64::MAX, 2, 1),
        Shard { offset: span, length: span - 1 }
    );
    assert_eq!(
        shard_at(u64::MAX, 2, u64::MAX),
        Shard { offset: u64::MAX, length: 0 }
    );
}

#[test]
fn one_share_agrees_with_the_plan() {
    let plan = plan_shards(1000, 7);
    for index in 0..7u64 {
        assert_eq!(shard_at(1000, 7, index), plan[index as usize]);
    }
}

#[test]
fn direct_io_refuses_a_chunk_of_500_bytes() {
    assert_eq!(
        schedule(Strategy::DirectIO, 40960, 500, 3),
        Err(TransferError::Configuration)
    );
    assert_eq!(
        check_chunk_size(Strategy::DirectIO, 500),
        Err(TransferError::Configuration)
    );
    assert_eq!(check_chunk_size(Strategy::DirectIO, 512), Ok(()));
    assert_eq!(check_chunk_size(Strategy::DirectIO, 4096), Ok(()));
    assert_eq!(check_chunk_size(Strategy::Syscall, 500), Ok(()));
}

#[test]
fn a_run_needs_a_chunk_and_a_worker() {
    let all = [
        Strategy::Syscall,
        Strategy::BufferedSyscall,
        Strategy::MemoryMapped,
        Strategy::DirectIO,
        Strategy::Vectored,
    ];
    for strategy in all {
        assert_eq!(check_run(strategy, 0, 1), Err(TransferError::Configuration));
        assert_eq!(check_run(strategy, 512, 0), Err(TransferError::Configuration));
        assert_eq!(check_run(strategy, 512, 1), Ok(()));
        assert_eq!(
            schedule(strategy, 10, 0, 2),
            Err(TransferError::Configuration)
        );
        assert_eq!(
            schedule(strategy, 10, 512, 0),
            Err(TransferError::Configuration)
        );
    }
}

#[test]
fn schedule_gives_the_plan() {
    assert_eq!(
        schedule(Strategy::Vectored, 40960, 4096, 3),
        Ok(plan_shards(40960, 3))
    );
    assert_eq!(
        schedule(Strategy::Syscall, 0, 1, 1),
        Ok(vec![Shard { offset: 0, length: 0 }])
    );
}

#[test]
fn a_write_takes_its_chunks_from_the_buffer() {
    assert_eq!(bytes_to_write(4096, 10, 40960), Ok(40960));
    assert_eq!(bytes_to_write(4096, 10, 50000), Ok(40960));
    assert_eq!(bytes_to_write(0, 10, 5), Ok(0));
    assert_eq!(bytes_to_write(4096, 0, 0), Ok(0));
    assert_eq!(
        bytes_to_write(4096, 10, 40959),
        Err(TransferError::Configuration)
    );
    assert_eq!(
        bytes_to_write(u64::MAX, 2, usize::MAX),
        Err(TransferError::Configuration)
    );
}
