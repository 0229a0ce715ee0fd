use iobench::content::{copy_mapped, copy_range};
use iobench::error::TransferError;
use iobench::outcome::{collect_outcomes, WorkerOutcome};
use iobench::shard::plan_shards;
use iobench::strategy::Strategy;
use iobench::transfer::{expect_complete, Action, Transfer, MAX_FILE_OFFSET};

const ALL: [Strategy; 5] = [
    Strategy::Syscall,
    Strategy::BufferedSyscall,
    Strategy::MemoryMapped,
    Strategy::DirectIO,
    Strategy::Vectored,
];

fn pattern(len: usize, seed: u8) -> Vec<u8> {
    (0..len)
        .map(|i| (i as u8).wrapping_mul(31).wrapping_add(seed))
        .collect()
}

/// What a primitive returns that moves at most `shorts[call]` bytes in its
/// call number `call`, and all it is asked for once the list is used up.
fn answer(requested: usize, call: usize, shorts: &[usize]) -> usize {
    match shorts.get(call) {
        Some(limit) => requested.min(*limit),
        None => requested,
    }
}

fn request(action: &Action) -> Option<(usize, usize, u64)> {
    match *action {
        Action::Finished => None,
        Action::Scalar { buf_start, len, file_offset } => Some((buf_start, len, file_offset)),
        Action::Vectored { buf_start, len, file_offset, .. } => Some((buf_start, len, file_offset)),
    }
}

/// Reads the range of `transfer` from `file` into `buffer` through a
/// primitive that falls short as `shorts` says. Returns the calls made.
fn read_all(
    transfer: &mut Transfer,
    file: &[u8],
    buffer: &mut [u8],
    shorts: &[usize],
) -> Vec<Action> {
    let mut calls = Vec::new();
    let mut action = transfer.action();
    while let Some((buf_start, len, file_offset)) = request(&action) {
        assert!(calls.len() < 100_000);
        let moved = answer(len, calls.len(), shorts);
        copy_range(buffer, buf_start, file, file_offset as usize, moved);
        calls.push(action);
        action = transfer.step(moved as isize).unwrap();
    }
    calls
}

/// Writes the range of `transfer` from `buffer` into `file`, likewise.
fn write_all(
    transfer: &mut Transfer,
    file: &mut [u8],
    buffer: &[u8],
    shorts: &[usize],
) -> Vec<Action> {
    let mut calls = Vec::new();
    let mut action = transfer.action();
    while let Some((buf_start, len, file_offset)) = request(&action) {
        assert!(calls.len() < 100_000);
        let moved = answer(len, calls.len(), shorts);
        copy_range(file, file_offset as usize, buffer, buf_start, moved);
        calls.push(action);
        action = transfer.step(moved as isize).unwrap();
    }
    calls
}

#[test]
fn short_vectored_write_is_repaired() {
    let buffer = pattern(12288, 3);
    let mut file = vec![0u8; 12288];
    let mut transfer = Transfer::new(Strategy::Vectored, 0, 12288, 4096).unwrap();
    let calls = write_all(&mut transfer, &mut file, &buffer, &[4096 + 2000]);
    assert_eq!(
        calls,
        vec![
            Action::Vectored {
                first_segment: 0,
                segment_count: 3,
                buf_start: 0,
                len: 12288,
                file_offset: 0,
            },
            Action::Scalar { buf_start: 6096, len: 2096, file_offset: 6096 },
            Action::Vectored {
                first_segment: 2,
                segment_count: 1,
                buf_start: 8192,
                len: 4096,
                file_offset: 8192,
            },
        ]
    );
    assert!(transfer.is_finished());
    assert_eq!(transfer.done(), 12288);
    assert_eq!(file, buffer);
}

#[test]
fn steps_of_the_short_vectored_write() {
    let mut transfer = Transfer::new(Strategy::Vectored, 100, 12288, 4096).unwrap();
    assert_eq!(
        transfer.step(6096),
        Ok(Action::Scalar { buf_start: 6096, len: 2096, file_offset: 6196 })
    );
    assert_eq!(transfer.done(), 6096);
    assert_eq!(
        transfer.step(2096),
        Ok(Action::Vectored {
            first_segment: 2,
            segment_count: 1,
            buf_start: 8192,
            len: 4096,
            file_offset: 8292,
        })
    );
    assert_eq!(transfer.done(), 8192);
    assert_eq!(transfer.step(4096), Ok(Action::Finished));
    assert_eq!(transfer.done(), 12288);
}

#[test]
fn a_call_that_stops_between_segments_needs_no_repair() {
    let mut transfer = Transfer::new(Strategy::Vectored, 0, 12288, 4096).unwrap();
    assert_eq!(
        transfer.step(4096),
        Ok(Action::Vectored {
            first_segment: 1,
            segment_count: 2,
            buf_start: 4096,
            len: 8192,
            file_offset: 4096,
        })
    );
    assert_eq!(transfer.step(8192), Ok(Action::Finished));
}

#[test]
fn vectored_read_completes_after_any_short_first_call() {
    for (total, chunk) in [(10000usize, 4096u64), (3000, 1000), (17, 5), (5, 8)] {
        let mut file = pattern(total + 20, 9);
        file[..7].copy_from_slice(&[1, 2, 3, 4, 5, 6, 7]);
        let mut reference = vec![0xaau8; total + 3];
        reference[..total].copy_from_slice(&file[7..7 + total]);
        for n in 0..=total {
            let mut buffer = vec![0xaau8; total + 3];
            let mut transfer = Transfer::new(Strategy::Vectored, 7, total as u64, chunk).unwrap();
            let calls = read_all(&mut transfer, &file, &mut buffer, &[n]);
            assert!(calls.len() <= 3);
            assert!(transfer.is_finished());
            assert_eq!(buffer, reference);
        }
    }
}

#[test]
fn vectored_write_completes_after_any_short_first_call() {
    let total = 9000usize;
    let buffer = pattern(total, 1);
    for n in 0..=total {
        let mut file = vec![0x55u8; total + 10];
        let mut transfer = Transfer::new(Strategy::Vectored, 4, total as u64, 4096).unwrap();
        write_all(&mut transfer, &mut file, &buffer, &[n]);
        assert_eq!(&file[..4], &[0x55u8; 4]);
        assert_eq!(&file[4..4 + total], &buffer[..]);
        assert_eq!(&file[4 + total..], &[0x55u8; 6]);
    }
}

#[test]
fn every_call_falling_short_still_completes() {
    let total = 5000usize;
    let file = pattern(total, 77);
    let shorts: Vec<usize> = (0..2000).map(|i| 1 + (i * 7) % 13).collect();
    for strategy in ALL {
        let mut buffer = vec![0u8; total];
        let mut transfer = Transfer::new(strategy, 0, total as u64, 512).unwrap();
        let calls = read_all(&mut transfer, &file, &mut buffer, &shorts);
        assert!(calls.len() > 3);
        assert_eq!(buffer, file);
    }
}

#[test]
fn written_bytes_are_read_back_by_every_pair_of_strategies() {
    let total = 6000usize;
    let buffer = pattern(total, 42);
    for writer in ALL {
        for reader in ALL {
            let mut file = vec![0u8; total + 64];
            let mut write = Transfer::new(writer, 64, total as u64, 1024).unwrap();
            write_all(&mut write, &mut file, &buffer, &[700, 1, 5000]);
            let mut back = vec![0xffu8; total];
            let mut read = Transfer::new(reader, 64, total as u64, 512).unwrap();
            read_all(&mut read, &file, &mut back, &[3000, 0, 13]);
            assert_eq!(back, buffer);
        }
    }
}

#[test]
fn reading_twice_gives_the_same_bytes() {
    let total = 4097usize;
    let file = pattern(total, 5);
    let mut first = vec![0u8; total];
    let mut second = vec![9u8; total];
    let mut one = Transfer::new(Strategy::Vectored, 0, total as u64, 4096).unwrap();
    read_all(&mut one, &file, &mut first, &[4000]);
    let mut two = Transfer::new(Strategy::Syscall, 0, total as u64, 100).unwrap();
    read_all(&mut two, &file, &mut second, &[]);
    assert_eq!(first, second);
    let kept = first.clone();
    let mut again = Transfer::new(Strategy::Vectored, 0, total as u64, 4096).unwrap();
    read_all(&mut again, &file, &mut first, &[]);
    assert_eq!(first, kept);
}

#[test]
fn plain_strategies_move_a_chunk_per_call() {
    for strategy in [Strategy::Syscall, Strategy::BufferedSyscall, Strategy::MemoryMapped] {
        let file = pattern(10, 0);
        let mut buffer = vec![0u8; 10];
        let mut transfer = Transfer::new(strategy, 0, 10, 4).unwrap();
        let calls = read_all(&mut transfer, &file, &mut buffer, &[]);
        assert_eq!(
            calls,
            vec![
                Action::Scalar { buf_start: 0, len: 4, file_offset: 0 },
                Action::Scalar { buf_start: 4, len: 4, file_offset: 4 },
                Action::Scalar { buf_start: 8, len: 2, file_offset: 8 },
            ]
        );
        assert_eq!(buffer, file);
    }
}

#[test]
fn a_short_plain_call_is_followed_from_where_it_stopped() {
    let mut transfer = Transfer::new(Strategy::Syscall, 1000, 10, 4).unwrap();
    assert_eq!(
        transfer.action(),
        Action::Scalar { buf_start: 0, len: 4, file_offset: 1000 }
    );
    assert_eq!(
        transfer.step(3),
        Ok(Action::Scalar { buf_start: 3, len: 4, file_offset: 1003 })
    );
    assert_eq!(
        transfer.step(4),
        Ok(Action::Scalar { buf_start: 7, len: 3, file_offset: 1007 })
    );
    assert_eq!(transfer.step(3), Ok(Action::Finished));
}

#[test]
fn direct_io_moves_whole_sectors() {
    let mut transfer = Transfer::new(Strategy::DirectIO, 0, 2048, 1024).unwrap();
    assert_eq!(
        transfer.action(),
        Action::Scalar { buf_start: 0, len: 1024, file_offset: 0 }
    );
    assert_eq!(
        transfer.step(1024),
        Ok(Action::Scalar { buf_start: 1024, len: 1024, file_offset: 1024 })
    );
    assert_eq!(transfer.step(1024), Ok(Action::Finished));
}

#[test]
fn a_return_of_zero_asks_for_the_same_call_again() {
    for strategy in ALL {
        let mut transfer = Transfer::new(strategy, 0, 2048, 512).unwrap();
        let first = transfer.action();
        assert_eq!(transfer.step(0), Ok(first));
        assert_eq!(transfer.done(), 0);
    }
}

#[test]
fn a_negative_return_is_an_io_failure() {
    for strategy in ALL {
        let mut transfer = Transfer::new(strategy, 0, 2048, 512).unwrap();
        assert_eq!(transfer.step(512), transfer.step(0));
        let before = transfer.action();
        assert_eq!(transfer.step(-1), Err(TransferError::Io));
        assert_eq!(transfer.step(isize::MIN), Err(TransferError::Io));
        assert_eq!(transfer.done(), 512);
        assert_eq!(transfer.action(), before);
    }
}

#[test]
fn a_return_beyond_the_request_is_an_io_failure() {
    let mut plain = Transfer::new(Strategy::Syscall, 0, 2048, 512).unwrap();
    assert_eq!(plain.step(513), Err(TransferError::Io));
    assert_eq!(plain.done(), 0);
    let mut vectored = Transfer::new(Strategy::Vectored, 0, 2048, 512).unwrap();
    assert_eq!(vectored.step(2049), Err(TransferError::Io));
    assert_eq!(vectored.step(100).unwrap(), Action::Scalar {
        buf_start: 100,
        len: 412,
        file_offset: 100,
    });
    assert_eq!(vectored.step(413), Err(TransferError::Io));
    assert_eq!(vectored.done(), 100);
}

#[test]
fn an_empty_range_is_finished_at_once() {
    for strategy in ALL {
        let mut transfer = Transfer::new(strategy, 40960, 0, 512).unwrap();
        assert!(transfer.is_finished());
        assert_eq!(transfer.action(), Action::Finished);
        assert_eq!(transfer.step(0), Ok(Action::Finished));
        assert_eq!(transfer.step(1), Err(TransferError::Io));
    }
}

#[test]
fn a_finished_transfer_stays_finished() {
    let mut transfer = Transfer::new(Strategy::Vectored, 0, 8, 4).unwrap();
    assert_eq!(transfer.step(8), Ok(Action::Finished));
    assert_eq!(transfer.step(0), Ok(Action::Finished));
    assert_eq!(transfer.step(1), Err(TransferError::Io));
    assert_eq!(transfer.done(), 8);
}

#[test]
fn a_transfer_that_cannot_be_set_up_is_a_configuration_error() {
    for strategy in ALL {
        assert_eq!(
            Transfer::new(strategy, 0, 4096, 0).unwrap_err(),
            TransferError::Configuration
        );
        assert_eq!(
            Transfer::new(strategy, MAX_FILE_OFFSET, 1, 512).unwrap_err(),
            TransferError::Configuration
        );
        assert_eq!(
            Transfer::new(strategy, u64::MAX, 0, 512).unwrap_err(),
            TransferError::Configuration
        );
        assert!(Transfer::new(strategy, MAX_FILE_OFFSET, 0, 512).is_ok());
        assert!(Transfer::new(strategy, MAX_FILE_OFFSET - 10, 10, 512).is_ok());
    }
    assert_eq!(
        Transfer::new(Strategy::DirectIO, 0, 4096, 500).unwrap_err(),
        TransferError::Configuration
    );
    assert!(Transfer::new(Strategy::Vectored, 0, 4096, 500).is_ok());
}

#[test]
fn a_single_submission_must_move_everything() {
    assert_eq!(expect_complete(4096, 4096), Ok(()));
    assert_eq!(expect_complete(0, 0), Ok(()));
    assert_eq!(expect_complete(4096, 4095), Err(TransferError::Io));
    assert_eq!(expect_complete(4096, 4097), Err(TransferError::Io));
    assert_eq!(expect_complete(4096, -1), Err(TransferError::Io));
    assert_eq!(expect_complete(0, -1), Err(TransferError::Io));
}

#[test]
fn copying_a_range_leaves_the_rest_alone() {
    let source = [1u8, 2, 3, 4, 5, 6];
    let mut dest = [0u8; 8];
    copy_range(&mut dest, 3, &source, 1, 4);
    assert_eq!(dest, [0, 0, 0, 2, 3, 4, 5, 0]);
    copy_range(&mut dest, 8, &source, 6, 0);
    assert_eq!(dest, [0, 0, 0, 2, 3, 4, 5, 0]);
}

#[test]
fn a_mapping_is_copied_whole() {
    let source = pattern(10_000, 17);
    for chunk in [1u64, 7, 512, 4096, 10_000, 1 << 40] {
        let mut dest = vec![0u8; 9_000];
        assert_eq!(copy_mapped(&mut dest, &source, chunk), Ok(()));
        assert_eq!(&dest[..], &source[..9_000]);
    }
    let mut empty: [u8; 0] = [];
    assert_eq!(copy_mapped(&mut empty, &source, 8), Ok(()));
}

#[test]
fn a_mapping_is_not_copied_in_empty_chunks() {
    let source = [1u8, 2, 3];
    let mut dest = [9u8, 9];
    assert_eq!(
        copy_mapped(&mut dest, &source, 0),
        Err(TransferError::Configuration)
    );
    assert_eq!(dest, [9, 9]);
}

#[test]
fn a_sharded_read_fills_the_buffer_for_any_number_of_workers() {
    for file_size in [0usize, 1, 5, 4097] {
        let file = pattern(file_size, 11);
        for thread_count in [1u64, 3, 8, 5000] {
            for strategy in ALL {
                let mut buffer = vec![0xeeu8; file_size];
                let mut outcomes = Vec::new();
                for shard in plan_shards(file_size as u64, thread_count) {
                    let begin = shard.offset as usize;
                    let part = &mut buffer[begin..begin + shard.length as usize];
                    let mut transfer =
                        Transfer::new(strategy, shard.offset, shard.length, 512).unwrap();
                    let mut calls = 0usize;
                    let mut action = transfer.action();
                    while let Some((buf_start, len, file_offset)) = request(&action) {
                        let moved = answer(len, calls, &[300]);
                        copy_range(part, buf_start, &file, file_offset as usize, moved);
                        calls += 1;
                        action = transfer.step(moved as isize).unwrap();
                    }
                    assert_eq!(shard.length == 0, calls == 0);
                    outcomes.push(WorkerOutcome::Completed);
                }
                assert_eq!(outcomes.len() as u64, thread_count);
                assert_eq!(collect_outcomes(&outcomes), Ok(()));
                assert_eq!(buffer, file);
            }
        }
    }
}

#[test]
fn a_sharded_write_fills_the_file() {
    let buffer = pattern(10_001, 3);
    for thread_count in [1u64, 2, 7, 20_000] {
        let mut file = vec![0u8; buffer.len()];
        for shard in plan_shards(buffer.len() as u64, thread_count) {
            let begin = shard.offset as usize;
            let part = &buffer[begin..begin + shard.length as usize];
            let mut transfer =
                Transfer::new(Strategy::Vectored, shard.offset, shard.length, 512).unwrap();
            write_all(&mut transfer, &mut file, part, &[700, 3]);
            assert!(transfer.is_finished());
        }
        assert_eq!(file, buffer);
    }
}
