use peerwire::worker::{get_chunk_count, get_residual_size, Worker};

#[test]
fn piece_sizes_of_a_700000_byte_file() {
    let count = get_chunk_count(700000, 262144);
    assert_eq!(count, 3);
    let sizes: Vec<usize> = (0..count).map(|i| get_residual_size(i, count, 700000, 262144)).collect();
    assert_eq!(sizes, vec![262144, 262144, 175712]);
    assert_eq!(175712, 700000 - 2 * 262144);
    assert_eq!(sizes.iter().sum::<usize>(), 700000);
}

#[test]
fn block_sizes_of_a_175712_byte_piece() {
    assert_eq!(Worker::BLOCK_SIZE, 16384);
    let count = Worker::block_count(175712);
    assert_eq!(count, 11);
    for block in 0..10 {
        assert_eq!(get_residual_size(block, count, 175712, 16384), 16384);
    }
    assert_eq!(get_residual_size(10, count, 175712, 16384), 175712 % 16384);
    assert_eq!(get_residual_size(10, count, 175712, 16384), 11872);
    assert_eq!(10 * 16384 + 11872, 175712);
}

#[test]
fn last_chunk_is_full_when_nothing_remains() {
    assert_eq!(get_chunk_count(524288, 262144), 2);
    assert_eq!(get_residual_size(1, 2, 524288, 262144), 262144);
    assert_eq!(get_residual_size(0, 2, 524288, 262144), 262144);
    assert_eq!(Worker::block_count(16384), 1);
    assert_eq!(get_residual_size(0, 1, 16384, 16384), 16384);
    assert_eq!(Worker::block_count(262144), 16);
    assert_eq!(get_residual_size(15, 16, 262144, 16384), 16384);
}

#[test]
fn chunk_counts_round_up() {
    assert_eq!(get_chunk_count(0, 16384), 0);
    assert_eq!(get_chunk_count(1, 16384), 1);
    assert_eq!(get_chunk_count(16383, 16384), 1);
    assert_eq!(get_chunk_count(16384, 16384), 1);
    assert_eq!(get_chunk_count(16385, 16384), 2);
    assert_eq!(get_chunk_count(usize::MAX, 1), usize::MAX);
    assert_eq!(get_chunk_count(usize::MAX, usize::MAX), 1);
    assert_eq!(get_chunk_count(usize::MAX, 2), usize::MAX / 2 + 1);
    assert_eq!(get_chunk_count(5, 7), 1);
    assert_eq!(get_residual_size(0, 1, 5, 7), 5);
}

#[test]
fn chunks_add_up_to_the_length() {
    for (length, max) in [(1usize, 1usize), (10, 3), (9, 3), (700000, 262144), (92063, 32768), (16384, 16384)] {
        let count = get_chunk_count(length, max);
        let total: usize = (0..count).map(|i| get_residual_size(i, count, length, max)).sum();
        assert_eq!(total, length, "{length} in chunks of {max}");
    }
}

#[test]
fn only_the_last_chunk_may_be_short() {
    assert_eq!(get_residual_size(0, 4, 10, 3), 3);
    assert_eq!(get_residual_size(2, 4, 10, 3), 3);
    assert_eq!(get_residual_size(3, 4, 10, 3), 1);
    assert_eq!(get_residual_size(7, 4, 10, 3), 3);
}
