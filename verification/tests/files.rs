use roracache::file::{
    buffer_capacity, RoraFile, BUFFER_AHEAD, BUFFER_BEHIND, BUFFER_TOTAL_SIZE, READ_SIZE,
};
use std::collections::VecDeque;

fn file_of(size: u64) -> RoraFile<u8> {
    RoraFile::new(b"./f".to_vec(), 7, size, 9)
}

/// A file whose byte at `i` is `i`, with bytes `start..end` buffered.
fn buffered(size: u64, start: u64, end: u64) -> RoraFile<u8> {
    let mut file = file_of(size);
    file.buffer_pos = start;
    let bytes: Vec<u8> = (start..end).map(|i| i as u8).collect();
    file.maybe_accept_moar(start, &bytes);
    file
}

#[test]
fn sizes() {
    assert_eq!(BUFFER_AHEAD, 512 * 1024 * 1024);
    assert_eq!(BUFFER_BEHIND, 256 * 1024 * 1024);
    assert_eq!(BUFFER_TOTAL_SIZE, 768 * 1024 * 1024);
    assert_eq!(READ_SIZE, 32768);
}

#[test]
fn a_new_file_has_nothing_buffered() {
    let file = file_of(100);
    assert_eq!(file.ino, 7);
    assert_eq!(file.underlying_file, Some((9, 0)));
    assert_eq!((file.buffer_pos, file.buffered_behind, file.buffer.len()), (0, 0, 0));
    assert_eq!(file.needs_service(), BUFFER_AHEAD);
}

#[test]
fn files_get_no_more_room_than_they_need() {
    assert_eq!(buffer_capacity(0), 0);
    assert_eq!(buffer_capacity(100), 100);
    assert_eq!(buffer_capacity(BUFFER_TOTAL_SIZE as u64 - 1), BUFFER_TOTAL_SIZE - 1);
    assert_eq!(buffer_capacity(BUFFER_TOTAL_SIZE as u64), BUFFER_TOTAL_SIZE);
    assert_eq!(buffer_capacity(BUFFER_TOTAL_SIZE as u64 + 1), BUFFER_TOTAL_SIZE);
    assert_eq!(buffer_capacity(u64::MAX), BUFFER_TOTAL_SIZE);
    let file = file_of(100);
    assert!(file.buffer.capacity() >= 100);
    assert!(file.buffer.capacity() < 100_000);
}

#[test]
fn seek_within_the_buffer() {
    let mut file = buffered(100, 10, 30);
    assert!(!file.seek(25));
    assert_eq!((file.buffer_pos, file.buffered_behind, file.buffer.len()), (25, 15, 20));
    assert!(!file.seek(10));
    assert_eq!((file.buffer_pos, file.buffered_behind, file.buffer.len()), (10, 0, 20));
}

#[test]
fn seek_right_behind_the_buffer_keeps_it() {
    let mut file = buffered(100, 10, 30);
    assert!(file.seek(30));
    assert_eq!((file.buffer_pos, file.buffered_behind, file.buffer.len()), (30, 20, 20));
}

#[test]
fn seek_elsewhere_discards_the_buffer() {
    let mut file = buffered(100, 10, 30);
    assert!(file.seek(31));
    assert_eq!((file.buffer_pos, file.buffered_behind, file.buffer.len()), (31, 0, 0));
    let mut file = buffered(100, 10, 30);
    assert!(file.seek(9));
    assert_eq!((file.buffer_pos, file.buffered_behind, file.buffer.len()), (9, 0, 0));
}

#[test]
fn seek_to_the_end_has_nothing_to_wait_for() {
    let mut file = buffered(100, 10, 30);
    assert!(!file.seek(100));
    assert_eq!((file.buffer_pos, file.buffered_behind, file.buffer.len()), (100, 0, 0));
    let mut file = buffered(100, 10, 100);
    assert!(!file.seek(100));
    assert_eq!((file.buffer_pos, file.buffered_behind, file.buffer.len()), (100, 90, 90));
    let mut file = file_of(0);
    assert!(!file.seek(0));
    assert_eq!((file.buffer_pos, file.buffered_behind, file.buffer.len()), (0, 0, 0));
}

#[test]
fn needs_service_until_all_is_buffered() {
    let file = buffered(100, 10, 30);
    assert_eq!(file.needs_service(), BUFFER_AHEAD - 20);
    let file = buffered(100, 10, 100);
    assert_eq!(file.needs_service(), 0);
}

#[test]
fn bytes_from_elsewhere_are_not_taken() {
    let mut file = buffered(100, 10, 30);
    file.maybe_accept_moar(31, &[1, 2, 3]);
    file.maybe_accept_moar(29, &[1, 2, 3]);
    assert_eq!(file.buffer.len(), 20);
    file.maybe_accept_moar(30, &[30, 31]);
    assert_eq!(file.buffer.len(), 22);
    assert_eq!(file.read_at(28, 10), Some(vec![28, 29, 30, 31]));
}

#[test]
fn reads_give_what_is_buffered() {
    let mut file = buffered(100, 10, 30);
    assert_eq!(file.read_at(12, 5), Some(vec![12, 13, 14, 15, 16]));
    assert_eq!((file.buffer_pos, file.buffered_behind), (17, 7));
    assert_eq!(file.read_at(28, 5), Some(vec![28, 29]));
    assert_eq!(file.read_at(30, 5), None);
    assert_eq!(file.read_at(100, 5), Some(vec![]));
    assert_eq!(file.read_at(1000, 5), Some(vec![]));
    assert_eq!(file.read_at(20, 0), Some(vec![]));
}

#[test]
fn a_full_buffer_lets_go_of_what_is_behind() {
    let total = BUFFER_TOTAL_SIZE as u64;
    let mut file = file_of(total + 100);
    file.buffer = VecDeque::from(vec![0u8; BUFFER_TOTAL_SIZE]);
    file.buffer_pos = BUFFER_BEHIND as u64 + 50;
    file.buffered_behind = BUFFER_BEHIND + 50;
    assert_eq!(file.needs_service(), 50);
    file.maybe_accept_moar(total, &[1, 2, 3, 4]);
    assert_eq!(file.buffer.len(), BUFFER_TOTAL_SIZE);
    assert_eq!(file.buffer_pos, BUFFER_BEHIND as u64 + 50);
    assert_eq!(file.buffered_behind, BUFFER_BEHIND + 46);
    assert_eq!(file.read_at(total - 1, 10), Some(vec![0, 1, 2, 3, 4]));
    assert_eq!(file.read_at(3, 1), None);
}

#[test]
fn a_full_buffer_moves_on_where_nothing_is_behind() {
    let total = BUFFER_TOTAL_SIZE as u64;
    let mut file = file_of(total + 100);
    file.buffer = VecDeque::from(vec![0u8; BUFFER_TOTAL_SIZE]);
    file.maybe_accept_moar(total, &[1, 2, 3, 4]);
    assert_eq!((file.buffer_pos, file.buffered_behind), (4, 0));
    assert_eq!(file.read_at(total, 4), Some(vec![1, 2, 3, 4]));
}

#[test]
fn waiting_is_urgent_and_ends() {
    let mut file = buffered(100, 10, 30);
    assert_eq!(file.read_at(50, 4), None);
    assert_eq!(file.needs_service(), BUFFER_AHEAD);
    file.maybe_accept_moar(50, &[50]);
    assert_eq!(file.read_at(50, 4), Some(vec![50]));
}
