use transfer_tracker::buffer::Buffer;
use transfer_tracker::buffer::SeekFrom;
use transfer_tracker::error::Error;
use transfer_tracker::error::Fault;
use transfer_tracker::item::Item;
use transfer_tracker::progress::Progress;
use transfer_tracker::progress::ProgressInner;

fn status(pg: &Progress<Buffer>) -> Item {
    Item::from(&("id".to_string(), pg.clone()))
}

fn position(pg: &Progress<Buffer>) -> u64 {
    pg.seek(SeekFrom::Current(0)).unwrap()
}

fn content(pg: &Progress<Buffer>) -> Vec<u8> {
    let at = position(pg);
    pg.rewind().unwrap();
    let mut bytes = Vec::new();
    pg.read_to_end(&mut bytes).unwrap();
    pg.seek(SeekFrom::Start(at)).unwrap();
    bytes
}

#[test]
fn set_total_test() {
    let pg = Progress::new("pg", ());
    pg.set_total(1000);
    assert_eq!(Item::from(&(String::new(), pg)).total, 1000);
}

#[test]
fn rewind_test() {
    let data = b"hello";
    let pg = Progress::new("pg", Buffer::new(vec![]));
    assert_eq!(pg.write(&*data), Ok(5));
    assert_eq!(position(&pg), 5);
    pg.rewind().unwrap();
    assert_eq!(position(&pg), 0);
}

#[test]
fn read_test() {
    let data = b"hello";
    let pg = Progress::new("pg", Buffer::new(vec![]));
    assert_eq!(pg.write(&*data), Ok(5));
    pg.rewind().unwrap();

    let mut buf = vec![];
    pg.read_to_end(&mut buf).unwrap();
    assert_eq!(buf, data);
}

#[test]
fn write_test() {
    let data = b"hello";
    let pg = Progress::new("pg", Buffer::new(vec![]));
    assert_eq!(pg.write(&*data), Ok(5));

    assert_eq!(status(&pg).size, data.len() as u64);
    assert_eq!(content(&pg), data.to_vec());
}

#[test]
fn new_transfer_starts_from_nothing() {
    let state = ProgressInner::new("archive", Buffer::new(vec![]));
    assert_eq!(state.name(), "archive");
    assert_eq!(state.total(), 0);
    assert_eq!(state.size(), 0);
    assert!(!state.canceled());
    assert_eq!(state.get_ref().position(), 0);
    assert!(state.get_ref().get_ref().is_empty());
}

#[test]
fn successful_writes_add_up() {
    let mut state = ProgressInner::new("sum", Buffer::new(vec![]));
    assert_eq!(state.write(b"ab"), Ok(2));
    assert_eq!(state.write(b""), Ok(0));
    assert_eq!(state.write(b"cde"), Ok(3));
    assert_eq!(state.size(), 5);
    assert_eq!(state.get_ref().get_ref().len(), 5);

    assert_eq!(state.seek(SeekFrom::Start(0)), Ok(0));
    let mut back = Vec::new();
    assert_eq!(state.read_to_end(&mut back), Ok(5));
    assert_eq!(back, b"abcde".to_vec());
    assert_eq!(back.len() as u64, state.size());
}

#[test]
fn write_after_cancel_fails_and_counts_nothing() {
    let mut state = ProgressInner::new("stop", Buffer::new(vec![]));
    assert_eq!(state.write(b"abc"), Ok(3));
    state.cancel();
    assert!(state.canceled());
    assert_eq!(state.write(b"def"), Err(Error::Canceled));
    assert_eq!(state.write(b""), Err(Error::Canceled));
    assert_eq!(state.size(), 3);
    assert_eq!(state.get_ref().get_ref().clone(), b"abc".to_vec());
    assert_eq!(state.get_ref().position(), 3);
}

#[test]
fn cancel_is_idempotent_and_survives_other_operations() {
    let mut state = ProgressInner::new("stop", Buffer::new(vec![]));
    state.cancel();
    state.cancel();
    state.set_total(9);
    assert_eq!(state.seek(SeekFrom::Start(0)), Ok(0));
    let mut room = [0u8; 4];
    assert_eq!(state.read(&mut room), Ok(0));
    assert!(state.canceled());
    assert_eq!(state.write(b"x"), Err(Error::Canceled));
    assert_eq!(state.size(), 0);
}

#[test]
fn total_changes_only_when_set() {
    let mut state = ProgressInner::new("size", Buffer::new(vec![]));
    state.set_total(10);
    assert_eq!(state.write(b"abc"), Ok(3));
    assert_eq!(state.write(b"defg"), Ok(4));
    state.cancel();
    assert_eq!(state.write(b"h"), Err(Error::Canceled));
    assert_eq!(state.total(), 10);
    assert_eq!(state.size(), 7);
    state.set_total(12);
    assert_eq!(state.total(), 12);
    assert_eq!(state.size(), 7);
    assert!(state.canceled());
}

#[test]
fn total_may_stay_unknown() {
    let mut state = ProgressInner::new("unknown", Buffer::new(vec![]));
    assert_eq!(state.write(b"abc"), Ok(3));
    assert_eq!(state.total(), 0);
}

#[test]
fn overwriting_counts_every_byte_written() {
    let mut state = ProgressInner::new("twice", Buffer::new(vec![]));
    assert_eq!(state.write(b"hello"), Ok(5));
    assert_eq!(state.seek(SeekFrom::Start(1)), Ok(1));
    assert_eq!(state.write(b"ipp"), Ok(3));
    assert_eq!(state.size(), 8);
    assert_eq!(state.get_ref().get_ref().clone(), b"hippo".to_vec());
}

#[test]
fn state_seek_reports_invalid_targets() {
    let mut state = ProgressInner::new("seek", Buffer::new(b"abc".to_vec()));
    assert_eq!(state.seek(SeekFrom::Current(-1)), Err(Error::IoError(Fault::InvalidSeek)));
    assert_eq!(state.seek(SeekFrom::End(-1)), Ok(2));
    let mut room = [0u8; 8];
    assert_eq!(state.read(&mut room), Ok(1));
    assert_eq!(room[0], b'c');
    assert_eq!(state.size(), 0);
}

#[test]
fn clones_share_one_state() {
    let pg = Progress::new("shared", Buffer::new(vec![]));
    let other = pg.clone();
    other.set_total(7);
    assert_eq!(pg.write(b"abcd"), Ok(4));
    let seen = status(&other);
    assert_eq!(seen.name, "shared");
    assert_eq!(seen.total, 7);
    assert_eq!(seen.size, 4);
    assert!(!seen.canceled);

    other.cancel();
    assert_eq!(pg.write(b"e"), Err(Error::Canceled));
    let seen = status(&pg);
    assert!(seen.canceled);
    assert_eq!(seen.size, 4);
    assert_eq!(content(&other), b"abcd".to_vec());
}

#[test]
fn handle_read_fills_the_front_of_the_buffer() {
    let pg = Progress::new("read", Buffer::new(b"abc".to_vec()));
    let mut room = [9u8; 5];
    assert_eq!(pg.read(&mut room), Ok(3));
    assert_eq!(room, [b'a', b'b', b'c', 9, 9]);
    assert_eq!(pg.read(&mut room), Ok(0));
    assert_eq!(position(&pg), 3);
}

#[test]
fn handle_seek_moves_the_position() {
    let pg = Progress::new("seek", Buffer::new(b"abcdef".to_vec()));
    assert_eq!(pg.seek(SeekFrom::Start(4)), Ok(4));
    assert_eq!(pg.seek(SeekFrom::Current(-3)), Ok(1));
    assert_eq!(pg.seek(SeekFrom::End(2)), Ok(8));
    assert_eq!(pg.seek(SeekFrom::End(-7)), Err(Error::IoError(Fault::InvalidSeek)));
    assert_eq!(position(&pg), 8);
    assert_eq!(pg.rewind(), Ok(0));
    assert_eq!(position(&pg), 0);
}

#[test]
fn write_without_room_fails_and_counts_nothing() {
    let mut state = ProgressInner::new("far", Buffer::new(b"ab".to_vec()));
    assert_eq!(state.seek(SeekFrom::Start(u64::MAX)), Ok(u64::MAX));
    assert_eq!(state.write(b"x"), Err(Error::IoError(Fault::TooLarge)));
    assert_eq!(state.size(), 0);
    assert_eq!(state.get_ref().get_ref().clone(), b"ab".to_vec());
    assert_eq!(state.get_ref().position(), u64::MAX);

    let pg = Progress::new("far", Buffer::new(vec![]));
    assert_eq!(pg.seek(SeekFrom::Start(u64::MAX)), Ok(u64::MAX));
    assert_eq!(pg.write(b"x"), Err(Error::IoError(Fault::TooLarge)));
    assert_eq!(status(&pg).size, 0);
    pg.cancel();
    assert_eq!(pg.write(b"x"), Err(Error::Canceled));
}
