use transfer_tracker::buffer::Buffer;
use transfer_tracker::buffer::SeekFrom;
use transfer_tracker::lock_copy::LockCopy;
use transfer_tracker::progress::Progress;
use transfer_tracker::progress::ProgressInner;

fn names(list: &[&str]) -> Vec<String> {
    list.iter().map(|s| s.to_string()).collect()
}

#[test]
fn rewind_and_copy_test() {
    let mut from = ProgressInner::new("pg", Buffer::new(vec![]));
    assert_eq!(from.write(b"hello"), Ok(5));
    assert_eq!(from.get_ref().position(), 5);

    let mut to = b"> ".to_vec();
    assert_eq!(LockCopy::rewind_and_copy(&mut from, &mut to), 5);
    assert_eq!(to, b"> hello".to_vec());
    assert_eq!(from.get_ref().position(), 5);
    assert_eq!(from.size(), 5);

    assert_eq!(from.seek(SeekFrom::Start(2)), Ok(2));
    let mut again = Vec::new();
    assert_eq!(LockCopy::rewind_and_copy(&mut from, &mut again), 5);
    assert_eq!(again, b"hello".to_vec());
}

#[test]
fn fresh_name_test() {
    let dir = LockCopy::new(".");
    let stored = names(&["Cargo.toml", "Cargo.lock", "src", "tests"]);

    let fresh = LockCopy::fresh_name(&stored, "dummy", "toml");
    assert_eq!(format!("{}/{}", dir.get_path(), fresh), "./dummy.toml".to_string());

    let fresh = LockCopy::fresh_name(&stored, "Cargo", "toml");
    assert_eq!(format!("{}/{}", dir.get_path(), fresh), "./Cargo(1).toml".to_string());
}

#[test]
fn build_name_test() {
    let name = LockCopy::build_name("hello", 0, "jpg");
    assert_eq!(name, "hello.jpg");

    let name = LockCopy::build_name("hello", 1, "jpg");
    assert_eq!(name, "hello(1).jpg");

    let name = LockCopy::build_name("hello", 0, "");
    assert_eq!(name, "hello");

    let name = LockCopy::build_name("hello", 1, "");
    assert_eq!(name, "hello(1)");
}

#[test]
fn build_name_writes_the_counter_in_decimal() {
    assert_eq!(LockCopy::build_name("a", 9, "b"), "a(9).b");
    assert_eq!(LockCopy::build_name("a", 10, "b"), "a(10).b");
    assert_eq!(LockCopy::build_name("a", 1005, ""), "a(1005)");
    assert_eq!(
        LockCopy::build_name("", u64::MAX, "x"),
        "(18446744073709551615).x"
    );
    assert_eq!(LockCopy::build_name("", 0, ""), "");
}

#[test]
fn fresh_name_takes_the_first_free_counter() {
    let stored = names(&["Cargo.toml", "Cargo(1).toml"]);
    assert_eq!(LockCopy::fresh_name(&stored, "Cargo", "toml"), "Cargo(2).toml");

    let stored = names(&["Cargo(1).toml", "Cargo(2).toml"]);
    assert_eq!(LockCopy::fresh_name(&stored, "Cargo", "toml"), "Cargo.toml");

    let stored = names(&["Cargo.toml", "Cargo(2).toml"]);
    assert_eq!(LockCopy::fresh_name(&stored, "Cargo", "toml"), "Cargo(1).toml");

    assert_eq!(LockCopy::fresh_name(&Vec::new(), "Cargo", ""), "Cargo");
}

#[test]
fn fresh_name_restarts_from_the_plain_name() {
    let mut stored = names(&["a.txt", "a(1).txt", "a(2).txt"]);
    assert_eq!(LockCopy::fresh_name(&stored, "a", "txt"), "a(3).txt");
    stored.push("a(3).txt".to_string());
    stored.remove(1);
    assert_eq!(LockCopy::fresh_name(&stored, "a", "txt"), "a(1).txt");
}

#[test]
fn fresh_name_ignores_repeated_and_unrelated_names() {
    let stored = names(&["a", "a", "a(1)", "b", "a(1)", "a(3)"]);
    assert_eq!(LockCopy::fresh_name(&stored, "a", ""), "a(2)");
}

#[test]
fn two_finalizations_in_a_row_get_different_names() {
    let mut stored = names(&["photo.jpg"]);
    let first = LockCopy::fresh_name(&stored, "photo", "jpg");
    stored.push(first.clone());
    let second = LockCopy::fresh_name(&stored, "photo", "jpg");
    assert_eq!(first, "photo(1).jpg");
    assert_eq!(second, "photo(2).jpg");
    assert_ne!(first, second);
}

#[test]
fn copy_hands_out_name_and_bytes() {
    let dir = LockCopy::new("out");
    assert_eq!(dir.get_path(), "out");
    let pg = Progress::new("page", Buffer::new(vec![]));
    assert_eq!(pg.write(b"hello"), Ok(5));

    let guard = dir.lock();
    let stored = names(&["page.html"]);
    let (file, bytes) = dir.copy(&pg, &stored, "page", "html");
    guard.release_write(());
    assert_eq!(file, "page(1).html");
    assert_eq!(bytes, b"hello".to_vec());

    let guard = dir.lock();
    guard.release_write(());
}
