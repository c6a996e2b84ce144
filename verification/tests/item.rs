use transfer_tracker::buffer::Buffer;
use transfer_tracker::item::Item;
use transfer_tracker::progress::Progress;
use transfer_tracker::progress::ProgressInner;

#[test]
fn from_test() {
    let id = "id".to_string();
    let name = "name".to_string();
    let pg = Progress::new(&name, ());
    let item: Item = (&(id.clone(), pg)).into();
    let ans = Item {
        id: id.to_string(),
        name,
        total: 0,
        size: 0,
        canceled: false,
    };
    assert_eq!(item, ans);
}

#[test]
fn writed_progress_test() {
    let pg = Progress::new("written", Buffer::new(vec![]));
    pg.set_total(11);
    assert_eq!(pg.write(b"hello "), Ok(6));
    assert_eq!(pg.write(b"world"), Ok(5));
    let item: Item = (&("w".to_string(), pg.clone())).into();
    let ans = Item {
        id: "w".to_string(),
        name: "written".to_string(),
        total: 11,
        size: 11,
        canceled: false,
    };
    assert_eq!(item, ans);

    pg.cancel();
    let item = Item::from(&("w".to_string(), pg));
    assert!(item.canceled);
    assert_eq!(item.size, 11);
}

#[test]
fn item_of_copies_the_state() {
    let mut state = ProgressInner::new("copy", Buffer::new(vec![]));
    state.set_total(3);
    assert_eq!(state.write(b"ab"), Ok(2));
    let item = Item::of("k", &state);
    assert_eq!(item.id, "k");
    assert_eq!(item.name, "copy");
    assert_eq!(item.total, 3);
    assert_eq!(item.size, 2);
    assert!(!item.canceled);
}
