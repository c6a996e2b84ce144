use transfer_tracker::buffer::Buffer;
use transfer_tracker::client::accept;
use transfer_tracker::client::content_length;
use transfer_tracker::client::download;
use transfer_tracker::client::start;
use transfer_tracker::client::Response;
use transfer_tracker::error::Error;
use transfer_tracker::item::Item;
use transfer_tracker::lock_copy::LockCopy;
use transfer_tracker::progress::ProgressInner;
use transfer_tracker::table::Table;

fn response(status: u16, length: Option<&str>) -> Response {
    Response {
        status,
        description: format!("Response {{ status: {} }}", status),
        content_length: length.map(|s| s.as_bytes().to_vec()),
    }
}

#[test]
fn content_length_test() {
    assert_eq!(content_length(&response(200, Some("5"))), Some(5));
    assert_eq!(content_length(&response(200, Some("1024"))), Some(1024));
    assert_eq!(content_length(&response(200, Some("0"))), Some(0));
    assert_eq!(content_length(&response(200, Some("007"))), Some(7));
    assert_eq!(content_length(&response(200, Some("+12"))), Some(12));
    assert_eq!(content_length(&response(200, None)), None);
}

#[test]
fn content_length_that_is_no_number_is_unknown() {
    for raw in ["", "+", "-1", "12a", " 12", "12 ", "1 2", "0x10", "++1", "1+", "five", "1.0"] {
        assert_eq!(content_length(&response(200, Some(raw))), None, "{:?}", raw);
    }
    let bytes = Response {
        status: 200,
        description: String::new(),
        content_length: Some(vec![0x31, 0xff]),
    };
    assert_eq!(content_length(&bytes), None);
}

#[test]
fn content_length_up_to_64_bits() {
    assert_eq!(
        content_length(&response(200, Some("18446744073709551615"))),
        Some(u64::MAX)
    );
    assert_eq!(content_length(&response(200, Some("18446744073709551616"))), None);
    assert_eq!(content_length(&response(200, Some("18446744073709551620"))), None);
    assert_eq!(content_length(&response(200, Some("99999999999999999999999"))), None);
    assert_eq!(
        content_length(&response(200, Some("000000000000000000000000000001"))),
        Some(1)
    );
}

#[test]
fn accept_sets_the_expected_size() {
    let mut state = ProgressInner::new("ok", Buffer::new(vec![]));
    assert_eq!(accept(&response(200, Some("5")), &mut state), Ok(()));
    assert_eq!(state.total(), 5);

    let mut state = ProgressInner::new("unknown", Buffer::new(vec![]));
    assert_eq!(accept(&response(204, None), &mut state), Ok(()));
    assert_eq!(state.total(), 0);
    assert_eq!(accept(&response(299, Some("many")), &mut state), Ok(()));
    assert_eq!(state.total(), 0);
}

#[test]
fn accept_refuses_a_status_outside_the_success_range() {
    for status in [100u16, 199, 300, 301, 404, 500, 0, u16::MAX] {
        let mut state = ProgressInner::new("bad", Buffer::new(vec![]));
        let res = response(status, Some("5"));
        assert_eq!(
            accept(&res, &mut state),
            Err(Error::NonSuccessStatusError(res.description.clone()))
        );
        assert_eq!(state.total(), 0);
        assert_eq!(state.size(), 0);
    }
}

#[test]
fn successful_transfer_from_start_to_stored_bytes() {
    let table = Table::new();
    let (pg, token) = start(&table, Buffer::new(vec![]), "greeting");
    assert_eq!(table.list_transfers().len(), 1);

    assert_eq!(download(&response(200, Some("5")), &pg), Ok(()));
    let seen = &table.list_transfers()[0];
    assert_eq!(seen.id, *token.get_id());
    assert_eq!(seen.name, "greeting");
    assert_eq!(seen.total, 5);
    assert_eq!(seen.size, 0);

    assert_eq!(pg.write(b"he"), Ok(2));
    let seen = &table.list_transfers()[0];
    assert_eq!(seen.total, 5);
    assert_eq!(seen.size, 2);
    assert_eq!(pg.write(b"llo"), Ok(3));

    let dir = LockCopy::new(".");
    let guard = dir.lock();
    let (file, bytes) = dir.copy(&pg, &vec!["greeting.txt".to_string()], "greeting", "txt");
    guard.release_write(());
    assert_eq!(file, "greeting(1).txt");
    assert_eq!(bytes, b"hello".to_vec());

    token.release();
    assert!(table.list_transfers().is_empty());
}

#[test]
fn failed_request_leaves_nothing_behind() {
    let table = Table::new();
    let (pg, token) = start(&table, Buffer::new(vec![]), "missing");
    let res = response(404, None);
    let outcome = download(&res, &pg);
    token.release();
    assert_eq!(outcome, Err(Error::NonSuccessStatusError(res.description.clone())));
    assert!(table.list_transfers().is_empty());
    let mut stored = Vec::new();
    assert_eq!(pg.read_to_end(&mut stored), Ok(0));
    assert!(stored.is_empty());
    assert_eq!(Item::from(&(String::new(), pg)).size, 0);
}

#[test]
fn canceled_transfer_stops_at_the_next_write() {
    let table = Table::new();
    let (pg, token) = start(&table, Buffer::new(vec![]), "long");
    assert_eq!(download(&response(200, Some("100")), &pg), Ok(()));
    assert_eq!(pg.write(b"0123456789"), Ok(10));
    table.cancel(token.get_id());
    assert_eq!(pg.write(b"0123456789"), Err(Error::Canceled));
    let seen = &table.list_transfers()[0];
    assert!(seen.canceled);
    assert_eq!(seen.size, 10);
    assert_eq!(seen.total, 100);
    token.release();
    assert!(table.list_transfers().is_empty());
}
