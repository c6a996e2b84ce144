use transfer_tracker::buffer::Buffer;
use transfer_tracker::lock_copy::LockCopy;
use transfer_tracker::progress::Progress;
use transfer_tracker::table::Table;

fn shared_between_threads<T: Send + Sync>() {}

#[test]
fn handles_can_be_shared_between_threads() {
    shared_between_threads::<Progress<Buffer>>();
    shared_between_threads::<Table>();
    shared_between_threads::<LockCopy>();
}
