//! The status of one transfer as an observer sees it.

use vstd::prelude::*;
use vstd::std_specs::convert::FromSpecImpl;
use crate::progress::Progress;
use crate::progress::ProgressInner;

verus! {

/// A point-in-time copy of a transfer's status, with the identifier under
/// which the transfer is registered.
#[derive(Debug, Clone, PartialEq, Eq)]
pub struct Item {
    pub id: String,
    pub name: String,
    pub total: u64,
    pub size: u64,
    pub canceled: bool,
}

impl Item {
    /// The status that `state` shows, under the identifier `id`.
    pub fn of<T: View>(id: &str, state: &ProgressInner<T>) -> (r: Item)
        ensures
            r.id@ == id@,
            r.name@ == state@.name,
            r.total == state@.total,
            r.size == state@.transferred,
            r.canceled == state@.canceled,
    {
        Item {
            id: id.to_owned(),
            name: state.name().clone(),
            total: state.total(),
            size: state.size(),
            canceled: state.canceled(),
        }
    }
}

impl<T: View> FromSpecImpl<&(String, Progress<T>)> for Item {
    /// The conversion reads the transfer under its lock, so what it returns
    /// is no function of the pair alone.
    open spec fn obeys_from_spec() -> bool {
        false
    }

    /// Left open: see `obeys_from_spec`.
    open spec fn from_spec(pair: &(String, Progress<T>)) -> Item {
        arbitrary()
    }
}

impl<T: View> From<&(String, Progress<T>)> for Item {
    /// Takes the transfer's lock and copies its status. The counters are
    /// those of some moment during the call; the identifier and the label are
    /// fixed.
    fn from(pair: &(String, Progress<T>)) -> (r: Item)
        ensures
            r.id@ == pair.0@,
            r.name@ == pair.1.name(),
    {
        let (state, guard) = pair.1.lock();
        let item = Item::of(pair.0.as_str(), &state);
        guard.release_write(state);
        item
    }
}

} // verus!
