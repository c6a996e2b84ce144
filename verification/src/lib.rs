//! Transfer tracking for a download utility: the byte-counting, cancelable
//! stream over an in-memory buffer, the registry of transfers in flight, and
//! the choice of a file name that overwrites nothing.

pub mod buffer;
pub mod client;
pub mod error;
pub mod item;
pub mod lock_copy;
pub mod ordered;
pub mod progress;
pub mod state;
pub mod table;
