//! The ways in which a transfer ends without a stored file.

use vstd::prelude::*;

verus! {

/// Why an operation on a buffer could not be carried out.
#[derive(Debug, Clone, Copy, PartialEq, Eq, Structural)]
pub enum Fault {
    /// A seek would have put the position below zero or above `u64::MAX`.
    InvalidSeek,
    /// A write would have ended beyond `usize::MAX`, or brought the count of
    /// transferred bytes above `u64::MAX`.
    TooLarge,
}

/// Why a transfer was given up. None of these is retried.
#[derive(Debug, Clone, PartialEq, Eq)]
pub enum Error {
    /// The response carried a status outside the success range; the text
    /// describes the response.
    NonSuccessStatusError(String),
    /// Reading, writing or seeking failed.
    IoError(Fault),
    /// A write was attempted after the transfer had been canceled.
    Canceled,
}

} // verus!
