//! One transfer's live state, and the handle through which every party
//! holding it reads and changes that state under one lock.

use std::sync::Arc;
use vstd::prelude::*;
use vstd::rwlock::RwLock;
use vstd::rwlock::RwLockPredicate;
use vstd::rwlock::WriteHandle;
use crate::buffer::Buffer;
use crate::buffer::SeekFrom;
use crate::error::Error;
use crate::error::Fault;
use crate::state::TransferState;

verus! {

/// The state of one transfer, with the operations that change it. A
/// `Progress` keeps one under its lock.
pub struct ProgressInner<T> {
    name: String,
    total: u64,
    size: u64,
    canceled: bool,
    buf: T,
}

impl<T: View> View for ProgressInner<T> {
    type V = TransferState<T::V>;

    closed spec fn view(&self) -> TransferState<T::V> {
        TransferState {
            name: self.name@,
            total: self.total,
            transferred: self.size,
            canceled: self.canceled,
            sink: self.buf@,
        }
    }
}

impl<T: View> ProgressInner<T> {
    /// The state of a transfer labelled `name` that is about to stream into
    /// `buf`.
    pub fn new(name: &str, buf: T) -> (r: Self)
        ensures
            r@ == TransferState::created(name@, buf@),
    {
        ProgressInner { name: name.to_owned(), total: 0, size: 0, canceled: false, buf }
    }

    /// Records the size that the source declared. A later call overwrites an
    /// earlier one.
    pub fn set_total(&mut self, total: u64)
        ensures
            final(self)@ == old(self)@.with_total(total),
    {
        self.total = total;
    }

    /// Marks the transfer as canceled. The sink is not touched.
    pub fn cancel(&mut self)
        ensures
            final(self)@ == old(self)@.cancel(),
    {
        self.canceled = true;
    }

    /// The display label.
    pub fn name(&self) -> (r: &String)
        ensures
            r@ == self@.name,
    {
        &self.name
    }

    /// The declared size, zero while unknown.
    pub fn total(&self) -> (r: u64)
        ensures
            r == self@.total,
    {
        self.total
    }

    /// The count of bytes written into the sink.
    pub fn size(&self) -> (r: u64)
        ensures
            r == self@.transferred,
    {
        self.size
    }

    /// Whether the transfer was canceled.
    pub fn canceled(&self) -> (r: bool)
        ensures
            r == self@.canceled,
    {
        self.canceled
    }

    /// The sink.
    pub fn get_ref(&self) -> (r: &T)
        ensures
            r@ == self@.sink,
    {
        &self.buf
    }
}

impl ProgressInner<Buffer> {
    /// Writes `buf` into the sink and counts its bytes, unless the transfer
    /// was canceled: then the sink is not touched and the write fails.
    pub fn write(&mut self, buf: &[u8]) -> (r: Result<usize, Error>)
        ensures
            r == old(self)@.write_result(buf@),
            final(self)@ == old(self)@.write(buf@),
    {
        if self.canceled {
            return Err(Error::Canceled);
        }
        if buf.len() as u64 > u64::MAX - self.size {
            return Err(Error::IoError(Fault::TooLarge));
        }
        match self.buf.write(buf) {
            Ok(len) => {
                self.size = self.size + len as u64;
                Ok(len)
            },
            Err(e) => Err(e),
        }
    }

    /// Reads from the sink into the front of `buf`.
    pub fn read(&mut self, buf: &mut [u8]) -> (r: Result<usize, Error>)
        ensures
            ({
                let got = old(self)@.sink.read_result(old(buf)@.len());
                &&& r == Ok::<usize, Error>(got.len() as usize)
                &&& final(buf)@ == got + old(buf)@.subrange(got.len() as int, old(buf)@.len() as int)
                &&& final(self)@ == old(self)@.read(old(buf)@.len())
            }),
    {
        self.buf.read(buf)
    }

    /// Appends to `to` what the sink holds from its position to its end.
    pub fn read_to_end(&mut self, to: &mut Vec<u8>) -> (r: Result<usize, Error>)
        ensures
            old(self)@.sink.rest().len() <= usize::MAX,
            r == Ok::<usize, Error>(old(self)@.sink.rest().len() as usize),
            final(to)@ == old(to)@ + old(self)@.sink.rest(),
            final(self)@ == old(self)@.read(old(self)@.sink.content.len()),
    {
        self.buf.read_to_end(to)
    }

    /// Moves the sink's position.
    pub fn seek(&mut self, to: SeekFrom) -> (r: Result<u64, Error>)
        ensures
            r == old(self)@.sink.seek_result(to),
            final(self)@ == old(self)@.seek(to),
    {
        self.buf.seek(to)
    }
}

/// What the lock of a `Progress` keeps true of the state under it: the label
/// is the one that the transfer was created with.
pub struct Labelled {
    pub name: Seq<char>,
}

impl<T: View> RwLockPredicate<ProgressInner<T>> for Labelled {
    open spec fn inv(self, v: ProgressInner<T>) -> bool {
        v@.name == self.name
    }
}

/// A handle to one transfer. Clones of a handle reach the same state; every
/// operation takes the one lock that guards it, so operations made through
/// different clones happen one after the other.
///
/// Between two operations another holder may have changed the state, so what
/// an operation promises here is what holds whenever the lock is taken: the
/// label, and how the result relates to the arguments. What an operation does
/// to the state is stated on `ProgressInner`.
pub struct Progress<T: View>(Arc<RwLock<ProgressInner<T>, Labelled>>);

impl<T: View> Clone for Progress<T> {
    /// Another handle to the same transfer.
    fn clone(&self) -> (r: Self)
        ensures
            r == *self,
    {
        Progress(self.0.clone())
    }
}

impl<T: View> Progress<T> {
    /// The label that the transfer was created with.
    pub closed spec fn name(&self) -> Seq<char> {
        self.0.pred().name
    }

    /// A handle to a new transfer labelled `name` that streams into `buf`.
    pub fn new(name: &str, buf: T) -> (r: Self)
        ensures
            r.name() == name@,
    {
        let state = ProgressInner::new(name, buf);
        Progress(Arc::new(RwLock::new(state, Ghost(Labelled { name: name@ }))))
    }

    /// Takes the lock and hands out the state. The lock is held until the
    /// state is given back with `release_write` on the handle returned.
    pub(crate) fn lock(&self) -> (r: (
        ProgressInner<T>,
        WriteHandle<'_, ProgressInner<T>, Labelled>,
    ))
        ensures
            r.0@.name == self.name(),
            r.1.rwlock().pred() == (Labelled { name: self.name() }),
    {
        self.0.acquire_write()
    }

    /// Records the size that the source declared.
    pub fn set_total(&self, total: u64) {
        let (mut state, guard) = self.lock();
        state.set_total(total);
        guard.release_write(state);
    }

    /// Cancels the transfer: every later write fails.
    pub fn cancel(&self) {
        let (mut state, guard) = self.lock();
        state.cancel();
        guard.release_write(state);
    }
}

impl Progress<Buffer> {
    /// Writes `buf` into the sink and counts it, under the lock. Either all
    /// of `buf` is written, or nothing is and the transfer was canceled or
    /// has no room.
    pub fn write(&self, buf: &[u8]) -> (r: Result<usize, Error>)
        ensures
            r == Ok::<usize, Error>(buf@.len() as usize) || r == Err::<usize, Error>(Error::Canceled)
                || r == Err::<usize, Error>(Error::IoError(Fault::TooLarge)),
    {
        let (mut state, guard) = self.lock();
        let r = state.write(buf);
        guard.release_write(state);
        r
    }

    /// Reads from the sink into the front of `buf`, under the lock, and
    /// returns how many bytes were read. It never fails.
    pub fn read(&self, buf: &mut [u8]) -> (r: Result<usize, Error>)
        ensures
            r is Ok,
            r->Ok_0 <= old(buf)@.len(),
            final(buf)@.len() == old(buf)@.len(),
            forall|i: int| r->Ok_0 <= i < old(buf)@.len() ==> final(buf)@[i] == old(buf)@[i],
    {
        let room = buf.len();
        let (mut state, guard) = self.lock();
        let ghost got = state@.sink.read_result(room as nat);
        let r = state.read(buf);
        guard.release_write(state);
        assert(got.len() <= room);
        assert(buf@.len() == got.len() + (room - got.len()));
        r
    }

    /// Appends to `to` what the sink holds from its position to its end,
    /// under the lock, and returns how many bytes that were. What `to` held
    /// stays in front. It never fails.
    pub fn read_to_end(&self, to: &mut Vec<u8>) -> (r: Result<usize, Error>)
        ensures
            r is Ok,
            final(to)@.len() == old(to)@.len() + r->Ok_0,
            final(to)@.subrange(0, old(to)@.len() as int) == old(to)@,
    {
        let (mut state, guard) = self.lock();
        let r = state.read_to_end(to);
        guard.release_write(state);
        assert(to@.subrange(0, old(to)@.len() as int) =~= old(to)@);
        r
    }

    /// Moves the sink's position, under the lock. A seek from the start
    /// always succeeds and returns the offset asked for.
    pub fn seek(&self, to: SeekFrom) -> (r: Result<u64, Error>)
        ensures
            r is Err ==> r == Err::<u64, Error>(Error::IoError(Fault::InvalidSeek)),
            to is Start ==> r == Ok::<u64, Error>(to->Start_0),
    {
        let (mut state, guard) = self.lock();
        let r = state.seek(to);
        guard.release_write(state);
        r
    }

    /// Puts the sink's position back to its first byte, so that all that was
    /// received can be read from the start.
    pub fn rewind(&self) -> (r: Result<u64, Error>)
        ensures
            r == Ok::<u64, Error>(0),
    {
        self.seek(SeekFrom::Start(0))
    }
}

} // verus!
