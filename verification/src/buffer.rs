//! An in-memory byte store with a position, the sink that a transfer is
//! streamed into and read back from.

use vstd::prelude::*;
use crate::error::Error;
use crate::error::Fault;

verus! {

/// Where a seek starts counting from.
#[derive(Debug, Clone, Copy, PartialEq, Eq, Structural)]
pub enum SeekFrom {
    /// From the first byte.
    Start(u64),
    /// From the end of the content.
    End(i64),
    /// From the present position.
    Current(i64),
}

/// What a buffer is: its bytes, and the offset at which the next read or
/// write takes place. The position may lie beyond the end of the content.
pub struct BufferView {
    pub content: Seq<u8>,
    pub position: nat,
}

/// The content after `bytes` were written at offset `at`: a gap between the
/// old end and `at` is filled with zeros, bytes under the written range are
/// replaced, and bytes beyond it stay.
pub open spec fn written(content: Seq<u8>, at: nat, bytes: Seq<u8>) -> Seq<u8> {
    let end = at + bytes.len();
    let len = if content.len() < end {
        end
    } else {
        content.len()
    };
    Seq::new(
        len,
        |i: int|
            if at <= i < end {
                bytes[i - at]
            } else if i < content.len() {
                content[i]
            } else {
                0u8
            },
    )
}

/// The bytes that a read of at most `room` bytes at offset `at` hands out:
/// those from `at` on, as far as the content and the room reach.
pub open spec fn readable(content: Seq<u8>, at: nat, room: nat) -> Seq<u8> {
    if at >= content.len() {
        Seq::empty()
    } else if content.len() - at < room {
        content.subrange(at as int, content.len() as int)
    } else {
        content.subrange(at as int, (at + room) as int)
    }
}

impl BufferView {
    /// Whether a write of `bytes` ends at an offset that an index can hold.
    pub open spec fn has_room(self, bytes: Seq<u8>) -> bool {
        self.position + bytes.len() <= usize::MAX
    }

    /// What a write of `bytes` returns.
    pub open spec fn write_result(self, bytes: Seq<u8>) -> Result<usize, Error> {
        if self.has_room(bytes) {
            Ok(bytes.len() as usize)
        } else {
            Err(Error::IoError(Fault::TooLarge))
        }
    }

    /// The buffer after a write of `bytes`: unchanged where the write is
    /// refused; else the bytes stand at the old position and the position
    /// behind them.
    pub open spec fn write(self, bytes: Seq<u8>) -> BufferView {
        if self.has_room(bytes) {
            BufferView {
                content: written(self.content, self.position, bytes),
                position: self.position + bytes.len(),
            }
        } else {
            self
        }
    }

    /// The bytes that a read into `room` bytes of space hands out.
    pub open spec fn read_result(self, room: nat) -> Seq<u8> {
        readable(self.content, self.position, room)
    }

    /// The buffer after a read into `room` bytes of space: the position has
    /// moved behind the bytes read.
    pub open spec fn read(self, room: nat) -> BufferView {
        BufferView {
            content: self.content,
            position: self.position + self.read_result(room).len(),
        }
    }

    /// The bytes from the position to the end of the content.
    pub open spec fn rest(self) -> Seq<u8> {
        self.read_result(self.content.len())
    }

    /// The offset that a seek aims at; it may be negative or too large.
    pub open spec fn target(self, to: SeekFrom) -> int {
        match to {
            SeekFrom::Start(n) => n as int,
            SeekFrom::End(d) => self.content.len() + d,
            SeekFrom::Current(d) => self.position + d,
        }
    }

    /// Whether a seek to `to` aims at an offset that a position can hold.
    pub open spec fn seekable(self, to: SeekFrom) -> bool {
        0 <= self.target(to) <= u64::MAX
    }

    /// What a seek to `to` returns.
    pub open spec fn seek_result(self, to: SeekFrom) -> Result<u64, Error> {
        if self.seekable(to) {
            Ok(self.target(to) as u64)
        } else {
            Err(Error::IoError(Fault::InvalidSeek))
        }
    }

    /// The buffer after a seek to `to`: unchanged where the seek is refused.
    pub open spec fn seek(self, to: SeekFrom) -> BufferView {
        if self.seekable(to) {
            BufferView { content: self.content, position: self.target(to) as nat }
        } else {
            self
        }
    }
}

/// An in-memory byte store that is written, read and sought like a file.
pub struct Buffer {
    data: Vec<u8>,
    pos: u64,
}

impl View for Buffer {
    type V = BufferView;

    closed spec fn view(&self) -> BufferView {
        BufferView { content: self.data@, position: self.pos as nat }
    }
}

fn offset_by(base: u64, delta: i64) -> (r: Option<u64>)
    ensures
        r == if 0 <= base + delta <= u64::MAX {
            Some((base + delta) as u64)
        } else {
            None
        },
{
    if delta >= 0 {
        let up = delta as u64;
        if up <= u64::MAX - base {
            Some(base + up)
        } else {
            None
        }
    } else {
        let down = (-(delta + 1)) as u64 + 1;
        if down <= base {
            Some(base - down)
        } else {
            None
        }
    }
}

impl Buffer {
    /// A buffer over `data`, positioned at its first byte.
    pub fn new(data: Vec<u8>) -> (r: Buffer)
        ensures
            r@ == (BufferView { content: data@, position: 0 }),
    {
        Buffer { data, pos: 0 }
    }

    /// The offset of the next read or write.
    pub fn position(&self) -> (r: u64)
        ensures
            r == self@.position,
    {
        self.pos
    }

    /// The bytes held.
    pub fn get_ref(&self) -> (r: &Vec<u8>)
        ensures
            r@ == self@.content,
    {
        &self.data
    }

    /// Writes all of `buf` at the position and moves the position behind it.
    /// Fails, changing nothing, where the written range would end beyond
    /// `usize::MAX`.
    pub fn write(&mut self, buf: &[u8]) -> (r: Result<usize, Error>)
        ensures
            r == old(self)@.write_result(buf@),
            final(self)@ == old(self)@.write(buf@),
    {
        let n = buf.len();
        if self.pos > (usize::MAX - n) as u64 {
            return Err(Error::IoError(Fault::TooLarge));
        }
        let start = self.pos as usize;
        let ghost before = self.data@;
        while self.data.len() < start
            invariant
                before.len() <= self.data@.len(),
                self.data@.len() <= start || self.data@ == before,
                forall|i: int| 0 <= i < before.len() ==> self.data@[i] == before[i],
                forall|i: int| before.len() <= i < self.data@.len() ==> self.data@[i] == 0u8,
                self.pos == old(self).pos,
            decreases start - self.data@.len(),
        {
            self.data.push(0u8);
        }
        let ghost padded = self.data@;
        let mut i: usize = 0;
        while i < n
            invariant
                i <= n,
                n == buf@.len(),
                start + n <= usize::MAX,
                start <= padded.len(),
                before.len() <= padded.len(),
                padded.len() <= start || padded == before,
                forall|k: int| 0 <= k < before.len() ==> padded[k] == before[k],
                forall|k: int| before.len() <= k < padded.len() ==> padded[k] == 0u8,
                self.pos == old(self).pos,
                self.data@.len() == if padded.len() < start + i {
                    start + i
                } else {
                    padded.len() as int
                },
                forall|k: int| 0 <= k < start ==> self.data@[k] == padded[k],
                forall|k: int| start <= k < start + i ==> self.data@[k] == buf@[k - start],
                forall|k: int| start + i <= k < padded.len() ==> self.data@[k] == padded[k],
            decreases n - i,
        {
            if start + i < self.data.len() {
                self.data[start + i] = buf[i];
            } else {
                self.data.push(buf[i]);
            }
            i += 1;
        }
        self.pos = (start + n) as u64;
        proof {
            let w = written(before, start as nat, buf@);
            assert(self.data@.len() == w.len());
            assert forall|k: int| 0 <= k < w.len() implies self.data@[k] == w[k] by {
                if k < start {
                    assert(self.data@[k] == padded[k]);
                    assert(w[k] == if k < before.len() { before[k] } else { 0u8 });
                } else if k < start + n {
                    assert(self.data@[k] == buf@[k - start]);
                    assert(w[k] == buf@[k - start]);
                } else {
                    assert(padded == before);
                    assert(self.data@[k] == padded[k]);
                }
            }
        }
        assert(self.data@ =~= written(before, start as nat, buf@));
        Ok(n)
    }

    /// Copies bytes from the position into the front of `buf`, as many as
    /// there are and as `buf` has room for, and moves the position behind
    /// them. The rest of `buf` is left as it was. At or beyond the end of the
    /// content nothing is read.
    pub fn read(&mut self, buf: &mut [u8]) -> (r: Result<usize, Error>)
        ensures
            ({
                let got = old(self)@.read_result(old(buf)@.len());
                &&& r == Ok::<usize, Error>(got.len() as usize)
                &&& final(buf)@ == got + old(buf)@.subrange(got.len() as int, old(buf)@.len() as int)
                &&& final(self)@ == old(self)@.read(old(buf)@.len())
            }),
    {
        let len = self.data.len();
        if self.pos >= len as u64 {
            assert(buf@ =~= Seq::<u8>::empty() + buf@.subrange(0, buf@.len() as int));
            return Ok(0);
        }
        let start = self.pos as usize;
        let left = len - start;
        let n = if left < buf.len() {
            left
        } else {
            buf.len()
        };
        let ghost got = self@.read_result(buf@.len());
        let mut i: usize = 0;
        while i < n
            invariant
                i <= n,
                n == got.len(),
                n <= buf@.len(),
                start + n <= len,
                len == self.data@.len(),
                got == self.data@.subrange(start as int, start + n),
                buf@.len() == old(buf)@.len(),
                self.data@ == old(self).data@,
                self.pos == old(self).pos,
                forall|k: int| 0 <= k < i ==> buf@[k] == got[k],
                forall|k: int| i <= k < buf@.len() ==> buf@[k] == old(buf)@[k],
            decreases n - i,
        {
            buf[i] = self.data[start + i];
            i += 1;
        }
        self.pos = (start + n) as u64;
        assert(buf@ =~= got + old(buf)@.subrange(got.len() as int, old(buf)@.len() as int));
        Ok(n)
    }

    /// Moves the position to the offset that `to` names and returns it.
    /// Fails, changing nothing, where that offset is negative or above
    /// `u64::MAX`. The position may be put beyond the end of the content.
    pub fn seek(&mut self, to: SeekFrom) -> (r: Result<u64, Error>)
        ensures
            r == old(self)@.seek_result(to),
            final(self)@ == old(self)@.seek(to),
    {
        let target = match to {
            SeekFrom::Start(n) => Some(n),
            SeekFrom::End(d) => offset_by(self.data.len() as u64, d),
            SeekFrom::Current(d) => offset_by(self.pos, d),
        };
        match target {
            Some(n) => {
                self.pos = n;
                Ok(n)
            },
            None => Err(Error::IoError(Fault::InvalidSeek)),
        }
    }

    /// Appends to `to` all bytes from the position to the end of the content
    /// and moves the position behind them. Returns how many there were.
    pub fn read_to_end(&mut self, to: &mut Vec<u8>) -> (r: Result<usize, Error>)
        ensures
            old(self)@.rest().len() <= usize::MAX,
            r == Ok::<usize, Error>(old(self)@.rest().len() as usize),
            final(to)@ == old(to)@ + old(self)@.rest(),
            final(self)@ == old(self)@.read(old(self)@.content.len()),
    {
        let len = self.data.len();
        if self.pos >= len as u64 {
            assert(to@ =~= old(to)@ + Seq::<u8>::empty());
            return Ok(0);
        }
        let start = self.pos as usize;
        let ghost got = self.data@.subrange(start as int, len as int);
        let mut i: usize = start;
        while i < len
            invariant
                start <= i <= len,
                len == self.data@.len(),
                self.data@ == old(self).data@,
                self.pos == old(self).pos,
                got == self.data@.subrange(start as int, len as int),
                to@ == old(to)@ + got.subrange(0, i - start),
            decreases len - i,
        {
            to.push(self.data[i]);
            i += 1;
            assert(to@ =~= old(to)@ + got.subrange(0, i - start));
        }
        assert(got.subrange(0, len - start) =~= got);
        self.pos = len as u64;
        Ok(len - start)
    }
}

} // verus!
