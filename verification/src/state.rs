//! The model of one transfer: what its state is, what each operation makes
//! of it, and what holds of every sequence of operations.

use vstd::prelude::*;
use crate::buffer::written;
use crate::buffer::BufferView;
use crate::buffer::SeekFrom;
use crate::error::Error;
use crate::error::Fault;

verus! {

/// What a transfer is at one moment: its label, the size its source declared
/// (zero while unknown), the bytes written into the sink so far, whether it
/// was canceled, and the sink.
pub struct TransferState<S> {
    pub name: Seq<char>,
    pub total: u64,
    pub transferred: u64,
    pub canceled: bool,
    pub sink: S,
}

impl<S> TransferState<S> {
    /// A transfer as it begins: nothing declared, nothing written, not
    /// canceled.
    pub open spec fn created(name: Seq<char>, sink: S) -> Self {
        TransferState { name, total: 0, transferred: 0, canceled: false, sink }
    }

    /// The state with the declared size set to `total`.
    pub open spec fn with_total(self, total: u64) -> Self {
        TransferState { total, ..self }
    }

    /// The state after cancellation.
    pub open spec fn cancel(self) -> Self {
        TransferState { canceled: true, ..self }
    }
}

impl TransferState<BufferView> {
    /// Whether neither the sink nor the byte count would overflow by taking
    /// `bytes`.
    pub open spec fn has_room(self, bytes: Seq<u8>) -> bool {
        &&& self.sink.has_room(bytes)
        &&& self.transferred + bytes.len() <= u64::MAX
    }

    /// Whether a write of `bytes` goes through to the sink.
    pub open spec fn accepts(self, bytes: Seq<u8>) -> bool {
        !self.canceled && self.has_room(bytes)
    }

    /// What a write of `bytes` returns.
    pub open spec fn write_result(self, bytes: Seq<u8>) -> Result<usize, Error> {
        if self.canceled {
            Err(Error::Canceled)
        } else if !self.has_room(bytes) {
            Err(Error::IoError(Fault::TooLarge))
        } else {
            Ok(bytes.len() as usize)
        }
    }

    /// The state after a write of `bytes`: unchanged where the write is
    /// refused; else the bytes are in the sink and counted.
    pub open spec fn write(self, bytes: Seq<u8>) -> Self {
        if self.accepts(bytes) {
            TransferState {
                transferred: (self.transferred + bytes.len()) as u64,
                sink: self.sink.write(bytes),
                ..self
            }
        } else {
            self
        }
    }

    /// The state after a read into `room` bytes of space: only the sink's
    /// position moves.
    pub open spec fn read(self, room: nat) -> Self {
        TransferState { sink: self.sink.read(room), ..self }
    }

    /// The state after a seek to `to`: only the sink's position moves.
    pub open spec fn seek(self, to: SeekFrom) -> Self {
        TransferState { sink: self.sink.seek(to), ..self }
    }
}

/// One thing that a holder of a transfer can do to it.
pub enum Operation {
    SetTotal(u64),
    Cancel,
    Write(Seq<u8>),
    Read(nat),
    Seek(SeekFrom),
}

/// The bytes of `chunks`, one chunk after the other.
pub open spec fn concat(chunks: Seq<Seq<u8>>) -> Seq<u8>
    decreases chunks.len(),
{
    if chunks.len() == 0 {
        Seq::empty()
    } else {
        concat(chunks.drop_last()) + chunks.last()
    }
}

/// The sum of the lengths of `chunks`.
pub open spec fn byte_count(chunks: Seq<Seq<u8>>) -> nat
    decreases chunks.len(),
{
    if chunks.len() == 0 {
        0
    } else {
        byte_count(chunks.drop_last()) + chunks.last().len()
    }
}

impl TransferState<BufferView> {
    /// The state after one operation.
    pub open spec fn apply(self, op: Operation) -> Self {
        match op {
            Operation::SetTotal(total) => self.with_total(total),
            Operation::Cancel => self.cancel(),
            Operation::Write(bytes) => self.write(bytes),
            Operation::Read(room) => self.read(room),
            Operation::Seek(to) => self.seek(to),
        }
    }

    /// The state after `ops`, carried out in order.
    pub open spec fn apply_all(self, ops: Seq<Operation>) -> Self
        decreases ops.len(),
    {
        if ops.len() == 0 {
            self
        } else {
            self.apply_all(ops.drop_last()).apply(ops.last())
        }
    }

    /// The state after writing `chunks` in order.
    pub open spec fn write_all(self, chunks: Seq<Seq<u8>>) -> Self
        decreases chunks.len(),
    {
        if chunks.len() == 0 {
            self
        } else {
            self.write_all(chunks.drop_last()).write(chunks.last())
        }
    }

    /// Whether each of `chunks`, written in order, goes through to the sink.
    pub open spec fn accepts_all(self, chunks: Seq<Seq<u8>>) -> bool
        decreases chunks.len(),
    {
        chunks.len() == 0 || (self.accepts_all(chunks.drop_last()) && self.write_all(
            chunks.drop_last(),
        ).accepts(chunks.last()))
    }

    /// Whether the next write appends: the position is the end of the
    /// content.
    pub open spec fn at_end(self) -> bool {
        self.sink.position == self.sink.content.len()
    }
}

/// The length of the chunks put together is the sum of their lengths.
pub proof fn lemma_concat_len(chunks: Seq<Seq<u8>>)
    ensures
        concat(chunks).len() == byte_count(chunks),
    decreases chunks.len(),
{
    if chunks.len() > 0 {
        lemma_concat_len(chunks.drop_last());
    }
}

/// Whatever is done to a transfer, its label stays and its count of
/// transferred bytes does not go down.
pub proof fn law_transferred_never_decreases(s: TransferState<BufferView>, ops: Seq<Operation>)
    ensures
        s.apply_all(ops).name == s.name,
        s.apply_all(ops).transferred >= s.transferred,
    decreases ops.len(),
{
    if ops.len() > 0 {
        law_transferred_never_decreases(s, ops.drop_last());
    }
}

/// Successful writes add up: after them the count of transferred bytes has
/// grown by the sum of the lengths written. Where the writes append, the
/// content has grown by the bytes written, in order, and the position is
/// again at its end.
pub proof fn law_writes_add_up(s: TransferState<BufferView>, chunks: Seq<Seq<u8>>)
    requires
        s.accepts_all(chunks),
    ensures
        s.write_all(chunks).transferred == s.transferred + byte_count(chunks),
        s.at_end() ==> s.write_all(chunks).at_end() && s.write_all(chunks).sink.content
            == s.sink.content + concat(chunks),
    decreases chunks.len(),
{
    if chunks.len() > 0 {
        let before = s.write_all(chunks.drop_last());
        law_writes_add_up(s, chunks.drop_last());
        if s.at_end() {
            assert(written(before.sink.content, before.sink.position, chunks.last())
                =~= before.sink.content + chunks.last());
            assert(s.sink.content + concat(chunks.drop_last()) + chunks.last() =~= s.sink.content
                + concat(chunks));
        }
    } else {
        assert(s.sink.content + concat(chunks) =~= s.sink.content);
    }
}

/// A transfer that starts over an empty sink and sees only successful writes
/// has transferred exactly the bytes written, and these are what the sink
/// holds: rewound and read back in full, it yields as many bytes as were
/// counted.
pub proof fn law_transferred_is_what_the_sink_holds(
    name: Seq<char>,
    chunks: Seq<Seq<u8>>,
    room: nat,
)
    requires
        TransferState::created(name, BufferView { content: Seq::empty(), position: 0 }).accepts_all(
            chunks,
        ),
        room >= byte_count(chunks),
    ensures
        ({
            let start = TransferState::created(
                name,
                BufferView { content: Seq::empty(), position: 0 },
            );
            let end = start.write_all(chunks);
            let rewound = end.seek(SeekFrom::Start(0));
            &&& end.transferred == byte_count(chunks)
            &&& end.sink.content == concat(chunks)
            &&& end.sink.seek_result(SeekFrom::Start(0)) == Ok::<u64, Error>(0)
            &&& rewound.sink.read_result(room) == concat(chunks)
            &&& rewound.sink.read_result(room).len() == end.transferred
        }),
{
    let start = TransferState::created(name, BufferView { content: Seq::<u8>::empty(), position: 0 });
    let end = start.write_all(chunks);
    law_writes_add_up(start, chunks);
    lemma_concat_len(chunks);
    assert(Seq::<u8>::empty() + concat(chunks) =~= concat(chunks));
    let rewound = end.seek(SeekFrom::Start(0));
    assert(rewound.sink.read_result(room) =~= concat(chunks));
}

/// Cancellation is final: after it the transfer stays canceled whatever is
/// done to it, every write fails with `Canceled` and changes nothing, and
/// neither the count of transferred bytes nor the content of the sink moves
/// from where it stood. Canceling again changes nothing.
pub proof fn law_cancel_is_final(s: TransferState<BufferView>, ops: Seq<Operation>, bytes: Seq<u8>)
    ensures
        s.cancel().apply_all(ops).canceled,
        s.cancel().apply_all(ops).transferred == s.transferred,
        s.cancel().apply_all(ops).sink.content == s.sink.content,
        s.cancel().apply_all(ops).write_result(bytes) == Err::<usize, Error>(Error::Canceled),
        s.cancel().apply_all(ops).write(bytes) == s.cancel().apply_all(ops),
        s.cancel().cancel() == s.cancel(),
    decreases ops.len(),
{
    if ops.len() > 0 {
        law_cancel_is_final(s, ops.drop_last(), bytes);
    }
}

/// The declared size changes only by being set: once set, it stays through
/// operations none of which sets it, and a later setting replaces it.
pub proof fn law_total_changes_only_when_set(
    s: TransferState<BufferView>,
    total: u64,
    ops: Seq<Operation>,
    later: u64,
)
    requires
        forall|i: int| 0 <= i < ops.len() ==> !(#[trigger] ops[i] is SetTotal),
    ensures
        s.apply_all(ops).total == s.total,
        s.with_total(total).apply_all(ops).total == total,
        s.with_total(total).apply_all(ops).with_total(later).total == later,
    decreases ops.len(),
{
    if ops.len() > 0 {
        law_total_changes_only_when_set(s, total, ops.drop_last(), later);
    }
}

} // verus!
