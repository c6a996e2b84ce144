//! What one transfer does with a response: it is registered for as long as
//! it runs, a response outside the success range ends it, and a declared
//! length becomes its expected size before the body is streamed.

use vstd::prelude::*;
use crate::buffer::Buffer;
use crate::buffer::BufferView;
use crate::error::Error;
use crate::progress::Progress;
use crate::progress::ProgressInner;
use crate::state::byte_count;
use crate::state::concat;
use crate::state::law_transferred_is_what_the_sink_holds;
use crate::state::TransferState;
use crate::table::AddDrop;
use crate::table::Table;

verus! {

/// The head of a response as the fetch returned it: the status code, a text
/// that describes the response, and the value of the content-length header
/// where the response has one.
pub struct Response {
    pub status: u16,
    pub description: String,
    pub content_length: Option<Vec<u8>>,
}

/// Whether a status code lies in the success range.
pub open spec fn is_success(status: u16) -> bool {
    200 <= status < 300
}

/// Whether `s` is made of ASCII digits, at least one.
pub open spec fn is_digits(s: Seq<u8>) -> bool {
    s.len() > 0 && forall|i: int| 0 <= i < s.len() ==> 0x30 <= #[trigger] s[i] <= 0x39
}

/// The number that a sequence of ASCII digits writes.
pub open spec fn digits_value(s: Seq<u8>) -> nat
    decreases s.len(),
{
    if s.len() == 0 {
        0
    } else {
        digits_value(s.drop_last()) * 10 + (s.last() - 0x30) as nat
    }
}

/// The header value without the plus sign that may stand in front.
pub open spec fn unsigned_part(raw: Seq<u8>) -> Seq<u8> {
    if raw.len() > 0 && raw[0] == 0x2b {
        raw.drop_first()
    } else {
        raw
    }
}

/// The length that a content-length header value declares: the number it
/// writes in decimal, where it is made of digits, with or without a plus
/// sign in front, and the number fits in 64 bits. Any other value declares
/// nothing.
pub open spec fn declared_length(raw: Seq<u8>) -> Option<u64> {
    let digits = unsigned_part(raw);
    if is_digits(digits) && digits_value(digits) <= u64::MAX {
        Some(digits_value(digits) as u64)
    } else {
        None
    }
}

/// The length that a response declares, if it declares one.
pub open spec fn response_length(res: Response) -> Option<u64> {
    match res.content_length {
        Some(raw) => declared_length(raw@),
        None => None,
    }
}

/// What a response means for the transfer: it goes on, or it fails with the
/// description of the response.
pub open spec fn response_result(res: Response) -> Result<(), Error> {
    if is_success(res.status) {
        Ok(())
    } else {
        Err(Error::NonSuccessStatusError(res.description))
    }
}

/// The state of a transfer after it has seen the head of a response: a
/// successful response that declares a length sets the expected size; any
/// other changes nothing.
pub open spec fn after_response<S>(s: TransferState<S>, res: Response) -> TransferState<S> {
    if is_success(res.status) && response_length(res) is Some {
        s.with_total(response_length(res)->Some_0)
    } else {
        s
    }
}

/// The digits read so far never write more than all of them.
proof fn lemma_digits_value_grows(s: Seq<u8>, k: int)
    requires
        0 <= k <= s.len(),
    ensures
        digits_value(s.take(k)) <= digits_value(s),
    decreases s.len() - k,
{
    if k < s.len() {
        lemma_digits_value_grows(s, k + 1);
        assert(s.take(k + 1).drop_last() =~= s.take(k));
        assert(digits_value(s.take(k)) <= digits_value(s.take(k + 1))) by (nonlinear_arith)
            requires
                digits_value(s.take(k + 1)) == digits_value(s.take(k)) * 10 + (s.take(
                    k + 1,
                ).last() - 0x30) as nat,
        ;
    } else {
        assert(s.take(k) =~= s);
    }
}

/// Setting the expected size has no part in what writes do.
proof fn lemma_total_is_apart_from_writes(
    s: TransferState<BufferView>,
    total: u64,
    chunks: Seq<Seq<u8>>,
)
    ensures
        s.with_total(total).accepts_all(chunks) == s.accepts_all(chunks),
        s.with_total(total).write_all(chunks) == s.write_all(chunks).with_total(total),
    decreases chunks.len(),
{
    if chunks.len() > 0 {
        lemma_total_is_apart_from_writes(s, total, chunks.drop_last());
    }
}

/// A transfer whose response succeeds and whose body arrives in chunks that
/// are all written ends with the body in its sink, counted byte for byte;
/// its expected size is the declared length, or zero where none was
/// declared.
pub proof fn law_success_holds_the_body(name: Seq<char>, res: Response, chunks: Seq<Seq<u8>>)
    requires
        is_success(res.status),
        TransferState::created(name, BufferView { content: Seq::empty(), position: 0 }).accepts_all(
            chunks,
        ),
    ensures
        ({
            let start = TransferState::created(
                name,
                BufferView { content: Seq::empty(), position: 0 },
            );
            let end = after_response(start, res).write_all(chunks);
            &&& response_result(res) == Ok::<(), Error>(())
            &&& end.name == name
            &&& end.total == match response_length(res) {
                Some(n) => n,
                None => 0,
            }
            &&& end.transferred == byte_count(chunks)
            &&& end.sink.content == concat(chunks)
            &&& !end.canceled
        }),
{
    let start = TransferState::created(name, BufferView { content: Seq::<u8>::empty(), position: 0 });
    law_transferred_is_what_the_sink_holds(name, chunks, byte_count(chunks));
    if response_length(res) is Some {
        lemma_total_is_apart_from_writes(start, response_length(res)->Some_0, chunks);
    }
    lemma_writes_leave_flags(start, chunks);
}

/// Writes change neither the label, nor the expected size, nor the
/// cancellation flag.
proof fn lemma_writes_leave_flags(s: TransferState<BufferView>, chunks: Seq<Seq<u8>>)
    ensures
        s.write_all(chunks).name == s.name,
        s.write_all(chunks).total == s.total,
        s.write_all(chunks).canceled == s.canceled,
    decreases chunks.len(),
{
    if chunks.len() > 0 {
        lemma_writes_leave_flags(s, chunks.drop_last());
    }
}

/// A response outside the success range fails the transfer with the
/// description of the response and leaves its state untouched, whatever
/// length the response declares.
pub proof fn law_failure_changes_nothing<S>(s: TransferState<S>, res: Response)
    requires
        !is_success(res.status),
    ensures
        response_result(res) == Err::<(), Error>(Error::NonSuccessStatusError(res.description)),
        after_response(s, res) == s,
{
}

fn parse_length(raw: &Vec<u8>) -> (r: Option<u64>)
    ensures
        r == declared_length(raw@),
{
    let n = raw.len();
    let first: usize = if n > 0 && raw[0] == 0x2b {
        1
    } else {
        0
    };
    let ghost digits = unsigned_part(raw@);
    assert(digits =~= raw@.subrange(first as int, n as int));
    if first == n {
        return None;
    }
    let mut value: u64 = 0;
    let mut i: usize = first;
    while i < n
        invariant
            first <= i <= n,
            n == raw@.len(),
            digits == raw@.subrange(first as int, n as int),
            digits == unsigned_part(raw@),
            forall|k: int| 0 <= k < i - first ==> 0x30 <= #[trigger] digits[k] <= 0x39,
            value == digits_value(digits.take(i - first)),
        decreases n - i,
    {
        let byte = raw[i];
        if byte < 0x30 || byte > 0x39 {
            assert(digits[i - first] == byte);
            return None;
        }
        let digit = (byte - 0x30) as u64;
        proof {
            assert(digits.take(i - first + 1).drop_last() =~= digits.take(i - first));
            assert(digits.take(i - first + 1).last() == byte);
            lemma_digits_value_grows(digits, i - first + 1);
        }
        if value > (u64::MAX - digit) / 10 {
            assert(digits_value(digits.take(i - first + 1)) > u64::MAX);
            return None;
        }
        value = value * 10 + digit;
        i += 1;
    }
    assert(digits.take(n - first) =~= digits);
    Some(value)
}

/// The length that the response declares: `None` where it has no
/// content-length header or the header's value is no number.
pub fn content_length(res: &Response) -> (r: Option<u64>)
    ensures
        r == response_length(*res),
{
    match &res.content_length {
        Some(raw) => parse_length(raw),
        None => None,
    }
}

/// Creates the transfer labelled `name` over `buf` and registers it in
/// `table`. The token is to be released when the transfer ends, whether it
/// ends with a stored file or with an error.
pub fn start<'a>(table: &'a Table, buf: Buffer, name: &str) -> (r: (Progress<Buffer>, AddDrop<'a>))
    ensures
        r.0.name() == name@,
        r.1.table() == *table,
{
    let pg = Progress::new(name, buf);
    let token = table.add(pg.clone());
    (pg, token)
}

/// Applies the head of a response to the state of a transfer, before any
/// byte of the body is written.
pub fn accept<T: View>(res: &Response, state: &mut ProgressInner<T>) -> (r: Result<(), Error>)
    ensures
        r == response_result(*res),
        final(state)@ == after_response(old(state)@, *res),
{
    if res.status >= 200 && res.status < 300 {
        match content_length(res) {
            Some(total) => state.set_total(total),
            None => {},
        }
        Ok(())
    } else {
        Err(Error::NonSuccessStatusError(res.description.clone()))
    }
}

/// Applies the head of a response to a transfer, under its lock. On a status
/// outside the success range the transfer fails with the description of the
/// response, and nothing is to be written.
pub fn download(res: &Response, pg: &Progress<Buffer>) -> (r: Result<(), Error>)
    ensures
        r == response_result(*res),
{
    let (mut state, guard) = pg.lock();
    let r = accept(res, &mut state);
    guard.release_write(state);
    r
}

} // verus!
