//! Committing a finished transfer: the file name that collides with nothing
//! already stored, and the lock that lets one finalization run at a time.

use vstd::prelude::*;
use vstd::rwlock::RwLock;
use vstd::rwlock::RwLockPredicate;
use vstd::rwlock::WriteHandle;
use vstd::string::*;
use crate::buffer::Buffer;
use crate::buffer::BufferView;
use crate::buffer::SeekFrom;
use crate::progress::Progress;
use crate::progress::ProgressInner;
use crate::state::TransferState;

verus! {

/// The character that writes the decimal digit `d`.
pub open spec fn digit_char(d: nat) -> char {
    if d == 0 {
        '0'
    } else if d == 1 {
        '1'
    } else if d == 2 {
        '2'
    } else if d == 3 {
        '3'
    } else if d == 4 {
        '4'
    } else if d == 5 {
        '5'
    } else if d == 6 {
        '6'
    } else if d == 7 {
        '7'
    } else if d == 8 {
        '8'
    } else {
        '9'
    }
}

/// The decimal numeral of `n`: most significant digit first, no leading zero
/// except for zero itself.
pub open spec fn decimal(n: nat) -> Seq<char>
    decreases n,
{
    if n < 10 {
        seq![digit_char(n)]
    } else {
        decimal(n / 10).push(digit_char(n % 10))
    }
}

/// The collision counter as it appears in a file name: nothing for the first
/// candidate, the counter in parentheses for every later one.
pub open spec fn count_part(count: nat) -> Seq<char> {
    if count >= 1 {
        seq!['('] + decimal(count) + seq![')']
    } else {
        Seq::empty()
    }
}

/// The extension as it appears in a file name: a dot and the extension, or
/// nothing at all where the extension is empty.
pub open spec fn ext_part(ext: Seq<char>) -> Seq<char> {
    if ext.len() == 0 {
        Seq::empty()
    } else {
        seq!['.'] + ext
    }
}

/// The `count`-th candidate file name for a base name and an extension.
pub open spec fn file_name(name: Seq<char>, count: nat, ext: Seq<char>) -> Seq<char> {
    name + count_part(count) + ext_part(ext)
}

/// The digit that a character writes; zero for a character that writes none.
spec fn digit_value(c: char) -> nat {
    if c == '1' {
        1
    } else if c == '2' {
        2
    } else if c == '3' {
        3
    } else if c == '4' {
        4
    } else if c == '5' {
        5
    } else if c == '6' {
        6
    } else if c == '7' {
        7
    } else if c == '8' {
        8
    } else if c == '9' {
        9
    } else {
        0
    }
}

/// The number that a decimal numeral writes.
spec fn numeral_value(s: Seq<char>) -> nat
    decreases s.len(),
{
    if s.len() == 0 {
        0
    } else {
        numeral_value(s.drop_last()) * 10 + digit_value(s.last())
    }
}

/// Whether some stored name equals the `k`-th candidate.
pub open spec fn taken(existing: Seq<Seq<char>>, name: Seq<char>, ext: Seq<char>, k: nat) -> bool {
    existing.contains(file_name(name, k, ext))
}

/// Whether `k` is the first counter whose candidate is not stored yet.
pub open spec fn is_fresh_index(
    existing: Seq<Seq<char>>,
    name: Seq<char>,
    ext: Seq<char>,
    k: nat,
) -> bool {
    &&& !taken(existing, name, ext, k)
    &&& forall|j: nat| j < k ==> taken(existing, name, ext, j)
}

/// The first counter whose candidate is not stored yet.
pub open spec fn fresh_index(existing: Seq<Seq<char>>, name: Seq<char>, ext: Seq<char>) -> nat {
    choose|k: nat| is_fresh_index(existing, name, ext, k)
}

/// The fresh name: the first of the candidates `name.ext`, `name(1).ext`,
/// `name(2).ext`, ... that is not stored yet.
pub open spec fn fresh_file_name(
    existing: Seq<Seq<char>>,
    name: Seq<char>,
    ext: Seq<char>,
) -> Seq<char> {
    file_name(name, fresh_index(existing, name, ext), ext)
}

/// The candidates with a counter below `k`.
spec fn candidates(name: Seq<char>, ext: Seq<char>, k: nat) -> Set<Seq<char>>
    decreases k,
{
    if k == 0 {
        Set::empty()
    } else {
        candidates(name, ext, (k - 1) as nat).insert(file_name(name, (k - 1) as nat, ext))
    }
}

/// Reading a numeral back gives the number it was written for, and no
/// numeral is empty.
proof fn lemma_decimal_value(n: nat)
    ensures
        numeral_value(decimal(n)) == n,
        decimal(n).len() >= 1,
    decreases n,
{
    let s = decimal(n);
    if n < 10 {
        assert(s.drop_last().len() == 0);
        assert(s.last() == digit_char(n));
        assert(numeral_value(s.drop_last()) == 0);
    } else {
        lemma_decimal_value(n / 10);
        assert(s.drop_last() =~= decimal(n / 10));
        assert(s.last() == digit_char(n % 10));
    }
}

/// Candidates with different counters are different names.
pub proof fn law_candidates_differ(name: Seq<char>, ext: Seq<char>, i: nat, j: nat)
    requires
        file_name(name, i, ext) == file_name(name, j, ext),
    ensures
        i == j,
{
    let a = count_part(i);
    let b = count_part(j);
    let e = ext_part(ext);
    let x = file_name(name, i, ext);
    let y = file_name(name, j, ext);
    assert(x.len() == name.len() + a.len() + e.len());
    assert(y.len() == name.len() + b.len() + e.len());
    assert(a.len() == b.len());
    assert forall|t: int| 0 <= t < a.len() implies a[t] == b[t] by {
        assert(x[name.len() + t] == a[t]);
        assert(y[name.len() + t] == b[t]);
    }
    assert(a =~= b);
    lemma_decimal_value(i);
    lemma_decimal_value(j);
    if i >= 1 && j >= 1 {
        assert(a.subrange(1, a.len() - 1) =~= decimal(i));
        assert(b.subrange(1, b.len() - 1) =~= decimal(j));
    }
}

proof fn lemma_candidates(existing: Seq<Seq<char>>, name: Seq<char>, ext: Seq<char>, k: nat)
    requires
        forall|j: nat| j < k ==> taken(existing, name, ext, j),
    ensures
        candidates(name, ext, k).finite(),
        candidates(name, ext, k).len() == k,
        candidates(name, ext, k).subset_of(existing.to_set()),
        forall|s: Seq<char>| #[trigger]
            candidates(name, ext, k).contains(s) ==> exists|j: nat|
                j < k && s == file_name(name, j, ext),
    decreases k,
{
    if k > 0 {
        let p = (k - 1) as nat;
        lemma_candidates(existing, name, ext, p);
        let rest = candidates(name, ext, p);
        let last = file_name(name, p, ext);
        if rest.contains(last) {
            let j = choose|j: nat| j < p && last == file_name(name, j, ext);
            law_candidates_differ(name, ext, p, j);
        }
        assert(taken(existing, name, ext, p));
        assert(existing.to_set().contains(last));
        assert forall|s: Seq<char>| #[trigger]
            candidates(name, ext, k).contains(s) implies exists|j: nat|
            j < k && s == file_name(name, j, ext) by {
            if s == last {
                assert(p < k && s == file_name(name, p, ext));
            } else {
                assert(rest.contains(s));
                let j = choose|j: nat| j < p && s == file_name(name, j, ext);
                assert(j < k && s == file_name(name, j, ext));
            }
        }
    }
}

/// No more candidates in a row can be stored than there are stored names.
proof fn lemma_taken_run_is_bounded(
    existing: Seq<Seq<char>>,
    name: Seq<char>,
    ext: Seq<char>,
    k: nat,
)
    requires
        forall|j: nat| j < k ==> taken(existing, name, ext, j),
    ensures
        k <= existing.len(),
{
    lemma_candidates(existing, name, ext, k);
    existing.lemma_cardinality_of_set();
    vstd::seq_lib::seq_to_set_is_finite(existing);
    vstd::set_lib::lemma_len_subset(candidates(name, ext, k), existing.to_set());
}

proof fn lemma_fresh_index_from(existing: Seq<Seq<char>>, name: Seq<char>, ext: Seq<char>, k: nat)
    requires
        forall|j: nat| j < k ==> taken(existing, name, ext, j),
    ensures
        exists|f: nat| f <= existing.len() && is_fresh_index(existing, name, ext, f),
    decreases existing.len() - k,
{
    lemma_taken_run_is_bounded(existing, name, ext, k);
    if taken(existing, name, ext, k) {
        lemma_taken_run_is_bounded(existing, name, ext, k + 1);
        lemma_fresh_index_from(existing, name, ext, k + 1);
    } else {
        assert(is_fresh_index(existing, name, ext, k));
    }
}

/// Whatever names are stored, one candidate is fresh: the first free counter
/// exists, is at most the number of stored names, and is the only counter
/// that is free while all below it are taken. The fresh name is not stored.
pub proof fn law_fresh_name_exists(
    existing: Seq<Seq<char>>,
    name: Seq<char>,
    ext: Seq<char>,
    k: nat,
)
    ensures
        is_fresh_index(existing, name, ext, fresh_index(existing, name, ext)),
        fresh_index(existing, name, ext) <= existing.len(),
        is_fresh_index(existing, name, ext, k) ==> k == fresh_index(existing, name, ext),
        !existing.contains(fresh_file_name(existing, name, ext)),
{
    lemma_fresh_index_from(existing, name, ext, 0);
}

/// Finalizations that run one after the other never choose the same name:
/// the name chosen first is stored when the second is chosen, and a fresh
/// name is none of the stored ones, whatever base names and extensions the
/// two have.
pub proof fn law_later_name_differs(
    existing: Seq<Seq<char>>,
    name1: Seq<char>,
    ext1: Seq<char>,
    later: Seq<Seq<char>>,
    name2: Seq<char>,
    ext2: Seq<char>,
)
    requires
        later.contains(fresh_file_name(existing, name1, ext1)),
    ensures
        fresh_file_name(existing, name1, ext1) != fresh_file_name(later, name2, ext2),
{
    law_fresh_name_exists(later, name2, ext2, 0);
}

fn is_taken(existing: &Vec<String>, candidate: &String) -> (r: bool)
    ensures
        r == existing.deep_view().contains(candidate@),
{
    let mut j: usize = 0;
    while j < existing.len()
        invariant
            j <= existing.len(),
            forall|t: int| 0 <= t < j ==> existing.deep_view()[t] != candidate@,
        decreases existing.len() - j,
    {
        if existing[j] == *candidate {
            assert(existing.deep_view()[j as int] == candidate@);
            return true;
        }
        j += 1;
    }
    false
}

fn digit_str(d: u64) -> (s: &'static str)
    requires
        d < 10,
    ensures
        s@ == seq![digit_char(d as nat)],
{
    proof {
        reveal_strlit("0");
        reveal_strlit("1");
        reveal_strlit("2");
        reveal_strlit("3");
        reveal_strlit("4");
        reveal_strlit("5");
        reveal_strlit("6");
        reveal_strlit("7");
        reveal_strlit("8");
        reveal_strlit("9");
    }
    let s = if d == 0 {
        "0"
    } else if d == 1 {
        "1"
    } else if d == 2 {
        "2"
    } else if d == 3 {
        "3"
    } else if d == 4 {
        "4"
    } else if d == 5 {
        "5"
    } else if d == 6 {
        "6"
    } else if d == 7 {
        "7"
    } else if d == 8 {
        "8"
    } else {
        "9"
    };
    assert(s@ =~= seq![digit_char(d as nat)]);
    s
}

fn push_decimal(s: &mut String, n: u64)
    ensures
        final(s)@ == old(s)@ + decimal(n as nat),
    decreases n,
{
    if n >= 10 {
        push_decimal(s, n / 10);
    }
    s.append(digit_str(n % 10));
    assert(s@ =~= old(s)@ + decimal(n as nat));
}

/// What the lock of a `LockCopy` guards: nothing in memory. It is held for
/// the time in which a name is chosen and the file of that name is written.
pub struct Unit;

impl RwLockPredicate<()> for Unit {
    open spec fn inv(self, v: ()) -> bool {
        true
    }
}

/// Commits finished transfers to one directory, one at a time.
pub struct LockCopy {
    mutex: RwLock<(), Unit>,
    path: String,
}

impl LockCopy {
    /// The directory that files are stored in.
    pub closed spec fn path(&self) -> Seq<char> {
        self.path@
    }

    /// A committer for the directory `path`.
    pub fn new(path: &str) -> (r: Self)
        ensures
            r.path() == path@,
    {
        LockCopy { mutex: RwLock::new((), Ghost(Unit)), path: path.to_owned() }
    }

    /// The directory that files are stored in.
    pub fn get_path(&self) -> (r: &String)
        ensures
            r@ == self.path(),
    {
        &self.path
    }

    /// Waits until no other finalization into this directory is under way
    /// and takes the lock. The lock is held until `release_write` is called
    /// on the handle returned; the names stored in the directory are to be
    /// read, and the chosen file written, in between.
    pub fn lock(&self) -> (r: WriteHandle<'_, (), Unit>)
        ensures
            r.rwlock() == self.gate(),
    {
        let (_, guard) = self.mutex.acquire_write();
        guard
    }

    /// The lock that finalizations into this directory take in turn.
    pub closed spec fn gate(&self) -> RwLock<(), Unit> {
        self.mutex
    }

    /// The name of the `count`-th candidate: `name`, then the counter in
    /// parentheses unless it is zero, then a dot and `ext` unless `ext` is
    /// empty.
    pub fn build_name(name: &str, count: u64, ext: &str) -> (r: String)
        ensures
            r@ == file_name(name@, count as nat, ext@),
    {
        proof {
            reveal_strlit("(");
            reveal_strlit(")");
            reveal_strlit(".");
        }
        let mut s = String::from_str(name);
        if count >= 1 {
            s.append("(");
            push_decimal(&mut s, count);
            s.append(")");
        }
        if !ext.is_empty() {
            s.append(".");
            s.append(ext);
        }
        assert(s@ =~= file_name(name@, count as nat, ext@));
        s
    }

    /// The first candidate among `name.ext`, `name(1).ext`, `name(2).ext`, ...
    /// that `existing`, the names already stored, does not hold. The search
    /// starts at the plain name on every call.
    pub fn fresh_name(existing: &Vec<String>, name: &str, ext: &str) -> (r: String)
        ensures
            r@ == fresh_file_name(existing.deep_view(), name@, ext@),
    {
        let ghost stored = existing.deep_view();
        let mut i: u64 = 0;
        loop
            invariant
                i <= existing.len(),
                stored == existing.deep_view(),
                forall|j: nat| j < i ==> taken(stored, name@, ext@, j),
            decreases existing.len() - i,
        {
            let candidate = Self::build_name(name, i, ext);
            if !is_taken(existing, &candidate) {
                proof {
                    law_fresh_name_exists(stored, name@, ext@, i as nat);
                }
                return candidate;
            }
            proof {
                lemma_taken_run_is_bounded(stored, name@, ext@, (i + 1) as nat);
            }
            i += 1;
        }
    }

    /// Puts the sink's position back to its first byte and appends all that
    /// the sink holds to `to`. Returns the number of bytes copied. The
    /// counters of the transfer stay as they are; the position ends behind
    /// the last byte.
    pub fn rewind_and_copy(from: &mut ProgressInner<Buffer>, to: &mut Vec<u8>) -> (r: u64)
        ensures
            r == old(from)@.sink.content.len(),
            final(to)@ == old(to)@ + old(from)@.sink.content,
            final(from)@ == (TransferState {
                sink: BufferView {
                    content: old(from)@.sink.content,
                    position: old(from)@.sink.content.len(),
                },
                ..old(from)@
            }),
    {
        let _ = from.seek(SeekFrom::Start(0));
        let ghost content = from@.sink.content;
        assert(from@.sink.rest() =~= content);
        match from.read_to_end(to) {
            Ok(n) => n as u64,
            Err(_) => 0,
        }
    }

    /// What is to be stored for a finished transfer: the fresh file name for
    /// `name` and `ext` among the names `existing`, and all that the
    /// transfer's sink holds, read from its first byte. To be called with the
    /// lock held.
    pub fn copy(&self, from: &Progress<Buffer>, existing: &Vec<String>, name: &str, ext: &str) -> (r:
        (String, Vec<u8>))
        ensures
            r.0@ == fresh_file_name(existing.deep_view(), name@, ext@),
    {
        let fresh = Self::fresh_name(existing, name, ext);
        let mut to: Vec<u8> = Vec::new();
        let (mut state, guard) = from.lock();
        Self::rewind_and_copy(&mut state, &mut to);
        guard.release_write(state);
        (fresh, to)
    }
}

} // verus!
