//! Write-once and conditional-write address spaces, their errors, and the
//! contiguous-tail query they share.

use vstd::prelude::*;

use crate::text::append_str;
use crate::text::append_u64;
use crate::text::decimal;

verus! {

/// Error returned by a tail query.
#[derive(Clone, Debug)]
pub enum TailError {
    BackendUnavailable(String),
}

/// Error returned by write-once address space operations. Each variant but
/// the first carries the rendered text of its source error.
#[derive(Clone, Debug)]
pub enum WriteOnceError {
    AddressAlreadyExists(u64),
    TransactionConflict(String),
    Timeout(String),
    BackendUnavailable(String),
    InternalError(String),
}

/// Error returned by conditional-write address space operations; each
/// variant carries the rendered text of its source error.
#[derive(Clone, Debug)]
pub enum ConditionalWriteError {
    TransactionConflict(String),
    Timeout(String),
    BackendUnavailable(String),
    InternalError(String),
}

/// The display text of a tail error.
pub open spec fn tail_error_text(e: TailError) -> Seq<char> {
    match e {
        TailError::BackendUnavailable(m) => "backend unavailable: "@ + m@,
    }
}

/// The display text of a write-once error (without its source).
pub open spec fn write_once_error_text(e: WriteOnceError) -> Seq<char> {
    match e {
        WriteOnceError::AddressAlreadyExists(a) => "address already exists: "@ + decimal(a as nat),
        WriteOnceError::TransactionConflict(_) => "transaction conflict"@,
        WriteOnceError::Timeout(_) => "timeout"@,
        WriteOnceError::BackendUnavailable(_) => "backend unavailable"@,
        WriteOnceError::InternalError(_) => "internal error"@,
    }
}

/// The display text of a conditional-write error (without its source).
pub open spec fn conditional_write_error_text(e: ConditionalWriteError) -> Seq<char> {
    match e {
        ConditionalWriteError::TransactionConflict(_) => "transaction conflict"@,
        ConditionalWriteError::Timeout(_) => "timeout"@,
        ConditionalWriteError::BackendUnavailable(_) => "backend unavailable"@,
        ConditionalWriteError::InternalError(_) => "internal error"@,
    }
}

impl TailError {
    /// The display text of this error.
    pub fn message(&self) -> (m: String)
        ensures
            m@ == tail_error_text(*self),
    {
        let mut s = String::new();
        match self {
            TailError::BackendUnavailable(detail) => {
                append_str(&mut s, "backend unavailable: ");
                append_str(&mut s, detail.as_str());
            },
        }
        assert(s@ =~= tail_error_text(*self));
        s
    }
}

impl WriteOnceError {
    /// The display text of this error, without its source.
    pub fn display_text(&self) -> (m: String)
        ensures
            m@ == write_once_error_text(*self),
    {
        let mut s = String::new();
        match self {
            WriteOnceError::AddressAlreadyExists(a) => {
                append_str(&mut s, "address already exists: ");
                append_u64(&mut s, *a);
            },
            WriteOnceError::TransactionConflict(_) => append_str(&mut s, "transaction conflict"),
            WriteOnceError::Timeout(_) => append_str(&mut s, "timeout"),
            WriteOnceError::BackendUnavailable(_) => append_str(&mut s, "backend unavailable"),
            WriteOnceError::InternalError(_) => append_str(&mut s, "internal error"),
        }
        assert(s@ =~= write_once_error_text(*self));
        s
    }

    /// The text of the source error, for the variants that carry one.
    pub fn source_message(&self) -> (m: Option<&String>)
        ensures
            match *self {
                WriteOnceError::AddressAlreadyExists(_) => m.is_none(),
                WriteOnceError::TransactionConflict(src) => m == Some(&src),
                WriteOnceError::Timeout(src) => m == Some(&src),
                WriteOnceError::BackendUnavailable(src) => m == Some(&src),
                WriteOnceError::InternalError(src) => m == Some(&src),
            },
    {
        match self {
            WriteOnceError::AddressAlreadyExists(_) => None,
            WriteOnceError::TransactionConflict(src) => Some(src),
            WriteOnceError::Timeout(src) => Some(src),
            WriteOnceError::BackendUnavailable(src) => Some(src),
            WriteOnceError::InternalError(src) => Some(src),
        }
    }
}

impl ConditionalWriteError {
    /// The display text of this error, without its source.
    pub fn display_text(&self) -> (m: String)
        ensures
            m@ == conditional_write_error_text(*self),
    {
        let mut s = String::new();
        match self {
            ConditionalWriteError::TransactionConflict(_) => append_str(&mut s, "transaction conflict"),
            ConditionalWriteError::Timeout(_) => append_str(&mut s, "timeout"),
            ConditionalWriteError::BackendUnavailable(_) => append_str(&mut s, "backend unavailable"),
            ConditionalWriteError::InternalError(_) => append_str(&mut s, "internal error"),
        }
        assert(s@ =~= conditional_write_error_text(*self));
        s
    }

    /// The text of the source error.
    pub fn source_message(&self) -> (m: &String)
        ensures
            match *self {
                ConditionalWriteError::TransactionConflict(src) => *m == src,
                ConditionalWriteError::Timeout(src) => *m == src,
                ConditionalWriteError::BackendUnavailable(src) => *m == src,
                ConditionalWriteError::InternalError(src) => *m == src,
            },
    {
        match self {
            ConditionalWriteError::TransactionConflict(src) => src,
            ConditionalWriteError::Timeout(src) => src,
            ConditionalWriteError::BackendUnavailable(src) => src,
            ConditionalWriteError::InternalError(src) => src,
        }
    }
}

/// The stable code naming a tail error's category.
pub fn tail_error_code(err: &TailError) -> (code: &'static str)
    ensures
        code@ == "BackendUnavailable"@,
{
    match err {
        TailError::BackendUnavailable(_) => "BackendUnavailable",
    }
}

/// The stable code naming a write-once error's category.
pub fn write_once_error_code(err: &WriteOnceError) -> (code: &'static str)
    ensures
        code@ == match *err {
            WriteOnceError::AddressAlreadyExists(_) => "AddressAlreadyExists"@,
            WriteOnceError::TransactionConflict(_) => "TransactionConflict"@,
            WriteOnceError::Timeout(_) => "Timeout"@,
            WriteOnceError::BackendUnavailable(_) => "BackendUnavailable"@,
            WriteOnceError::InternalError(_) => "InternalError"@,
        },
{
    match err {
        WriteOnceError::AddressAlreadyExists(_) => "AddressAlreadyExists",
        WriteOnceError::TransactionConflict(_) => "TransactionConflict",
        WriteOnceError::Timeout(_) => "Timeout",
        WriteOnceError::BackendUnavailable(_) => "BackendUnavailable",
        WriteOnceError::InternalError(_) => "InternalError",
    }
}

/// The full message of a write-once error: its display text, followed for
/// the variants with a source by `": "` and the source's text.
pub open spec fn write_once_error_full_text(e: WriteOnceError) -> Seq<char> {
    match e {
        WriteOnceError::AddressAlreadyExists(_) => write_once_error_text(e),
        WriteOnceError::TransactionConflict(src) => write_once_error_text(e) + ": "@ + src@,
        WriteOnceError::Timeout(src) => write_once_error_text(e) + ": "@ + src@,
        WriteOnceError::BackendUnavailable(src) => write_once_error_text(e) + ": "@ + src@,
        WriteOnceError::InternalError(src) => write_once_error_text(e) + ": "@ + src@,
    }
}

/// The full message of a write-once error, with its source.
pub fn write_once_error_message(error: &WriteOnceError) -> (m: String)
    ensures
        m@ == write_once_error_full_text(*error),
{
    let mut s = error.display_text();
    match error {
        WriteOnceError::AddressAlreadyExists(_) => {},
        WriteOnceError::TransactionConflict(src)
        | WriteOnceError::Timeout(src)
        | WriteOnceError::BackendUnavailable(src)
        | WriteOnceError::InternalError(src) => {
            append_str(&mut s, ": ");
            append_str(&mut s, src.as_str());
        },
    }
    assert(s@ =~= write_once_error_full_text(*error));
    s
}

/// Carry a conditional-write error over to the write-once error of the same
/// category, keeping its source.
pub fn map_conditional_write_error(error: ConditionalWriteError) -> (e: WriteOnceError)
    ensures
        e == match error {
            ConditionalWriteError::TransactionConflict(src) => WriteOnceError::TransactionConflict(src),
            ConditionalWriteError::Timeout(src) => WriteOnceError::Timeout(src),
            ConditionalWriteError::BackendUnavailable(src) => WriteOnceError::BackendUnavailable(src),
            ConditionalWriteError::InternalError(src) => WriteOnceError::InternalError(src),
        },
{
    match error {
        ConditionalWriteError::TransactionConflict(source) => WriteOnceError::TransactionConflict(source),
        ConditionalWriteError::Timeout(source) => WriteOnceError::Timeout(source),
        ConditionalWriteError::BackendUnavailable(source) => WriteOnceError::BackendUnavailable(source),
        ConditionalWriteError::InternalError(source) => WriteOnceError::InternalError(source),
    }
}

/// `m` is the largest member of `written`.
pub open spec fn is_max_address(written: Set<u64>, m: u64) -> bool {
    written.contains(m) && forall|x: u64| #[trigger] written.contains(x) ==> x <= m
}

/// `t` is the contiguous tail of `written` within a window: zero for an
/// empty space; otherwise, with `end` one past the largest written address
/// and `start` the window's first address, every address in `[start, t)` is
/// written and `t` is `end` or the first unwritten address after `start`.
pub open spec fn is_contiguous_tail(written: Set<u64>, window_size: u64, t: u64) -> bool {
    if written.is_empty() {
        t == 0
    } else {
        exists|m: u64|
            #[trigger] is_max_address(written, m) && m < u64::MAX && {
                let end = m + 1;
                let start = if end >= window_size { end - window_size } else { 0 };
                &&& start <= t <= end
                &&& forall|b: u64| start <= b < t ==> #[trigger] written.contains(b)
                &&& t < end ==> !written.contains(t)
            }
    }
}

/// The addresses written in one space of a keyed store.
pub open spec fn written_addresses<V>(stored: Map<(Seq<char>, u64), V>, space_id: Seq<char>) -> Set<u64> {
    Set::new(|a: u64| stored.contains_key((space_id, a)))
}

/// An address space that answers contiguous-tail queries.
pub trait TailableSpace {
    /// The tail query is defined for `space_id` in the current state.
    spec fn can_tail(&self, space_id: Seq<char>) -> bool;

    /// `t` is an answer this space may give to a tail query.
    spec fn tail_answer(&self, space_id: Seq<char>, window_size: u64, t: u64) -> bool;

    /// Tail queries never report an error.
    spec fn tails_succeed(&self) -> bool;

    /// The contiguous tail of a space: the first unwritten address before
    /// which all addresses within the last `window_size` are written.
    fn tail(&self, space_id: &str, window_size: u64) -> (r: Result<u64, TailError>)
        requires
            self.can_tail(space_id@),
        ensures
            r matches Ok(t) ==> self.tail_answer(space_id@, window_size, t),
            self.tails_succeed() ==> r is Ok,
    ;
}

/// What a write of `value` at `key` does to a write-once store: it
/// succeeds only at an empty address, storing the value there; at an
/// occupied address it reports the address and changes nothing; any other
/// failure changes nothing either.
pub open spec fn write_once_outcome<V>(
    before: Map<(Seq<char>, u64), V>,
    after: Map<(Seq<char>, u64), V>,
    key: (Seq<char>, u64),
    value: V,
    r: Result<(), WriteOnceError>,
) -> bool {
    match r {
        Ok(()) => !before.contains_key(key) && after == before.insert(key, value),
        Err(WriteOnceError::AddressAlreadyExists(a)) => a == key.1 && before.contains_key(key) && after == before,
        Err(_) => after == before,
    }
}

/// Write-once: once a write at an address has succeeded, a later write
/// there does not succeed and the first value stays.
pub proof fn lemma_write_once<V>(
    s0: Map<(Seq<char>, u64), V>,
    s1: Map<(Seq<char>, u64), V>,
    s2: Map<(Seq<char>, u64), V>,
    key: (Seq<char>, u64),
    first: V,
    second: V,
    r2: Result<(), WriteOnceError>,
)
    requires
        write_once_outcome(s0, s1, key, first, Ok(())),
        write_once_outcome(s1, s2, key, second, r2),
    ensures
        r2 is Err,
        r2 matches Err(e) ==> (e matches WriteOnceError::AddressAlreadyExists(a) ==> a == key.1),
        s2 == s1,
        s2.contains_key(key) && s2[key] == first,
{
}

/// A write that succeeded is read back: the store holds the written value
/// at its address, and every other address as before.
pub proof fn lemma_write_then_stored<V>(
    before: Map<(Seq<char>, u64), V>,
    after: Map<(Seq<char>, u64), V>,
    key: (Seq<char>, u64),
    value: V,
)
    requires
        write_once_outcome(before, after, key, value, Ok(())),
    ensures
        after.contains_key(key) && after[key] == value,
        forall|k: (Seq<char>, u64)| k != key ==> after.contains_key(k) == before.contains_key(k) && (
        before.contains_key(k) ==> after[k] == before[k]),
{
}

/// An address space where each address can be written once.
pub trait WriteOnceSpace<V: Clone>: TailableSpace {
    /// The values stored, keyed by (space id, address).
    spec fn stored(&self) -> Map<(Seq<char>, u64), V>;

    /// Write `value` at an empty address; an occupied address is reported
    /// and left unchanged.
    fn write(&mut self, space_id: &str, address: u64, value: V) -> (r: Result<(), WriteOnceError>)
        ensures
            write_once_outcome(old(self).stored(), final(self).stored(), (space_id@, address), value, r),
    ;

    /// Reads answer `None` only for an empty address.
    spec fn reads_exact(&self) -> bool;

    /// A space whose last address is empty can answer tail queries.
    proof fn lemma_can_tail(&self, space_id: Seq<char>)
        requires
            !self.stored().contains_key((space_id, u64::MAX)),
        ensures
            self.can_tail(space_id),
    ;

    /// The value at an address, if it has one and the backend answered.
    fn read(&self, space_id: &str, address: u64) -> (r: Option<V>)
        ensures
            r matches Some(v) ==> self.stored().contains_key((space_id@, address)) && cloned(
                self.stored()[(space_id@, address)],
                v,
            ),
            self.reads_exact() && r is None ==> !self.stored().contains_key((space_id@, address)),
    ;
}

} // verus!
