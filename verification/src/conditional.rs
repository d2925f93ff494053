//! Versioned address spaces with compare-and-swap writes, an in-memory
//! implementation, and the adapter that gives write-once semantics on top.

use vstd::prelude::*;

use crate::spaces::is_contiguous_tail;
use crate::spaces::is_max_address;
use crate::spaces::map_conditional_write_error;
use crate::spaces::written_addresses;
use crate::spaces::ConditionalWriteError;
use crate::spaces::TailError;
use crate::spaces::TailableSpace;
use crate::spaces::WriteOnceError;
use crate::spaces::WriteOnceSpace;
use crate::text::append_str;
use crate::text::append_u64;
use crate::text::decimal;
use crate::write_once::entries_map;
use crate::write_once::entry_key;
use crate::write_once::entry_keys_distinct;
use crate::write_once::lemma_entries_lookup;
use crate::write_once::lemma_entries_push;
use crate::write_once::lemma_entries_update;

verus! {

/// Opaque version token returned by a read and passed back on a write.
#[derive(Debug)]
pub struct Version(pub Vec<u8>);

/// A value stored at an address together with its version.
#[derive(Debug)]
pub struct VersionedValue<V> {
    pub version: Version,
    pub value: V,
}

impl Clone for Version {
    fn clone(&self) -> (r: Self)
        ensures
            r.0@ == self.0@,
    {
        let mut bytes: Vec<u8> = Vec::new();
        let mut i: usize = 0;
        while i < self.0.len()
            invariant
                i <= self.0@.len(),
                bytes@ == self.0@.subrange(0, i as int),
            decreases self.0@.len() - i,
        {
            bytes.push(self.0[i]);
            i += 1;
            assert(bytes@ =~= self.0@.subrange(0, i as int));
        }
        assert(bytes@ =~= self.0@);
        Version(bytes)
    }
}

impl<V: Clone> Clone for VersionedValue<V> {
    fn clone(&self) -> (r: Self)
        ensures
            r.version.0@ == self.version.0@,
            cloned(self.value, r.value),
    {
        VersionedValue { version: self.version.clone(), value: self.value.clone() }
    }
}

/// The big-endian bytes of a 64-bit number.
pub open spec fn be_bytes(n: u64) -> Seq<u8> {
    seq![
        (n >> 56u64) as u8,
        (n >> 48u64) as u8,
        (n >> 40u64) as u8,
        (n >> 32u64) as u8,
        (n >> 24u64) as u8,
        (n >> 16u64) as u8,
        (n >> 8u64) as u8,
        n as u8,
    ]
}

/// The number that eight big-endian bytes encode.
pub open spec fn be_value(b: Seq<u8>) -> u64 {
    ((b[0] as u64) << 56u64) | ((b[1] as u64) << 48u64) | ((b[2] as u64) << 40u64) | ((b[3] as u64) << 32u64)
        | ((b[4] as u64) << 24u64) | ((b[5] as u64) << 16u64) | ((b[6] as u64) << 8u64) | (b[7] as u64)
}

/// Decoding the big-endian bytes of a number gives the number back.
pub proof fn lemma_be_round_trip(n: u64)
    ensures
        be_bytes(n).len() == 8,
        be_value(be_bytes(n)) == n,
{
    let b = be_bytes(n);
    assert(b[0] == (n >> 56u64) as u8);
    assert(b[7] == n as u8);
    assert(((((n >> 56u64) as u8) as u64) << 56u64) | ((((n >> 48u64) as u8) as u64) << 48u64) | ((((n
        >> 40u64) as u8) as u64) << 40u64) | ((((n >> 32u64) as u8) as u64) << 32u64) | ((((n >> 24u64) as u8)
        as u64) << 24u64) | ((((n >> 16u64) as u8) as u64) << 16u64) | ((((n >> 8u64) as u8) as u64) << 8u64)
        | ((n as u8) as u64) == n) by (bit_vector);
}

/// The version token for a version number: its big-endian bytes.
pub fn version_from_u64(n: u64) -> (v: Version)
    ensures
        v.0@ == be_bytes(n),
{
    let mut bytes: Vec<u8> = Vec::new();
    bytes.push((n >> 56u64) as u8);
    bytes.push((n >> 48u64) as u8);
    bytes.push((n >> 40u64) as u8);
    bytes.push((n >> 32u64) as u8);
    bytes.push((n >> 24u64) as u8);
    bytes.push((n >> 16u64) as u8);
    bytes.push((n >> 8u64) as u8);
    bytes.push(n as u8);
    assert(bytes@ =~= be_bytes(n));
    Version(bytes)
}

/// The version number a token encodes, if it is eight bytes long.
pub fn try_version_to_u64(v: &Version) -> (r: Option<u64>)
    ensures
        match r {
            Some(n) => v.0@.len() == 8 && n == be_value(v.0@),
            None => v.0@.len() != 8,
        },
{
    if v.0.len() != 8 {
        return None;
    }
    let b = &v.0;
    Some(
        ((b[0] as u64) << 56u64) | ((b[1] as u64) << 48u64) | ((b[2] as u64) << 40u64) | ((b[3] as u64) << 32u64)
            | ((b[4] as u64) << 24u64) | ((b[5] as u64) << 16u64) | ((b[6] as u64) << 8u64) | (b[7] as u64),
    )
}

/// Whether two version tokens are the same bytes.
pub fn versions_equal(a: &Version, b: &Version) -> (r: bool)
    ensures
        r == (a.0@ == b.0@),
{
    if a.0.len() != b.0.len() {
        return false;
    }
    let mut i: usize = 0;
    while i < a.0.len()
        invariant
            a.0@.len() == b.0@.len(),
            i <= a.0@.len(),
            forall|k: int| 0 <= k < i ==> a.0@[k] == b.0@[k],
        decreases a.0@.len() - i,
    {
        if a.0[i] != b.0[i] {
            return false;
        }
        i += 1;
    }
    assert(a.0@ =~= b.0@);
    true
}

/// The version bytes a successful conditional write stores: version 0 for a
/// write to an empty address, else one past the expected version.
pub open spec fn next_version_bytes(expected: Option<Seq<u8>>) -> Seq<u8> {
    match expected {
        None => be_bytes(0),
        Some(e) => be_bytes((be_value(e) + 1) as u64),
    }
}

/// A conditional write with `expected` applies to a store: `None` needs an
/// empty address, `Some(e)` needs the stored version to be `e`.
pub open spec fn version_matches<V>(
    versioned: Map<(Seq<char>, u64), (Seq<u8>, V)>,
    key: (Seq<char>, u64),
    expected: Option<Seq<u8>>,
) -> bool {
    match expected {
        None => !versioned.contains_key(key),
        Some(e) => versioned.contains_key(key) && versioned[key].0 == e,
    }
}

/// What a conditional write of `value` at `key` expecting `expected` does
/// to a versioned store: when the version matches it stores the value
/// under the next version and answers `true`; on a mismatch it answers
/// `false` and changes nothing; a failure changes nothing.
pub open spec fn conditional_write_outcome<V>(
    before: Map<(Seq<char>, u64), (Seq<u8>, V)>,
    after: Map<(Seq<char>, u64), (Seq<u8>, V)>,
    key: (Seq<char>, u64),
    expected: Option<Seq<u8>>,
    value: V,
    r: Result<bool, ConditionalWriteError>,
) -> bool {
    match r {
        Ok(true) => version_matches(before, key, expected) && after == before.insert(
            key,
            (next_version_bytes(expected), value),
        ),
        Ok(false) => !version_matches(before, key, expected) && after == before,
        Err(_) => after == before,
    }
}

/// Versions count writes: the first write to an empty address stores
/// version 0, and a write expecting version `n` stores version `n + 1`.
pub proof fn lemma_versions_count_writes<V>(
    before: Map<(Seq<char>, u64), (Seq<u8>, V)>,
    after: Map<(Seq<char>, u64), (Seq<u8>, V)>,
    key: (Seq<char>, u64),
    n: Option<u64>,
    value: V,
)
    requires
        n matches Some(m) ==> m < u64::MAX,
        conditional_write_outcome(
            before,
            after,
            key,
            match n {
                None => None,
                Some(m) => Some(be_bytes(m)),
            },
            value,
            Ok(true),
        ),
    ensures
        after.contains_key(key),
        after[key].1 == value,
        be_value(after[key].0) == match n {
            None => 0,
            Some(m) => m + 1,
        },
        n matches Some(m) ==> before.contains_key(key) && be_value(before[key].0) == m,
        n is None ==> !before.contains_key(key),
{
    match n {
        None => {
            lemma_be_round_trip(0);
        },
        Some(m) => {
            lemma_be_round_trip(m);
            lemma_be_round_trip((m + 1) as u64);
        },
    }
}

/// Compare-and-swap admits one winner: once a write expecting a version
/// (or an empty address) has succeeded, a second write expecting the same
/// does not, and leaves the store as the first left it.
pub proof fn lemma_one_writer_wins<V>(
    s0: Map<(Seq<char>, u64), (Seq<u8>, V)>,
    s1: Map<(Seq<char>, u64), (Seq<u8>, V)>,
    s2: Map<(Seq<char>, u64), (Seq<u8>, V)>,
    key: (Seq<char>, u64),
    n: Option<u64>,
    first: V,
    second: V,
    r2: Result<bool, ConditionalWriteError>,
)
    requires
        n matches Some(m) ==> m < u64::MAX,
        conditional_write_outcome(
            s0,
            s1,
            key,
            match n {
                None => None,
                Some(m) => Some(be_bytes(m)),
            },
            first,
            Ok(true),
        ),
        conditional_write_outcome(
            s1,
            s2,
            key,
            match n {
                None => None,
                Some(m) => Some(be_bytes(m)),
            },
            second,
            r2,
        ),
    ensures
        !(r2 matches Ok(true)),
        s2 == s1,
        s2[key].1 == first,
{
    match n {
        None => {},
        Some(m) => {
            lemma_be_round_trip(m);
            lemma_be_round_trip((m + 1) as u64);
        },
    }
}

/// A refused conditional write leaves the store as it was, the value at
/// its address included.
pub proof fn lemma_refused_write_changes_nothing<V>(
    before: Map<(Seq<char>, u64), (Seq<u8>, V)>,
    after: Map<(Seq<char>, u64), (Seq<u8>, V)>,
    key: (Seq<char>, u64),
    expected: Option<Seq<u8>>,
    value: V,
)
    requires
        conditional_write_outcome(before, after, key, expected, value, Ok(false)),
    ensures
        after == before,
        !version_matches(before, key, expected),
{
}

/// The version view of an optional token.
pub open spec fn version_view(expected: Option<Version>) -> Option<Seq<u8>> {
    match expected {
        None => None,
        Some(v) => Some(v.0@),
    }
}

/// A versioned address space with compare-and-swap writes.
pub trait ConditionalWriteSpace<V: Clone>: TailableSpace {
    /// The version bytes and value stored, keyed by (space id, address).
    spec fn versioned(&self) -> Map<(Seq<char>, u64), (Seq<u8>, V)>;

    /// A write with `expected` is defined in the current state.
    spec fn can_write(&self, space_id: Seq<char>, address: u64, expected: Option<Seq<u8>>) -> bool;

    /// A write to an empty address is always defined.
    proof fn lemma_first_write_defined(&self, space_id: Seq<char>, address: u64)
        ensures
            self.can_write(space_id, address, None),
    ;

    /// Write `value` if the stored version matches `expected` (`None`: the
    /// address is empty). Returns `false`, leaving the store unchanged, on a
    /// mismatch.
    fn write(&mut self, space_id: &str, address: u64, expected_version: Option<Version>, value: V) -> (r:
        Result<bool, ConditionalWriteError>)
        requires
            old(self).can_write(space_id@, address, version_view(expected_version)),
        ensures
            conditional_write_outcome(
                old(self).versioned(),
                final(self).versioned(),
                (space_id@, address),
                version_view(expected_version),
                value,
                r,
            ),
    ;

    /// Reads never report an error.
    spec fn reads_succeed(&self) -> bool;

    /// A space whose last address is empty can answer tail queries.
    proof fn lemma_can_tail(&self, space_id: Seq<char>)
        requires
            !self.versioned().contains_key((space_id, u64::MAX)),
        ensures
            self.can_tail(space_id),
    ;

    /// The versioned value at an address, if any.
    fn read(&self, space_id: &str, address: u64) -> (r: Result<Option<VersionedValue<V>>, ConditionalWriteError>)
        ensures
            self.reads_succeed() ==> r is Ok,
            r matches Ok(Some(vv)) ==> self.versioned().contains_key((space_id@, address)) && vv.version.0@
                == self.versioned()[(space_id@, address)].0 && cloned(self.versioned()[(space_id@, address)].1, vv.value),
            r matches Ok(None) ==> !self.versioned().contains_key((space_id@, address)),
    ;
}

/// In-memory conditional write space. Versions are big-endian counters:
/// the first write stores version 0 and each later write the next number.
pub struct InMemoryConditionalWriteSpace<V> {
    entries: Vec<(String, u64, VersionedValue<V>)>,
}

/// The version bytes and value of each stored entry, by key.
pub open spec fn versioned_view<V>(m: Map<(Seq<char>, u64), VersionedValue<V>>) -> Map<(Seq<char>, u64), (Seq<u8>, V)> {
    m.map_values(|vv: VersionedValue<V>| (vv.version.0@, vv.value))
}

impl<V> InMemoryConditionalWriteSpace<V> {
    /// Entries have distinct keys and eight-byte versions.
    #[verifier::type_invariant]
    spec fn well_formed(&self) -> bool {
        &&& entry_keys_distinct(self.entries@)
        &&& forall|i: int| 0 <= i < self.entries@.len() ==> (#[trigger] self.entries@[i]).2.version.0@.len() == 8
    }

    /// The version bytes and value stored, keyed by (space id, address).
    pub closed spec fn contents(&self) -> Map<(Seq<char>, u64), (Seq<u8>, V)> {
        versioned_view(entries_map(self.entries@))
    }

    pub fn new() -> (s: Self)
        ensures
            s.contents() == Map::<(Seq<char>, u64), (Seq<u8>, V)>::empty(),
    {
        let s = InMemoryConditionalWriteSpace { entries: Vec::new() };
        assert(s.contents() =~= Map::<(Seq<char>, u64), (Seq<u8>, V)>::empty());
        s
    }

    /// The index of the entry stored under (`key`, `address`), if any.
    fn find(&self, key: &String, address: u64) -> (r: Option<usize>)
        ensures
            match r {
                Some(i) => i < self.entries@.len() && entry_key(self.entries@[i as int]) == (key@, address)
                    && self.contents().contains_key((key@, address)) && self.contents()[(key@, address)]
                    == (self.entries@[i as int].2.version.0@, self.entries@[i as int].2.value),
                None => !self.contents().contains_key((key@, address)),
            },
    {
        proof {
            use_type_invariant(self);
        }
        let mut i: usize = 0;
        while i < self.entries.len()
            invariant
                i <= self.entries@.len(),
                entry_keys_distinct(self.entries@),
                forall|m: int| 0 <= m < i ==> entry_key(#[trigger] self.entries@[m]) != (key@, address),
            decreases self.entries@.len() - i,
        {
            if self.entries[i].1 == address && self.entries[i].0 == *key {
                proof {
                    lemma_entries_lookup(self.entries@, i as int);
                }
                return Some(i);
            }
            i += 1;
        }
        None
    }

    /// Compare-and-swap: write `value` if the stored version matches
    /// `expected_version` (`None`: the address is empty).
    pub fn put(&mut self, space_id: &str, address: u64, expected_version: Option<Version>, value: V) -> (r: bool)
        requires
            expected_version is Some && version_matches(
                old(self).contents(),
                (space_id@, address),
                version_view(expected_version),
            ) ==> be_value(expected_version.unwrap().0@) < u64::MAX,
        ensures
            r == version_matches(old(self).contents(), (space_id@, address), version_view(expected_version)),
            r ==> final(self).contents() == old(self).contents().insert(
                (space_id@, address),
                (next_version_bytes(version_view(expected_version)), value),
            ),
            !r ==> final(self).contents() == old(self).contents(),
    {
        proof {
            use_type_invariant(&*self);
        }
        let key = space_id.to_owned();
        let existing = self.find(&key, address);
        let matches = match (&expected_version, existing) {
            (None, None) => true,
            (Some(expected), Some(i)) => versions_equal(expected, &self.entries[i].2.version),
            _ => false,
        };
        if !matches {
            return false;
        }
        let next_version = match &expected_version {
            None => 0u64,
            Some(v) => {
                let current = try_version_to_u64(v);
                match current {
                    Some(n) => n + 1,
                    None => {
                        assert(false);
                        0
                    },
                }
            },
        };
        let version = version_from_u64(next_version);
        let stored = VersionedValue { version, value };
        let ghost new_entry = (key, address, stored);
        let mut entries: Vec<(String, u64, VersionedValue<V>)> = Vec::new();
        std::mem::swap(&mut entries, &mut self.entries);
        match existing {
            None => {
                proof {
                    assert(!entries_map(entries@).contains_key(entry_key(new_entry))) by {
                        if entries_map(entries@).contains_key(entry_key(new_entry)) {
                            assert(self.contents().contains_key((key@, address)));
                        }
                    }
                    lemma_entries_push(entries@, new_entry);
                }
                entries.push((key, address, stored));
            },
            Some(i) => {
                proof {
                    lemma_entries_update(entries@, i as int, new_entry);
                }
                entries.set(i, (key, address, stored));
            },
        }
        self.entries = entries;
        proof {
            assert forall|j: int| 0 <= j < self.entries@.len() implies (#[trigger] self.entries@[j]).2.version.0@.len()
                == 8 by {
                lemma_be_round_trip(next_version);
            }
            assert(next_version_bytes(version_view(expected_version)) == be_bytes(next_version));
            assert(self.contents() =~= old(self).contents().insert(
                (space_id@, address),
                (next_version_bytes(version_view(expected_version)), value),
            ));
        }
        true
    }

    /// The versioned value at an address, if any.
    pub fn get(&self, space_id: &str, address: u64) -> (r: Option<VersionedValue<V>>) where V: Clone
        ensures
            match r {
                Some(vv) => self.contents().contains_key((space_id@, address)) && vv.version.0@ == self.contents()[(
                    space_id@,
                    address,
                )].0 && cloned(self.contents()[(space_id@, address)].1, vv.value),
                None => !self.contents().contains_key((space_id@, address)),
            },
    {
        let key = space_id.to_owned();
        match self.find(&key, address) {
            Some(i) => Some(self.entries[i].2.clone()),
            None => None,
        }
    }

    /// Whether a value is stored at an address.
    fn contains(&self, space_id: &String, address: u64) -> (b: bool)
        ensures
            b == self.contents().contains_key((space_id@, address)),
    {
        self.find(space_id, address).is_some()
    }

    /// The contiguous tail of a space within the last `window_size`
    /// addresses, computed as for the write-once space.
    pub fn contiguous_tail(&self, space_id: &str, window_size: u64) -> (t: u64)
        requires
            !self.contents().contains_key((space_id@, u64::MAX)),
        ensures
            is_contiguous_tail(written_addresses(self.contents(), space_id@), window_size, t),
    {
        proof {
            use_type_invariant(self);
        }
        let key = space_id.to_owned();
        let ghost written = written_addresses(self.contents(), space_id@);
        let mut found = false;
        let mut max_addr: u64 = 0;
        let mut i: usize = 0;
        while i < self.entries.len()
            invariant
                i <= self.entries@.len(),
                key@ == space_id@,
                entry_keys_distinct(self.entries@),
                written == written_addresses(self.contents(), space_id@),
                found ==> written.contains(max_addr),
                forall|m: int|
                    0 <= m < i && (#[trigger] self.entries@[m]).0@ == key@ ==> found && self.entries@[m].1 <= max_addr,
            decreases self.entries@.len() - i,
        {
            if self.entries[i].0 == key {
                proof {
                    lemma_entries_lookup(self.entries@, i as int);
                }
                if !found || self.entries[i].1 > max_addr {
                    max_addr = self.entries[i].1;
                }
                found = true;
            }
            i += 1;
        }
        proof {
            assert forall|x: u64| #[trigger] written.contains(x) implies found && x <= max_addr by {
                assert(self.contents().contains_key((space_id@, x)));
                assert(entries_map(self.entries@).contains_key((space_id@, x)));
                let m = choose|m: int|
                    0 <= m < self.entries@.len() && entry_key(#[trigger] self.entries@[m]) == (space_id@, x);
                assert(self.entries@[m].0@ == key@);
            }
        }
        if !found {
            assert(written =~= Set::<u64>::empty());
            return 0;
        }
        assert(is_max_address(written, max_addr));
        assert(max_addr < u64::MAX) by {
            if max_addr == u64::MAX {
                assert(written.contains(u64::MAX));
            }
        }
        let end = max_addr + 1;
        let start = if end >= window_size { end - window_size } else { 0 };
        let mut addr = start;
        while addr < end
            invariant
                start <= addr <= end,
                key@ == space_id@,
                is_max_address(written, max_addr),
                max_addr < u64::MAX,
                end == max_addr + 1,
                start == if end >= window_size { end - window_size } else { 0 },
                written == written_addresses(self.contents(), space_id@),
                forall|b: u64| start <= b < addr ==> #[trigger] written.contains(b),
            decreases end - addr,
        {
            if !self.contains(&key, addr) {
                assert(!written.is_empty()) by {
                    assert(written.contains(max_addr));
                }
                return addr;
            }
            addr += 1;
        }
        assert(!written.is_empty()) by {
            assert(written.contains(max_addr));
        }
        end
    }
}

impl<V> TailableSpace for InMemoryConditionalWriteSpace<V> {
    open spec fn can_tail(&self, space_id: Seq<char>) -> bool {
        !self.contents().contains_key((space_id, u64::MAX))
    }

    open spec fn tail_answer(&self, space_id: Seq<char>, window_size: u64, t: u64) -> bool {
        is_contiguous_tail(written_addresses(self.contents(), space_id), window_size, t)
    }

    open spec fn tails_succeed(&self) -> bool {
        true
    }

    fn tail(&self, space_id: &str, window_size: u64) -> (r: Result<u64, TailError>)
        ensures
            r is Ok,
    {
        Ok(self.contiguous_tail(space_id, window_size))
    }
}

impl<V: Clone> ConditionalWriteSpace<V> for InMemoryConditionalWriteSpace<V> {
    open spec fn versioned(&self) -> Map<(Seq<char>, u64), (Seq<u8>, V)> {
        self.contents()
    }

    open spec fn can_write(&self, space_id: Seq<char>, address: u64, expected: Option<Seq<u8>>) -> bool {
        expected is Some && version_matches(self.contents(), (space_id, address), expected) ==> be_value(
            expected.unwrap(),
        ) < u64::MAX
    }

    proof fn lemma_first_write_defined(&self, space_id: Seq<char>, address: u64) {
    }

    fn write(&mut self, space_id: &str, address: u64, expected_version: Option<Version>, value: V) -> (r: Result<
        bool,
        ConditionalWriteError,
    >)
        ensures
            r is Ok,
    {
        Ok(self.put(space_id, address, expected_version, value))
    }

    open spec fn reads_succeed(&self) -> bool {
        true
    }

    proof fn lemma_can_tail(&self, space_id: Seq<char>) {
    }

    fn read(&self, space_id: &str, address: u64) -> (r: Result<Option<VersionedValue<V>>, ConditionalWriteError>) {
        Ok(self.get(space_id, address))
    }
}

/// Gives any conditional write space write-once semantics: a write expects
/// an empty address, and a refused write reports `AddressAlreadyExists`.
pub struct WriteOnceSpaceAdapter<C> {
    pub inner: C,
}

impl<C> WriteOnceSpaceAdapter<C> {
    pub fn new(inner: C) -> (a: Self)
        ensures
            a.inner == inner,
    {
        WriteOnceSpaceAdapter { inner }
    }
}

impl<C: TailableSpace> TailableSpace for WriteOnceSpaceAdapter<C> {
    open spec fn can_tail(&self, space_id: Seq<char>) -> bool {
        self.inner.can_tail(space_id)
    }

    open spec fn tail_answer(&self, space_id: Seq<char>, window_size: u64, t: u64) -> bool {
        self.inner.tail_answer(space_id, window_size, t)
    }

    open spec fn tails_succeed(&self) -> bool {
        self.inner.tails_succeed()
    }

    fn tail(&self, space_id: &str, window_size: u64) -> (r: Result<u64, TailError>) {
        self.inner.tail(space_id, window_size)
    }
}

impl<V: Clone, C: ConditionalWriteSpace<V>> WriteOnceSpace<V> for WriteOnceSpaceAdapter<C> {
    open spec fn stored(&self) -> Map<(Seq<char>, u64), V> {
        self.inner.versioned().map_values(|entry: (Seq<u8>, V)| entry.1)
    }

    fn write(&mut self, space_id: &str, address: u64, value: V) -> (r: Result<(), WriteOnceError>) {
        proof {
            self.inner.lemma_first_write_defined(space_id@, address);
        }
        let wrote = match self.inner.write(space_id, address, None, value) {
            Ok(w) => w,
            Err(e) => {
                let mapped = map_conditional_write_error(e);
                proof {
                    assert(self.stored() =~= old(self).stored());
                }
                return Err(mapped);
            },
        };
        if wrote {
            proof {
                assert(self.stored() =~= old(self).stored().insert((space_id@, address), value));
            }
            Ok(())
        } else {
            proof {
                assert(self.stored() =~= old(self).stored());
            }
            Err(WriteOnceError::AddressAlreadyExists(address))
        }
    }

    open spec fn reads_exact(&self) -> bool {
        self.inner.reads_succeed()
    }

    proof fn lemma_can_tail(&self, space_id: Seq<char>) {
        if self.inner.versioned().contains_key((space_id, u64::MAX)) {
            assert(self.stored().contains_key((space_id, u64::MAX)));
        }
        self.inner.lemma_can_tail(space_id);
    }

    fn read(&self, space_id: &str, address: u64) -> (r: Option<V>) {
        match self.inner.read(space_id, address) {
            Ok(Some(versioned)) => Some(versioned.value),
            Ok(None) => None,
            Err(_) => None,
        }
    }
}

/// SQLite stores addresses as signed 64-bit integers; addresses past
/// `i64::MAX` are refused rather than wrapped.
pub fn to_sqlite_address(address: u64) -> (r: Result<i64, ConditionalWriteError>)
    ensures
        match r {
            Ok(a) => address <= i64::MAX && a == address,
            Err(ConditionalWriteError::InternalError(m)) => address > i64::MAX && m@ == "address "@ + decimal(
                address as nat,
            ) + " exceeds SQLite signed 64-bit integer range"@,
            Err(_) => false,
        },
{
    if address <= i64::MAX as u64 {
        Ok(address as i64)
    } else {
        let mut m = String::new();
        append_str(&mut m, "address ");
        append_u64(&mut m, address);
        append_str(&mut m, " exceeds SQLite signed 64-bit integer range");
        assert(m@ =~= "address "@ + decimal(address as nat) + " exceeds SQLite signed 64-bit integer range"@);
        Err(ConditionalWriteError::InternalError(m))
    }
}


/// How a conditional write is carried out on an SQLite table.
#[derive(Debug, PartialEq, Eq)]
pub enum SqliteWritePlan {
    /// Insert the value at version 0 unless the address has a row.
    InsertIfAbsent,
    /// Replace the row whose version is `current`, giving it version `next`.
    CompareAndSet { current: u64, next: u64 },
}

/// The SQLite write for an expected version: an insert for an empty
/// address, else a compare-and-set from the version the token encodes to
/// the next one. A token that is not eight bytes long is refused.
pub fn sqlite_write_plan(expected_version: &Option<Version>) -> (r: Result<SqliteWritePlan, ConditionalWriteError>)
    requires
        expected_version matches Some(v) ==> (v.0@.len() == 8 ==> be_value(v.0@) < u64::MAX),
    ensures
        match expected_version {
            None => r == Ok::<SqliteWritePlan, ConditionalWriteError>(SqliteWritePlan::InsertIfAbsent),
            Some(v) => if v.0@.len() == 8 {
                r == Ok::<SqliteWritePlan, ConditionalWriteError>(
                    SqliteWritePlan::CompareAndSet { current: be_value(v.0@), next: (be_value(v.0@) + 1) as u64 },
                )
            } else {
                r matches Err(ConditionalWriteError::InternalError(m)) && m@
                    == "invalid version: expected 8 bytes, got "@ + decimal(v.0@.len())
            },
        },
{
    match expected_version {
        None => Ok(SqliteWritePlan::InsertIfAbsent),
        Some(v) => match try_version_to_u64(v) {
            Some(current) => Ok(SqliteWritePlan::CompareAndSet { current, next: current + 1 }),
            None => {
                let mut m = String::new();
                append_str(&mut m, "invalid version: expected 8 bytes, got ");
                append_u64(&mut m, v.0.len() as u64);
                Err(ConditionalWriteError::InternalError(m))
            },
        },
    }
}

fn has_address(addresses: &Vec<u64>, a: u64) -> (b: bool)
    ensures
        b == addresses@.contains(a),
{
    let mut i: usize = 0;
    while i < addresses.len()
        invariant
            i <= addresses@.len(),
            forall|k: int| 0 <= k < i ==> addresses@[k] != a,
        decreases addresses@.len() - i,
    {
        if addresses[i] == a {
            return true;
        }
        i += 1;
    }
    false
}

/// The contiguous tail from the highest addresses of a space, highest
/// first (at most `window_size` of them): 0 for an empty space; else the
/// first address missing from them in the window that ends just past the
/// first one, or the end of that window.
pub fn tail_from_recent_addresses(recent: &Vec<u64>, window_size: u64) -> (t: u64)
    requires
        recent@.len() > 0 ==> recent@[0] < u64::MAX,
    ensures
        recent@.len() == 0 ==> t == 0,
        recent@.len() > 0 ==> {
            let end = recent@[0] + 1;
            let start = if end >= window_size { end - window_size } else { 0 };
            &&& start <= t <= end
            &&& forall|a: u64| start <= a < t ==> recent@.contains(a)
            &&& t < end ==> !recent@.contains(t)
        },
{
    if recent.len() == 0 {
        return 0;
    }
    let end = recent[0] + 1;
    let start = if end >= window_size {
        end - window_size
    } else {
        0
    };
    let mut a = start;
    while a < end
        invariant
            recent@.len() > 0,
            end == recent@[0] + 1,
            start == if end >= window_size { end - window_size } else { 0 },
            start <= a <= end,
            forall|x: u64| start <= x < a ==> recent@.contains(x),
        decreases end - a,
    {
        if !has_address(recent, a) {
            return a;
        }
        a += 1;
    }
    end
}

} // verus!
