//! An in-memory write-once address space.

use vstd::prelude::*;

use crate::spaces::is_contiguous_tail;
use crate::spaces::is_max_address;
use crate::spaces::written_addresses;
use crate::spaces::TailError;
use crate::spaces::TailableSpace;
use crate::spaces::WriteOnceError;
use crate::spaces::WriteOnceSpace;

verus! {

/// The (space id, address) key of a stored entry.
pub open spec fn entry_key<V>(e: (String, u64, V)) -> (Seq<char>, u64) {
    (e.0@, e.1)
}

/// No two entries share a key.
pub open spec fn entry_keys_distinct<V>(entries: Seq<(String, u64, V)>) -> bool {
    forall|i: int, j: int|
        0 <= i < entries.len() && 0 <= j < entries.len() && i != j ==> entry_key(#[trigger] entries[i])
            != entry_key(#[trigger] entries[j])
}

/// The map from keys to values that a list of distinct-keyed entries holds.
pub open spec fn entries_map<V>(entries: Seq<(String, u64, V)>) -> Map<(Seq<char>, u64), V> {
    Map::new(
        |k: (Seq<char>, u64)| exists|i: int| 0 <= i < entries.len() && entry_key(#[trigger] entries[i]) == k,
        |k: (Seq<char>, u64)|
            entries[choose|i: int| 0 <= i < entries.len() && entry_key(#[trigger] entries[i]) == k].2,
    )
}

/// In-memory state for write-once address spaces. Each (space id, address)
/// pair can be written once; later writes report `AddressAlreadyExists`.
pub struct InMemoryWriteOnceSpaceState<V> {
    entries: Vec<(String, u64, V)>,
}

/// The in-memory write-once space.
pub type InMemoryWriteOnceSpace<V> = InMemoryWriteOnceSpaceState<V>;

pub proof fn lemma_entries_lookup<V>(entries: Seq<(String, u64, V)>, i: int)
    requires
        entry_keys_distinct(entries),
        0 <= i < entries.len(),
    ensures
        entries_map(entries).contains_key(entry_key(entries[i])),
        entries_map(entries)[entry_key(entries[i])] == entries[i].2,
{
    let k = entry_key(entries[i]);
    assert(exists|j: int| 0 <= j < entries.len() && entry_key(#[trigger] entries[j]) == k);
    let j = choose|j: int| 0 <= j < entries.len() && entry_key(#[trigger] entries[j]) == k;
    assert(i == j);
}

pub proof fn lemma_entries_push<V>(entries: Seq<(String, u64, V)>, e: (String, u64, V))
    requires
        entry_keys_distinct(entries),
        !entries_map(entries).contains_key(entry_key(e)),
    ensures
        entry_keys_distinct(entries.push(e)),
        entries_map(entries.push(e)) == entries_map(entries).insert(entry_key(e), e.2),
{
    let new = entries.push(e);
    assert forall|i: int, j: int|
        0 <= i < new.len() && 0 <= j < new.len() && i != j implies entry_key(#[trigger] new[i]) != entry_key(
        #[trigger] new[j],
    ) by {
        if i < entries.len() && j < entries.len() {
            assert(new[i] == entries[i]);
            assert(new[j] == entries[j]);
        } else if i < entries.len() {
            assert(new[i] == entries[i]);
            assert(entries_map(entries).contains_key(entry_key(entries[i])));
        } else {
            assert(new[j] == entries[j]);
            assert(entries_map(entries).contains_key(entry_key(entries[j])));
        }
    }
    let m1 = entries_map(new);
    let m2 = entries_map(entries).insert(entry_key(e), e.2);
    assert forall|k: (Seq<char>, u64)| m1.contains_key(k) <==> m2.contains_key(k) by {
        if m2.contains_key(k) {
            if k == entry_key(e) {
                assert(entry_key(new[entries.len() as int]) == k);
            } else {
                let i = choose|i: int| 0 <= i < entries.len() && entry_key(#[trigger] entries[i]) == k;
                assert(entry_key(new[i]) == k);
            }
        }
        if m1.contains_key(k) {
            let i = choose|i: int| 0 <= i < new.len() && entry_key(#[trigger] new[i]) == k;
            if i < entries.len() {
                assert(entry_key(entries[i]) == k);
            }
        }
    }
    assert forall|k: (Seq<char>, u64)| m1.contains_key(k) implies m1[k] == m2[k] by {
        let i = choose|i: int| 0 <= i < new.len() && entry_key(#[trigger] new[i]) == k;
        lemma_entries_lookup(new, i);
        if i < entries.len() {
            assert(new[i] == entries[i]);
            lemma_entries_lookup(entries, i);
        }
    }
    assert(m1 =~= m2);
}

/// Replacing the value of an entry replaces the value under its key.
pub proof fn lemma_entries_update<V>(entries: Seq<(String, u64, V)>, i: int, e: (String, u64, V))
    requires
        entry_keys_distinct(entries),
        0 <= i < entries.len(),
        entry_key(e) == entry_key(entries[i]),
    ensures
        entry_keys_distinct(entries.update(i, e)),
        entries_map(entries.update(i, e)) == entries_map(entries).insert(entry_key(e), e.2),
{
    let new = entries.update(i, e);
    assert forall|a: int, b: int|
        0 <= a < new.len() && 0 <= b < new.len() && a != b implies entry_key(#[trigger] new[a]) != entry_key(
        #[trigger] new[b],
    ) by {
        assert(entry_key(new[a]) == entry_key(entries[a]));
        assert(entry_key(new[b]) == entry_key(entries[b]));
    }
    let m1 = entries_map(new);
    let m2 = entries_map(entries).insert(entry_key(e), e.2);
    assert forall|k: (Seq<char>, u64)| m1.contains_key(k) <==> m2.contains_key(k) by {
        if m2.contains_key(k) {
            if k == entry_key(e) {
                assert(entry_key(new[i]) == k);
            } else {
                let j = choose|j: int| 0 <= j < entries.len() && entry_key(#[trigger] entries[j]) == k;
                assert(entry_key(new[j]) == k);
            }
        }
        if m1.contains_key(k) {
            let j = choose|j: int| 0 <= j < new.len() && entry_key(#[trigger] new[j]) == k;
            assert(entry_key(entries[j]) == k);
        }
    }
    assert forall|k: (Seq<char>, u64)| m1.contains_key(k) implies m1[k] == m2[k] by {
        let j = choose|j: int| 0 <= j < new.len() && entry_key(#[trigger] new[j]) == k;
        lemma_entries_lookup(new, j);
        if j != i {
            lemma_entries_lookup(entries, j);
        }
    }
    assert(m1 =~= m2);
}

impl<V> InMemoryWriteOnceSpaceState<V> {
    #[verifier::type_invariant]
    spec fn well_formed(self) -> bool {
        entry_keys_distinct(self.entries@)
    }

    /// The values stored, keyed by (space id, address).
    pub closed spec fn contents(&self) -> Map<(Seq<char>, u64), V> {
        entries_map(self.entries@)
    }

    pub fn new() -> (s: Self)
        ensures
            s.contents() == Map::<(Seq<char>, u64), V>::empty(),
    {
        let s = InMemoryWriteOnceSpaceState { entries: Vec::new() };
        assert(s.contents() =~= Map::<(Seq<char>, u64), V>::empty());
        s
    }

    /// The index of the entry stored under (`key`, `address`), if any.
    fn find(&self, key: &String, address: u64) -> (r: Option<usize>)
        ensures
            match r {
                Some(i) => i < self.entries@.len() && entry_key(self.entries@[i as int]) == (key@, address)
                    && self.contents().contains_key((key@, address)) && self.contents()[(key@, address)]
                    == self.entries@[i as int].2,
                None => !self.contents().contains_key((key@, address)),
            },
    {
        proof {
            use_type_invariant(self);
        }
        let mut i: usize = 0;
        while i < self.entries.len()
            invariant
                i <= self.entries@.len(),
                entry_keys_distinct(self.entries@),
                forall|m: int| 0 <= m < i ==> entry_key(#[trigger] self.entries@[m]) != (key@, address),
            decreases self.entries@.len() - i,
        {
            if self.entries[i].1 == address && self.entries[i].0 == *key {
                proof {
                    lemma_entries_lookup(self.entries@, i as int);
                }
                return Some(i);
            }
            i += 1;
        }
        None
    }

    /// Write `value` at an empty address of a space.
    pub fn put(&mut self, space_id: &str, address: u64, value: V) -> (r: Result<(), WriteOnceError>)
        ensures
            match r {
                Ok(()) => !old(self).contents().contains_key((space_id@, address)) && final(self).contents()
                    == old(self).contents().insert((space_id@, address), value),
                Err(e) => e == WriteOnceError::AddressAlreadyExists(address) && old(
                    self,
                ).contents().contains_key((space_id@, address)) && final(self).contents() == old(self).contents(),
            },
    {
        proof {
            use_type_invariant(&*self);
        }
        let key = space_id.to_owned();
        if self.find(&key, address).is_some() {
            return Err(WriteOnceError::AddressAlreadyExists(address));
        }
        proof {
            lemma_entries_push(self.entries@, (key, address, value));
        }
        let mut entries: Vec<(String, u64, V)> = Vec::new();
        std::mem::swap(&mut entries, &mut self.entries);
        entries.push((key, address, value));
        self.entries = entries;
        Ok(())
    }

    /// The value stored at an address, if any.
    pub fn get(&self, space_id: &str, address: u64) -> (r: Option<V>) where V: Clone
        ensures
            match r {
                Some(v) => self.contents().contains_key((space_id@, address)) && cloned(
                    self.contents()[(space_id@, address)],
                    v,
                ),
                None => !self.contents().contains_key((space_id@, address)),
            },
    {
        let key = space_id.to_owned();
        match self.find(&key, address) {
            Some(i) => Some(self.entries[i].2.clone()),
            None => None,
        }
    }

    /// Whether a value is stored at an address.
    pub fn contains(&self, space_id: &String, address: u64) -> (b: bool)
        ensures
            b == self.contents().contains_key((space_id@, address)),
    {
        self.find(space_id, address).is_some()
    }

    /// The contiguous tail of a space within the last `window_size`
    /// addresses: 0 for an empty space, else the first unwritten address
    /// in the window, or one past the largest written address.
    pub fn contiguous_tail(&self, space_id: &str, window_size: u64) -> (t: u64)
        requires
            !self.contents().contains_key((space_id@, u64::MAX)),
        ensures
            is_contiguous_tail(written_addresses(self.contents(), space_id@), window_size, t),
    {
        proof {
            use_type_invariant(self);
        }
        let key = space_id.to_owned();
        let ghost written = written_addresses(self.contents(), space_id@);
        let mut found = false;
        let mut max_addr: u64 = 0;
        let mut i: usize = 0;
        while i < self.entries.len()
            invariant
                i <= self.entries@.len(),
                key@ == space_id@,
                entry_keys_distinct(self.entries@),
                written == written_addresses(self.contents(), space_id@),
                found ==> written.contains(max_addr),
                forall|m: int|
                    0 <= m < i && (#[trigger] self.entries@[m]).0@ == key@ ==> found && self.entries@[m].1 <= max_addr,
            decreases self.entries@.len() - i,
        {
            if self.entries[i].0 == key {
                proof {
                    lemma_entries_lookup(self.entries@, i as int);
                }
                if !found || self.entries[i].1 > max_addr {
                    max_addr = self.entries[i].1;
                }
                found = true;
            }
            i += 1;
        }
        proof {
            assert forall|x: u64| #[trigger] written.contains(x) implies found && x <= max_addr by {
                assert(self.contents().contains_key((space_id@, x)));
                let m = choose|m: int|
                    0 <= m < self.entries@.len() && entry_key(#[trigger] self.entries@[m]) == (space_id@, x);
                assert(self.entries@[m].0@ == key@);
            }
        }
        if !found {
            assert(written =~= Set::<u64>::empty());
            return 0;
        }
        assert(is_max_address(written, max_addr));
        assert(max_addr < u64::MAX) by {
            if max_addr == u64::MAX {
                assert(written.contains(u64::MAX));
            }
        }
        let end = max_addr + 1;
        let start = if end >= window_size { end - window_size } else { 0 };
        let mut addr = start;
        while addr < end
            invariant
                start <= addr <= end,
                key@ == space_id@,
                is_max_address(written, max_addr),
                max_addr < u64::MAX,
                end == max_addr + 1,
                start == if end >= window_size { end - window_size } else { 0 },
                written == written_addresses(self.contents(), space_id@),
                forall|b: u64| start <= b < addr ==> #[trigger] written.contains(b),
            decreases end - addr,
        {
            if !self.contains(&key, addr) {
                assert(!written.contains(addr));
                assert(!written.is_empty()) by {
                    assert(written.contains(max_addr));
                }
                assert(is_contiguous_tail(written, window_size, addr)) by {
                    assert(is_max_address(written, max_addr));
                }
                return addr;
            }
            addr += 1;
        }
        assert(!written.is_empty()) by {
            assert(written.contains(max_addr));
        }
        assert(is_contiguous_tail(written, window_size, end)) by {
            assert(is_max_address(written, max_addr));
        }
        end
    }
}

impl<V> TailableSpace for InMemoryWriteOnceSpaceState<V> {
    open spec fn can_tail(&self, space_id: Seq<char>) -> bool {
        !self.contents().contains_key((space_id, u64::MAX))
    }

    open spec fn tail_answer(&self, space_id: Seq<char>, window_size: u64, t: u64) -> bool {
        is_contiguous_tail(written_addresses(self.contents(), space_id), window_size, t)
    }

    open spec fn tails_succeed(&self) -> bool {
        true
    }

    fn tail(&self, space_id: &str, window_size: u64) -> (r: Result<u64, TailError>)
        ensures
            r is Ok,
    {
        Ok(self.contiguous_tail(space_id, window_size))
    }
}

impl<V: Clone> WriteOnceSpace<V> for InMemoryWriteOnceSpaceState<V> {
    open spec fn stored(&self) -> Map<(Seq<char>, u64), V> {
        self.contents()
    }

    /// Succeeds exactly at an empty address; an occupied one is the only
    /// failure.
    fn write(&mut self, space_id: &str, address: u64, value: V) -> (r: Result<(), WriteOnceError>)
        ensures
            r is Ok <==> !old(self).stored().contains_key((space_id@, address)),
            r matches Err(e) ==> e == WriteOnceError::AddressAlreadyExists(address),
    {
        self.put(space_id, address, value)
    }

    open spec fn reads_exact(&self) -> bool {
        true
    }

    proof fn lemma_can_tail(&self, space_id: Seq<char>) {
    }

    fn read(&self, space_id: &str, address: u64) -> (r: Option<V>) {
        self.get(space_id, address)
    }
}

} // verus!
