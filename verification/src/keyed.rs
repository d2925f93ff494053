//! Lists of (string key, value) pairs with distinct keys, read as maps.

use vstd::prelude::*;

verus! {

/// No two pairs share a key.
pub open spec fn keys_distinct<V>(s: Seq<(String, V)>) -> bool {
    forall|i: int, j: int|
        0 <= i < s.len() && 0 <= j < s.len() && i != j ==> (#[trigger] s[i]).0@ != (#[trigger] s[j]).0@
}

/// The map that a list of distinct-keyed pairs holds.
pub open spec fn keyed_map<V>(s: Seq<(String, V)>) -> Map<Seq<char>, V> {
    Map::new(
        |k: Seq<char>| exists|i: int| 0 <= i < s.len() && (#[trigger] s[i]).0@ == k,
        |k: Seq<char>| s[choose|i: int| 0 <= i < s.len() && (#[trigger] s[i]).0@ == k].1,
    )
}

/// The pair at `i` is what the map holds under its key.
pub proof fn lemma_keyed_lookup<V>(s: Seq<(String, V)>, i: int)
    requires
        keys_distinct(s),
        0 <= i < s.len(),
    ensures
        keyed_map(s).contains_key(s[i].0@),
        keyed_map(s)[s[i].0@] == s[i].1,
{
    let k = s[i].0@;
    assert(exists|j: int| 0 <= j < s.len() && (#[trigger] s[j]).0@ == k);
    let j = choose|j: int| 0 <= j < s.len() && (#[trigger] s[j]).0@ == k;
    assert(i == j);
}

/// Pushing a pair with a new key inserts it into the map.
pub proof fn lemma_keyed_push<V>(s: Seq<(String, V)>, e: (String, V))
    requires
        keys_distinct(s),
        !keyed_map(s).contains_key(e.0@),
    ensures
        keys_distinct(s.push(e)),
        keyed_map(s.push(e)) == keyed_map(s).insert(e.0@, e.1),
{
    let new = s.push(e);
    assert forall|i: int, j: int| 0 <= i < new.len() && 0 <= j < new.len() && i != j implies (
    #[trigger] new[i]).0@ != (#[trigger] new[j]).0@ by {
        if i < s.len() && j < s.len() {
            assert(new[i] == s[i]);
            assert(new[j] == s[j]);
        } else if i < s.len() {
            assert(new[i] == s[i]);
            assert(keyed_map(s).contains_key(s[i].0@));
        } else {
            assert(new[j] == s[j]);
            assert(keyed_map(s).contains_key(s[j].0@));
        }
    }
    let m1 = keyed_map(new);
    let m2 = keyed_map(s).insert(e.0@, e.1);
    assert forall|k: Seq<char>| m1.contains_key(k) <==> m2.contains_key(k) by {
        if m2.contains_key(k) {
            if k == e.0@ {
                assert(new[s.len() as int].0@ == k);
            } else {
                let i = choose|i: int| 0 <= i < s.len() && (#[trigger] s[i]).0@ == k;
                assert(new[i].0@ == k);
            }
        }
        if m1.contains_key(k) {
            let i = choose|i: int| 0 <= i < new.len() && (#[trigger] new[i]).0@ == k;
            if i < s.len() {
                assert(s[i].0@ == k);
            }
        }
    }
    assert forall|k: Seq<char>| m1.contains_key(k) implies m1[k] == m2[k] by {
        let i = choose|i: int| 0 <= i < new.len() && (#[trigger] new[i]).0@ == k;
        lemma_keyed_lookup(new, i);
        if i < s.len() {
            assert(new[i] == s[i]);
            lemma_keyed_lookup(s, i);
        }
    }
    assert(m1 =~= m2);
}

/// Replacing the value of a pair replaces the value under its key.
pub proof fn lemma_keyed_update<V>(s: Seq<(String, V)>, i: int, e: (String, V))
    requires
        keys_distinct(s),
        0 <= i < s.len(),
        e.0@ == s[i].0@,
    ensures
        keys_distinct(s.update(i, e)),
        keyed_map(s.update(i, e)) == keyed_map(s).insert(e.0@, e.1),
{
    let new = s.update(i, e);
    assert forall|a: int, b: int| 0 <= a < new.len() && 0 <= b < new.len() && a != b implies (
    #[trigger] new[a]).0@ != (#[trigger] new[b]).0@ by {
        assert(new[a].0@ == s[a].0@);
        assert(new[b].0@ == s[b].0@);
    }
    let m1 = keyed_map(new);
    let m2 = keyed_map(s).insert(e.0@, e.1);
    assert forall|k: Seq<char>| m1.contains_key(k) <==> m2.contains_key(k) by {
        if m2.contains_key(k) {
            if k == e.0@ {
                assert(new[i].0@ == k);
            } else {
                let j = choose|j: int| 0 <= j < s.len() && (#[trigger] s[j]).0@ == k;
                assert(new[j].0@ == k);
            }
        }
        if m1.contains_key(k) {
            let j = choose|j: int| 0 <= j < new.len() && (#[trigger] new[j]).0@ == k;
            assert(s[j].0@ == k);
        }
    }
    assert forall|k: Seq<char>| m1.contains_key(k) implies m1[k] == m2[k] by {
        let j = choose|j: int| 0 <= j < new.len() && (#[trigger] new[j]).0@ == k;
        lemma_keyed_lookup(new, j);
        if j != i {
            lemma_keyed_lookup(s, j);
        }
    }
    assert(m1 =~= m2);
}

/// The index of the pair keyed `key`, if any.
pub fn find_key<V>(s: &Vec<(String, V)>, key: &str) -> (r: Option<usize>)
    requires
        keys_distinct(s@),
    ensures
        match r {
            Some(i) => i < s@.len() && s@[i as int].0@ == key@ && keyed_map(s@).contains_key(key@) && keyed_map(
                s@,
            )[key@] == s@[i as int].1,
            None => !keyed_map(s@).contains_key(key@),
        },
{
    let k = key.to_owned();
    let mut i: usize = 0;
    while i < s.len()
        invariant
            i <= s@.len(),
            k@ == key@,
            keys_distinct(s@),
            forall|m: int| 0 <= m < i ==> (#[trigger] s@[m]).0@ != key@,
        decreases s@.len() - i,
    {
        if s[i].0 == k {
            proof {
                lemma_keyed_lookup(s@, i as int);
            }
            return Some(i);
        }
        i += 1;
    }
    None
}

} // verus!
