//! The key-value store and the responses its handlers produce.
//!
//! A `Store` is an associative map from string key to string value,
//! kept as a list of entries with pairwise-distinct keys. Its model is
//! the `Map` from key characters to value characters, and every
//! operation is stated against that map. On top of the map operations
//! stand the handler responses: the status code and body that a
//! request on a key produces.

use vstd::prelude::*;

verus! {

/// The status code of a response that carried the requested value.
pub const STATUS_OK: u16 = 200;

/// The status code of a response with nothing to return.
pub const STATUS_NO_CONTENT: u16 = 204;

/// The status code for a key that is not in the store.
pub const STATUS_NOT_FOUND: u16 = 404;

/// No two entries share a key.
spec fn distinct_keys(s: Seq<(String, String)>) -> bool {
    forall|i: int, j: int| 0 <= i < j < s.len() ==> s[i].0@ != s[j].0@
}

/// The map an entry list stands for; a later entry for a key would
/// shadow an earlier one, but under `distinct_keys` there is only one.
spec fn assoc_map(s: Seq<(String, String)>) -> Map<Seq<char>, Seq<char>>
    decreases s.len(),
{
    if s.len() == 0 {
        Map::empty()
    } else {
        assoc_map(s.drop_last()).insert(s.last().0@, s.last().1@)
    }
}

/// A key is in the map exactly when some entry holds it.
proof fn lemma_assoc_contains(s: Seq<(String, String)>, k: Seq<char>)
    ensures
        assoc_map(s).contains_key(k) <==> exists|i: int| 0 <= i < s.len() && s[i].0@ == k,
    decreases s.len(),
{
    if s.len() > 0 {
        lemma_assoc_contains(s.drop_last(), k);
        if assoc_map(s).contains_key(k) && s.last().0@ != k {
            let i = choose|i: int| 0 <= i < s.drop_last().len() && s.drop_last()[i].0@ == k;
            assert(s[i].0@ == k);
        }
        if exists|i: int| 0 <= i < s.len() && s[i].0@ == k {
            let i = choose|i: int| 0 <= i < s.len() && s[i].0@ == k;
            if i < s.len() - 1 {
                assert(s.drop_last()[i].0@ == k);
            }
        }
    }
}

/// The entry at position `i` gives the key its value in the map.
proof fn lemma_assoc_at(s: Seq<(String, String)>, i: int)
    requires
        distinct_keys(s),
        0 <= i < s.len(),
    ensures
        assoc_map(s).contains_key(s[i].0@),
        assoc_map(s)[s[i].0@] == s[i].1@,
    decreases s.len(),
{
    if i < s.len() - 1 {
        assert(s.drop_last()[i] == s[i]);
        lemma_assoc_at(s.drop_last(), i);
        assert(s[s.len() - 1].0@ != s[i].0@);
    }
}

/// Replacing the entry at `i` by one with the same key updates the map
/// at that key alone.
proof fn lemma_assoc_update(s: Seq<(String, String)>, i: int, e: (String, String))
    requires
        distinct_keys(s),
        0 <= i < s.len(),
        e.0@ == s[i].0@,
    ensures
        assoc_map(s.update(i, e)) =~= assoc_map(s).insert(e.0@, e.1@),
    decreases s.len(),
{
    let t = s.update(i, e);
    if i == s.len() - 1 {
        assert(t.drop_last() =~= s.drop_last());
        assert(t.last() == e);
    } else {
        assert(t.drop_last() =~= s.drop_last().update(i, e));
        assert(s.drop_last()[i] == s[i]);
        lemma_assoc_update(s.drop_last(), i, e);
        assert(t.last() == s.last());
        assert(s.last().0@ != s[i].0@);
    }
}

/// Removing the entry at `i` removes its key from the map.
proof fn lemma_assoc_remove(s: Seq<(String, String)>, i: int)
    requires
        distinct_keys(s),
        0 <= i < s.len(),
    ensures
        assoc_map(s.remove(i)) =~= assoc_map(s).remove(s[i].0@),
    decreases s.len(),
{
    let t = s.remove(i);
    if i == s.len() - 1 {
        assert(t =~= s.drop_last());
        lemma_assoc_contains(s.drop_last(), s[i].0@);
        assert(forall|j: int|
            0 <= j < s.drop_last().len() ==> s.drop_last()[j] == s[j] && s[j].0@ != s[i].0@);
        assert(!assoc_map(s.drop_last()).contains_key(s[i].0@));
    } else {
        assert(t.drop_last() =~= s.drop_last().remove(i));
        assert(s.drop_last()[i] == s[i]);
        lemma_assoc_remove(s.drop_last(), i);
        assert(t.last() == s.last());
        assert(s.last().0@ != s[i].0@);
    }
}

/// Distinct keys stay distinct when an entry is removed.
proof fn lemma_distinct_remove(s: Seq<(String, String)>, i: int)
    requires
        distinct_keys(s),
        0 <= i < s.len(),
    ensures
        distinct_keys(s.remove(i)),
{
    let t = s.remove(i);
    assert forall|a: int, b: int| 0 <= a < b < t.len() implies t[a].0@ != t[b].0@ by {
        let a0 = if a < i {
            a
        } else {
            a + 1
        };
        let b0 = if b < i {
            b
        } else {
            b + 1
        };
        assert(t[a] == s[a0] && t[b] == s[b0]);
    }
}

/// An associative map from string key to string value, with
/// pairwise-distinct keys.
pub struct Store {
    entries: Vec<(String, String)>,
}

impl View for Store {
    type V = Map<Seq<char>, Seq<char>>;

    closed spec fn view(&self) -> Map<Seq<char>, Seq<char>> {
        assoc_map(self.entries@)
    }
}

impl Store {
    /// The store's internal invariant: no two entries share a key.
    pub closed spec fn wf(&self) -> bool {
        distinct_keys(self.entries@)
    }

    /// Creates an empty store.
    pub fn new() -> (s: Store)
        ensures
            s.wf(),
            s@ == Map::<Seq<char>, Seq<char>>::empty(),
    {
        Store { entries: Vec::new() }
    }

    /// Binds `key` to `value`, replacing any earlier value of the key.
    pub fn insert(&mut self, key: String, value: String)
        requires
            old(self).wf(),
        ensures
            final(self).wf(),
            final(self)@ == old(self)@.insert(key@, value@),
    {
        let mut i: usize = 0;
        while i < self.entries.len()
            invariant
                i <= self.entries@.len(),
                *self == *old(self),
                self.wf(),
                forall|a: int| 0 <= a < i ==> self.entries@[a].0@ != key@,
            decreases self.entries@.len() - i,
        {
            if self.entries[i].0 == key {
                let ghost prev = self.entries@;
                self.entries[i] = (key, value);
                proof {
                    lemma_assoc_update(prev, i as int, self.entries@[i as int]);
                    assert(distinct_keys(self.entries@)) by {
                        assert(forall|a: int|
                            0 <= a < self.entries@.len() && a != i ==> self.entries@[a]
                                == prev[a]);
                    }
                }
                return ;
            }
            i += 1;
        }
        let ghost prev = self.entries@;
        self.entries.push((key, value));
        proof {
            assert(self.entries@.drop_last() =~= prev);
            assert(distinct_keys(self.entries@)) by {
                assert(forall|a: int| 0 <= a < prev.len() ==> self.entries@[a] == prev[a]);
            }
        }
    }

    /// The value bound to `key`, if the key is present.
    pub fn get(&self, key: &String) -> (r: Option<String>)
        requires
            self.wf(),
        ensures
            match r {
                Some(v) => self@.contains_key(key@) && v@ == self@[key@],
                None => !self@.contains_key(key@),
            },
    {
        let mut i: usize = 0;
        while i < self.entries.len()
            invariant
                i <= self.entries@.len(),
                self.wf(),
                forall|a: int| 0 <= a < i ==> self.entries@[a].0@ != key@,
            decreases self.entries@.len() - i,
        {
            if self.entries[i].0 == *key {
                proof {
                    lemma_assoc_at(self.entries@, i as int);
                }
                return Some(self.entries[i].1.clone());
            }
            i += 1;
        }
        proof {
            lemma_assoc_contains(self.entries@, key@);
        }
        None
    }

    /// Unbinds `key`; tells whether the key had been bound.
    pub fn remove(&mut self, key: &String) -> (existed: bool)
        requires
            old(self).wf(),
        ensures
            final(self).wf(),
            final(self)@ == old(self)@.remove(key@),
            existed == old(self)@.contains_key(key@),
    {
        let mut i: usize = 0;
        while i < self.entries.len()
            invariant
                i <= self.entries@.len(),
                *self == *old(self),
                self.wf(),
                forall|a: int| 0 <= a < i ==> self.entries@[a].0@ != key@,
            decreases self.entries@.len() - i,
        {
            if self.entries[i].0 == *key {
                proof {
                    lemma_assoc_at(self.entries@, i as int);
                    lemma_assoc_remove(self.entries@, i as int);
                    lemma_distinct_remove(self.entries@, i as int);
                }
                self.entries.remove(i);
                return true;
            }
            i += 1;
        }
        proof {
            lemma_assoc_contains(self.entries@, key@);
            assert(self@.remove(key@) =~= self@);
        }
        false
    }

    /// The response to storing a value: the store gains the binding and
    /// the reply is 200 with an empty body.
    pub fn put_response(&mut self, key: String, value: String) -> (r: (u16, String))
        requires
            old(self).wf(),
        ensures
            final(self).wf(),
            final(self)@ == old(self)@.insert(key@, value@),
            r.0 == STATUS_OK,
            r.1@ == Seq::<char>::empty(),
    {
        self.insert(key, value);
        (STATUS_OK, String::new())
    }

    /// The response to fetching a key: 200 with the bound value when
    /// the key is present, 404 with an empty body when it is not.
    pub fn get_response(&self, key: &String) -> (r: (u16, String))
        requires
            self.wf(),
        ensures
            self@.contains_key(key@) ==> r.0 == STATUS_OK && r.1@ == self@[key@],
            !self@.contains_key(key@) ==> r.0 == STATUS_NOT_FOUND && r.1@ == Seq::<
                char,
            >::empty(),
    {
        match self.get(key) {
            Some(v) => (STATUS_OK, v),
            None => (STATUS_NOT_FOUND, String::new()),
        }
    }

    /// The response to deleting a key: the binding is gone afterwards,
    /// and the reply is 204 when the key had been present, 404 when
    /// not; the body is empty either way.
    pub fn delete_response(&mut self, key: &String) -> (r: (u16, String))
        requires
            old(self).wf(),
        ensures
            final(self).wf(),
            final(self)@ == old(self)@.remove(key@),
            old(self)@.contains_key(key@) ==> r.0 == STATUS_NO_CONTENT,
            !old(self)@.contains_key(key@) ==> r.0 == STATUS_NOT_FOUND,
            r.1@ == Seq::<char>::empty(),
    {
        let existed = self.remove(key);
        if existed {
            (STATUS_NO_CONTENT, String::new())
        } else {
            (STATUS_NOT_FOUND, String::new())
        }
    }
}

} // verus!
