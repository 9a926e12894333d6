//! A map keyed by text: the plugin configuration (`color_<alias>` entries)
//! and the per-part widget output cache.
use vstd::prelude::*;

use vstd::std_specs::cmp::PartialEqSpecImpl;

use crate::text::{chars_of, equals_str};

verus! {

/// A finite map from text keys to values; each key occurs at most once.
#[derive(Debug)]
pub struct TextMap<V> {
    entries: Vec<(String, V)>,
}

/// The map that a list of distinct-keyed entries stands for.
pub open spec fn map_of_entries<V>(entries: Seq<(String, V)>) -> Map<Seq<char>, V>
    decreases entries.len(),
{
    if entries.len() == 0 {
        Map::empty()
    } else {
        map_of_entries(entries.drop_last()).insert(
            entries.last().0@,
            entries.last().1,
        )
    }
}

pub open spec fn keys_distinct<V>(entries: Seq<(String, V)>) -> bool {
    forall|i: int, j: int|
        0 <= i < j < entries.len() ==> #[trigger] entries[i].0@ != #[trigger] entries[j].0@
}

proof fn lemma_map_of_entries<V>(entries: Seq<(String, V)>)
    requires
        keys_distinct(entries),
    ensures
        map_of_entries(entries).dom().finite(),
        map_of_entries(entries).dom().len() == entries.len(),
        forall|i: int|
            0 <= i < entries.len() ==> {
                &&& #[trigger] map_of_entries(entries).contains_key(entries[i].0@)
                &&& map_of_entries(entries)[entries[i].0@] == entries[i].1
            },
        forall|k: Seq<char>|
            #[trigger] map_of_entries(entries).contains_key(k) ==> exists|i: int|
                0 <= i < entries.len() && #[trigger] entries[i].0@ == k,
    decreases entries.len(),
{
    if entries.len() > 0 {
        let init = entries.drop_last();
        assert(keys_distinct(init)) by {
            assert forall|i: int, j: int| 0 <= i < j < init.len() implies #[trigger] init[i].0@
                != #[trigger] init[j].0@ by {
                assert(init[i] == entries[i] && init[j] == entries[j]);
            }
        }
        lemma_map_of_entries(init);
        let last = entries.last();
        assert(!map_of_entries(init).contains_key(last.0@)) by {
            if map_of_entries(init).contains_key(last.0@) {
                let i = choose|i: int| 0 <= i < init.len() && #[trigger] init[i].0@ == last.0@;
                assert(entries[i].0@ != entries[entries.len() - 1].0@);
            }
        }
        assert forall|i: int| 0 <= i < entries.len() implies {
            &&& #[trigger] map_of_entries(entries).contains_key(entries[i].0@)
            &&& map_of_entries(entries)[entries[i].0@] == entries[i].1
        } by {
            if i < entries.len() - 1 {
                assert(entries[i] == init[i]);
                assert(entries[i].0@ != last.0@);
            }
        }
        assert forall|k: Seq<char>| #[trigger] map_of_entries(entries).contains_key(k) implies exists|i: int|
            0 <= i < entries.len() && #[trigger] entries[i].0@ == k by {
            if k == last.0@ {
                assert(entries[entries.len() - 1].0@ == k);
            } else {
                let i = choose|i: int| 0 <= i < init.len() && #[trigger] init[i].0@ == k;
                assert(entries[i] == init[i]);
            }
        }
    }
}

/// Overwriting the entry whose key is `k` stores the new value under `k`.
proof fn lemma_same_map_update<V>(old_entries: Seq<(String, V)>, ne: Seq<(String, V)>, i: int)
    requires
        keys_distinct(old_entries),
        keys_distinct(ne),
        0 <= i < old_entries.len(),
        ne.len() == old_entries.len(),
        ne[i].0@ == old_entries[i].0@,
        forall|j: int| 0 <= j < ne.len() && j != i ==> ne[j] == old_entries[j],
    ensures
        map_of_entries(ne) == map_of_entries(old_entries).insert(ne[i].0@, ne[i].1),
{
    lemma_map_of_entries(ne);
    lemma_map_of_entries(old_entries);
    let m1 = map_of_entries(ne);
    let m2 = map_of_entries(old_entries).insert(ne[i].0@, ne[i].1);
    assert forall|k: Seq<char>| #[trigger] m1.contains_key(k) <==> m2.contains_key(k) by {
        if m1.contains_key(k) {
            let j = choose|j: int| 0 <= j < ne.len() && #[trigger] ne[j].0@ == k;
            if j != i {
                assert(old_entries[j].0@ == k);
            }
        }
        if map_of_entries(old_entries).contains_key(k) {
            let j = choose|j: int| 0 <= j < old_entries.len() && #[trigger] old_entries[j].0@ == k;
            if j != i {
                assert(ne[j].0@ == k);
            }
        }
    }
    assert forall|k: Seq<char>| #[trigger] m1.contains_key(k) implies m1[k] == m2[k] by {
        let j = choose|j: int| 0 <= j < ne.len() && #[trigger] ne[j].0@ == k;
        if j != i {
            assert(old_entries[j].0@ == k);
            assert(k != ne[i].0@);
        }
    }
    assert(m1 =~= m2);
}

impl<V> TextMap<V> {
    #[verifier::type_invariant]
    spec fn well_formed(self) -> bool {
        keys_distinct(self.entries@)
    }

    /// The map's contents.
    pub closed spec fn view(&self) -> Map<Seq<char>, V> {
        map_of_entries(self.entries@)
    }

    /// How many entries the map holds.
    pub closed spec fn size(&self) -> nat {
        self.entries@.len()
    }

    /// An empty map.
    pub fn new() -> (m: Self)
        ensures
            m.view() == Map::<Seq<char>, V>::empty(),
            m.size() == 0,
    {
        TextMap { entries: Vec::new() }
    }

    /// The value stored under `key`, if any.
    pub fn get(&self, key: &str) -> (r: Option<&V>)
        ensures
            match r {
                Some(v) => self.view().contains_key(key@) && self.view()[key@] == *v,
                None => !self.view().contains_key(key@),
            },
            r is Some ==> self.size() > 0,
    {
        proof {
            use_type_invariant(self);
            lemma_map_of_entries(self.entries@);
        }
        let k = chars_of(key);
        let mut i: usize = 0;
        while i < self.entries.len()
            invariant
                k@ == key@,
                i <= self.entries@.len(),
                forall|j: int| 0 <= j < i ==> #[trigger] self.entries@[j].0@ != key@,
            decreases self.entries@.len() - i,
        {
            if equals_str(k.as_slice(), self.entries[i].0.as_str()) {
                proof {
                    use_type_invariant(self);
                    lemma_map_of_entries(self.entries@);
                    assert(self.view().contains_key(self.entries@[i as int].0@));
                }
                return Some(&self.entries[i].1);
            }
            i += 1;
        }
        None
    }

    /// Whether the map holds no entry.
    pub fn is_empty(&self) -> (b: bool)
        ensures
            b == (self.view().dom() == Set::<Seq<char>>::empty()),
    {
        proof {
            use_type_invariant(self);
            lemma_map_of_entries(self.entries@);
            if self.entries@.len() > 0 {
                assert(self.view().contains_key(self.entries@[0].0@));
            } else {
                assert(self.view().dom() =~= Set::<Seq<char>>::empty());
            }
        }
        self.entries.len() == 0
    }

    /// Stores `value` under `key`, replacing what was stored there.
    pub fn insert(&mut self, key: String, value: V)
        ensures
            final(self).view() == old(self).view().insert(key@, value),
    {
        proof {
            use_type_invariant(&*self);
            lemma_map_of_entries(self.entries@);
        }
        let k = chars_of(key.as_str());
        let mut i: usize = 0;
        while i < self.entries.len()
            invariant
                k@ == key@,
                i <= self.entries@.len(),
                forall|j: int| 0 <= j < i ==> #[trigger] self.entries@[j].0@ != key@,
            ensures
                i <= self.entries@.len(),
                i < self.entries@.len() ==> self.entries@[i as int].0@ == key@,
                forall|j: int| 0 <= j < i ==> #[trigger] self.entries@[j].0@ != key@,
            decreases self.entries@.len() - i,
        {
            if equals_str(k.as_slice(), self.entries[i].0.as_str()) {
                break;
            }
            i += 1;
        }
        let ghost old_entries = self.entries@;
        let mut entries: Vec<(String, V)> = Vec::new();
        std::mem::swap(&mut entries, &mut self.entries);
        if i < entries.len() {
            entries.set(i, (key, value));
            proof {
                let ne = entries@;
                assert(ne == old_entries.update(i as int, ne[i as int]));
                assert(keys_distinct(ne)) by {
                    assert forall|a: int, b: int| 0 <= a < b < ne.len() implies #[trigger] ne[a].0@
                        != #[trigger] ne[b].0@ by {
                        if a != i && b != i {
                            assert(ne[a] == old_entries[a] && ne[b] == old_entries[b]);
                        } else if a == i {
                            assert(ne[b] == old_entries[b]);
                            assert(old_entries[i as int].0@ != old_entries[b].0@);
                        } else {
                            assert(ne[a] == old_entries[a]);
                            assert(old_entries[a].0@ != old_entries[i as int].0@);
                        }
                    }
                }
                lemma_map_of_entries(ne);
                lemma_map_of_entries(old_entries);
                lemma_same_map_update(old_entries, ne, i as int);
            }
        } else {
            entries.push((key, value));
            proof {
                let ne = entries@;
                assert(ne.drop_last() == old_entries);
                assert(keys_distinct(ne)) by {
                    assert forall|a: int, b: int| 0 <= a < b < ne.len() implies #[trigger] ne[a].0@
                        != #[trigger] ne[b].0@ by {
                        if b < ne.len() - 1 {
                            assert(ne[a] == old_entries[a] && ne[b] == old_entries[b]);
                        } else {
                            assert(ne[a] == old_entries[a]);
                        }
                    }
                }
            }
        }
        self.entries = entries;
    }
}

impl<V: Clone> Clone for TextMap<V> {
    /// A copy with the same keys, each value cloned.
    fn clone(&self) -> (r: Self)
        ensures
            r.view().dom() == self.view().dom(),
            forall|k: Seq<char>|
                #[trigger] r.view().contains_key(k) ==> cloned::<V>(self.view()[k], r.view()[k]),
    {
        proof {
            use_type_invariant(self);
            lemma_map_of_entries(self.entries@);
        }
        let mut entries: Vec<(String, V)> = Vec::new();
        let mut i: usize = 0;
        while i < self.entries.len()
            invariant
                keys_distinct(self.entries@),
                i <= self.entries@.len(),
                entries@.len() == i,
                forall|j: int|
                    0 <= j < i ==> {
                        &&& (#[trigger] entries@[j]).0@ == self.entries@[j].0@
                        &&& cloned::<V>(self.entries@[j].1, entries@[j].1)
                    },
            decreases self.entries@.len() - i,
        {
            let key = self.entries[i].0.clone();
            let value = self.entries[i].1.clone();
            entries.push((key, value));
            i += 1;
        }
        proof {
            assert(keys_distinct(entries@)) by {
                assert forall|a: int, b: int| 0 <= a < b < entries@.len() implies #[trigger] entries@[a].0@
                    != #[trigger] entries@[b].0@ by {
                    assert(self.entries@[a].0@ != self.entries@[b].0@);
                }
            }
            lemma_map_of_entries(entries@);
            let m1 = map_of_entries(entries@);
            let m2 = map_of_entries(self.entries@);
            assert forall|k: Seq<char>| #[trigger] m1.contains_key(k) <==> m2.contains_key(k) by {
                if m1.contains_key(k) {
                    let j = choose|j: int| 0 <= j < entries@.len() && #[trigger] entries@[j].0@ == k;
                    assert(self.entries@[j].0@ == k);
                }
                if m2.contains_key(k) {
                    let j = choose|j: int| 0 <= j < self.entries@.len() && #[trigger] self.entries@[j].0@ == k;
                    assert(entries@[j].0@ == k);
                }
            }
            assert(m1.dom() =~= m2.dom());
            assert forall|k: Seq<char>| #[trigger] m1.contains_key(k) implies cloned::<V>(m2[k], m1[k]) by {
                let j = choose|j: int| 0 <= j < entries@.len() && #[trigger] entries@[j].0@ == k;
                assert(self.entries@[j].0@ == k);
            }
        }
        TextMap { entries }
    }
}

impl TextMap<String> {
    /// Whether every key of this map is in `other`, with the same text.
    fn included_in(&self, other: &TextMap<String>) -> (b: bool)
        ensures
            b == forall|k: Seq<char>|
                #[trigger] self.view().contains_key(k) ==> {
                    &&& other.view().contains_key(k)
                    &&& self.view()[k]@ == other.view()[k]@
                },
    {
        proof {
            use_type_invariant(self);
            lemma_map_of_entries(self.entries@);
        }
        let mut i: usize = 0;
        while i < self.entries.len()
            invariant
                i <= self.entries@.len(),
                keys_distinct(self.entries@),
                forall|j: int|
                    0 <= j < i ==> {
                        &&& other.view().contains_key(#[trigger] self.entries@[j].0@)
                        &&& self.entries@[j].1@ == other.view()[self.entries@[j].0@]@
                    },
            decreases self.entries@.len() - i,
        {
            proof {
                lemma_map_of_entries(self.entries@);
            }
            match other.get(self.entries[i].0.as_str()) {
                Some(v) => {
                    if !(self.entries[i].1 == *v) {
                        assert(self.view().contains_key(self.entries@[i as int].0@));
                        return false;
                    }
                },
                None => {
                    assert(self.view().contains_key(self.entries@[i as int].0@));
                    return false;
                },
            }
            i += 1;
        }
        proof {
            lemma_map_of_entries(self.entries@);
            assert forall|k: Seq<char>| #[trigger] self.view().contains_key(k) implies {
                &&& other.view().contains_key(k)
                &&& self.view()[k]@ == other.view()[k]@
            } by {
                let j = choose|j: int| 0 <= j < self.entries@.len() && #[trigger] self.entries@[j].0@ == k;
            }
        }
        true
    }
}

impl PartialEq for TextMap<String> {
    /// Two maps are equal when they hold the same keys with the same texts,
    /// whatever the order in which the keys were inserted.
    fn eq(&self, other: &Self) -> (r: bool) {
        let forward = self.included_in(other);
        let backward = other.included_in(self);
        proof {
            let a = self.view().map_values(|s: String| s@);
            let b = other.view().map_values(|s: String| s@);
            if forward && backward {
                assert(a =~= b);
            }
            if a == b {
                assert forall|k: Seq<char>| #[trigger] self.view().contains_key(k) implies {
                    &&& other.view().contains_key(k)
                    &&& self.view()[k]@ == other.view()[k]@
                } by {
                    assert(a.contains_key(k) && b.contains_key(k));
                    assert(a[k] == b[k]);
                }
                assert forall|k: Seq<char>| #[trigger] other.view().contains_key(k) implies {
                    &&& self.view().contains_key(k)
                    &&& other.view()[k]@ == self.view()[k]@
                } by {
                    assert(a.contains_key(k) && b.contains_key(k));
                    assert(a[k] == b[k]);
                }
            }
        }
        forward && backward
    }
}

impl PartialEqSpecImpl for TextMap<String> {
    open spec fn obeys_eq_spec() -> bool {
        true
    }

    open spec fn eq_spec(&self, other: &TextMap<String>) -> bool {
        self.view().map_values(|s: String| s@) == other.view().map_values(|s: String| s@)
    }
}

} // verus!
