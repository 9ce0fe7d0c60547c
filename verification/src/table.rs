//! A hash table with constant-time lookup that can also be walked, to drop what has gone stale.

use crate::time::{elapsed, Stamped};
use vstd::hash_map::StringHashMap;
use vstd::prelude::*;
use vstd::string::*;

verus! {

broadcast use vstd::hash_map::group_hash_map_axioms;

/// A key of a `Table`. Its text tells it from every other key of its type.
pub trait TableKey: View + Sized {
    /// The text under which the key is found.
    spec fn text(k: Self::V) -> Seq<char>;

    /// Two keys with the same text are the same key.
    proof fn text_is_faithful(a: Self::V, b: Self::V)
        requires
            Self::text(a) == Self::text(b),
        ensures
            a == b,
    ;

    fn to_text(&self) -> (r: String)
        ensures
            r@ == Self::text(self@),
    ;

    fn duplicate(&self) -> (r: Self)
        ensures
            r@ == self@,
    ;
}

impl TableKey for String {
    open spec fn text(k: Seq<char>) -> Seq<char> {
        k
    }

    proof fn text_is_faithful(a: Seq<char>, b: Seq<char>) {
    }

    fn to_text(&self) -> (r: String) {
        self.clone()
    }

    fn duplicate(&self) -> (r: Self) {
        self.clone()
    }
}

/// The entries stand in `entries`; `index` gives, for the text of each key, where.
#[verifier::reject_recursive_types(K)]
#[verifier::reject_recursive_types(V)]
pub struct Table<K: TableKey, V> {
    entries: Vec<(K, V)>,
    index: StringHashMap<usize>,
}

/// Where in `s` the key `k` stands.
spec fn stands_at<K: TableKey, V>(s: Seq<(K, V)>, k: K::V, i: int) -> bool {
    0 <= i < s.len() && s[i].0@ == k
}

spec fn has_key<K: TableKey, V>(s: Seq<(K, V)>, k: K::V) -> bool {
    exists|i: int| stands_at(s, k, i)
}

spec fn distinct_keys<K: TableKey, V>(s: Seq<(K, V)>) -> bool {
    forall|i: int, j: int| 0 <= i < s.len() && 0 <= j < s.len() && i != j ==> s[i].0@ != s[j].0@
}

spec fn as_map<K: TableKey, V>(s: Seq<(K, V)>) -> Map<K::V, V> {
    Map::new(
        |k: K::V| has_key(s, k),
        |k: K::V| s[choose|i: int| stands_at(s, k, i)].1,
    )
}

proof fn lemma_entry<K: TableKey, V>(s: Seq<(K, V)>, i: int)
    requires
        distinct_keys(s),
        0 <= i < s.len(),
    ensures
        as_map(s).contains_key(s[i].0@),
        as_map(s)[s[i].0@] == s[i].1,
{
    assert(stands_at(s, s[i].0@, i));
    let j = choose|j: int| stands_at(s, s[i].0@, j);
    assert(i == j);
}

proof fn lemma_len<K: TableKey, V>(s: Seq<(K, V)>)
    requires
        distinct_keys(s),
    ensures
        as_map(s).dom().finite(),
        as_map(s).len() == s.len(),
{
    let keys = s.map_values(|e: (K, V)| e.0@);
    assert(keys.no_duplicates());
    keys.unique_seq_to_set();
    vstd::seq_lib::seq_to_set_is_finite(keys);
    assert(as_map(s).dom() =~= keys.to_set()) by {
        assert forall|k: K::V| has_key(s, k) implies keys.contains(k) by {
            let i = choose|i: int| stands_at(s, k, i);
            assert(keys[i] == k);
        }
        assert forall|k: K::V| keys.contains(k) implies has_key(s, k) by {
            let i = choose|i: int| 0 <= i < keys.len() && keys[i] == k;
            assert(stands_at(s, k, i));
        }
    }
}

proof fn lemma_push<K: TableKey, V>(s: Seq<(K, V)>, e: (K, V))
    requires
        distinct_keys(s),
        !has_key(s, e.0@),
    ensures
        distinct_keys(s.push(e)),
        as_map(s.push(e)) == as_map(s).insert(e.0@, e.1),
{
    let t = s.push(e);
    assert forall|i: int, j: int| 0 <= i < t.len() && 0 <= j < t.len() && i != j implies t[i].0@
        != t[j].0@ by {
        assert(i < s.len() ==> (s[i].0@ == e.0@ ==> stands_at(s, e.0@, i)));
        assert(j < s.len() ==> (s[j].0@ == e.0@ ==> stands_at(s, e.0@, j)));
    }
    assert forall|k: K::V| #[trigger] has_key(t, k) == (has_key(s, k) || k == e.0@) by {
        if has_key(s, k) {
            let i = choose|i: int| stands_at(s, k, i);
            assert(stands_at(t, k, i));
        }
        if k == e.0@ {
            assert(stands_at(t, k, s.len() as int));
        }
        if has_key(t, k) {
            let i = choose|i: int| stands_at(t, k, i);
            if i < s.len() {
                assert(stands_at(s, k, i));
            }
        }
    }
    assert forall|k: K::V| has_key(t, k) implies as_map(t)[k] == as_map(s).insert(e.0@, e.1)[k] by {
        let i = choose|i: int| stands_at(t, k, i);
        lemma_entry(t, i);
        if i < s.len() {
            lemma_entry(s, i);
        }
    }
    assert(as_map(t) =~= as_map(s).insert(e.0@, e.1));
}

proof fn lemma_update<K: TableKey, V>(s: Seq<(K, V)>, i: int, e: (K, V))
    requires
        distinct_keys(s),
        0 <= i < s.len(),
        s[i].0@ == e.0@,
    ensures
        distinct_keys(s.update(i, e)),
        as_map(s.update(i, e)) == as_map(s).insert(e.0@, e.1),
{
    let t = s.update(i, e);
    assert forall|k: K::V| #[trigger] has_key(t, k) == has_key(s, k) by {
        if has_key(s, k) {
            let j = choose|j: int| stands_at(s, k, j);
            assert(stands_at(t, k, j));
        }
        if has_key(t, k) {
            let j = choose|j: int| stands_at(t, k, j);
            assert(stands_at(s, k, j));
        }
    }
    assert(stands_at(s, e.0@, i));
    assert forall|k: K::V| has_key(t, k) implies as_map(t)[k] == as_map(s).insert(e.0@, e.1)[k] by {
        let j = choose|j: int| stands_at(t, k, j);
        lemma_entry(t, j);
        lemma_entry(s, j);
    }
    assert(as_map(t) =~= as_map(s).insert(e.0@, e.1));
}

/// The sequence that `swap_remove` leaves: the last entry takes the place of entry `i`.
spec fn without<A>(s: Seq<A>, i: int) -> Seq<A> {
    s.update(i, s.last()).drop_last()
}

proof fn lemma_remove<K: TableKey, V>(s: Seq<(K, V)>, i: int)
    requires
        distinct_keys(s),
        0 <= i < s.len(),
    ensures
        distinct_keys(without(s, i)),
        as_map(without(s, i)) == as_map(s).remove(s[i].0@),
{
    let t = without(s, i);
    let last = s.len() - 1;
    assert forall|k: K::V| #[trigger] has_key(t, k) == (has_key(s, k) && k != s[i].0@) by {
        if has_key(s, k) && k != s[i].0@ {
            let j = choose|j: int| stands_at(s, k, j);
            assert(stands_at(t, k, if j == last { i } else { j }));
        }
        if has_key(t, k) {
            let j = choose|j: int| stands_at(t, k, j);
            assert(stands_at(s, k, if j == i { last } else { j }));
        }
    }
    assert forall|k: K::V| has_key(t, k) implies as_map(t)[k] == as_map(s)[k] by {
        let j = choose|j: int| stands_at(t, k, j);
        lemma_entry(t, j);
        lemma_entry(s, if j == i { last } else { j });
    }
    assert(as_map(t) =~= as_map(s).remove(s[i].0@));
}

impl<K: TableKey, V> View for Table<K, V> {
    type V = Map<K::V, V>;

    closed spec fn view(&self) -> Map<K::V, V> {
        as_map(self.entries@)
    }
}

impl<K: TableKey, V> Table<K, V> {
    /// No key stands twice, and the index knows every key and no other.
    pub closed spec fn wf(&self) -> bool {
        let s = self.entries@;
        &&& distinct_keys(s)
        &&& forall|i: int| #![trigger s[i]]
            0 <= i < s.len() ==> self.index@.contains_key(K::text(s[i].0@))
                && self.index@[K::text(s[i].0@)] == i
        &&& forall|t: Seq<char>| #[trigger]
            self.index@.contains_key(t) ==> {
                &&& self.index@[t] < s.len()
                &&& K::text(s[self.index@[t] as int].0@) == t
            }
    }

    /// An empty table.
    pub fn new() -> (r: Self)
        ensures
            r.wf(),
            r@ == Map::<K::V, V>::empty(),
    {
        let r = Table { entries: Vec::new(), index: StringHashMap::new() };
        assert(as_map(r.entries@) =~= Map::<K::V, V>::empty()) by {
            assert forall|k: K::V| !has_key(r.entries@, k) by {}
        }
        r
    }

    /// The number of entries.
    pub fn len(&self) -> (r: usize)
        requires
            self.wf(),
        ensures
            r == self@.len(),
            self@.dom().finite(),
    {
        proof {
            lemma_len(self.entries@);
        }
        self.entries.len()
    }

    fn position(&self, key: &K) -> (r: Option<usize>)
        requires
            self.wf(),
        ensures
            match r {
                Some(i) => stands_at(self.entries@, key@, i as int) && self@.contains_key(key@)
                    && self@[key@] == self.entries@[i as int].1,
                None => !has_key(self.entries@, key@) && !self@.contains_key(key@),
            },
    {
        let text = key.to_text();
        match self.index.get(text.as_str()) {
            Some(i) => {
                proof {
                    K::text_is_faithful(self.entries@[*i as int].0@, key@);
                    lemma_entry(self.entries@, *i as int);
                }
                Some(*i)
            },
            None => {
                proof {
                    if has_key(self.entries@, key@) {
                        let i = choose|i: int| stands_at(self.entries@, key@, i);
                        assert(self.index@.contains_key(K::text(self.entries@[i].0@)));
                    }
                }
                None
            },
        }
    }

    /// Whether the table has an entry for `key`.
    pub fn contains_key(&self, key: &K) -> (r: bool)
        requires
            self.wf(),
        ensures
            r == self@.contains_key(key@),
    {
        self.position(key).is_some()
    }

    /// The value that stands for `key`, if any.
    pub fn get(&self, key: &K) -> (r: Option<&V>)
        requires
            self.wf(),
        ensures
            match r {
                Some(v) => self@.contains_key(key@) && *v == self@[key@],
                None => !self@.contains_key(key@),
            },
    {
        match self.position(key) {
            Some(i) => Some(&self.entries[i].1),
            None => None,
        }
    }

    /// Puts `value` under `key`, in place of what stood there.
    pub fn insert(&mut self, key: K, value: V)
        requires
            old(self).wf(),
        ensures
            final(self).wf(),
            final(self)@ == old(self)@.insert(key@, value),
    {
        let ghost k = key@;
        match self.position(&key) {
            Some(i) => {
                proof {
                    lemma_update(self.entries@, i as int, (key, value));
                }
                self.entries.set(i, (key, value));
            },
            None => {
                let n = self.entries.len();
                let text = key.to_text();
                proof {
                    lemma_push(self.entries@, (key, value));
                    assert forall|j: int| 0 <= j < n implies K::text(self.entries@[j].0@)
                        != K::text(k) by {
                        if K::text(self.entries@[j].0@) == K::text(k) {
                            K::text_is_faithful(self.entries@[j].0@, k);
                            assert(stands_at(self.entries@, k, j));
                        }
                    }
                }
                self.entries.push((key, value));
                self.index.insert(text, n);
            },
        }
    }

    /// Takes out entry `i`; the last entry takes its place.
    fn remove_at(&mut self, i: usize) -> (r: V)
        requires
            old(self).wf(),
            i < old(self).entries@.len(),
        ensures
            final(self).wf(),
            final(self).entries@ == without(old(self).entries@, i as int),
            final(self)@ == old(self)@.remove(old(self).entries@[i as int].0@),
            r == old(self).entries@[i as int].1,
    {
        let ghost s = self.entries@;
        proof {
            lemma_remove(s, i as int);
        }
        let text = self.entries[i].0.to_text();
        self.index.remove(text.as_str());
        let (_, value) = self.entries.swap_remove(i);
        assert(self.entries@ =~= without(s, i as int));
        if i < self.entries.len() {
            let moved = self.entries[i].0.to_text();
            self.index.insert(moved, i);
        }
        value
    }

    /// Takes out the value that stands for `key`, if any.
    pub fn remove(&mut self, key: &K) -> (r: Option<V>)
        requires
            old(self).wf(),
        ensures
            final(self).wf(),
            final(self)@ == old(self)@.remove(key@),
            match r {
                Some(v) => old(self)@.contains_key(key@) && v == old(self)@[key@],
                None => !old(self)@.contains_key(key@),
            },
    {
        match self.position(key) {
            Some(i) => Some(self.remove_at(i)),
            None => {
                assert(self@.remove(key@) =~= self@);
                None
            },
        }
    }
}

impl<K: TableKey, V: Stamped> Table<K, V> {
    /// Drops every entry that is not younger than `ttl` at `now`.
    pub fn sweep(&mut self, now: u128, ttl: u128)
        requires
            old(self).wf(),
        ensures
            final(self).wf(),
            final(self)@ == crate::time::fresh(old(self)@, now, ttl),
    {
        let ghost target = crate::time::fresh(self@, now, ttl);
        let mut i: usize = 0;
        while i < self.entries.len()
            invariant
                self.wf(),
                i <= self.entries@.len(),
                crate::time::fresh(self@, now, ttl) == target,
                forall|j: int|
                    0 <= j < i ==> crate::time::is_fresh(
                        now,
                        (#[trigger] self.entries@[j]).1.stamp(),
                        ttl,
                    ),
            decreases self.entries@.len() - i,
        {
            proof {
                lemma_entry(self.entries@, i as int);
            }
            if elapsed(now, self.entries[i].1.moment()) < ttl {
                i += 1;
            } else {
                let ghost before = self@;
                self.remove_at(i);
                assert(crate::time::fresh(self@, now, ttl) =~= crate::time::fresh(
                    before,
                    now,
                    ttl,
                ));
            }
        }
        assert(self@ =~= target) by {
            assert forall|k: K::V| #[trigger] self@.contains_key(k) implies target.contains_key(k) by {
                let j = choose|j: int| stands_at(self.entries@, k, j);
                lemma_entry(self.entries@, j);
            }
        }
    }
}

} // verus!
