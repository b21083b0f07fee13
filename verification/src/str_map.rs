//! A map keyed by strings, kept as a list of entries in insertion order.
//! Each key occurs once; its abstract value is a `Map` from the key's
//! characters to the value's view.

use vstd::prelude::*;

verus! {

/// The map that a list of (key, value) entries denotes: a later entry for a
/// key overrides an earlier one.
pub open spec fn map_of<K, W>(s: Seq<(K, W)>) -> Map<K, W>
    decreases s.len(),
{
    if s.len() == 0 {
        Map::empty()
    } else {
        map_of(s.drop_last()).insert(s.last().0, s.last().1)
    }
}

pub proof fn lemma_map_of_dom<K, W>(s: Seq<(K, W)>, k: K)
    ensures
        map_of(s).contains_key(k) <==> exists|i: int| 0 <= i < s.len() && (#[trigger] s[i]).0 == k,
    decreases s.len(),
{
    if s.len() > 0 {
        lemma_map_of_dom(s.drop_last(), k);
        if map_of(s.drop_last()).contains_key(k) {
            let i = choose|i: int| 0 <= i < s.drop_last().len() && (#[trigger] s.drop_last()[i]).0 == k;
            assert(s[i] == s.drop_last()[i]);
        }
        if exists|i: int| 0 <= i < s.len() && (#[trigger] s[i]).0 == k {
            let i = choose|i: int| 0 <= i < s.len() && (#[trigger] s[i]).0 == k;
            if i < s.len() - 1 {
                assert(s.drop_last()[i] == s[i]);
            }
        }
    }
}

pub open spec fn distinct_keys<K, W>(s: Seq<(K, W)>) -> bool {
    forall|i: int, j: int| 0 <= i < s.len() && 0 <= j < s.len() && i != j ==> (#[trigger] s[i]).0
        != (#[trigger] s[j]).0
}

pub proof fn lemma_map_of_index<K, W>(s: Seq<(K, W)>, i: int)
    requires
        distinct_keys(s),
        0 <= i < s.len(),
    ensures
        map_of(s).contains_key(s[i].0),
        map_of(s)[s[i].0] == s[i].1,
    decreases s.len(),
{
    if i < s.len() - 1 {
        let t = s.drop_last();
        assert(t[i] == s[i]);
        assert forall|a: int, b: int| 0 <= a < t.len() && 0 <= b < t.len() && a != b implies (
        #[trigger] t[a]).0 != (#[trigger] t[b]).0 by {
            assert(t[a] == s[a] && t[b] == s[b]);
        }
        lemma_map_of_index(t, i);
        assert(s[s.len() - 1].0 != s[i].0);
    }
}

pub proof fn lemma_map_of_update<K, W>(s: Seq<(K, W)>, i: int, w: W)
    requires
        distinct_keys(s),
        0 <= i < s.len(),
    ensures
        map_of(s.update(i, (s[i].0, w))) == map_of(s).insert(s[i].0, w),
        distinct_keys(s.update(i, (s[i].0, w))),
    decreases s.len(),
{
    let u = s.update(i, (s[i].0, w));
    assert forall|a: int, b: int| 0 <= a < u.len() && 0 <= b < u.len() && a != b implies (
    #[trigger] u[a]).0 != (#[trigger] u[b]).0 by {
        assert(u[a].0 == s[a].0 && u[b].0 == s[b].0);
    }
    if i == s.len() - 1 {
        assert(u.drop_last() =~= s.drop_last());
    } else {
        let t = s.drop_last();
        assert forall|a: int, b: int| 0 <= a < t.len() && 0 <= b < t.len() && a != b implies (
        #[trigger] t[a]).0 != (#[trigger] t[b]).0 by {
            assert(t[a] == s[a] && t[b] == s[b]);
        }
        lemma_map_of_update(t, i, w);
        assert(u.drop_last() =~= t.update(i, (t[i].0, w)));
        assert(s.last().0 != s[i].0);
        assert(map_of(u) =~= map_of(s).insert(s[i].0, w));
    }
}

#[derive(Debug)]
pub struct StrMap<V> {
    entries: Vec<(String, V)>,
}

impl<V> StrMap<V> {
    #[verifier::type_invariant]
    spec fn keys_are_distinct(self) -> bool {
        forall|i: int, j: int|
            0 <= i < self.entries@.len() && 0 <= j < self.entries@.len() && i != j
                ==> (#[trigger] self.entries@[i]).0@ != (#[trigger] self.entries@[j]).0@
    }

    /// The keys, in the order they were first inserted.
    pub closed spec fn key_seq(self) -> Seq<Seq<char>> {
        self.entries@.map_values(|e: (String, V)| e.0@)
    }

    /// The values, in the order of `key_seq`.
    pub closed spec fn value_seq(self) -> Seq<V> {
        self.entries@.map_values(|e: (String, V)| e.1)
    }
}

impl<V: View> StrMap<V> {
    pub closed spec fn entry_views(self) -> Seq<(Seq<char>, V::V)> {
        self.entries@.map_values(|e: (String, V)| (e.0@, e.1@))
    }

    proof fn lemma_entries(self)
        requires
            self.keys_are_distinct(),
        ensures
            distinct_keys(self.entry_views()),
            self.key_seq().len() == self.value_seq().len(),
            self.key_seq().len() == self.entry_views().len(),
            self.key_seq().no_duplicates(),
            forall|i: int|
                0 <= i < self.key_seq().len() ==> {
                    &&& map_of(self.entry_views()).contains_key(#[trigger] self.key_seq()[i])
                    &&& map_of(self.entry_views())[self.key_seq()[i]] == self.value_seq()[i]@
                },
            forall|k: Seq<char>|
                map_of(self.entry_views()).contains_key(k) <==> self.key_seq().contains(k),
    {
        let ev = self.entry_views();
        assert forall|i: int, j: int| 0 <= i < ev.len() && 0 <= j < ev.len() && i != j implies (
        #[trigger] ev[i]).0 != (#[trigger] ev[j]).0 by {
            assert(self.entries@[i].0@ != self.entries@[j].0@);
        }
        assert forall|i: int| 0 <= i < self.key_seq().len() implies {
            &&& map_of(self.entry_views()).contains_key(#[trigger] self.key_seq()[i])
            &&& map_of(self.entry_views())[self.key_seq()[i]] == self.value_seq()[i]@
        } by {
            lemma_map_of_index(ev, i);
        }
        assert forall|k: Seq<char>| map_of(ev).contains_key(k) <==> self.key_seq().contains(k) by {
            lemma_map_of_dom(ev, k);
            if self.key_seq().contains(k) {
                let i = choose|i: int| 0 <= i < self.key_seq().len() && self.key_seq()[i] == k;
                assert(ev[i].0 == k);
            }
            if map_of(ev).contains_key(k) {
                let i = choose|i: int| 0 <= i < ev.len() && (#[trigger] ev[i]).0 == k;
                assert(self.key_seq()[i] == k);
            }
        }
        assert forall|i: int, j: int|
            0 <= i < self.key_seq().len() && 0 <= j < self.key_seq().len() && i != j implies
            self.key_seq()[i] != self.key_seq()[j] by {
            assert(self.entries@[i].0@ != self.entries@[j].0@);
        }
    }
}

impl<V: View> View for StrMap<V> {
    type V = Map<Seq<char>, V::V>;

    closed spec fn view(&self) -> Map<Seq<char>, V::V> {
        map_of(self.entry_views())
    }
}

impl<V: View> StrMap<V> {
    /// An empty map.
    pub fn new() -> (m: Self)
        ensures
            m@ == Map::<Seq<char>, V::V>::empty(),
            m.key_seq() == Seq::<Seq<char>>::empty(),
            m.value_seq() == Seq::<V>::empty(),
    {
        let m = StrMap { entries: Vec::new() };
        assert(m.entry_views() =~= Seq::empty());
        assert(m.key_seq() =~= Seq::empty());
        assert(m.value_seq() =~= Seq::empty());
        m
    }

    /// There are as many values as keys.
    pub proof fn lemma_value_seq_len(self)
        ensures
            self.key_seq().len() == self.value_seq().len(),
    {
    }

    /// Two maps with the same keys and values in the same order are the
    /// same map.
    pub proof fn lemma_same_entries(a: Self, b: Self)
        requires
            a.key_seq() == b.key_seq(),
            a.value_seq() == b.value_seq(),
        ensures
            a@ == b@,
    {
        assert(a.entries@.len() == a.key_seq().len());
        assert(b.entries@.len() == b.key_seq().len());
        assert forall|i: int| 0 <= i < a.entries@.len() implies a.entry_views()[i] == b.entry_views()[i] by {
            assert(a.key_seq()[i] == b.key_seq()[i]);
            assert(a.value_seq()[i] == b.value_seq()[i]);
            assert(a.key_seq()[i] == a.entries@[i].0@ && b.key_seq()[i] == b.entries@[i].0@);
            assert(a.value_seq()[i] == a.entries@[i].1 && b.value_seq()[i] == b.entries@[i].1);
            assert(a.entry_views()[i] == (a.entries@[i].0@, a.entries@[i].1@));
            assert(b.entry_views()[i] == (b.entries@[i].0@, b.entries@[i].1@));
        }
        assert(a.entry_views() =~= b.entry_views());
    }

    /// The number of keys.
    pub fn len(&self) -> (n: usize)
        ensures
            n == self.key_seq().len(),
            n == self.value_seq().len(),
            n == self@.len(),
            self.key_seq().no_duplicates(),
            forall|i: int|
                0 <= i < n ==> {
                    &&& self@.contains_key(#[trigger] self.key_seq()[i])
                    &&& self@[self.key_seq()[i]] == self.value_seq()[i]@
                },
    {
        proof {
            use_type_invariant(self);
            self.lemma_entries();
            assert(self@.dom() =~= self.key_seq().to_set());
            self.key_seq().unique_seq_to_set();
        }
        self.entries.len()
    }

    /// The position of `key`, if it is present.
    fn position(&self, key: &str) -> (r: Option<usize>)
        ensures
            match r {
                Some(i) => i < self.key_seq().len() && self.key_seq()[i as int] == key@,
                None => !self.key_seq().contains(key@),
            },
    {
        let k = key.to_owned();
        let mut i: usize = 0;
        while i < self.entries.len()
            invariant
                i <= self.entries@.len(),
                k@ == key@,
                forall|j: int| 0 <= j < i ==> self.key_seq()[j] != key@,
            decreases self.entries@.len() - i,
        {
            if self.entries[i].0 == k {
                return Some(i);
            }
            i = i + 1;
        }
        None
    }

    /// The value of `key`.
    pub fn get(&self, key: &str) -> (r: Option<&V>)
        ensures
            r is Some <==> self@.contains_key(key@),
            r matches Some(v) ==> v@ == self@[key@],
    {
        proof {
            use_type_invariant(self);
            self.lemma_entries();
        }
        match self.position(key) {
            Some(i) => Some(&self.entries[i].1),
            None => None,
        }
    }

    /// Whether `key` is present.
    pub fn contains_key(&self, key: &str) -> (r: bool)
        ensures
            r == self@.contains_key(key@),
    {
        proof {
            use_type_invariant(self);
            self.lemma_entries();
        }
        self.position(key).is_some()
    }

    /// The key at position `i` of `key_seq`.
    pub fn key_at(&self, i: usize) -> (k: &String)
        requires
            i < self.key_seq().len(),
        ensures
            k@ == self.key_seq()[i as int],
    {
        &self.entries[i].0
    }

    /// The value at position `i` of `key_seq`.
    pub fn value_at(&self, i: usize) -> (v: &V)
        requires
            i < self.key_seq().len(),
        ensures
            *v == self.value_seq()[i as int],
            v@ == self@[self.key_seq()[i as int]],
    {
        proof {
            use_type_invariant(self);
            self.lemma_entries();
        }
        &self.entries[i].1
    }

    /// Sets the value of `key`; a new key goes last in `key_seq`.
    pub fn insert(&mut self, key: String, value: V)
        ensures
            final(self)@ == old(self)@.insert(key@, value@),
            final(self).key_seq() == (if old(self).key_seq().contains(key@) {
                old(self).key_seq()
            } else {
                old(self).key_seq().push(key@)
            }),
    {
        proof {
            use_type_invariant(&*self);
            self.lemma_entries();
        }
        let ghost ev = self.entry_views();
        let ghost ks = self.key_seq();
        let ghost kv = key@;
        let pos = self.position(key.as_str());
        let mut entries: Vec<(String, V)> = Vec::new();
        std::mem::swap(&mut entries, &mut self.entries);
        let ghost ev2 = entries@.map_values(|e: (String, V)| (e.0@, e.1@));
        assert(ev2 =~= ev);
        match pos {
            Some(i) => {
                proof {
                    lemma_map_of_update(ev, i as int, value@);
                }
                entries.set(i, (key, value));
                let ghost ev3 = entries@.map_values(|e: (String, V)| (e.0@, e.1@));
                assert(ev3 =~= ev.update(i as int, (ev[i as int].0, value@)));
                assert(entries@.map_values(|e: (String, V)| e.0@) =~= ks);
            },
            None => {
                proof {
                    lemma_map_of_dom(ev, key@);
                    if exists|j: int| 0 <= j < ev.len() && (#[trigger] ev[j]).0 == key@ {
                        let j = choose|j: int| 0 <= j < ev.len() && (#[trigger] ev[j]).0 == key@;
                        assert(ks[j] == key@);
                    }
                }
                entries.push((key, value));
                let ghost ev3 = entries@.map_values(|e: (String, V)| (e.0@, e.1@));
                assert(ev3 =~= ev.push((key@, value@)));
                assert(ev3.drop_last() =~= ev);
                assert(entries@.map_values(|e: (String, V)| e.0@) =~= ks.push(key@));
            },
        }
        proof {
            let ks2 = entries@.map_values(|e: (String, V)| e.0@);
            assert(ks.no_duplicates());
            assert forall|i: int, j: int|
                0 <= i < entries@.len() && 0 <= j < entries@.len() && i != j implies (
            #[trigger] entries@[i]).0@ != (#[trigger] entries@[j]).0@ by {
                assert(ks2[i] == entries@[i].0@ && ks2[j] == entries@[j].0@);
                if pos is None {
                    if i < ks.len() && j < ks.len() {
                        assert(ks2[i] == ks[i] && ks2[j] == ks[j]);
                    } else if i < ks.len() {
                        assert(ks2[i] == ks[i]);
                    } else {
                        assert(ks2[j] == ks[j]);
                    }
                }
            }
        }
        self.entries = entries;
    }
}

impl<V: View + Clone> Clone for StrMap<V> {
    fn clone(&self) -> (r: Self)
        ensures
            r.key_seq() == self.key_seq(),
            r.value_seq().len() == self.value_seq().len(),
            forall|i: int| 0 <= i < self.value_seq().len() ==> cloned(self.value_seq()[i], #[trigger] r.value_seq()[i]),
    {
        proof {
            use_type_invariant(self);
        }
        let mut entries: Vec<(String, V)> = Vec::new();
        let mut i: usize = 0;
        while i < self.entries.len()
            invariant
                i <= self.entries@.len(),
                entries@.len() == i,
                forall|j: int| 0 <= j < i ==> (#[trigger] entries@[j]).0@ == self.entries@[j].0@,
                forall|j: int| 0 <= j < i ==> cloned(self.entries@[j].1, #[trigger] entries@[j].1),
                forall|a: int, b: int|
                    0 <= a < self.entries@.len() && 0 <= b < self.entries@.len() && a != b
                        ==> (#[trigger] self.entries@[a]).0@ != (#[trigger] self.entries@[b]).0@,
            decreases self.entries@.len() - i,
        {
            let k = self.entries[i].0.clone();
            let v = self.entries[i].1.clone();
            entries.push((k, v));
            i = i + 1;
        }
        let r = StrMap { entries };
        assert(r.key_seq() =~= self.key_seq());
        r
    }
}

} // verus!
