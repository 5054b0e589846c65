//! A small map keyed by text, kept as a list of entries in insertion order.
use vstd::prelude::*;

verus! {

/// A map from text keys to values; entries keep the order in which keys first came.
pub struct StrMap<V> {
    entries: Vec<(String, V)>,
}

/// The map that a list of entries describes, later entries overriding earlier ones.
pub open spec fn entries_map<V>(s: Seq<(String, V)>) -> Map<Seq<char>, V>
    decreases s.len(),
{
    if s.len() == 0 {
        Map::empty()
    } else {
        entries_map(s.drop_last()).insert(s.last().0@, s.last().1)
    }
}

/// Whether no key occurs twice in a list of entries.
pub open spec fn distinct_keys<V>(s: Seq<(String, V)>) -> bool {
    forall|i: int, j: int| 0 <= i < j < s.len() ==> s[i].0@ != s[j].0@
}

proof fn lemma_entries_map<V>(s: Seq<(String, V)>)
    requires
        distinct_keys(s),
    ensures
        forall|i: int|
            0 <= i < s.len() ==> #[trigger] entries_map(s).contains_key(s[i].0@) && entries_map(
                s,
            )[s[i].0@] == s[i].1,
        forall|k: Seq<char>|
            #[trigger] entries_map(s).contains_key(k) ==> exists|i: int|
                0 <= i < s.len() && s[i].0@ == k,
    decreases s.len(),
{
    if s.len() > 0 {
        let p = s.drop_last();
        assert(distinct_keys(p));
        lemma_entries_map(p);
        assert(entries_map(s) == entries_map(p).insert(s.last().0@, s.last().1));
        assert forall|k: Seq<char>| #[trigger] entries_map(s).contains_key(k) implies exists|i: int|
            0 <= i < s.len() && s[i].0@ == k by {
            if k != s.last().0@ {
                assert(entries_map(p).contains_key(k));
                let i = choose|i: int| 0 <= i < p.len() && p[i].0@ == k;
                assert(s[i].0@ == k);
            } else {
                assert(s[s.len() - 1].0@ == k);
            }
        }
        assert forall|i: int| 0 <= i < s.len() implies #[trigger] entries_map(s).contains_key(
            s[i].0@,
        ) && entries_map(s)[s[i].0@] == s[i].1 by {
            if i < s.len() - 1 {
                assert(p[i] == s[i]);
                assert(s[i].0@ != s.last().0@);
            }
        }
    }
}

proof fn lemma_entries_map_update<V>(s: Seq<(String, V)>, i: int, v: V)
    requires
        distinct_keys(s),
        0 <= i < s.len(),
    ensures
        distinct_keys(s.update(i, (s[i].0, v))),
        entries_map(s.update(i, (s[i].0, v))) == entries_map(s).insert(s[i].0@, v),
{
    let t = s.update(i, (s[i].0, v));
    assert(distinct_keys(t));
    lemma_entries_map(s);
    lemma_entries_map(t);
    assert forall|k: Seq<char>| #[trigger] entries_map(t).contains_key(k) <==> entries_map(
        s,
    ).insert(s[i].0@, v).contains_key(k) by {
        if entries_map(t).contains_key(k) {
            let j = choose|j: int| 0 <= j < t.len() && t[j].0@ == k;
            assert(s[j].0@ == k);
        }
        if entries_map(s).contains_key(k) {
            let j = choose|j: int| 0 <= j < s.len() && s[j].0@ == k;
            assert(t[j].0@ == k);
        }
    }
    assert forall|k: Seq<char>| #[trigger] entries_map(t).contains_key(k) implies entries_map(t)[k]
        == entries_map(s).insert(s[i].0@, v)[k] by {
        let j = choose|j: int| 0 <= j < t.len() && t[j].0@ == k;
        if j != i {
            assert(s[j].0@ != s[i].0@);
        }
    }
    assert(entries_map(t) =~= entries_map(s).insert(s[i].0@, v));
}

impl<V> View for StrMap<V> {
    type V = Map<Seq<char>, V>;

    closed spec fn view(&self) -> Map<Seq<char>, V> {
        entries_map(self.entries@)
    }
}

impl<V> StrMap<V> {
    /// Whether the entries hold each key once.
    pub closed spec fn wf(&self) -> bool {
        distinct_keys(self.entries@)
    }

    /// The keys in the order in which they first came.
    pub closed spec fn key_order(&self) -> Seq<Seq<char>> {
        self.entries@.map_values(|e: (String, V)| e.0@)
    }

    /// Every key of the order is a key of the map, and the other way round.
    pub proof fn lemma_key_order(&self)
        requires
            self.wf(),
        ensures
            self.key_order().len() == self.view().dom().len(),
            forall|i: int|
                0 <= i < self.key_order().len() ==> #[trigger] self@.contains_key(
                    self.key_order()[i],
                ),
            forall|k: Seq<char>| #[trigger] self@.contains_key(k) ==> self.key_order().contains(k),
            self.key_order().no_duplicates(),
    {
        lemma_entries_map(self.entries@);
        let ko = self.key_order();
        assert forall|i: int| 0 <= i < ko.len() implies #[trigger] self@.contains_key(ko[i]) by {
            assert(ko[i] == self.entries@[i].0@);
        }
        assert forall|k: Seq<char>| #[trigger] self@.contains_key(k) implies ko.contains(k) by {
            let i = choose|i: int| 0 <= i < self.entries@.len() && self.entries@[i].0@ == k;
            assert(ko[i] == k);
        }
        assert(ko.no_duplicates());
        ko.unique_seq_to_set();
        assert(ko.to_set() =~= self@.dom());
    }

    /// An empty map.
    pub fn new() -> (m: StrMap<V>)
        ensures
            m.wf(),
            m@ == Map::<Seq<char>, V>::empty(),
            m.key_order() == Seq::<Seq<char>>::empty(),
    {
        let m = StrMap { entries: Vec::new() };
        assert(m.key_order() =~= Seq::<Seq<char>>::empty());
        m
    }

    /// Number of keys.
    pub fn len(&self) -> (n: usize)
        requires
            self.wf(),
        ensures
            n == self@.dom().len(),
            n == self.key_order().len(),
    {
        proof {
            self.lemma_key_order();
        }
        self.entries.len()
    }

    /// The index of a key among the entries.
    fn find(&self, k: &String) -> (r: Option<usize>)
        requires
            self.wf(),
        ensures
            match r {
                Some(i) => i < self.entries@.len() && self.entries@[i as int].0@ == k@,
                None => !self@.contains_key(k@),
            },
    {
        proof {
            lemma_entries_map(self.entries@);
        }
        let mut i: usize = 0;
        while i < self.entries.len()
            invariant
                i <= self.entries@.len(),
                forall|j: int| 0 <= j < i ==> self.entries@[j].0@ != k@,
            decreases self.entries@.len() - i,
        {
            if self.entries[i].0 == *k {
                return Some(i);
            }
            i = i + 1;
        }
        None
    }

    /// Whether the key is present.
    pub fn contains_key(&self, k: &String) -> (b: bool)
        requires
            self.wf(),
        ensures
            b == self@.contains_key(k@),
    {
        proof {
            lemma_entries_map(self.entries@);
        }
        self.find(k).is_some()
    }

    /// The value of a key.
    pub fn get(&self, k: &String) -> (r: Option<&V>)
        requires
            self.wf(),
        ensures
            match r {
                Some(v) => self@.contains_key(k@) && self@[k@] == *v,
                None => !self@.contains_key(k@),
            },
    {
        proof {
            lemma_entries_map(self.entries@);
        }
        match self.find(k) {
            Some(i) => {
                assert(entries_map(self.entries@).contains_key(self.entries@[i as int].0@));
                Some(&self.entries[i].1)
            },
            None => None,
        }
    }

    /// The key at a place of the order.
    pub fn key_at(&self, i: usize) -> (k: &String)
        requires
            self.wf(),
            i < self.key_order().len(),
        ensures
            k@ == self.key_order()[i as int],
    {
        &self.entries[i].0
    }

    /// The map that a list of entries describes, later entries overriding
    /// earlier ones.
    pub fn from_entries(entries: Vec<(String, V)>) -> (m: StrMap<V>)
        ensures
            m.wf(),
            m@ == entries_map(entries@),
    {
        let ghost all = entries@;
        let mut rest = entries;
        let mut m: StrMap<V> = StrMap::new();
        assert(all.take(0) =~= Seq::<(String, V)>::empty());
        assert(all.skip(0) =~= all);
        while rest.len() > 0
            invariant
                m.wf(),
                rest@.len() <= all.len(),
                rest@ == all.skip(all.len() - rest@.len()),
                m@ == entries_map(all.take(all.len() - rest@.len())),
            decreases rest@.len(),
        {
            let ghost done = all.len() - rest@.len();
            let e = rest.remove(0);
            assert(all.skip(done)[0] == e);
            assert(all.take(done + 1).drop_last() =~= all.take(done));
            assert(all.take(done + 1).last() == e);
            assert(rest@ =~= all.skip(done + 1));
            m.insert(e.0, e.1);
        }
        assert(all.take(all.len() as int) =~= all);
        m
    }

    /// The entries, each key once, in the order in which keys first came.
    pub fn into_entries(self) -> (e: Vec<(String, V)>)
        requires
            self.wf(),
        ensures
            distinct_keys(e@),
            entries_map(e@) == self@,
    {
        self.entries
    }

    /// Sets the value of a key; a new key goes last in the order.
    pub fn insert(&mut self, k: String, v: V)
        requires
            old(self).wf(),
        ensures
            final(self).wf(),
            final(self)@ == old(self)@.insert(k@, v),
            old(self)@.contains_key(k@) ==> final(self).key_order() == old(self).key_order(),
            !old(self)@.contains_key(k@) ==> final(self).key_order() == old(self).key_order().push(
                k@,
            ),
    {
        match self.find(&k) {
            Some(i) => {
                let ghost s = self.entries@;
                proof {
                    lemma_entries_map_update(s, i as int, v);
                    lemma_entries_map(s);
                }
                let key = self.entries[i].0.clone();
                self.entries.set(i, (key, v));
                assert(self.entries@ == s.update(i as int, (s[i as int].0, v)));
                assert(self.key_order() =~= old(self).key_order());
            },
            None => {
                let ghost s = self.entries@;
                proof {
                    lemma_entries_map(s);
                }
                self.entries.push((k, v));
                assert(self.entries@.drop_last() =~= s);
                assert(self.key_order() =~= old(self).key_order().push(k@));
                assert forall|i: int, j: int|
                    0 <= i < j < self.entries@.len() implies self.entries@[i].0@
                    != self.entries@[j].0@ by {
                    if j == s.len() {
                        assert(entries_map(s).contains_key(s[i].0@));
                    }
                }
            },
        }
    }
}

} // verus!
