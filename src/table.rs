//! An association list keyed by strings, with unique keys, viewed as a map.

use vstd::prelude::*;

verus! {

/// The map that a list of pairs denotes: later pairs override earlier ones.
pub open spec fn map_of<V>(s: Seq<(String, V)>) -> Map<Seq<char>, V>
    decreases s.len(),
{
    if s.len() == 0 {
        Map::empty()
    } else {
        map_of(s.drop_last()).insert(s.last().0@, s.last().1)
    }
}

/// The character sequences of a list of strings.
pub open spec fn views(v: Seq<String>) -> Seq<Seq<char>> {
    v.map_values(|s: String| s@)
}

/// No key occurs twice.
pub open spec fn keys_unique<V>(s: Seq<(String, V)>) -> bool {
    forall|i: int, j: int|
        0 <= i < s.len() && 0 <= j < s.len() && i != j ==> #[trigger] s[i].0@ != #[trigger] s[j].0@
}

proof fn lemma_map_of_dom<V>(s: Seq<(String, V)>, k: Seq<char>)
    ensures
        map_of(s).contains_key(k) <==> exists|i: int| 0 <= i < s.len() && #[trigger] s[i].0@ == k,
    decreases s.len(),
{
    if s.len() > 0 {
        lemma_map_of_dom(s.drop_last(), k);
        if map_of(s.drop_last()).contains_key(k) {
            let i = choose|i: int| 0 <= i < s.drop_last().len() && #[trigger] s.drop_last()[i].0@ == k;
            assert(s[i].0@ == k);
        }
        if exists|i: int| 0 <= i < s.len() && #[trigger] s[i].0@ == k {
            let i = choose|i: int| 0 <= i < s.len() && #[trigger] s[i].0@ == k;
            if i < s.len() - 1 {
                assert(s.drop_last()[i].0@ == k);
            }
        }
    }
}

/// With unique keys, the map sends each key of the list to its value there.
pub proof fn lemma_value_at<V>(s: Seq<(String, V)>, i: int)
    requires
        keys_unique(s),
        0 <= i < s.len(),
    ensures
        map_of(s).contains_key(s[i].0@),
        map_of(s)[s[i].0@] == s[i].1,
{
    lemma_map_of_at(s, i);
}

proof fn lemma_map_of_at<V>(s: Seq<(String, V)>, i: int)
    requires
        keys_unique(s),
        0 <= i < s.len(),
    ensures
        map_of(s).contains_key(s[i].0@),
        map_of(s)[s[i].0@] == s[i].1,
    decreases s.len(),
{
    if i < s.len() - 1 {
        let t = s.drop_last();
        assert(t[i] == s[i]);
        assert(keys_unique(t)) by {
            assert forall|a: int, b: int|
                0 <= a < t.len() && 0 <= b < t.len() && a != b implies #[trigger] t[a].0@
                != #[trigger] t[b].0@ by {
                assert(t[a] == s[a] && t[b] == s[b]);
            }
        }
        lemma_map_of_at(t, i);
        assert(s[i].0@ != s[s.len() - 1].0@);
    }
}

proof fn lemma_map_of_update<V>(s: Seq<(String, V)>, i: int, v: V)
    requires
        keys_unique(s),
        0 <= i < s.len(),
    ensures
        map_of(s.update(i, (s[i].0, v))) == map_of(s).insert(s[i].0@, v),
    decreases s.len(),
{
    let u = s.update(i, (s[i].0, v));
    if i == s.len() - 1 {
        assert(u.drop_last() == s.drop_last());
        lemma_not_in_prefix(s);
        assert(map_of(u) =~= map_of(s).insert(s[i].0@, v));
    } else {
        let t = s.drop_last();
        assert(keys_unique(t)) by {
            assert forall|a: int, b: int|
                0 <= a < t.len() && 0 <= b < t.len() && a != b implies #[trigger] t[a].0@
                != #[trigger] t[b].0@ by {
                assert(t[a] == s[a] && t[b] == s[b]);
            }
        }
        lemma_map_of_update(t, i, v);
        assert(u.drop_last() == t.update(i, (t[i].0, v)));
        assert(s[i].0@ != s.last().0@);
        assert(map_of(u) =~= map_of(s).insert(s[i].0@, v));
    }
}

/// The last key of a list with unique keys does not occur before it.
proof fn lemma_not_in_prefix<V>(s: Seq<(String, V)>)
    requires
        keys_unique(s),
        s.len() > 0,
    ensures
        !map_of(s.drop_last()).contains_key(s.last().0@),
{
    lemma_map_of_dom(s.drop_last(), s.last().0@);
    if map_of(s.drop_last()).contains_key(s.last().0@) {
        let i = choose|i: int|
            0 <= i < s.drop_last().len() && #[trigger] s.drop_last()[i].0@ == s.last().0@;
        assert(s[i].0@ == s[s.len() - 1].0@);
    }
}

proof fn lemma_map_of_remove<V>(s: Seq<(String, V)>, i: int)
    requires
        keys_unique(s),
        0 <= i < s.len(),
    ensures
        map_of(s.remove(i)) == map_of(s).remove(s[i].0@),
    decreases s.len(),
{
    let r = s.remove(i);
    let k = s[i].0@;
    if i == s.len() - 1 {
        assert(r == s.drop_last());
        lemma_not_in_prefix(s);
        assert(map_of(r) =~= map_of(s).remove(k));
    } else {
        let t = s.drop_last();
        assert(keys_unique(t)) by {
            assert forall|a: int, b: int|
                0 <= a < t.len() && 0 <= b < t.len() && a != b implies #[trigger] t[a].0@
                != #[trigger] t[b].0@ by {
                assert(t[a] == s[a] && t[b] == s[b]);
            }
        }
        lemma_map_of_remove(t, i);
        assert(r.drop_last() == t.remove(i));
        assert(r.last() == s.last());
        assert(s.last().0@ != k);
        assert(map_of(r) =~= map_of(s).remove(k));
    }
}

/// A finite map from strings to values, kept as a list of pairs in insertion order.
#[derive(Debug)]
pub struct Table<V> {
    pub items: Vec<(String, V)>,
}

impl<V> Table<V> {
    pub open spec fn view(&self) -> Map<Seq<char>, V> {
        map_of(self.items@)
    }

    /// Keys are unique.
    pub open spec fn wf(&self) -> bool {
        keys_unique(self.items@)
    }

    /// The keys in the order in which they were first inserted.
    pub open spec fn key_seq(&self) -> Seq<Seq<char>> {
        self.items@.map_values(|p: (String, V)| p.0@)
    }

    pub fn new() -> (r: Self)
        ensures
            r.wf(),
            r@ == Map::<Seq<char>, V>::empty(),
    {
        Table { items: Vec::new() }
    }

    pub fn len(&self) -> (r: usize)
        requires
            self.wf(),
        ensures
            r == self@.len(),
            r == self.items@.len(),
    {
        proof {
            self.lemma_len();
        }
        self.items.len()
    }

    pub proof fn lemma_len(&self)
        requires
            self.wf(),
        ensures
            self@.dom().finite(),
            self@.len() == self.items@.len(),
        decreases self.items@.len(),
    {
        self.lemma_dom();
        lemma_len_rec(self.items@);
    }

    /// The keys of the map are those of the list.
    pub proof fn lemma_dom(&self)
        ensures
            forall|k: Seq<char>|
                #[trigger] self@.contains_key(k) <==> self.key_seq().contains(k),
    {
        assert forall|k: Seq<char>| #[trigger] self@.contains_key(k) <==> self.key_seq().contains(k) by {
            lemma_map_of_dom(self.items@, k);
            if self.key_seq().contains(k) {
                let i = choose|i: int| 0 <= i < self.key_seq().len() && self.key_seq()[i] == k;
                assert(self.items@[i].0@ == k);
            }
            if self@.contains_key(k) {
                let i = choose|i: int| 0 <= i < self.items@.len() && #[trigger] self.items@[i].0@ == k;
                assert(self.key_seq()[i] == k);
            }
        }
    }

    /// Position of a key in the list.
    pub fn find(&self, k: &str) -> (r: Option<usize>)
        requires
            self.wf(),
        ensures
            r.is_none() ==> !self@.contains_key(k@),
            r.is_some() ==> r.unwrap() < self.items@.len() && self.items@[r.unwrap() as int].0@ == k@,
    {
        let key = String::from_str(k);
        let mut i: usize = 0;
        while i < self.items.len()
            invariant
                key@ == k@,
                i <= self.items@.len(),
                forall|j: int| 0 <= j < i ==> #[trigger] self.items@[j].0@ != k@,
            decreases self.items@.len() - i,
        {
            if self.items[i].0 == key {
                return Some(i);
            }
            i = i + 1;
        }
        proof {
            lemma_map_of_dom(self.items@, k@);
        }
        None
    }

    pub fn get(&self, k: &str) -> (r: Option<&V>)
        requires
            self.wf(),
        ensures
            r.is_some() == self@.contains_key(k@),
            r.is_some() ==> *r.unwrap() == self@[k@],
    {
        match self.find(k) {
            Some(i) => {
                proof {
                    lemma_map_of_at(self.items@, i as int);
                }
                Some(&self.items[i].1)
            },
            None => None,
        }
    }

    pub fn contains_key(&self, k: &str) -> (r: bool)
        requires
            self.wf(),
        ensures
            r == self@.contains_key(k@),
    {
        match self.find(k) {
            Some(i) => {
                proof {
                    lemma_map_of_at(self.items@, i as int);
                }
                true
            },
            None => false,
        }
    }

    /// Inserts or overwrites; a new key goes to the end.
    pub fn insert(&mut self, k: String, v: V)
        requires
            old(self).wf(),
        ensures
            final(self).wf(),
            final(self)@ == old(self)@.insert(k@, v),
    {
        match self.find(k.as_str()) {
            Some(i) => {
                proof {
                    lemma_map_of_update(self.items@, i as int, v);
                }
                let ghost before = self.items@;
                let key = self.items[i].0.clone();
                self.items.set(i, (key, v));
                assert(self.items@ == before.update(i as int, (before[i as int].0, v)));
                proof {
                    assert forall|a: int, b: int|
                        0 <= a < self.items@.len() && 0 <= b < self.items@.len() && a != b implies #[trigger] self.items@[a].0@
                        != #[trigger] self.items@[b].0@ by {
                        assert(self.items@[a].0@ == before[a].0@);
                        assert(self.items@[b].0@ == before[b].0@);
                    }
                }
            },
            None => {
                let ghost before = self.items@;
                self.items.push((k, v));
                proof {
                    assert(self.items@.drop_last() == before);
                    lemma_map_of_dom(before, k@);
                    assert forall|a: int, b: int|
                        0 <= a < self.items@.len() && 0 <= b < self.items@.len() && a != b implies #[trigger] self.items@[a].0@
                        != #[trigger] self.items@[b].0@ by {
                        if a < before.len() && b < before.len() {
                            assert(self.items@[a] == before[a] && self.items@[b] == before[b]);
                        } else if a < before.len() {
                            assert(self.items@[a] == before[a]);
                        } else {
                            assert(self.items@[b] == before[b]);
                        }
                    }
                }
            },
        }
    }

    /// Removes a key and hands back its value, if it was there.
    pub fn take(&mut self, k: &str) -> (r: Option<V>)
        requires
            old(self).wf(),
        ensures
            final(self).wf(),
            r.is_some() == old(self)@.contains_key(k@),
            r.is_some() ==> r.unwrap() == old(self)@[k@],
            final(self)@ == old(self)@.remove(k@),
    {
        match self.find(k) {
            Some(i) => {
                let ghost before = self.items@;
                proof {
                    lemma_map_of_at(before, i as int);
                    lemma_map_of_remove(before, i as int);
                }
                let (_, v) = self.items.remove(i);
                proof {
                    assert forall|a: int, b: int|
                        0 <= a < self.items@.len() && 0 <= b < self.items@.len() && a != b implies #[trigger] self.items@[a].0@
                        != #[trigger] self.items@[b].0@ by {
                        let a2 = if a < i { a } else { a + 1 };
                        let b2 = if b < i { b } else { b + 1 };
                        assert(self.items@[a] == before[a2]);
                        assert(self.items@[b] == before[b2]);
                    }
                }
                Some(v)
            },
            None => {
                assert(self@ =~= self@.remove(k@));
                None
            },
        }
    }

    /// Removes a key; reports whether it was there.
    pub fn remove(&mut self, k: &str) -> (r: bool)
        requires
            old(self).wf(),
        ensures
            final(self).wf(),
            r == old(self)@.contains_key(k@),
            final(self)@ == old(self)@.remove(k@),
    {
        self.take(k).is_some()
    }

    pub fn clear(&mut self)
        ensures
            final(self).wf(),
            final(self)@ == Map::<Seq<char>, V>::empty(),
    {
        self.items.clear();
    }

    pub fn is_empty(&self) -> (r: bool)
        requires
            self.wf(),
        ensures
            r == (self@ == Map::<Seq<char>, V>::empty()),
    {
        proof {
            self.lemma_len();
            if self.items@.len() > 0 {
                let k = self.items@[0].0@;
                lemma_map_of_at(self.items@, 0);
                assert(self@.contains_key(k));
            }
        }
        self.items.len() == 0
    }

    /// The keys, in list order.
    pub fn keys(&self) -> (r: Vec<String>)
        ensures
            views(r@) == self.key_seq(),
    {
        let mut out: Vec<String> = Vec::new();
        let mut i: usize = 0;
        while i < self.items.len()
            invariant
                i <= self.items@.len(),
                out@.len() == i,
                views(out@) == self.key_seq().subrange(0, i as int),
            decreases self.items@.len() - i,
        {
            let ghost prev = out@;
            let k = self.items[i].0.clone();
            out.push(k);
            assert forall|j: int| 0 <= j < i + 1 implies views(out@)[j]
                == self.key_seq().subrange(0, i + 1)[j] by {
                if j < i {
                    assert(out@[j] == prev[j]);
                    assert(views(prev)[j] == self.key_seq().subrange(0, i as int)[j]);
                }
            }
            assert(views(out@) =~= self.key_seq().subrange(0, i + 1));
            i = i + 1;
        }
        assert(self.key_seq().subrange(0, i as int) =~= self.key_seq());
        out
    }
}

proof fn lemma_len_rec<V>(s: Seq<(String, V)>)
    requires
        keys_unique(s),
    ensures
        map_of(s).dom().finite(),
        map_of(s).len() == s.len(),
    decreases s.len(),
{
    if s.len() > 0 {
        let t = s.drop_last();
        assert(keys_unique(t)) by {
            assert forall|a: int, b: int|
                0 <= a < t.len() && 0 <= b < t.len() && a != b implies #[trigger] t[a].0@
                != #[trigger] t[b].0@ by {
                assert(t[a] == s[a] && t[b] == s[b]);
            }
        }
        lemma_len_rec(t);
        lemma_not_in_prefix(s);
    }
}

} // verus!
