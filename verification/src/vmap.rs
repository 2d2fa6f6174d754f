use vstd::prelude::*;
use crate::ids::ValueId;
use crate::sema::MangledName;

verus! {

/// A key that can be compared by its view.
pub trait ViewEq: View + Sized {
    /// Whether the two keys have the same view.
    fn view_eq(&self, other: &Self) -> (r: bool)
        ensures
            r == (self@ == other@);
}

impl ViewEq for String {
    fn view_eq(&self, other: &Self) -> (r: bool) {
        *self == *other
    }
}

impl ViewEq for ValueId {
    fn view_eq(&self, other: &Self) -> (r: bool) {
        self.0 == other.0
    }
}

impl ViewEq for MangledName {
    fn view_eq(&self, other: &Self) -> (r: bool) {
        self.same_as(other)
    }
}

/// The map that a list of entries denotes; later entries win.
pub open spec fn map_of<K: View, V>(s: Seq<(K, V)>) -> Map<K::V, V>
    decreases s.len(),
{
    if s.len() == 0 {
        Map::empty()
    } else {
        map_of(s.drop_last()).insert(s.last().0@, s.last().1)
    }
}

/// No two entries share the view of their key.
pub open spec fn keys_unique<K: View, V>(s: Seq<(K, V)>) -> bool {
    forall|i: int, j: int| 0 <= i < s.len() && 0 <= j < s.len() && i != j ==> s[i].0@ != s[j].0@
}

/// The key views of a list of entries, in order.
pub open spec fn key_views<K: View, V>(s: Seq<(K, V)>) -> Seq<K::V> {
    Seq::new(s.len(), |i: int| s[i].0@)
}

/// A key of the map is the key of one of the entries.
pub proof fn lemma_map_of_dom<K: View, V>(s: Seq<(K, V)>, k: K::V)
    ensures
        map_of(s).contains_key(k) <==> exists|i: int| 0 <= i < s.len() && #[trigger] s[i].0@ == k,
    decreases s.len(),
{
    if s.len() > 0 {
        lemma_map_of_dom(s.drop_last(), k);
        if map_of(s).contains_key(k) && s.last().0@ != k {
            let i = choose|i: int| 0 <= i < s.drop_last().len() && #[trigger] s.drop_last()[i].0@ == k;
            assert(s[i].0@ == k);
        }
        if exists|i: int| 0 <= i < s.len() && #[trigger] s[i].0@ == k {
            let i = choose|i: int| 0 <= i < s.len() && #[trigger] s[i].0@ == k;
            if i < s.len() - 1 {
                assert(s.drop_last()[i].0@ == k);
            }
        }
    }
}

/// With unique keys, the map holds each entry's value under its key.
pub proof fn lemma_map_of_value<K: View, V>(s: Seq<(K, V)>, i: int)
    requires
        keys_unique(s),
        0 <= i < s.len(),
    ensures
        map_of(s).contains_key(s[i].0@),
        map_of(s)[s[i].0@] == s[i].1,
    decreases s.len(),
{
    if i < s.len() - 1 {
        let t = s.drop_last();
        assert(keys_unique(t));
        assert(t[i] == s[i]);
        lemma_map_of_value(t, i);
    }
}

/// Replacing the value of an entry updates the map at its key.
pub proof fn lemma_map_of_update<K: View, V>(s: Seq<(K, V)>, i: int, e: (K, V))
    requires
        keys_unique(s),
        0 <= i < s.len(),
        e.0@ == s[i].0@,
    ensures
        keys_unique(s.update(i, e)),
        map_of(s.update(i, e)) == map_of(s).insert(e.0@, e.1),
{
    let t = s.update(i, e);
    assert(keys_unique(t));
    assert forall|k: K::V| map_of(t).contains_key(k) <==> map_of(s).insert(e.0@, e.1).contains_key(k) by {
        lemma_map_of_dom(t, k);
        lemma_map_of_dom(s, k);
        if exists|j: int| 0 <= j < s.len() && #[trigger] s[j].0@ == k {
            let j = choose|j: int| 0 <= j < s.len() && #[trigger] s[j].0@ == k;
            assert(t[j].0@ == k);
        }
        if exists|j: int| 0 <= j < t.len() && #[trigger] t[j].0@ == k {
            let j = choose|j: int| 0 <= j < t.len() && #[trigger] t[j].0@ == k;
            assert(s[j].0@ == k);
        }
    }
    assert forall|k: K::V| #[trigger] map_of(t).contains_key(k) implies map_of(t)[k] == map_of(s).insert(e.0@, e.1)[k] by {
        lemma_map_of_dom(t, k);
        let j = choose|j: int| 0 <= j < t.len() && #[trigger] t[j].0@ == k;
        lemma_map_of_value(t, j);
        if j != i {
            lemma_map_of_value(s, j);
        }
    }
    assert(map_of(t) =~= map_of(s).insert(e.0@, e.1));
}

/// Removing an entry removes its key from the map.
pub proof fn lemma_map_of_remove<K: View, V>(s: Seq<(K, V)>, i: int)
    requires
        keys_unique(s),
        0 <= i < s.len(),
    ensures
        keys_unique(s.remove(i)),
        map_of(s.remove(i)) == map_of(s).remove(s[i].0@),
{
    let t = s.remove(i);
    assert(keys_unique(t));
    let m = map_of(s).remove(s[i].0@);
    assert forall|k: K::V| map_of(t).contains_key(k) <==> m.contains_key(k) by {
        lemma_map_of_dom(t, k);
        lemma_map_of_dom(s, k);
        if exists|j: int| 0 <= j < s.len() && #[trigger] s[j].0@ == k {
            let j = choose|j: int| 0 <= j < s.len() && #[trigger] s[j].0@ == k;
            if j < i {
                assert(t[j].0@ == k);
            } else if j > i {
                assert(t[j - 1].0@ == k);
            }
        }
        if exists|j: int| 0 <= j < t.len() && #[trigger] t[j].0@ == k {
            let j = choose|j: int| 0 <= j < t.len() && #[trigger] t[j].0@ == k;
            if j < i {
                assert(s[j].0@ == k);
            } else {
                assert(s[j + 1].0@ == k);
            }
        }
    }
    assert forall|k: K::V| #[trigger] map_of(t).contains_key(k) implies map_of(t)[k] == m[k] by {
        lemma_map_of_dom(t, k);
        let j = choose|j: int| 0 <= j < t.len() && #[trigger] t[j].0@ == k;
        lemma_map_of_value(t, j);
        if j < i {
            lemma_map_of_value(s, j);
        } else {
            lemma_map_of_value(s, j + 1);
        }
    }
    assert(map_of(t) =~= m);
}

/// A map held as a list of entries whose keys are compared by their views.
#[derive(Debug)]
pub struct ViewMap<K, V> {
    pub entries: Vec<(K, V)>,
}

impl<K: ViewEq, V> View for ViewMap<K, V> {
    type V = Map<K::V, V>;

    open spec fn view(&self) -> Map<K::V, V> {
        map_of(self.entries@)
    }
}

impl<K: ViewEq, V> ViewMap<K, V> {
    /// No two entries share a key.
    pub open spec fn wf(&self) -> bool {
        keys_unique(self.entries@)
    }

    /// An empty map.
    pub fn new() -> (r: Self)
        ensures
            r.wf(),
            r@ == Map::<K::V, V>::empty(),
            r.entries@.len() == 0,
    {
        ViewMap { entries: Vec::new() }
    }

    /// The number of keys.
    pub fn len(&self) -> (r: usize)
        requires
            self.wf(),
        ensures
            r == self.entries@.len(),
    {
        self.entries.len()
    }

    /// The position of the entry with key `k`, if there is one.
    pub fn index_of(&self, k: &K) -> (r: Option<usize>)
        ensures
            match r {
                Some(i) => i < self.entries@.len() && self.entries@[i as int].0@ == k@,
                None => !self@.contains_key(k@),
            },
    {
        let mut i: usize = 0;
        while i < self.entries.len()
            invariant
                i <= self.entries@.len(),
                forall|j: int| 0 <= j < i ==> #[trigger] self.entries@[j].0@ != k@,
            decreases self.entries@.len() - i,
        {
            if self.entries[i].0.view_eq(k) {
                return Some(i);
            }
            i += 1;
        }
        proof {
            lemma_map_of_dom(self.entries@, k@);
        }
        None
    }

    /// Whether `k` is a key.
    pub fn contains_key(&self, k: &K) -> (r: bool)
        ensures
            r == self@.contains_key(k@),
    {
        match self.index_of(k) {
            Some(i) => {
                proof {
                    lemma_map_of_dom(self.entries@, k@);
                    assert(self.entries@[i as int].0@ == k@);
                }
                true
            }
            None => false,
        }
    }

    /// The value under `k`, if any.
    pub fn get(&self, k: &K) -> (r: Option<&V>)
        requires
            self.wf(),
        ensures
            match r {
                Some(v) => self@.contains_key(k@) && *v == self@[k@],
                None => !self@.contains_key(k@),
            },
    {
        match self.index_of(k) {
            Some(i) => {
                proof {
                    lemma_map_of_value(self.entries@, i as int);
                }
                Some(&self.entries[i].1)
            }
            None => None,
        }
    }

    /// Puts `v` under `k`, in place of any value that `k` had.
    pub fn insert(&mut self, k: K, v: V)
        requires
            old(self).wf(),
        ensures
            final(self).wf(),
            final(self)@ == old(self)@.insert(k@, v),
            key_views(final(self).entries@) == if old(self)@.contains_key(k@) {
                key_views(old(self).entries@)
            } else {
                key_views(old(self).entries@).push(k@)
            },
    {
        match self.index_of(&k) {
            Some(i) => {
                proof {
                    lemma_map_of_update(self.entries@, i as int, (k, v));
                    lemma_map_of_dom(self.entries@, k@);
                }
                let ghost old_entries = self.entries@;
                self.entries.set(i, (k, v));
                assert(key_views(self.entries@) =~= key_views(old_entries));
            }
            None => {
                let ghost old_entries = self.entries@;
                self.entries.push((k, v));
                proof {
                    lemma_map_of_dom(old_entries, k@);
                    assert(self.entries@.drop_last() =~= old_entries);
                    assert(keys_unique(self.entries@));
                }
                assert(key_views(self.entries@) =~= key_views(old_entries).push(k@));
            }
        }
    }

    /// Takes the value under `k` out of the map.
    pub fn remove(&mut self, k: &K) -> (r: Option<V>)
        requires
            old(self).wf(),
        ensures
            final(self).wf(),
            final(self)@ == old(self)@.remove(k@),
            match r {
                Some(v) => old(self)@.contains_key(k@) && v == old(self)@[k@],
                None => !old(self)@.contains_key(k@),
            },
    {
        match self.index_of(k) {
            Some(i) => {
                proof {
                    lemma_map_of_remove(self.entries@, i as int);
                    lemma_map_of_value(self.entries@, i as int);
                }
                let e = self.entries.remove(i);
                Some(e.1)
            }
            None => {
                assert(old(self)@.remove(k@) =~= old(self)@);
                None
            }
        }
    }
}

} // verus!
