use vstd::prelude::*;

verus! {

/// Keys of an association map: compared by their views.
pub trait Key: View + Sized {
    fn same_key(&self, other: &Self) -> (b: bool)
        ensures
            b == (self@ == other@),
    ;

    fn dup(&self) -> (r: Self)
        ensures
            r@ == self@,
    ;
}

impl Key for String {
    fn same_key(&self, other: &Self) -> (b: bool) {
        *self == *other
    }

    fn dup(&self) -> (r: Self) {
        self.clone()
    }
}

impl Key for u128 {
    fn same_key(&self, other: &Self) -> (b: bool) {
        *self == *other
    }

    fn dup(&self) -> (r: Self) {
        *self
    }
}

impl Key for (String, String) {
    fn same_key(&self, other: &Self) -> (b: bool) {
        self.0 == other.0 && self.1 == other.1
    }

    fn dup(&self) -> (r: Self) {
        (self.0.clone(), self.1.clone())
    }
}

/// No two entries have the same key.
pub open spec fn unique_keys<K: View, V>(s: Seq<(K, V)>) -> bool {
    forall|i: int, j: int| 0 <= i < s.len() && 0 <= j < s.len() && i != j ==> #[trigger] s[i].0@ != #[trigger] s[j].0@
}

/// The map that a list of entries stands for (a later entry wins).
pub open spec fn to_map<K: View, V: View>(s: Seq<(K, V)>) -> Map<K::V, V::V>
    decreases s.len(),
{
    if s.len() == 0 {
        Map::empty()
    } else {
        to_map(s.drop_last()).insert(s.last().0@, s.last().1@)
    }
}

/// Whether some entry has the key.
pub open spec fn has_key<K: View, V>(s: Seq<(K, V)>, k: K::V) -> bool {
    exists|i: int| 0 <= i < s.len() && #[trigger] s[i].0@ == k
}

pub proof fn lemma_to_map_dom<K: View, V: View>(s: Seq<(K, V)>, k: K::V)
    ensures
        to_map(s).dom().contains(k) <==> has_key(s, k),
    decreases s.len(),
{
    if s.len() > 0 {
        let t = s.drop_last();
        lemma_to_map_dom(t, k);
        if has_key(t, k) {
            let i = choose|i: int| 0 <= i < t.len() && #[trigger] t[i].0@ == k;
            assert(s[i] == t[i]);
        }
        if has_key(s, k) && s.last().0@ != k {
            let i = choose|i: int| 0 <= i < s.len() && #[trigger] s[i].0@ == k;
            assert(i < s.len() - 1);
            assert(t[i] == s[i]);
        }
    }
}

pub proof fn lemma_to_map_value<K: View, V: View>(s: Seq<(K, V)>, i: int)
    requires
        unique_keys(s),
        0 <= i < s.len(),
    ensures
        to_map(s).dom().contains(s[i].0@),
        to_map(s)[s[i].0@] == s[i].1@,
    decreases s.len(),
{
    let t = s.drop_last();
    if i < s.len() - 1 {
        assert(t[i] == s[i]);
        assert(unique_keys(t)) by {
            assert forall|a: int, b: int| 0 <= a < t.len() && 0 <= b < t.len() && a != b implies #[trigger] t[a].0@ != #[trigger] t[b].0@ by {
                assert(t[a] == s[a] && t[b] == s[b]);
            }
        }
        lemma_to_map_value(t, i);
        assert(s[i].0@ != s[s.len() - 1].0@);
    }
}

pub proof fn lemma_to_map_finite<K: View, V: View>(s: Seq<(K, V)>)
    ensures
        to_map(s).dom().finite(),
        to_map(s).dom().len() <= s.len(),
    decreases s.len(),
{
    if s.len() > 0 {
        lemma_to_map_finite(s.drop_last());
    }
}

/// Every key of the map belongs to some entry, with that entry's value.
pub proof fn lemma_to_map_unique<K: View, V: View>(s: Seq<(K, V)>)
    requires
        unique_keys(s),
    ensures
        forall|i: int| 0 <= i < s.len() ==> #[trigger] to_map(s).dom().contains(s[i].0@) && to_map(s)[s[i].0@]
            == s[i].1@,
        forall|k: K::V| #[trigger] to_map(s).dom().contains(k) <==> has_key(s, k),
{
    assert forall|i: int| 0 <= i < s.len() implies #[trigger] to_map(s).dom().contains(s[i].0@) && to_map(s)[s[i].0@]
        == s[i].1@ by {
        lemma_to_map_value(s, i);
    }
    assert forall|k: K::V| #[trigger] to_map(s).dom().contains(k) <==> has_key(s, k) by {
        lemma_to_map_dom(s, k);
    }
}

/// With distinct keys, the map has one key per entry.
pub proof fn lemma_to_map_len<K: View, V: View>(s: Seq<(K, V)>)
    requires
        unique_keys(s),
    ensures
        to_map(s).dom().len() == s.len(),
    decreases s.len(),
{
    if s.len() > 0 {
        let t = s.drop_last();
        assert(unique_keys(t)) by {
            assert forall|i: int, j: int| 0 <= i < t.len() && 0 <= j < t.len() && i != j implies #[trigger] t[i].0@ != #[trigger] t[j].0@ by {
                assert(t[i] == s[i] && t[j] == s[j]);
            }
        }
        lemma_to_map_len(t);
        lemma_to_map_finite(t);
        lemma_to_map_dom(t, s.last().0@);
        if has_key(t, s.last().0@) {
            let i = choose|i: int| 0 <= i < t.len() && #[trigger] t[i].0@ == s.last().0@;
            assert(s[i] == t[i]);
            assert(s[s.len() - 1].0@ != s[i].0@);
        }
    }
}

/// Two entries at different positions have different keys.
pub proof fn lemma_unique_at<K: View, V>(s: Seq<(K, V)>, i: int, j: int)
    requires
        unique_keys(s),
        0 <= i < s.len(),
        0 <= j < s.len(),
        i != j,
    ensures
        s[i].0@ != s[j].0@,
{
}

/// Entry lists with the same views stand for the same map.
pub proof fn lemma_same_views<K: View, V: View>(a: Seq<(K, V)>, b: Seq<(K, V)>)
    requires
        a.len() == b.len(),
        forall|i: int| 0 <= i < a.len() ==> #[trigger] a[i].0@ == b[i].0@ && a[i].1@ == b[i].1@,
    ensures
        to_map(a) == to_map(b),
        unique_keys(a) ==> unique_keys(b),
    decreases a.len(),
{
    if a.len() > 0 {
        lemma_same_views(a.drop_last(), b.drop_last());
        assert(a.last().0@ == b.last().0@ && a.last().1@ == b.last().1@) by {
            let l = a.len() - 1;
            assert(a[l].0@ == b[l].0@ && a[l].1@ == b[l].1@);
        }
    }
    if unique_keys(a) {
        assert forall|i: int, j: int| 0 <= i < b.len() && 0 <= j < b.len() && i != j implies #[trigger] b[i].0@ != #[trigger] b[j].0@ by {
            assert(a[i].0@ == b[i].0@ && a[i].1@ == b[i].1@);
            assert(a[j].0@ == b[j].0@ && a[j].1@ == b[j].1@);
            lemma_unique_at(a, i, j);
        }
    }
}

/// A map kept as a list of entries with distinct keys, in insertion order.
pub struct AssocMap<K, V> {
    pub entries: Vec<(K, V)>,
}

impl<K: Key, V: View> AssocMap<K, V> {
    /// The entries, in order.
    pub open spec fn seq(&self) -> Seq<(K, V)> {
        self.entries@
    }

    /// The map the entries stand for.
    pub open spec fn map(&self) -> Map<K::V, V::V> {
        to_map(self.entries@)
    }

    pub open spec fn wf(&self) -> bool {
        unique_keys(self.entries@)
    }

    pub fn new() -> (m: Self)
        ensures
            m.wf(),
            m.seq().len() == 0,
            m.map() == Map::<K::V, V::V>::empty(),
    {
        AssocMap { entries: Vec::new() }
    }

    pub fn len(&self) -> (n: usize)
        ensures
            n == self.seq().len(),
    {
        self.entries.len()
    }

    /// The position of the entry with the key, if any.
    pub fn index_of(&self, k: &K) -> (r: Option<usize>)
        requires
            self.wf(),
        ensures
            match r {
                Some(i) => i < self.seq().len() && self.seq()[i as int].0@ == k@,
                None => !has_key(self.seq(), k@),
            },
            r is Some <==> self.map().dom().contains(k@),
    {
        proof {
            lemma_to_map_dom(self.entries@, k@);
        }
        let mut i: usize = 0;
        while i < self.entries.len()
            invariant
                i <= self.entries@.len(),
                forall|j: int| 0 <= j < i ==> #[trigger] self.entries@[j].0@ != k@,
            decreases self.entries@.len() - i,
        {
            if self.entries[i].0.same_key(k) {
                assert(self.entries@[i as int].0@ == k@);
                assert(has_key(self.entries@, k@));
                proof {
                    lemma_to_map_dom(self.entries@, k@);
                }
                return Some(i);
            }
            i += 1;
        }
        assert(!has_key(self.entries@, k@));
        assert(!self.map().dom().contains(k@));
        None
    }

    pub fn contains_key(&self, k: &K) -> (b: bool)
        requires
            self.wf(),
        ensures
            b == self.map().dom().contains(k@),
    {
        self.index_of(k).is_some()
    }

    pub fn get(&self, k: &K) -> (r: Option<&V>)
        requires
            self.wf(),
        ensures
            match r {
                Some(v) => self.map().dom().contains(k@) && self.map()[k@] == v@
                    && exists|i: int| 0 <= i < self.seq().len() && self.seq()[i].0@ == k@ && self.seq()[i].1 == *v,
                None => !self.map().dom().contains(k@),
            },
    {
        match self.index_of(k) {
            Some(i) => {
                proof {
                    lemma_to_map_value(self.entries@, i as int);
                }
                Some(&self.entries[i].1)
            },
            None => None,
        }
    }

    /// Sets the value of the key: in place when present, at the end otherwise.
    pub fn insert(&mut self, k: K, v: V) -> (old_v: Option<V>)
        requires
            old(self).wf(),
        ensures
            final(self).wf(),
            final(self).map() == old(self).map().insert(k@, v@),
            match old_v {
                Some(o) => old(self).map().dom().contains(k@) && old(self).map()[k@] == o@,
                None => !old(self).map().dom().contains(k@),
            },
            has_key(old(self).seq(), k@) ==> exists|i: int| 0 <= i < old(self).seq().len() && old(self).seq()[i].0@ == k@
                && final(self).seq() == old(self).seq().update(i, (k, v)),
            !has_key(old(self).seq(), k@) ==> final(self).seq() == old(self).seq().push((k, v)),
    {
        match self.index_of(&k) {
            Some(i) => {
                let ghost s = self.entries@;
                proof {
                    lemma_to_map_value(s, i as int);
                }
                let ghost kv = (k, v);
                let mut e = (k, v);
                std::mem::swap(&mut e, &mut self.entries[i]);
                let ghost n = self.entries@;
                assert(n == s.update(i as int, kv));
                assert(n == s.update(i as int, n[i as int]));
                assert(unique_keys(n)) by {
                    assert forall|a: int, b: int| 0 <= a < n.len() && 0 <= b < n.len() && a != b implies #[trigger] n[a].0@ != #[trigger] n[b].0@ by {
                        if a != i { assert(n[a] == s[a]); }
                        if b != i { assert(n[b] == s[b]); }
                    }
                }
                proof {
                    lemma_to_map_unique(s);
                    lemma_to_map_unique(n);
                    assert forall|kk: K::V| #[trigger] to_map(n).dom().contains(kk) == to_map(s).insert(k@, v@).dom().contains(kk) by {
                        if has_key(n, kk) {
                            let j = choose|j: int| 0 <= j < n.len() && #[trigger] n[j].0@ == kk;
                            if j != i { assert(n[j] == s[j]); }
                        }
                        if has_key(s, kk) {
                            let j = choose|j: int| 0 <= j < s.len() && #[trigger] s[j].0@ == kk;
                            if j != i { assert(n[j] == s[j]); } else { assert(n[i as int].0@ == k@); }
                        }
                    }
                    assert forall|kk: K::V| #[trigger] to_map(n).dom().contains(kk) implies to_map(n)[kk] == to_map(s).insert(k@, v@)[kk] by {
                        let j = choose|j: int| 0 <= j < n.len() && #[trigger] n[j].0@ == kk;
                        if j != i { assert(n[j] == s[j]); }
                    }
                    assert(to_map(n) =~= to_map(s).insert(k@, v@));
                }
                Some(e.1)
            },
            None => {
                let ghost s = self.entries@;
                self.entries.push((k, v));
                let ghost n = self.entries@;
                assert(n.drop_last() =~= s);
                assert(unique_keys(n)) by {
                    assert forall|a: int, b: int| 0 <= a < n.len() && 0 <= b < n.len() && a != b implies #[trigger] n[a].0@ != #[trigger] n[b].0@ by {
                        if a < s.len() { assert(n[a] == s[a]); }
                        if b < s.len() { assert(n[b] == s[b]); }
                    }
                }
                None
            },
        }
    }

    /// Removes the entry with the key, keeping the order of the others.
    pub fn remove(&mut self, k: &K) -> (old_v: Option<V>)
        requires
            old(self).wf(),
        ensures
            final(self).wf(),
            final(self).map() == old(self).map().remove(k@),
            match old_v {
                Some(o) => old(self).map().dom().contains(k@) && old(self).map()[k@] == o@,
                None => !old(self).map().dom().contains(k@),
            },
            match old_v {
                Some(o) => exists|i: int| 0 <= i < old(self).seq().len() && old(self).seq()[i].0@ == k@
                    && old(self).seq()[i].1 == o
                    && final(self).seq() == old(self).seq().remove(i),
                None => final(self).seq() == old(self).seq(),
            },
    {
        match self.index_of(k) {
            Some(i) => {
                let ghost s = self.entries@;
                proof {
                    lemma_to_map_value(s, i as int);
                }
                let e = self.entries.remove(i);
                let ghost n = self.entries@;
                assert(unique_keys(n)) by {
                    assert forall|a: int, b: int| 0 <= a < n.len() && 0 <= b < n.len() && a != b implies #[trigger] n[a].0@ != #[trigger] n[b].0@ by {
                        let a2 = if a < i { a } else { a + 1 };
                        let b2 = if b < i { b } else { b + 1 };
                        assert(n[a] == s[a2] && n[b] == s[b2]);
                    }
                }
                proof {
                    lemma_to_map_unique(s);
                    lemma_to_map_unique(n);
                    assert forall|kk: K::V| #[trigger] to_map(n).dom().contains(kk) == to_map(s).remove(k@).dom().contains(kk) by {
                        if has_key(n, kk) {
                            let j = choose|j: int| 0 <= j < n.len() && #[trigger] n[j].0@ == kk;
                            let j2 = if j < i { j } else { j + 1 };
                            assert(n[j] == s[j2]);
                        }
                        if has_key(s, kk) && kk != k@ {
                            let j = choose|j: int| 0 <= j < s.len() && #[trigger] s[j].0@ == kk;
                            let j2 = if j < i { j } else { j - 1 };
                            assert(s[j] == n[j2]);
                        }
                    }
                    assert forall|kk: K::V| #[trigger] to_map(n).dom().contains(kk) implies to_map(n)[kk] == to_map(s).remove(k@)[kk] by {
                        let j = choose|j: int| 0 <= j < n.len() && #[trigger] n[j].0@ == kk;
                        let j2 = if j < i { j } else { j + 1 };
                        assert(n[j] == s[j2]);
                    }
                    assert(to_map(n) =~= to_map(s).remove(k@));
                }
                Some(e.1)
            },
            None => {
                proof {
                    assert(self.map().remove(k@) =~= self.map());
                }
                None
            },
        }
    }
}

} // verus!
