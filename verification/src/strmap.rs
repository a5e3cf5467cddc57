//! A map keyed by strings, kept as a list of entries in the order in which
//! their keys first came. No key occurs twice.

use crate::text::str_eq;
use vstd::prelude::*;

verus! {

/// Some entry of `s` has the key `k`.
pub open spec fn names<V>(s: Seq<(String, V)>, k: Seq<char>) -> bool {
    exists|i: int| 0 <= i < s.len() && (#[trigger] s[i]).0@ == k
}

/// The position of an entry of `s` with the key `k`.
pub open spec fn place<V>(s: Seq<(String, V)>, k: Seq<char>) -> int {
    choose|i: int| 0 <= i < s.len() && (#[trigger] s[i]).0@ == k
}

/// The keys of `s` differ from each other.
pub open spec fn distinct_keys<V>(s: Seq<(String, V)>) -> bool {
    forall|i: int, j: int| #![trigger s[i], s[j]] 0 <= i < j < s.len() ==> s[i].0@ != s[j].0@
}

/// The map that a list of entries stands for, each value by its deep view.
pub open spec fn assoc_map<V: DeepView>(s: Seq<(String, V)>) -> Map<Seq<char>, V::V> {
    Map::new(|k: Seq<char>| names(s, k), |k: Seq<char>| s[place(s, k)].1.deep_view())
}

proof fn lemma_assoc_at<V: DeepView>(s: Seq<(String, V)>, i: int)
    requires
        distinct_keys(s),
        0 <= i < s.len(),
    ensures
        assoc_map(s).contains_key(s[i].0@),
        assoc_map(s)[s[i].0@] == s[i].1.deep_view(),
        place(s, s[i].0@) == i,
{
    let k = s[i].0@;
    assert(names(s, k));
    let c = place(s, k);
    if c < i {
        assert(s[c].0@ != s[i].0@);
    } else if i < c {
        assert(s[i].0@ != s[c].0@);
    }
}

proof fn lemma_assoc_update<V: DeepView>(s: Seq<(String, V)>, i: int, key: String, value: V)
    requires
        distinct_keys(s),
        0 <= i < s.len(),
        s[i].0@ == key@,
    ensures
        distinct_keys(s.update(i, (key, value))),
        assoc_map(s.update(i, (key, value))) == assoc_map(s).insert(key@, value.deep_view()),
{
    let t = s.update(i, (key, value));
    assert forall|a: int, b: int| #![trigger t[a], t[b]] 0 <= a < b < t.len() implies t[a].0@
        != t[b].0@ by {
        assert(s[a].0@ != s[b].0@);
    }
    assert forall|x: Seq<char>| #[trigger]
        assoc_map(t).contains_key(x) == assoc_map(s).insert(key@, value.deep_view()).contains_key(
            x,
        ) by {
        if names(t, x) {
            assert(s[place(t, x)].0@ == x);
        }
        if names(s, x) {
            assert(t[place(s, x)].0@ == x);
        }
        if x == key@ {
            assert(t[i].0@ == x);
        }
    }
    assert forall|x: Seq<char>| assoc_map(t).contains_key(x) implies #[trigger] assoc_map(t)[x]
        == assoc_map(s).insert(key@, value.deep_view())[x] by {
        let c = place(t, x);
        lemma_assoc_at(t, c);
        if c != i {
            lemma_assoc_at(s, c);
            if c < i {
                assert(s[c].0@ != s[i].0@);
            } else {
                assert(s[i].0@ != s[c].0@);
            }
        }
    }
    assert(assoc_map(t) =~= assoc_map(s).insert(key@, value.deep_view()));
}

proof fn lemma_assoc_push<V: DeepView>(s: Seq<(String, V)>, key: String, value: V)
    requires
        distinct_keys(s),
        !names(s, key@),
    ensures
        distinct_keys(s.push((key, value))),
        assoc_map(s.push((key, value))) == assoc_map(s).insert(key@, value.deep_view()),
{
    let t = s.push((key, value));
    assert forall|a: int, b: int| #![trigger t[a], t[b]] 0 <= a < b < t.len() implies t[a].0@
        != t[b].0@ by {
        if b < s.len() {
            assert(s[a].0@ != s[b].0@);
        } else {
            assert(s[a].0@ != key@);
        }
    }
    assert forall|x: Seq<char>| #[trigger]
        assoc_map(t).contains_key(x) == assoc_map(s).insert(key@, value.deep_view()).contains_key(
            x,
        ) by {
        if names(t, x) {
            let c = place(t, x);
            if c < s.len() {
                assert(s[c].0@ == x);
            }
        }
        if names(s, x) {
            assert(t[place(s, x)].0@ == x);
        }
        if x == key@ {
            assert(t[s.len() as int].0@ == x);
        }
    }
    assert forall|x: Seq<char>| assoc_map(t).contains_key(x) implies #[trigger] assoc_map(t)[x]
        == assoc_map(s).insert(key@, value.deep_view())[x] by {
        let c = place(t, x);
        lemma_assoc_at(t, c);
        if c < s.len() {
            lemma_assoc_at(s, c);
        }
    }
    assert(assoc_map(t) =~= assoc_map(s).insert(key@, value.deep_view()));
}

/// A list of entries with distinct keys stands for a map of as many keys.
pub proof fn lemma_assoc_len<V: DeepView>(s: Seq<(String, V)>)
    requires
        distinct_keys(s),
    ensures
        assoc_map(s).dom().finite(),
        assoc_map(s).dom().len() == s.len(),
    decreases s.len(),
{
    if s.len() == 0 {
        assert(assoc_map(s).dom() =~= Set::<Seq<char>>::empty());
    } else {
        let t = s.drop_last();
        let k = s.last().0@;
        assert forall|a: int, b: int| #![trigger t[a], t[b]] 0 <= a < b < t.len() implies t[a].0@
            != t[b].0@ by {
            assert(s[a].0@ != s[b].0@);
        }
        lemma_assoc_len(t);
        if names(t, k) {
            let c = place(t, k);
            assert(s[c].0@ != s[s.len() - 1].0@);
        }
        assert forall|x: Seq<char>| #[trigger]
            assoc_map(s).dom().contains(x) == assoc_map(t).dom().insert(k).contains(x) by {
            if names(s, x) {
                let c = place(s, x);
                if c < t.len() {
                    assert(t[c].0@ == x);
                }
            }
            if names(t, x) {
                assert(s[place(t, x)].0@ == x);
            }
            if x == k {
                assert(s[s.len() - 1].0@ == x);
            }
        }
        assert(assoc_map(s).dom() =~= assoc_map(t).dom().insert(k));
    }
}

/// The listing after `value` is stored under `key`: in the place of the
/// entry with that key, or behind the last entry where there is none.
pub open spec fn listing_with<V>(s: Seq<(String, V)>, key: String, value: V) -> Seq<(String, V)> {
    if names(s, key@) {
        s.update(place(s, key@), (key, value))
    } else {
        s.push((key, value))
    }
}

/// A map from strings to values of one type.
#[derive(Debug)]
pub struct StrMap<V> {
    entries: Vec<(String, V)>,
}

impl<V: DeepView> DeepView for StrMap<V> {
    type V = Map<Seq<char>, V::V>;

    closed spec fn deep_view(&self) -> Map<Seq<char>, V::V> {
        assoc_map(self.entries@)
    }
}

impl<V: DeepView> StrMap<V> {
    /// The map is well formed: no key occurs twice.
    pub closed spec fn wf(&self) -> bool {
        distinct_keys(self.entries@)
    }

    /// The entries in the order in which their keys first came.
    pub closed spec fn listing(&self) -> Seq<(String, V)> {
        self.entries@
    }

    /// The listing holds each key once, and holds what the map holds.
    pub proof fn lemma_listing(&self)
        requires
            self.wf(),
        ensures
            distinct_keys(self.listing()),
            self.deep_view() == assoc_map(self.listing()),
            forall|i: int|
                0 <= i < self.listing().len() ==> self.deep_view().contains_key(
                    (#[trigger] self.listing()[i]).0@,
                ) && self.deep_view()[self.listing()[i].0@] == self.listing()[i].1.deep_view(),
    {
        assert forall|i: int| 0 <= i < self.listing().len() implies self.deep_view().contains_key(
            (#[trigger] self.listing()[i]).0@,
        ) && self.deep_view()[self.listing()[i].0@] == self.listing()[i].1.deep_view() by {
            lemma_assoc_at(self.entries@, i);
        }
    }

    /// A map without entries.
    pub fn new() -> (r: Self)
        ensures
            r.wf(),
            r.deep_view() == Map::<Seq<char>, V::V>::empty(),
            r.listing().len() == 0,
    {
        let r = StrMap { entries: Vec::new() };
        assert(r.deep_view() =~= Map::<Seq<char>, V::V>::empty());
        r
    }

    /// The number of entries.
    pub fn len(&self) -> (n: usize)
        requires
            self.wf(),
        ensures
            n == self.listing().len(),
            self.deep_view().dom().finite(),
            n == self.deep_view().dom().len(),
    {
        proof {
            lemma_assoc_len(self.entries@);
        }
        self.entries.len()
    }

    /// The entries in the order in which their keys first came.
    pub fn entries(&self) -> (r: &Vec<(String, V)>)
        ensures
            r@ == self.listing(),
    {
        &self.entries
    }

    /// The position of the entry with the key `key`.
    fn find(&self, key: &str) -> (r: Option<usize>)
        requires
            self.wf(),
        ensures
            match r {
                Some(i) => i < self.entries@.len() && self.entries@[i as int].0@ == key@,
                None => !names(self.entries@, key@),
            },
    {
        let mut i: usize = 0;
        while i < self.entries.len()
            invariant
                i <= self.entries@.len(),
                forall|j: int| 0 <= j < i ==> (#[trigger] self.entries@[j]).0@ != key@,
            decreases self.entries@.len() - i,
        {
            if str_eq(self.entries[i].0.as_str(), key) {
                return Some(i);
            }
            i = i + 1;
        }
        None
    }

    /// Whether the map has an entry for `key`.
    pub fn contains_key(&self, key: &str) -> (r: bool)
        requires
            self.wf(),
        ensures
            r == self.deep_view().contains_key(key@),
    {
        self.find(key).is_some()
    }

    /// The value stored under `key`, if there is one.
    pub fn get(&self, key: &str) -> (r: Option<&V>)
        requires
            self.wf(),
        ensures
            match r {
                Some(v) => self.deep_view().contains_key(key@) && self.deep_view()[key@]
                    == v.deep_view() && names(self.listing(), key@) && *v == self.listing()[place(
                    self.listing(),
                    key@,
                )].1,
                None => !self.deep_view().contains_key(key@),
            },
    {
        match self.find(key) {
            Some(i) => {
                proof {
                    lemma_assoc_at(self.entries@, i as int);
                }
                Some(&self.entries[i].1)
            },
            None => None,
        }
    }

    /// The value stored under `key`, to be changed in place.
    pub fn get_mut(&mut self, key: &str) -> (r: Option<&mut V>)
        requires
            old(self).wf(),
        ensures
            final(self).wf(),
            match r {
                Some(v) => {
                    let p = place(old(self).listing(), key@);
                    &&& old(self).deep_view().contains_key(key@)
                    &&& names(old(self).listing(), key@)
                    &&& *v == old(self).listing()[p].1
                    &&& v.deep_view() == old(self).deep_view()[key@]
                    &&& final(self).listing() == old(self).listing().update(
                        p,
                        (old(self).listing()[p].0, *final(v)),
                    )
                    &&& final(self).deep_view() == old(self).deep_view().insert(
                        key@,
                        final(v).deep_view(),
                    )
                },
                None => {
                    &&& !old(self).deep_view().contains_key(key@)
                    &&& final(self).listing() == old(self).listing()
                    &&& final(self).deep_view() == old(self).deep_view()
                },
            },
    {
        match self.find(key) {
            Some(i) => {
                proof {
                    lemma_assoc_at(self.entries@, i as int);
                    let k = self.entries@[i as int].0;
                    assert forall|w: V| #![auto]
                        assoc_map(self.entries@.update(i as int, (k, w))) == assoc_map(
                            self.entries@,
                        ).insert(key@, w.deep_view()) && distinct_keys(
                            self.entries@.update(i as int, (k, w)),
                        ) by {
                        lemma_assoc_update(self.entries@, i as int, k, w);
                    }
                }
                Some(&mut self.entries[i].1)
            },
            None => None,
        }
    }

    /// Stores `value` under `key`, in place of what was there.
    pub fn insert(&mut self, key: String, value: V)
        requires
            old(self).wf(),
        ensures
            final(self).wf(),
            final(self).deep_view() == old(self).deep_view().insert(key@, value.deep_view()),
            final(self).listing() == listing_with(old(self).listing(), key, value),
    {
        let ghost before = self.entries@;
        match self.find(key.as_str()) {
            Some(i) => {
                proof {
                    lemma_assoc_update(before, i as int, key, value);
                    lemma_assoc_at(before, i as int);
                }
                self.entries.set(i, (key, value));
            },
            None => {
                proof {
                    lemma_assoc_push(before, key, value);
                }
                self.entries.push((key, value));
            },
        }
    }
}

} // verus!
