//! The storage partition of one contract: an ordered map from byte keys to
//! byte values.
//!
//! The entries are kept in a vector sorted by key, so that a range can be
//! walked in key order and no key occurs twice.

use crate::bytes::{bytes_eq, bytes_lt, lex_lt};
use crate::bytes::{lemma_lex_asymmetric, lemma_lex_irreflexive, lemma_lex_total, lemma_lex_transitive};
use vstd::prelude::*;
use vstd::slice::slice_to_vec;

verus! {

/// A key and its value, as a range hands them out.
pub type KV = (Vec<u8>, Vec<u8>);

/// What one operation is charged: the cost of the call itself and the cost
/// of the work done outside the virtual machine.
#[derive(Clone, Copy, Debug, PartialEq, Eq, Structural)]
pub struct GasInfo {
    pub cost: u64,
    pub externally_used: u64,
}

/// Gas charged for the call of any storage operation.
pub const STORAGE_COST: u64 = 100;

/// Gas charged for the work a storage operation does outside the machine.
pub const STORAGE_COST_EXTERNAL: u64 = 200;

/// The direction in which a range is walked.
#[derive(Clone, Copy, Debug, PartialEq, Eq, Structural)]
pub enum Order {
    Ascending,
    Descending,
}

/// The charge of every storage operation.
pub open spec fn storage_gas() -> GasInfo {
    GasInfo { cost: STORAGE_COST, externally_used: STORAGE_COST_EXTERNAL }
}

/// The keys of `s` grow strictly from each entry to the next.
pub open spec fn keys_increasing(s: Seq<(Seq<u8>, Seq<u8>)>) -> bool {
    forall|i: int, j: int| #![trigger s[i], s[j]] 0 <= i < j < s.len() ==> lex_lt(s[i].0, s[j].0)
}

/// The keys of `s` fall strictly from each entry to the next.
pub open spec fn keys_decreasing(s: Seq<(Seq<u8>, Seq<u8>)>) -> bool {
    forall|i: int, j: int| #![trigger s[i], s[j]] 0 <= i < j < s.len() ==> lex_lt(s[j].0, s[i].0)
}

/// Some entry of `s` has the key `k`.
pub open spec fn has_key(s: Seq<(Seq<u8>, Seq<u8>)>, k: Seq<u8>) -> bool {
    exists|i: int| 0 <= i < s.len() && #[trigger] s[i].0 == k
}

/// The map that a list of entries stands for.
pub open spec fn entries_map(s: Seq<(Seq<u8>, Seq<u8>)>) -> Map<Seq<u8>, Seq<u8>> {
    Map::new(
        |k: Seq<u8>| has_key(s, k),
        |k: Seq<u8>| s[choose|i: int| 0 <= i < s.len() && #[trigger] s[i].0 == k].1,
    )
}

/// The entries of a map, by ascending key.
pub open spec fn sorted_entries(m: Map<Seq<u8>, Seq<u8>>) -> Seq<(Seq<u8>, Seq<u8>)> {
    choose|s: Seq<(Seq<u8>, Seq<u8>)>| keys_increasing(s) && entries_map(s) == m
}

/// The entries of a vector of pairs, each taken by its bytes.
pub open spec fn pair_views(v: Seq<KV>) -> Seq<(Seq<u8>, Seq<u8>)> {
    v.map_values(|e: KV| (e.0@, e.1@))
}

/// `k` lies in the half-open range from `start` (included) to `end`
/// (excluded); a missing bound leaves that side open.
pub open spec fn in_range(k: Seq<u8>, start: Option<Seq<u8>>, end: Option<Seq<u8>>) -> bool {
    &&& start matches Some(s) ==> !lex_lt(k, s)
    &&& end matches Some(e) ==> lex_lt(k, e)
}

/// The entries of `m` whose key lies in the range from `start` to `end`, by
/// ascending or descending key.
pub open spec fn ranged(
    m: Map<Seq<u8>, Seq<u8>>,
    start: Option<Seq<u8>>,
    end: Option<Seq<u8>>,
    order: Order,
) -> Seq<(Seq<u8>, Seq<u8>)> {
    let up = sorted_entries(m).filter(|e: (Seq<u8>, Seq<u8>)| in_range(e.0, start, end));
    match order {
        Order::Ascending => up,
        Order::Descending => up.reverse(),
    }
}

/// The bytes of an optional bound.
pub open spec fn bound_view(b: Option<&[u8]>) -> Option<Seq<u8>> {
    match b {
        Some(s) => Some(s@),
        None => None,
    }
}

/// The bytes of an optional value.
pub open spec fn value_view(v: Option<Vec<u8>>) -> Option<Seq<u8>> {
    match v {
        Some(b) => Some(b@),
        None => None,
    }
}

/// What a map holds under a key, if anything.
pub open spec fn lookup(m: Map<Seq<u8>, Seq<u8>>, k: Seq<u8>) -> Option<Seq<u8>> {
    if m.contains_key(k) {
        Some(m[k])
    } else {
        None
    }
}

proof fn lemma_present(s: Seq<(Seq<u8>, Seq<u8>)>, i: int)
    requires
        keys_increasing(s),
        0 <= i < s.len(),
    ensures
        entries_map(s).contains_key(s[i].0),
        entries_map(s)[s[i].0] == s[i].1,
{
    let k = s[i].0;
    assert(has_key(s, k));
    let c = choose|c: int| 0 <= c < s.len() && #[trigger] s[c].0 == k;
    lemma_lex_irreflexive(k);
    if c < i {
        assert(lex_lt(s[c].0, s[i].0));
    } else if i < c {
        assert(lex_lt(s[i].0, s[c].0));
    }
}

proof fn lemma_absent(s: Seq<(Seq<u8>, Seq<u8>)>, pos: int, k: Seq<u8>)
    requires
        keys_increasing(s),
        0 <= pos <= s.len(),
        forall|j: int| 0 <= j < pos ==> lex_lt(#[trigger] s[j].0, k),
        pos < s.len() ==> s[pos].0 != k && !lex_lt(s[pos].0, k),
    ensures
        !entries_map(s).contains_key(k),
{
    if has_key(s, k) {
        let c = choose|c: int| 0 <= c < s.len() && #[trigger] s[c].0 == k;
        lemma_lex_irreflexive(k);
        if c < pos {
            assert(lex_lt(s[c].0, k));
        } else {
            assert(pos < s.len());
            if !lex_lt(k, s[pos].0) {
                lemma_lex_total(k, s[pos].0);
            }
            if pos < c {
                assert(lex_lt(s[pos].0, s[c].0));
                lemma_lex_asymmetric(k, s[pos].0);
            }
        }
    }
}

/// The storage region bound to one contract address.
#[derive(Debug)]
pub struct MyMockStorage {
    bucket: Vec<KV>,
}

impl View for MyMockStorage {
    type V = Map<Seq<u8>, Seq<u8>>;

    closed spec fn view(&self) -> Map<Seq<u8>, Seq<u8>> {
        entries_map(self.entries())
    }
}

impl MyMockStorage {
    /// All entries, by ascending key.
    pub closed spec fn entries(&self) -> Seq<(Seq<u8>, Seq<u8>)> {
        pair_views(self.bucket@)
    }

    /// The partition is well formed: its keys grow strictly, so none occurs
    /// twice.
    pub closed spec fn wf(&self) -> bool {
        keys_increasing(self.entries())
    }

    /// The entries are sorted by key and are exactly what the map holds.
    pub proof fn lemma_entries(&self)
        requires
            self.wf(),
        ensures
            keys_increasing(self.entries()),
            forall|i: int|
                0 <= i < self.entries().len() ==> self@.contains_key(#[trigger] self.entries()[i].0)
                    && self@[self.entries()[i].0] == self.entries()[i].1,
            forall|k: Seq<u8>| #[trigger] self@.contains_key(k) ==> has_key(self.entries(), k),
            self@.dom().finite(),
            self.entries() == sorted_entries(self@),
    {
        let s = self.entries();
        lemma_sorted_entries(s);
        assert forall|i: int| 0 <= i < s.len() implies self@.contains_key(#[trigger] s[i].0)
            && self@[s[i].0] == s[i].1 by {
            lemma_present(s, i);
        }
        lemma_keys_finite(s);
    }

    /// An empty partition.
    pub fn empty() -> (r: Self)
        ensures
            r.wf(),
            r@ == Map::<Seq<u8>, Seq<u8>>::empty(),
            r.entries().len() == 0,
    {
        let r = MyMockStorage { bucket: Vec::new() };
        assert(r@ =~= Map::<Seq<u8>, Seq<u8>>::empty());
        r
    }

    /// A partition that holds the pairs of `bucket`; of two pairs with one
    /// key the later one stays.
    pub fn new(bucket: Vec<KV>) -> (r: Self)
        ensures
            r.wf(),
            r@ == fill(pair_views(bucket@)),
    {
        let mut r = MyMockStorage::empty();
        let mut i: usize = 0;
        while i < bucket.len()
            invariant
                i <= bucket.len(),
                r.wf(),
                r@ == fill(pair_views(bucket@).take(i as int)),
            decreases bucket.len() - i,
        {
            proof {
                let s = pair_views(bucket@);
                assert(s.take(i + 1).drop_last() =~= s.take(i as int));
            }
            r.set(bucket[i].0.as_slice(), bucket[i].1.as_slice());
            i = i + 1;
        }
        assert(pair_views(bucket@).take(i as int) =~= pair_views(bucket@));
        r
    }

    /// The number of entries.
    pub fn len(&self) -> (n: usize)
        requires
            self.wf(),
        ensures
            n == self.entries().len(),
            n == self@.dom().len(),
    {
        proof {
            lemma_keys_len(self.entries());
        }
        self.bucket.len()
    }

    /// The index of the first entry whose key does not sort before `key`,
    /// found by halving the entries that may hold it.
    fn position(&self, key: &[u8]) -> (pos: usize)
        requires
            self.wf(),
        ensures
            pos <= self.entries().len(),
            forall|j: int| 0 <= j < pos ==> lex_lt(#[trigger] self.entries()[j].0, key@),
            pos < self.entries().len() ==> !lex_lt(self.entries()[pos as int].0, key@),
    {
        let mut low: usize = 0;
        let mut high: usize = self.bucket.len();
        while low < high
            invariant
                self.wf(),
                low <= high <= self.bucket@.len(),
                forall|j: int| 0 <= j < low ==> lex_lt(#[trigger] self.entries()[j].0, key@),
                forall|j: int|
                    high <= j < self.bucket@.len() ==> !lex_lt(
                        #[trigger] self.entries()[j].0,
                        key@,
                    ),
            decreases high - low,
        {
            let mid = low + (high - low) / 2;
            let ghost s = self.entries();
            if bytes_lt(self.bucket[mid].0.as_slice(), key) {
                assert forall|j: int| 0 <= j < mid + 1 implies lex_lt(#[trigger] s[j].0, key@) by {
                    if j < mid {
                        assert(lex_lt(s[j].0, s[mid as int].0));
                        lemma_lex_transitive(s[j].0, s[mid as int].0, key@);
                    }
                }
                low = mid + 1;
            } else {
                assert forall|j: int| mid <= j < s.len() implies !lex_lt(
                    #[trigger] s[j].0,
                    key@,
                ) by {
                    if mid < j && lex_lt(s[j].0, key@) {
                        assert(lex_lt(s[mid as int].0, s[j].0));
                        lemma_lex_transitive(s[mid as int].0, s[j].0, key@);
                    }
                }
                high = mid;
            }
        }
        low
    }

    /// The value stored under `key`, if there is one.
    pub fn get(&self, key: &[u8]) -> (r: (Option<Vec<u8>>, GasInfo))
        requires
            self.wf(),
        ensures
            value_view(r.0) == lookup(self@, key@),
            r.1 == storage_gas(),
    {
        let gas = GasInfo { cost: STORAGE_COST, externally_used: STORAGE_COST_EXTERNAL };
        let pos = self.position(key);
        if pos < self.bucket.len() && bytes_eq(self.bucket[pos].0.as_slice(), key) {
            proof {
                lemma_present(self.entries(), pos as int);
            }
            (Some(slice_to_vec(self.bucket[pos].1.as_slice())), gas)
        } else {
            proof {
                lemma_absent(self.entries(), pos as int, key@);
            }
            (None, gas)
        }
    }

    /// Stores `value` under `key`, in place of what was there.
    pub fn set(&mut self, key: &[u8], value: &[u8]) -> (gas: GasInfo)
        requires
            old(self).wf(),
        ensures
            final(self).wf(),
            final(self)@ == old(self)@.insert(key@, value@),
            gas == storage_gas(),
    {
        let pos = self.position(key);
        let ghost before = self.entries();
        if pos < self.bucket.len() && bytes_eq(self.bucket[pos].0.as_slice(), key) {
            self.bucket.set(pos, (slice_to_vec(key), slice_to_vec(value)));
            proof {
                assert(self.entries() =~= before.update(pos as int, (key@, value@)));
                lemma_update(before, pos as int, value@);
            }
        } else {
            self.bucket.insert(pos, (slice_to_vec(key), slice_to_vec(value)));
            proof {
                assert(self.entries() =~= before.insert(pos as int, (key@, value@)));
                lemma_insert(before, pos as int, key@, value@);
            }
        }
        GasInfo { cost: STORAGE_COST, externally_used: STORAGE_COST_EXTERNAL }
    }

    /// Removes what is stored under `key`, if anything.
    pub fn remove(&mut self, key: &[u8]) -> (gas: GasInfo)
        requires
            old(self).wf(),
        ensures
            final(self).wf(),
            final(self)@ == old(self)@.remove(key@),
            gas == storage_gas(),
    {
        let pos = self.position(key);
        let ghost before = self.entries();
        if pos < self.bucket.len() && bytes_eq(self.bucket[pos].0.as_slice(), key) {
            self.bucket.remove(pos);
            proof {
                assert(self.entries() =~= before.remove(pos as int));
                lemma_remove(before, pos as int);
            }
        } else {
            proof {
                lemma_absent(before, pos as int, key@);
                assert(self@ =~= self@.remove(key@));
            }
        }
        GasInfo { cost: STORAGE_COST, externally_used: STORAGE_COST_EXTERNAL }
    }

    /// The entries whose key lies in the range from `start` to `end`, by
    /// ascending or descending key.
    pub fn range(&self, start: Option<&[u8]>, end: Option<&[u8]>, order: Order) -> (r: (
        Vec<KV>,
        GasInfo,
    ))
        requires
            self.wf(),
        ensures
            pair_views(r.0@) == ranged(self@, bound_view(start), bound_view(end), order),
            r.1 == storage_gas(),
    {
        proof {
            lemma_sorted_entries(self.entries());
        }
        let ghost pred = |e: (Seq<u8>, Seq<u8>)| in_range(e.0, bound_view(start), bound_view(end));
        let mut up: Vec<KV> = Vec::new();
        let mut i: usize = 0;
        assert(pair_views(up@) =~= self.entries().take(0).filter(pred)) by {
            reveal(Seq::filter);
        }
        while i < self.bucket.len()
            invariant
                i <= self.bucket@.len(),
                pred == |e: (Seq<u8>, Seq<u8>)| in_range(e.0, bound_view(start), bound_view(end)),
                pair_views(up@) == self.entries().take(i as int).filter(pred),
            decreases self.bucket@.len() - i,
        {
            let key = self.bucket[i].0.as_slice();
            let after_start = match start {
                Some(s) => !bytes_lt(key, s),
                None => true,
            };
            let before_end = match end {
                Some(e) => bytes_lt(key, e),
                None => true,
            };
            proof {
                let s = self.entries();
                assert(s.take(i + 1).drop_last() =~= s.take(i as int));
                assert(s.take(i + 1).last() == s[i as int]);
                reveal(Seq::filter);
            }
            if after_start && before_end {
                let ghost prev = pair_views(up@);
                up.push((slice_to_vec(key), slice_to_vec(self.bucket[i].1.as_slice())));
                assert(pair_views(up@) =~= prev.push(self.entries()[i as int]));
            }
            i = i + 1;
        }
        assert(self.entries().take(i as int) =~= self.entries());
        let gas = GasInfo { cost: STORAGE_COST, externally_used: STORAGE_COST_EXTERNAL };
        match order {
            Order::Ascending => (up, gas),
            Order::Descending => {
                let mut down: Vec<KV> = Vec::new();
                let mut j: usize = up.len();
                while j > 0
                    invariant
                        j <= up@.len(),
                        down@.len() == up@.len() - j,
                        forall|p: int|
                            0 <= p < down@.len() ==> (#[trigger] down@[p]).0@ == up@[up@.len() - 1
                                - p].0@ && down@[p].1@ == up@[up@.len() - 1 - p].1@,
                    decreases j,
                {
                    j = j - 1;
                    down.push(
                        (slice_to_vec(up[j].0.as_slice()), slice_to_vec(up[j].1.as_slice())),
                    );
                }
                assert(pair_views(down@) =~= pair_views(up@).reverse());
                (down, gas)
            },
        }
    }
}

impl Default for MyMockStorage {
    fn default() -> (r: Self)
        ensures
            r.wf(),
            r@ == Map::<Seq<u8>, Seq<u8>>::empty(),
    {
        MyMockStorage::empty()
    }
}

/// The map that results from storing the pairs of `s` one after the other,
/// starting from nothing.
pub open spec fn fill(s: Seq<(Seq<u8>, Seq<u8>)>) -> Map<Seq<u8>, Seq<u8>>
    decreases s.len(),
{
    if s.len() == 0 {
        Map::empty()
    } else {
        fill(s.drop_last()).insert(s.last().0, s.last().1)
    }
}

proof fn lemma_update(s: Seq<(Seq<u8>, Seq<u8>)>, pos: int, value: Seq<u8>)
    requires
        keys_increasing(s),
        0 <= pos < s.len(),
    ensures
        keys_increasing(s.update(pos, (s[pos].0, value))),
        entries_map(s.update(pos, (s[pos].0, value))) == entries_map(s).insert(s[pos].0, value),
{
    let k = s[pos].0;
    let t = s.update(pos, (k, value));
    assert forall|i: int, j: int| #![trigger t[i], t[j]] 0 <= i < j < t.len() implies lex_lt(
        t[i].0,
        t[j].0,
    ) by {
        assert(lex_lt(s[i].0, s[j].0));
    }
    assert forall|x: Seq<u8>| #[trigger]
        entries_map(t).contains_key(x) == entries_map(s).insert(k, value).contains_key(x) by {
        if has_key(t, x) {
            let c = choose|c: int| 0 <= c < t.len() && #[trigger] t[c].0 == x;
            assert(s[c].0 == x);
        }
        if has_key(s, x) {
            let c = choose|c: int| 0 <= c < s.len() && #[trigger] s[c].0 == x;
            assert(t[c].0 == x);
        }
        if x == k {
            assert(t[pos].0 == x);
        }
    }
    assert forall|x: Seq<u8>| entries_map(t).contains_key(x) implies #[trigger] entries_map(t)[x]
        == entries_map(s).insert(k, value)[x] by {
        let c = choose|c: int| 0 <= c < t.len() && #[trigger] t[c].0 == x;
        lemma_present(t, c);
        if c != pos {
            lemma_present(s, c);
            lemma_lex_irreflexive(k);
            if c < pos {
                assert(lex_lt(s[c].0, s[pos].0));
            } else {
                assert(lex_lt(s[pos].0, s[c].0));
            }
        }
    }
    assert(entries_map(t) =~= entries_map(s).insert(k, value));
}

proof fn lemma_insert(s: Seq<(Seq<u8>, Seq<u8>)>, pos: int, key: Seq<u8>, value: Seq<u8>)
    requires
        keys_increasing(s),
        0 <= pos <= s.len(),
        forall|j: int| 0 <= j < pos ==> lex_lt(#[trigger] s[j].0, key),
        pos < s.len() ==> s[pos].0 != key && !lex_lt(s[pos].0, key),
    ensures
        keys_increasing(s.insert(pos, (key, value))),
        entries_map(s.insert(pos, (key, value))) == entries_map(s).insert(key, value),
{
    let t = s.insert(pos, (key, value));
    if pos < s.len() {
        if !lex_lt(key, s[pos].0) {
            lemma_lex_total(key, s[pos].0);
        }
    }
    assert forall|i: int, j: int| #![trigger t[i], t[j]] 0 <= i < j < t.len() implies lex_lt(
        t[i].0,
        t[j].0,
    ) by {
        if j < pos {
            assert(lex_lt(s[i].0, s[j].0));
        } else if j == pos {
            assert(lex_lt(s[i].0, key));
        } else if i == pos {
            if j - 1 > pos {
                assert(lex_lt(s[pos].0, s[j - 1].0));
                lemma_lex_transitive(key, s[pos].0, s[j - 1].0);
            }
        } else if i < pos {
            assert(lex_lt(s[i].0, s[j - 1].0));
        } else {
            assert(lex_lt(s[i - 1].0, s[j - 1].0));
        }
    }
    lemma_absent(s, pos, key);
    assert forall|x: Seq<u8>| #[trigger]
        entries_map(t).contains_key(x) == entries_map(s).insert(key, value).contains_key(x) by {
        if has_key(t, x) {
            let c = choose|c: int| 0 <= c < t.len() && #[trigger] t[c].0 == x;
            if c < pos {
                assert(s[c].0 == x);
            } else if c > pos {
                assert(s[c - 1].0 == x);
            }
        }
        if has_key(s, x) {
            let c = choose|c: int| 0 <= c < s.len() && #[trigger] s[c].0 == x;
            if c < pos {
                assert(t[c].0 == x);
            } else {
                assert(t[c + 1].0 == x);
            }
        }
        if x == key {
            assert(t[pos].0 == x);
        }
    }
    assert forall|x: Seq<u8>| entries_map(t).contains_key(x) implies #[trigger] entries_map(t)[x]
        == entries_map(s).insert(key, value)[x] by {
        let c = choose|c: int| 0 <= c < t.len() && #[trigger] t[c].0 == x;
        lemma_present(t, c);
        if c < pos {
            lemma_present(s, c);
        } else if c > pos {
            lemma_present(s, c - 1);
        }
    }
    assert(entries_map(t) =~= entries_map(s).insert(key, value));
}

proof fn lemma_remove(s: Seq<(Seq<u8>, Seq<u8>)>, pos: int)
    requires
        keys_increasing(s),
        0 <= pos < s.len(),
    ensures
        keys_increasing(s.remove(pos)),
        entries_map(s.remove(pos)) == entries_map(s).remove(s[pos].0),
{
    let k = s[pos].0;
    let t = s.remove(pos);
    assert forall|i: int, j: int| #![trigger t[i], t[j]] 0 <= i < j < t.len() implies lex_lt(
        t[i].0,
        t[j].0,
    ) by {
        let si = if i < pos { i } else { i + 1 };
        let sj = if j < pos { j } else { j + 1 };
        assert(lex_lt(s[si].0, s[sj].0));
    }
    lemma_lex_irreflexive(k);
    assert forall|x: Seq<u8>| #[trigger]
        entries_map(t).contains_key(x) == entries_map(s).remove(k).contains_key(x) by {
        if has_key(t, x) {
            let c = choose|c: int| 0 <= c < t.len() && #[trigger] t[c].0 == x;
            let sc = if c < pos { c } else { c + 1 };
            assert(s[sc].0 == x);
            if sc < pos {
                assert(lex_lt(s[sc].0, s[pos].0));
            } else {
                assert(lex_lt(s[pos].0, s[sc].0));
            }
        }
        if has_key(s, x) && x != k {
            let c = choose|c: int| 0 <= c < s.len() && #[trigger] s[c].0 == x;
            if c < pos {
                assert(t[c].0 == x);
            } else {
                assert(t[c - 1].0 == x);
            }
        }
    }
    assert forall|x: Seq<u8>| entries_map(t).contains_key(x) implies #[trigger] entries_map(t)[x]
        == entries_map(s).remove(k)[x] by {
        let c = choose|c: int| 0 <= c < t.len() && #[trigger] t[c].0 == x;
        lemma_present(t, c);
        if c < pos {
            lemma_present(s, c);
        } else {
            lemma_present(s, c + 1);
        }
    }
    assert(entries_map(t) =~= entries_map(s).remove(k));
}

/// Two lists with strictly growing keys that stand for one map are equal.
pub proof fn lemma_sorted_unique(s: Seq<(Seq<u8>, Seq<u8>)>, t: Seq<(Seq<u8>, Seq<u8>)>)
    requires
        keys_increasing(s),
        keys_increasing(t),
        entries_map(s) == entries_map(t),
    ensures
        s == t,
    decreases s.len(),
{
    lemma_keys_len(s);
    lemma_keys_len(t);
    if s.len() == 0 {
        assert(s =~= t);
    } else {
        let n = s.len() - 1;
        lemma_present(s, n);
        lemma_present(t, n);
        let ks = s[n].0;
        let kt = t[n].0;
        assert(has_key(t, ks));
        assert(has_key(s, kt));
        let j = choose|j: int| 0 <= j < t.len() && #[trigger] t[j].0 == ks;
        let i = choose|i: int| 0 <= i < s.len() && #[trigger] s[i].0 == kt;
        if ks != kt {
            assert(lex_lt(t[j].0, t[n].0));
            assert(lex_lt(s[i].0, s[n].0));
            lemma_lex_asymmetric(ks, kt);
        }
        lemma_remove(s, n);
        lemma_remove(t, n);
        assert(s.remove(n) =~= s.drop_last());
        assert(t.remove(n) =~= t.drop_last());
        lemma_sorted_unique(s.drop_last(), t.drop_last());
        assert(s =~= s.drop_last().push(s[n]));
        assert(t =~= t.drop_last().push(t[n]));
    }
}

/// A list with strictly growing keys is the sorted list of its map.
pub proof fn lemma_sorted_entries(s: Seq<(Seq<u8>, Seq<u8>)>)
    requires
        keys_increasing(s),
    ensures
        sorted_entries(entries_map(s)) == s,
{
    let c = sorted_entries(entries_map(s));
    lemma_sorted_unique(c, s);
}

proof fn lemma_keys_finite(s: Seq<(Seq<u8>, Seq<u8>)>)
    ensures
        entries_map(s).dom().finite(),
{
    let keys = s.map_values(|e: (Seq<u8>, Seq<u8>)| e.0);
    vstd::seq_lib::seq_to_set_is_finite(keys);
    assert forall|k: Seq<u8>| entries_map(s).dom().contains(k) implies keys.to_set().contains(
        k,
    ) by {
        let c = choose|c: int| 0 <= c < s.len() && #[trigger] s[c].0 == k;
        assert(keys[c] == k);
    }
    vstd::set_lib::lemma_len_subset(entries_map(s).dom(), keys.to_set());
}

proof fn lemma_keys_len(s: Seq<(Seq<u8>, Seq<u8>)>)
    requires
        keys_increasing(s),
    ensures
        entries_map(s).dom().len() == s.len(),
    decreases s.len(),
{
    lemma_keys_finite(s);
    if s.len() == 0 {
        assert(entries_map(s).dom() =~= Set::<Seq<u8>>::empty());
    } else {
        let pos = s.len() - 1;
        lemma_remove(s, pos);
        assert(s.remove(pos) =~= s.drop_last());
        lemma_keys_len(s.drop_last());
        lemma_present(s, pos);
        lemma_keys_finite(s.drop_last());
        assert(entries_map(s).dom().remove(s[pos].0) =~= entries_map(s.drop_last()).dom());
    }
}

} // verus!
