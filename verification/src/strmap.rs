use vstd::prelude::*;
use crate::text::owned;

verus! {

/// A small map keyed by strings, kept as a list of distinct keys in
/// insertion order.
#[derive(Debug)]
pub struct StrMap<V> {
    items: Vec<(String, V)>,
}

/// Whether the keys of a list of entries are distinct.
pub open spec fn keys_distinct<V>(items: Seq<(String, V)>) -> bool {
    forall|i: int, j: int| 0 <= i < j < items.len() ==> items[i].0@ != items[j].0@
}

/// Whether key `k` is stored in the entries.
pub open spec fn has_key<V>(items: Seq<(String, V)>, k: Seq<char>) -> bool {
    exists|i: int| 0 <= i < items.len() && items[i].0@ == k
}

/// The map held by a list of entries.
pub open spec fn entries_map<V>(items: Seq<(String, V)>) -> Map<Seq<char>, V> {
    Map::new(
        |k: Seq<char>| has_key(items, k),
        |k: Seq<char>| items[choose|i: int| 0 <= i < items.len() && items[i].0@ == k].1,
    )
}

/// In a list of distinct keys, the entry at `i` gives the map's value at its key.
pub proof fn lemma_entry_value<V>(items: Seq<(String, V)>, i: int)
    requires
        keys_distinct(items),
        0 <= i < items.len(),
    ensures
        entries_map(items).contains_key(items[i].0@),
        entries_map(items)[items[i].0@] == items[i].1,
{
    let k = items[i].0@;
    assert(has_key(items, k));
    let j = choose|j: int| 0 <= j < items.len() && items[j].0@ == k;
    assert(j == i);
}

impl<V> StrMap<V> {
    /// The map view.
    pub closed spec fn view(&self) -> Map<Seq<char>, V> {
        entries_map(self.items@)
    }

    /// Keys are distinct.
    pub closed spec fn wf(&self) -> bool {
        keys_distinct(self.items@)
    }

    /// The number of entries (the number of keys of the view).
    pub closed spec fn len_spec(&self) -> nat {
        self.items@.len()
    }

    /// The view is finite and has as many keys as there are entries.
    pub proof fn lemma_len(&self)
        requires
            self.wf(),
        ensures
            self@.dom().finite(),
            self@.dom().len() == self.len_spec(),
    {
        lemma_dom_len(self.items@);
    }

    /// An empty map.
    pub fn new() -> (m: Self)
        ensures
            m.wf(),
            m@ == Map::<Seq<char>, V>::empty(),
            m.len_spec() == 0,
    {
        let m = StrMap { items: Vec::new() };
        assert(entries_map(m.items@) =~= Map::<Seq<char>, V>::empty());
        m
    }

    /// Number of entries.
    pub fn len(&self) -> (n: usize)
        ensures
            n == self.len_spec(),
    {
        self.items.len()
    }

    /// The position of key `k`, if stored.
    fn find(&self, k: &String) -> (r: Option<usize>)
        requires
            self.wf(),
        ensures
            match r {
                Some(i) => i < self.items@.len() && self.items@[i as int].0@ == k@,
                None => !has_key(self.items@, k@),
            },
    {
        let mut i: usize = 0;
        while i < self.items.len()
            invariant
                i <= self.items@.len(),
                forall|j: int| 0 <= j < i ==> self.items@[j].0@ != k@,
            decreases self.items@.len() - i,
        {
            if self.items[i].0 == *k {
                return Some(i);
            }
            i = i + 1;
        }
        None
    }

    /// Whether key `k` is stored.
    pub fn contains_key(&self, k: &str) -> (b: bool)
        requires
            self.wf(),
        ensures
            b == self@.contains_key(k@),
    {
        let key = owned(k);
        self.find(&key).is_some()
    }

    /// The value stored at `k`, if any.
    pub fn get(&self, k: &str) -> (r: Option<&V>)
        requires
            self.wf(),
        ensures
            match r {
                Some(v) => self@.contains_key(k@) && self@[k@] == *v,
                None => !self@.contains_key(k@),
            },
    {
        let key = owned(k);
        match self.find(&key) {
            Some(i) => {
                proof {
                    lemma_entry_value(self.items@, i as int);
                }
                Some(&self.items[i].1)
            },
            None => None,
        }
    }

    /// Store `v` at `k`, replacing any earlier value.
    pub fn insert(&mut self, k: &str, v: V)
        requires
            old(self).wf(),
        ensures
            final(self).wf(),
            final(self)@ == old(self)@.insert(k@, v),
    {
        let key = owned(k);
        let ghost before = self.items@;
        match self.find(&key) {
            Some(i) => {
                self.items.set(i, (key, v));
                proof {
                    assert(keys_distinct(self.items@));
                    assert forall|kk: Seq<char>| #![auto]
                        entries_map(self.items@).contains_key(kk)
                            == entries_map(before).insert(k@, v).contains_key(kk) by {
                        if has_key(before, kk) {
                            let j = choose|j: int| 0 <= j < before.len() && before[j].0@ == kk;
                            assert(self.items@[j].0@ == kk);
                        }
                        if has_key(self.items@, kk) {
                            let j = choose|j: int| 0 <= j < self.items@.len() && self.items@[j].0@ == kk;
                            assert(before[j].0@ == kk);
                        }
                    }
                    assert forall|kk: Seq<char>| entries_map(self.items@).contains_key(kk)
                        implies entries_map(self.items@)[kk] == entries_map(before).insert(k@, v)[kk] by {
                        let j = choose|j: int| 0 <= j < self.items@.len() && self.items@[j].0@ == kk;
                        lemma_entry_value(self.items@, j);
                        if j != i {
                            lemma_entry_value(before, j);
                        }
                    }
                    assert(entries_map(self.items@) =~= entries_map(before).insert(k@, v));
                }
            },
            None => {
                self.items.push((key, v));
                proof {
                    assert(keys_distinct(self.items@));
                    let n = before.len() as int;
                    assert forall|kk: Seq<char>| #![auto]
                        entries_map(self.items@).contains_key(kk)
                            == entries_map(before).insert(k@, v).contains_key(kk) by {
                        if has_key(before, kk) {
                            let j = choose|j: int| 0 <= j < before.len() && before[j].0@ == kk;
                            assert(self.items@[j].0@ == kk);
                        }
                        if kk == k@ {
                            assert(self.items@[n].0@ == kk);
                        }
                        if has_key(self.items@, kk) {
                            let j = choose|j: int| 0 <= j < self.items@.len() && self.items@[j].0@ == kk;
                            if j < n {
                                assert(before[j].0@ == kk);
                            }
                        }
                    }
                    assert forall|kk: Seq<char>| entries_map(self.items@).contains_key(kk)
                        implies entries_map(self.items@)[kk] == entries_map(before).insert(k@, v)[kk] by {
                        let j = choose|j: int| 0 <= j < self.items@.len() && self.items@[j].0@ == kk;
                        lemma_entry_value(self.items@, j);
                        if j < n {
                            lemma_entry_value(before, j);
                        }
                    }
                    assert(entries_map(self.items@) =~= entries_map(before).insert(k@, v));
                }
            },
        }
    }

    /// Remove key `k`; returns whether it was stored.
    pub fn remove(&mut self, k: &str) -> (was: bool)
        requires
            old(self).wf(),
        ensures
            final(self).wf(),
            final(self)@ == old(self)@.remove(k@),
            was == old(self)@.contains_key(k@),
    {
        let key = owned(k);
        let ghost before = self.items@;
        match self.find(&key) {
            Some(i) => {
                self.items.remove(i);
                proof {
                    assert(keys_distinct(self.items@)) by {
                        assert forall|a: int, b: int| 0 <= a < b < self.items@.len()
                            implies self.items@[a].0@ != self.items@[b].0@ by {
                            let a2 = if a < i { a } else { a + 1 };
                            let b2 = if b < i { b } else { b + 1 };
                            assert(self.items@[a] == before[a2]);
                            assert(self.items@[b] == before[b2]);
                        }
                    }
                    assert forall|kk: Seq<char>| #![auto]
                        entries_map(self.items@).contains_key(kk)
                            == entries_map(before).remove(k@).contains_key(kk) by {
                        if has_key(before, kk) && kk != k@ {
                            let j = choose|j: int| 0 <= j < before.len() && before[j].0@ == kk;
                            if j < i {
                                assert(self.items@[j].0@ == kk);
                            } else {
                                assert(self.items@[j - 1].0@ == kk);
                            }
                        }
                        if has_key(self.items@, kk) {
                            let j = choose|j: int| 0 <= j < self.items@.len() && self.items@[j].0@ == kk;
                            let j2 = if j < i { j } else { j + 1 };
                            assert(before[j2].0@ == kk);
                        }
                    }
                    assert forall|kk: Seq<char>| entries_map(self.items@).contains_key(kk)
                        implies entries_map(self.items@)[kk] == entries_map(before).remove(k@)[kk] by {
                        let j = choose|j: int| 0 <= j < self.items@.len() && self.items@[j].0@ == kk;
                        lemma_entry_value(self.items@, j);
                        let j2 = if j < i { j } else { j + 1 };
                        assert(self.items@[j] == before[j2]);
                        lemma_entry_value(before, j2);
                    }
                    assert(entries_map(self.items@) =~= entries_map(before).remove(k@));
                }
                true
            },
            None => {
                assert(entries_map(self.items@) =~= entries_map(before).remove(k@));
                false
            },
        }
    }

    /// The key of the `i`-th entry.
    pub closed spec fn key_spec(&self, i: int) -> Seq<char> {
        self.items@[i].0@
    }

    /// Every stored key is the key of some entry position.
    pub proof fn lemma_key_index(&self, k: Seq<char>)
        requires
            self.wf(),
            self@.contains_key(k),
        ensures
            exists|i: int| 0 <= i < self.len_spec() && #[trigger] self.key_spec(i) == k,
    {
        let i = choose|i: int| 0 <= i < self.items@.len() && self.items@[i].0@ == k;
        assert(self.key_spec(i) == k);
    }

    /// The value of the `i`-th entry.
    pub closed spec fn value_at(&self, i: int) -> V {
        self.items@[i].1
    }

    /// The entry at position `i` is in the map.
    pub proof fn lemma_entry_spec(&self, i: int)
        requires
            self.wf(),
            0 <= i < self.len_spec(),
        ensures
            self@.contains_key(self.key_spec(i)),
            self@[self.key_spec(i)] == self.value_at(i),
    {
        lemma_entry_value(self.items@, i);
    }

    /// How many of the first `n` entries have a value passing `pred`.
    pub open spec fn count_prefix(&self, pred: spec_fn(V) -> bool, n: int) -> nat
        decreases n,
    {
        if n <= 0 {
            0
        } else {
            self.count_prefix(pred, n - 1) + if pred(self.value_at(n - 1)) { 1nat } else { 0nat }
        }
    }

    /// Counting the entries one by one gives the number of keys whose value
    /// passes `pred`.
    pub proof fn lemma_count_values(&self, pred: spec_fn(V) -> bool)
        requires
            self.wf(),
        ensures
            count_where(self@, pred) == self.count_prefix(pred, self.len_spec() as int),
    {
        lemma_count_seq(self.items@, pred);
        self.lemma_count_prefix_take(pred, self.items@.len() as int);
        assert(self.items@.take(self.items@.len() as int) =~= self.items@);
    }

    proof fn lemma_count_prefix_take(&self, pred: spec_fn(V) -> bool, n: int)
        requires
            0 <= n <= self.items@.len(),
        ensures
            self.count_prefix(pred, n) == seq_count(self.items@.take(n), pred),
        decreases n,
    {
        if n > 0 {
            self.lemma_count_prefix_take(pred, n - 1);
            assert(self.items@.take(n).drop_last() =~= self.items@.take(n - 1));
        }
    }

    /// The key and value of the `i`-th entry.
    pub fn entry_at(&self, i: usize) -> (r: (&String, &V))
        requires
            self.wf(),
            i < self.len_spec(),
        ensures
            self@.contains_key(r.0@),
            self@[r.0@] == *r.1,
            r.0@ == self.key_spec(i as int),
            *r.1 == self.value_at(i as int),
    {
        proof {
            lemma_entry_value(self.items@, i as int);
        }
        (&self.items[i].0, &self.items[i].1)
    }

    /// Keep only the entries whose value passes `keep`; every kept entry
    /// was judged `true` and every dropped one `false`.
    pub fn retain<F: Fn(&V) -> bool>(&mut self, keep: F)
        requires
            old(self).wf(),
            forall|v: &V| #[trigger] keep.requires((v,)),
        ensures
            final(self).wf(),
            forall|k: Seq<char>| #[trigger] final(self)@.contains_key(k) ==> old(self)@.contains_key(k)
                && final(self)@[k] == old(self)@[k] && keep.ensures((&old(self)@[k],), true),
            forall|k: Seq<char>| #[trigger] old(self)@.contains_key(k) && !final(self)@.contains_key(k)
                ==> keep.ensures((&old(self)@[k],), false),
            final(self).len_spec() <= old(self).len_spec(),
    {
        let ghost before = self.items@;
        let ghost mut p: int = 0;
        let mut i: usize = 0;
        while i < self.items.len()
            invariant
                forall|v: &V| #[trigger] keep.requires((v,)),
                keys_distinct(before),
                0 <= i <= self.items@.len(),
                0 <= p <= before.len(),
                self.items@.len() - i == before.len() - p,
                i <= p,
                forall|a: int| i <= a < self.items@.len() ==> #[trigger] self.items@[a] == before[a - i + p],
                forall|a: int| 0 <= a < i ==> exists|b: int| 0 <= b < p && #[trigger] self.items@[a] == before[b]
                    && keep.ensures((&before[b].1,), true),
                forall|b: int| 0 <= b < p ==> (exists|a: int| 0 <= a < i && #[trigger] self.items@[a] == before[b])
                    || keep.ensures((&before[b].1,), false),
                keys_distinct(self.items@),
            decreases self.items@.len() - i,
        {
            let r = keep(&self.items[i].1);
            if r {
                proof {
                    assert(self.items@[i as int] == before[p]);
                    p = p + 1;
                }
                i = i + 1;
            } else {
                let ghost old_items = self.items@;
                self.items.remove(i);
                proof {
                    assert(old_items[i as int] == before[p]);
                    assert forall|a: int| 0 <= a < i implies exists|b: int| 0 <= b < p + 1
                        && #[trigger] self.items@[a] == before[b] && keep.ensures((&before[b].1,), true) by {
                        assert(self.items@[a] == old_items[a]);
                    }
                    assert forall|b: int| 0 <= b < p + 1 implies (exists|a: int| 0 <= a < i
                        && #[trigger] self.items@[a] == before[b]) || keep.ensures((&before[b].1,), false) by {
                        if b < p {
                            if exists|a: int| 0 <= a < i && #[trigger] old_items[a] == before[b] {
                                let a = choose|a: int| 0 <= a < i && #[trigger] old_items[a] == before[b];
                                assert(self.items@[a] == old_items[a]);
                            }
                        }
                    }
                    assert forall|a: int, c: int| 0 <= a < c < self.items@.len()
                        implies self.items@[a].0@ != self.items@[c].0@ by {
                        let a2 = if a < i { a } else { a + 1 };
                        let c2 = if c < i { c } else { c + 1 };
                        assert(self.items@[a] == old_items[a2]);
                        assert(self.items@[c] == old_items[c2]);
                    }
                    p = p + 1;
                }
            }
        }
        proof {
            assert forall|k: Seq<char>| #[trigger] entries_map(self.items@).contains_key(k) implies
                entries_map(before).contains_key(k) && entries_map(self.items@)[k] == entries_map(before)[k]
                && keep.ensures((&entries_map(before)[k],), true) by {
                let a = choose|a: int| 0 <= a < self.items@.len() && self.items@[a].0@ == k;
                lemma_entry_value(self.items@, a);
                let b = choose|b: int| 0 <= b < p && #[trigger] self.items@[a] == before[b]
                    && keep.ensures((&before[b].1,), true);
                lemma_entry_value(before, b);
            }
            assert forall|k: Seq<char>| #[trigger] entries_map(before).contains_key(k)
                && !entries_map(self.items@).contains_key(k) implies
                keep.ensures((&entries_map(before)[k],), false) by {
                let b = choose|b: int| 0 <= b < before.len() && before[b].0@ == k;
                lemma_entry_value(before, b);
                if exists|a: int| 0 <= a < i && #[trigger] self.items@[a] == before[b] {
                    let a = choose|a: int| 0 <= a < i && #[trigger] self.items@[a] == before[b];
                    assert(has_key(self.items@, k));
                }
            }
        }
    }
}

/// The number of keys of `m` whose value passes `pred`.
pub open spec fn count_where<V>(m: Map<Seq<char>, V>, pred: spec_fn(V) -> bool) -> nat {
    m.dom().filter(|k: Seq<char>| pred(m[k])).len()
}

/// Adding a new key adds one to the count exactly when its value passes.
pub proof fn lemma_count_insert<V>(m: Map<Seq<char>, V>, k: Seq<char>, v: V, pred: spec_fn(V) -> bool)
    requires
        m.dom().finite(),
        !m.contains_key(k),
    ensures
        count_where(m.insert(k, v), pred) == count_where(m, pred) + if pred(v) { 1nat } else { 0nat },
{
    let m2 = m.insert(k, v);
    let f = m.dom().filter(|x: Seq<char>| pred(m[x]));
    let f2 = m2.dom().filter(|x: Seq<char>| pred(m2[x]));
    m.dom().lemma_len_filter(|x: Seq<char>| pred(m[x]));
    if pred(v) {
        assert(f2 =~= f.insert(k));
    } else {
        assert(f2 =~= f);
    }
}

/// Removing a key takes one from the count exactly when its value passed.
pub proof fn lemma_count_remove<V>(m: Map<Seq<char>, V>, k: Seq<char>, pred: spec_fn(V) -> bool)
    requires
        m.dom().finite(),
        m.contains_key(k),
    ensures
        count_where(m.remove(k), pred) + (if pred(m[k]) { 1nat } else { 0nat }) == count_where(m, pred),
{
    let m2 = m.remove(k);
    let f = m.dom().filter(|x: Seq<char>| pred(m[x]));
    let f2 = m2.dom().filter(|x: Seq<char>| pred(m2[x]));
    m.dom().lemma_len_filter(|x: Seq<char>| pred(m[x]));
    if pred(m[k]) {
        assert(f2 =~= f.remove(k));
    } else {
        assert(f2 =~= f);
    }
}

/// How many entries of a list have a value passing `pred`.
pub open spec fn seq_count<V>(items: Seq<(String, V)>, pred: spec_fn(V) -> bool) -> nat
    decreases items.len(),
{
    if items.len() == 0 {
        0
    } else {
        seq_count(items.drop_last(), pred) + if pred(items.last().1) { 1nat } else { 0nat }
    }
}

/// Over distinct keys, counting entries equals counting the keys of the map.
pub proof fn lemma_count_seq<V>(items: Seq<(String, V)>, pred: spec_fn(V) -> bool)
    requires
        keys_distinct(items),
    ensures
        count_where(entries_map(items), pred) == seq_count(items, pred),
    decreases items.len(),
{
    lemma_dom_len(items);
    let m = entries_map(items);
    let f = m.dom().filter(|k: Seq<char>| pred(m[k]));
    if items.len() == 0 {
        assert(f =~= Set::<Seq<char>>::empty());
    } else {
        let prefix = items.drop_last();
        lemma_count_seq(prefix, pred);
        lemma_dom_len(prefix);
        let pm = entries_map(prefix);
        let pf = pm.dom().filter(|k: Seq<char>| pred(pm[k]));
        let last = items.last().0@;
        let n = items.len() - 1;
        assert(!pm.dom().contains(last)) by {
            if pm.dom().contains(last) {
                let i = choose|i: int| 0 <= i < prefix.len() && prefix[i].0@ == last;
                assert(items[i].0@ == items[n].0@);
            }
        }
        lemma_entry_value(items, n);
        assert forall|k: Seq<char>| #[trigger] pm.dom().contains(k) implies m.dom().contains(k) && m[k] == pm[k] by {
            let i = choose|i: int| 0 <= i < prefix.len() && prefix[i].0@ == k;
            lemma_entry_value(prefix, i);
            assert(items[i] == prefix[i]);
            lemma_entry_value(items, i);
        }
        assert forall|k: Seq<char>| #[trigger] m.dom().contains(k) implies k == last || pm.dom().contains(k) by {
            let i = choose|i: int| 0 <= i < items.len() && items[i].0@ == k;
            if i < n {
                assert(prefix[i].0@ == k);
            }
        }
        pm.dom().lemma_len_filter(|k: Seq<char>| pred(pm[k]));
        if pred(items.last().1) {
            assert(f =~= pf.insert(last));
        } else {
            assert(f =~= pf);
        }
    }
}

/// A list of entries with distinct keys has as many keys as entries.
pub proof fn lemma_dom_len<V>(items: Seq<(String, V)>)
    requires
        keys_distinct(items),
    ensures
        entries_map(items).dom().finite(),
        entries_map(items).dom().len() == items.len(),
    decreases items.len(),
{
    if items.len() == 0 {
        assert(entries_map(items).dom() =~= Set::<Seq<char>>::empty());
    } else {
        let prefix = items.drop_last();
        lemma_dom_len(prefix);
        let last = items.last().0@;
        assert(entries_map(items).dom() =~= entries_map(prefix).dom().insert(last)) by {
            assert forall|k: Seq<char>| entries_map(items).dom().contains(k)
                implies entries_map(prefix).dom().insert(last).contains(k) by {
                let i = choose|i: int| 0 <= i < items.len() && items[i].0@ == k;
                if i < prefix.len() {
                    assert(prefix[i].0@ == k);
                }
            }
            assert forall|k: Seq<char>| entries_map(prefix).dom().insert(last).contains(k)
                implies entries_map(items).dom().contains(k) by {
                if k != last {
                    let i = choose|i: int| 0 <= i < prefix.len() && prefix[i].0@ == k;
                    assert(items[i].0@ == k);
                } else {
                    assert(items[items.len() - 1].0@ == k);
                }
            }
        }
        assert(!entries_map(prefix).dom().contains(last)) by {
            if entries_map(prefix).dom().contains(last) {
                let i = choose|i: int| 0 <= i < prefix.len() && prefix[i].0@ == last;
                assert(items[i].0@ == items[items.len() - 1].0@);
            }
        }
    }
}

} // verus!
