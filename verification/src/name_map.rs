//! `NameMap`: a map from names to values that keeps its names in ascending
//! order, as `BTreeMap<String, V>` does.  Names are ordered lexicographically
//! by character, which is the order of `String` (UTF-8 byte order agrees with
//! code-point order).
use vstd::prelude::*;

use crate::text::chars_of;

verus! {

/// Strict lexicographic order on character sequences.
pub open spec fn name_lt(a: Seq<char>, b: Seq<char>) -> bool
    decreases a.len(),
{
    if a.len() == 0 {
        b.len() > 0
    } else if b.len() == 0 {
        false
    } else if a[0] != b[0] {
        a[0] < b[0]
    } else {
        name_lt(a.drop_first(), b.drop_first())
    }
}

pub proof fn lemma_name_lt_irreflexive(a: Seq<char>)
    ensures
        !name_lt(a, a),
    decreases a.len(),
{
    if a.len() > 0 {
        lemma_name_lt_irreflexive(a.drop_first());
    }
}

pub proof fn lemma_name_lt_transitive(a: Seq<char>, b: Seq<char>, c: Seq<char>)
    requires
        name_lt(a, b),
        name_lt(b, c),
    ensures
        name_lt(a, c),
    decreases a.len(),
{
    if a.len() > 0 && b.len() > 0 && c.len() > 0 && a[0] == b[0] && b[0] == c[0] {
        lemma_name_lt_transitive(a.drop_first(), b.drop_first(), c.drop_first());
    }
}

pub proof fn lemma_name_lt_total(a: Seq<char>, b: Seq<char>)
    ensures
        a == b || name_lt(a, b) || name_lt(b, a),
    decreases a.len(),
{
    if a.len() > 0 && b.len() > 0 && a[0] == b[0] {
        lemma_name_lt_total(a.drop_first(), b.drop_first());
        if a.drop_first() == b.drop_first() {
            assert(a =~= seq![a[0]] + a.drop_first());
            assert(b =~= seq![b[0]] + b.drop_first());
        }
    } else if a.len() == 0 && b.len() == 0 {
        assert(a =~= b);
    }
}

pub proof fn lemma_name_lt_asymmetric(a: Seq<char>, b: Seq<char>)
    requires
        name_lt(a, b),
    ensures
        !name_lt(b, a),
        a != b,
{
    if name_lt(b, a) {
        lemma_name_lt_transitive(a, b, a);
        lemma_name_lt_irreflexive(a);
    }
    if a == b {
        lemma_name_lt_irreflexive(a);
    }
}

/// Result of comparing two names.
#[derive(Debug, Clone, Copy, PartialEq, Eq, Structural)]
pub enum NameOrder {
    Less,
    Equal,
    Greater,
}

pub open spec fn name_order(a: Seq<char>, b: Seq<char>) -> NameOrder {
    if a == b {
        NameOrder::Equal
    } else if name_lt(a, b) {
        NameOrder::Less
    } else {
        NameOrder::Greater
    }
}

/// Compares two character vectors in name order.
pub fn compare_chars(a: &Vec<char>, b: &Vec<char>) -> (r: NameOrder)
    ensures
        r == name_order(a@, b@),
{
    let mut i: usize = 0;
    while i < a.len() && i < b.len()
        invariant
            i <= a.len(),
            i <= b.len(),
            forall|k: int| 0 <= k < i ==> a@[k] == b@[k],
        decreases a.len() - i,
    {
        if a[i] != b[i] {
            proof {
                lemma_name_lt_prefix(a@, b@, i as int);
                lemma_name_lt_asymmetric_or(a@, b@);
            }
            if a[i] < b[i] {
                return NameOrder::Less;
            } else {
                return NameOrder::Greater;
            }
        }
        i = i + 1;
    }
    proof {
        lemma_name_lt_prefix(a@, b@, i as int);
        lemma_name_lt_asymmetric_or(a@, b@);
        if a.len() == b.len() {
            assert(a@ =~= b@);
        }
    }
    if a.len() == b.len() {
        NameOrder::Equal
    } else if a.len() < b.len() {
        NameOrder::Less
    } else {
        NameOrder::Greater
    }
}

pub proof fn lemma_name_lt_asymmetric_or(a: Seq<char>, b: Seq<char>)
    ensures
        name_lt(a, b) ==> !name_lt(b, a) && a != b,
{
    if name_lt(a, b) {
        lemma_name_lt_asymmetric(a, b);
    }
}

/// After a common prefix of length `i`, the order is decided by what follows.
proof fn lemma_name_lt_prefix(a: Seq<char>, b: Seq<char>, i: int)
    requires
        0 <= i <= a.len(),
        i <= b.len(),
        forall|k: int| 0 <= k < i ==> a[k] == b[k],
    ensures
        name_lt(a, b) == name_lt(a.skip(i), b.skip(i)),
    decreases i,
{
    if i > 0 {
        assert forall|k: int| 0 <= k < i - 1 implies a.drop_first()[k] == b.drop_first()[k] by {
            assert(a.drop_first()[k] == a[k + 1]);
            assert(b.drop_first()[k] == b[k + 1]);
        }
        lemma_name_lt_prefix(a.drop_first(), b.drop_first(), i - 1);
        assert(a.drop_first().skip(i - 1) == a.skip(i));
        assert(b.drop_first().skip(i - 1) == b.skip(i));
    } else {
        assert(a.skip(0) == a);
        assert(b.skip(0) == b);
    }
}

/// Compares two names.
pub fn compare_names(a: &str, b: &str) -> (r: NameOrder)
    ensures
        r == name_order(a@, b@),
{
    let ac = chars_of(a);
    let bc = chars_of(b);
    compare_chars(&ac, &bc)
}

/// Index of the first occurrence of `k` in `keys`, or -1.
pub open spec fn find_key(keys: Seq<Seq<char>>, k: Seq<char>) -> int
    decreases keys.len(),
{
    if keys.len() == 0 {
        -1
    } else if keys.last() == k {
        if find_key(keys.drop_last(), k) >= 0 {
            find_key(keys.drop_last(), k)
        } else {
            keys.len() - 1
        }
    } else {
        find_key(keys.drop_last(), k)
    }
}

pub proof fn lemma_find_key(keys: Seq<Seq<char>>, k: Seq<char>)
    ensures
        -1 <= find_key(keys, k) < keys.len(),
        find_key(keys, k) >= 0 <==> keys.contains(k),
        find_key(keys, k) >= 0 ==> keys[find_key(keys, k)] == k,
        find_key(keys, k) >= 0 ==> forall|j: int| 0 <= j < find_key(keys, k) ==> keys[j] != k,
    decreases keys.len(),
{
    if keys.len() > 0 {
        lemma_find_key(keys.drop_last(), k);
        assert forall|j: int| 0 <= j < keys.len() - 1 implies #[trigger] keys[j] == keys.drop_last()[j] by {}
        if keys.contains(k) {
            let i = choose|i: int| 0 <= i < keys.len() && keys[i] == k;
            if i < keys.len() - 1 {
                assert(keys.drop_last()[i] == k);
            }
        }
        if keys.drop_last().contains(k) {
            let i = choose|i: int| 0 <= i < keys.drop_last().len() && keys.drop_last()[i] == k;
            assert(keys[i] == k);
        }
        assert forall|j: int| 0 <= j < keys.len() - 1 && keys[j] == k implies keys.drop_last().contains(k) by {
            assert(keys.drop_last()[j] == k);
        }
    }
}

/// The names of a sorted sequence are strictly increasing.
pub open spec fn strictly_sorted(keys: Seq<Seq<char>>) -> bool {
    forall|i: int, j: int| 0 <= i < j < keys.len() ==> name_lt(#[trigger] keys[i], #[trigger] keys[j])
}

pub proof fn lemma_sorted_find(keys: Seq<Seq<char>>, i: int)
    requires
        strictly_sorted(keys),
        0 <= i < keys.len(),
    ensures
        find_key(keys, keys[i]) == i,
{
    lemma_find_key(keys, keys[i]);
    let f = find_key(keys, keys[i]);
    assert(keys.contains(keys[i]));
    if f < i {
        lemma_name_lt_irreflexive(keys[i]);
    } else if f > i {
        lemma_name_lt_irreflexive(keys[i]);
    }
}

/// A map from names to values, kept in ascending name order.
#[derive(Debug, Clone)]
pub struct NameMap<V> {
    entries: Vec<(String, V)>,
}

impl<V> NameMap<V> {
    /// The names, in ascending order.
    pub closed spec fn keys(&self) -> Seq<Seq<char>> {
        self.entries@.map_values(|e: (String, V)| e.0@)
    }

    /// The values, in the order of their names.
    pub closed spec fn values(&self) -> Seq<V> {
        self.entries@.map_values(|e: (String, V)| e.1)
    }

    /// Well-formedness: names strictly ascending.
    pub closed spec fn wf(&self) -> bool {
        strictly_sorted(self.keys())
    }

    /// The map that this value stands for.
    pub open spec fn view(&self) -> Map<Seq<char>, V> {
        Map::new(
            |k: Seq<char>| self.keys().contains(k),
            |k: Seq<char>| self.values()[find_key(self.keys(), k)],
        )
    }

    pub proof fn lemma_sorted(&self)
        requires
            self.wf(),
        ensures
            strictly_sorted(self.keys()),
    {
    }

    pub proof fn lemma_lengths(&self)
        ensures
            self.keys().len() == self.values().len(),
    {
    }

    /// Each stored name maps to the value stored beside it.
    pub proof fn lemma_view(&self)
        requires
            self.wf(),
        ensures
            self.keys().len() == self.values().len(),
            forall|i: int| #![trigger self.keys()[i]] 0 <= i < self.keys().len() ==> self@.contains_key(self.keys()[i]) && self@[self.keys()[i]] == self.values()[i],
            forall|k: Seq<char>| self@.contains_key(k) <==> #[trigger] self.keys().contains(k),
    {
        assert forall|i: int| #![trigger self.keys()[i]] 0 <= i < self.keys().len() implies self@.contains_key(self.keys()[i]) && self@[self.keys()[i]] == self.values()[i] by {
            assert(self.keys().contains(self.keys()[i]));
            lemma_sorted_find(self.keys(), i);
        }
    }

    pub fn new() -> (m: Self)
        ensures
            m.wf(),
            m@ == Map::<Seq<char>, V>::empty(),
            m.keys() == Seq::<Seq<char>>::empty(),
    {
        let m = NameMap { entries: Vec::new() };
        assert(m@ =~= Map::<Seq<char>, V>::empty());
        m
    }

    /// Number of names.
    pub fn len(&self) -> (n: usize)
        ensures
            n == self.keys().len(),
    {
        self.entries.len()
    }

    /// The name at position `i` of the ascending order.
    pub fn key_at(&self, i: usize) -> (k: &String)
        requires
            i < self.keys().len(),
        ensures
            k@ == self.keys()[i as int],
    {
        &self.entries[i].0
    }

    /// The value at position `i` of the ascending order.
    pub fn value_at(&self, i: usize) -> (v: &V)
        requires
            i < self.keys().len(),
        ensures
            *v == self.values()[i as int],
    {
        &self.entries[i].1
    }

    /// Where `key` stands, or where it would be inserted.
    fn locate(&self, key: &str) -> (r: (usize, bool))
        requires
            self.wf(),
        ensures
            r.0 <= self.keys().len(),
            r.1 ==> r.0 < self.keys().len() && self.keys()[r.0 as int] == key@,
            !r.1 ==> !self.keys().contains(key@),
            !r.1 ==> forall|j: int| 0 <= j < r.0 ==> name_lt(#[trigger] self.keys()[j], key@),
            !r.1 ==> forall|j: int| r.0 <= j < self.keys().len() ==> name_lt(key@, #[trigger] self.keys()[j]),
    {
        let ghost keys = self.keys();
        let mut lo: usize = 0;
        let mut hi: usize = self.entries.len();
        while lo < hi
            invariant
                keys == self.keys(),
                strictly_sorted(keys),
                lo <= hi <= keys.len(),
                keys.len() == self.entries.len(),
                forall|j: int| 0 <= j < lo ==> name_lt(#[trigger] keys[j], key@),
                forall|j: int| hi <= j < keys.len() ==> name_lt(key@, #[trigger] keys[j]),
            decreases hi - lo,
        {
            let mid = lo + (hi - lo) / 2;
            assert(keys[mid as int] == self.entries@[mid as int].0@);
            match compare_names(self.entries[mid].0.as_str(), key) {
                NameOrder::Equal => {
                    return (mid, true);
                },
                NameOrder::Less => {
                    proof {
                        assert forall|j: int| 0 <= j < mid + 1 implies name_lt(#[trigger] keys[j], key@) by {
                            if j < mid {
                                lemma_name_lt_transitive(keys[j], keys[mid as int], key@);
                            }
                        }
                    }
                    lo = mid + 1;
                },
                NameOrder::Greater => {
                    proof {
                        lemma_name_lt_total(keys[mid as int], key@);
                        assert forall|j: int| mid <= j < keys.len() implies name_lt(key@, #[trigger] keys[j]) by {
                            if j > mid {
                                lemma_name_lt_transitive(key@, keys[mid as int], keys[j]);
                            }
                        }
                    }
                    hi = mid;
                },
            }
        }
        proof {
            if keys.contains(key@) {
                let j = choose|j: int| 0 <= j < keys.len() && keys[j] == key@;
                lemma_name_lt_irreflexive(key@);
            }
        }
        (lo, false)
    }

    /// The value stored under `key`.
    pub fn get(&self, key: &str) -> (r: Option<&V>)
        requires
            self.wf(),
        ensures
            match r {
                Some(v) => self@.contains_key(key@) && self@[key@] == *v,
                None => !self@.contains_key(key@),
            },
    {
        proof {
            self.lemma_view();
        }
        let (i, found) = self.locate(key);
        if found {
            Some(&self.entries[i].1)
        } else {
            None
        }
    }

    /// Whether `key` has a value.
    pub fn contains_key(&self, key: &str) -> (r: bool)
        requires
            self.wf(),
        ensures
            r == self@.contains_key(key@),
    {
        proof {
            self.lemma_view();
        }
        let (_i, found) = self.locate(key);
        found
    }

    /// Stores `value` under `key`, replacing a value already there.
    pub fn insert(&mut self, key: String, value: V)
        requires
            old(self).wf(),
        ensures
            final(self).wf(),
            final(self)@ == old(self)@.insert(key@, value),
    {
        proof {
            self.lemma_view();
        }
        let ghost old_keys = self.keys();
        let ghost old_vals = self.values();
        let (i, found) = self.locate(key.as_str());
        if found {
            self.entries.set(i, (key, value));
            proof {
                assert(self.keys() =~= old_keys.update(i as int, key@));
                assert(self.values() =~= old_vals.update(i as int, value));
            }
        } else {
            self.entries.insert(i, (key, value));
            proof {
                assert(self.keys() =~= old_keys.insert(i as int, key@));
                assert(self.values() =~= old_vals.insert(i as int, value));
                assert forall|a: int, b: int| 0 <= a < b < self.keys().len() implies name_lt(#[trigger] self.keys()[a], #[trigger] self.keys()[b]) by {
                    if a < i && b > i {
                        lemma_name_lt_transitive(old_keys[a], key@, old_keys[b - 1]);
                    }
                }
            }
        }
        proof {
            self.lemma_view();
            old(self).lemma_view();
            assert forall|k: Seq<char>| self@.contains_key(k) <==> old(self)@.insert(key@, value).contains_key(k) by {
                if self.keys().contains(k) {
                    let j = choose|j: int| 0 <= j < self.keys().len() && self.keys()[j] == k;
                    if k != key@ {
                        if found {
                            assert(old_keys[j] == k);
                        } else if j < i {
                            assert(old_keys[j] == k);
                        } else {
                            assert(old_keys[j - 1] == k);
                        }
                    }
                }
                if old_keys.contains(k) {
                    let j = choose|j: int| 0 <= j < old_keys.len() && old_keys[j] == k;
                    if found {
                        if j != i {
                            assert(self.keys()[j] == k);
                        }
                    } else if j < i {
                        assert(self.keys()[j] == k);
                    } else {
                        assert(self.keys()[j + 1] == k);
                    }
                }
                if k == key@ {
                    assert(self.keys()[i as int] == k);
                }
            }
            assert forall|k: Seq<char>| #[trigger] self@.contains_key(k) implies self@[k] == old(self)@.insert(key@, value)[k] by {
                let j = choose|j: int| 0 <= j < self.keys().len() && self.keys()[j] == k;
                assert(self@[self.keys()[j]] == self.values()[j]);
                if k != key@ {
                    if found {
                        assert(old(self)@[old_keys[j]] == old_vals[j]);
                    } else if j < i {
                        assert(old(self)@[old_keys[j]] == old_vals[j]);
                    } else {
                        assert(old(self)@[old_keys[j - 1]] == old_vals[j - 1]);
                    }
                } else {
                    lemma_sorted_find(self.keys(), i as int);
                }
            }
            assert(self@ =~= old(self)@.insert(key@, value));
        }
    }

    /// Stores `value` under `key` unless `key` already has a value
    /// (`entry(key).or_insert(value)`).
    pub fn insert_if_absent(&mut self, key: String, value: V)
        requires
            old(self).wf(),
        ensures
            final(self).wf(),
            final(self)@ == if old(self)@.contains_key(key@) {
                old(self)@
            } else {
                old(self)@.insert(key@, value)
            },
    {
        if !self.contains_key(key.as_str()) {
            self.insert(key, value);
        }
    }

    /// Sets the value of every name to `value`; the names stay.
    pub fn set_every_value(&mut self, value: V)
        where
            V: Copy,
        requires
            old(self).wf(),
        ensures
            final(self).wf(),
            final(self).keys() == old(self).keys(),
            final(self)@.dom() == old(self)@.dom(),
            forall|k: Seq<char>| #[trigger] final(self)@.contains_key(k) ==> final(self)@[k] == value,
    {
        let ghost old_keys = self.keys();
        let n = self.entries.len();
        let mut i: usize = 0;
        while i < n
            invariant
                n == self.entries.len(),
                i <= n,
                self.keys() == old_keys,
                strictly_sorted(old_keys),
                forall|j: int| 0 <= j < i ==> #[trigger] self.values()[j] == value,
            decreases n - i,
        {
            let ghost prev_vals = self.values();
            let (k, _v) = self.entries.remove(i);
            self.entries.insert(i, (k, value));
            proof {
                assert(self.keys() =~= old_keys);
                assert(self.values() =~= prev_vals.update(i as int, value));
                assert forall|j: int| 0 <= j < i + 1 implies #[trigger] self.values()[j] == value by {}
            }
            i = i + 1;
        }
        proof {
            self.lemma_view();
            assert(self@.dom() =~= old(self)@.dom());
            assert forall|k: Seq<char>| #[trigger] self@.contains_key(k) implies self@[k] == value by {
                let j = choose|j: int| 0 <= j < self.keys().len() && self.keys()[j] == k;
                assert(self@[self.keys()[j]] == self.values()[j]);
            }
        }
    }
}

impl<V> Default for NameMap<V> {
    fn default() -> (m: Self)
        ensures
            m.wf(),
            m@ == Map::<Seq<char>, V>::empty(),
    {
        NameMap::new()
    }
}

impl<T> NameMap<Vec<T>> {
    /// The list stored under `key`, extended by `item`; a name without a
    /// list gets the one-item list (`entry(key).or_default().push(item)`).
    pub fn push_to(&mut self, key: String, item: T)
        requires
            old(self).wf(),
        ensures
            final(self).wf(),
            final(self)@.dom() == old(self)@.dom().insert(key@),
            final(self)@[key@]@ == (if old(self)@.contains_key(key@) {
                old(self)@[key@]@
            } else {
                Seq::<T>::empty()
            }).push(item),
            forall|k: Seq<char>| k != key@ && #[trigger] old(self)@.contains_key(k) ==> final(self)@[k] == old(self)@[k],
    {
        let (i, found) = self.locate(key.as_str());
        if found {
            proof {
                self.lemma_view();
            }
            let ghost old_keys = self.keys();
            let ghost old_vals = self.values();
            let (k, mut list) = self.entries.remove(i);
            list.push(item);
            let ghost new_list = list;
            self.entries.insert(i, (k, list));
            proof {
                assert(self.keys() =~= old_keys);
                assert(self.values() =~= old_vals.update(i as int, new_list));
                self.lemma_view();
                assert(self@.dom() =~= old(self)@.dom().insert(key@));
                assert(self@[self.keys()[i as int]] == new_list);
                assert(old(self)@[old_keys[i as int]] == old_vals[i as int]);
                assert forall|kk: Seq<char>| kk != key@ && #[trigger] old(self)@.contains_key(kk) implies self@[kk] == old(self)@[kk] by {
                    let j = choose|j: int| 0 <= j < old_keys.len() && old_keys[j] == kk;
                    assert(self@[self.keys()[j]] == self.values()[j]);
                    assert(old(self)@[old_keys[j]] == old_vals[j]);
                }
            }
        } else {
            let mut list: Vec<T> = Vec::new();
            list.push(item);
            self.insert(key, list);
            proof {
                assert(self@.dom() =~= old(self)@.dom().insert(key@));
            }
        }
    }
}

impl NameMap<usize> {
    /// Adds one to the count of `key`; a name without a count gets 1
    /// (`*entry(key).or_insert(0) += 1`).
    pub fn increment(&mut self, key: String)
        requires
            old(self).wf(),
            old(self)@.contains_key(key@) ==> old(self)@[key@] < usize::MAX,
        ensures
            final(self).wf(),
            final(self)@ == old(self)@.insert(
                key@,
                (if old(self)@.contains_key(key@) {
                    old(self)@[key@] + 1
                } else {
                    1
                }) as usize,
            ),
    {
        let current: usize = match self.get(key.as_str()) {
            Some(v) => *v,
            None => 0,
        };
        self.insert(key, current + 1);
    }
}

} // verus!
