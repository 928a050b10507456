//! The semantic comparison of two drawings: per-key counts, their
//! differences ordered by size, and the rules that make layouts and block
//! names comparable.
use vstd::prelude::*;
use vstd::seq_lib::lemma_multiset_commutative;

use crate::models::{EntityRecord, GeometryKind, LayoutInfo, ExtractionStats};
use crate::output::{push_signed, signed_text};
use crate::text::{chars_of, eq_ignore_case, same_chars_ignore_case, string_of};
use crate::name_map::{NameMap, NameOrder, compare_names, strictly_sorted, name_lt, lemma_name_lt_asymmetric_or, lemma_name_lt_asymmetric, lemma_name_lt_irreflexive, lemma_name_lt_total, lemma_name_lt_transitive};

verus! {

broadcast use {vstd::seq_lib::group_to_multiset_ensures, vstd::multiset::group_multiset_axioms};

/// A key whose count differs between the two sides.
#[derive(Debug)]
pub struct CountDifference {
    pub key: String,
    pub left_count: usize,
    pub right_count: usize,
}

/// How far apart the two counts are.
pub open spec fn delta(d: CountDifference) -> int {
    if d.left_count >= d.right_count {
        d.left_count - d.right_count
    } else {
        d.right_count - d.left_count
    }
}

/// Report order: larger differences first, then keys in ascending order.
pub open spec fn precedes(x: CountDifference, y: CountDifference) -> bool {
    delta(x) > delta(y) || (delta(x) == delta(y) && name_lt(x.key@, y.key@))
}

pub open spec fn weakly_sorted(s: Seq<CountDifference>) -> bool {
    forall|i: int, j: int| 0 <= i < j < s.len() ==> !precedes(#[trigger] s[j], #[trigger] s[i])
}

proof fn lemma_precedes_asymmetric(x: CountDifference, y: CountDifference)
    requires
        precedes(x, y),
    ensures
        !precedes(y, x),
{
    if delta(x) == delta(y) {
        lemma_name_lt_asymmetric(x.key@, y.key@);
    }
}

/// `!precedes(y, x)` is transitive.
proof fn lemma_not_after_transitive(x: CountDifference, y: CountDifference, z: CountDifference)
    requires
        !precedes(y, x),
        !precedes(z, y),
    ensures
        !precedes(z, x),
{
    lemma_name_lt_total(x.key@, y.key@);
    lemma_name_lt_total(y.key@, z.key@);
    lemma_name_lt_total(x.key@, z.key@);
    if precedes(z, x) {
        if delta(x) == delta(y) && delta(y) == delta(z) {
            if name_lt(z.key@, x.key@) {
                if x.key@ == y.key@ {
                    if y.key@ != z.key@ {
                        lemma_name_lt_asymmetric(y.key@, z.key@);
                    }
                } else {
                    if y.key@ == z.key@ {
                        lemma_name_lt_asymmetric(x.key@, y.key@);
                    } else {
                        lemma_name_lt_transitive(x.key@, y.key@, z.key@);
                        lemma_name_lt_asymmetric(x.key@, z.key@);
                    }
                }
            }
        }
    }
}

fn copy_difference(d: &CountDifference) -> (r: CountDifference)
    ensures
        r == *d,
{
    CountDifference { key: d.key.clone(), left_count: d.left_count, right_count: d.right_count }
}

/// Whether `x` comes after `y` in report order.
fn comes_after(x: &CountDifference, y: &CountDifference) -> (r: bool)
    ensures
        r == precedes(*y, *x),
{
    let dx: usize = if x.left_count >= x.right_count {
        x.left_count - x.right_count
    } else {
        x.right_count - x.left_count
    };
    let dy: usize = if y.left_count >= y.right_count {
        y.left_count - y.right_count
    } else {
        y.right_count - y.left_count
    };
    if dy != dx {
        dy > dx
    } else {
        proof {
            if name_lt(y.key@, x.key@) {
                lemma_name_lt_asymmetric(y.key@, x.key@);
            }
        }
        match crate::name_map::compare_names(y.key.as_str(), x.key.as_str()) {
            crate::name_map::NameOrder::Less => true,
            _ => false,
        }
    }
}

fn merge_differences(a: &Vec<CountDifference>, b: &Vec<CountDifference>) -> (out: Vec<CountDifference>)
    requires
        weakly_sorted(a@),
        weakly_sorted(b@),
    ensures
        weakly_sorted(out@),
        out@.to_multiset() == a@.to_multiset().add(b@.to_multiset()),
{
    let mut out: Vec<CountDifference> = Vec::new();
    let mut i: usize = 0;
    let mut j: usize = 0;
    while i < a.len() || j < b.len()
        invariant
            i <= a.len(),
            j <= b.len(),
            weakly_sorted(a@),
            weakly_sorted(b@),
            weakly_sorted(out@),
            out@.to_multiset() == a@.take(i as int).to_multiset().add(b@.take(j as int).to_multiset()),
            forall|k: int| 0 <= k < out@.len() ==> i < a@.len() ==> !precedes(a@[i as int], #[trigger] out@[k]),
            forall|k: int| 0 <= k < out@.len() ==> j < b@.len() ==> !precedes(b@[j as int], #[trigger] out@[k]),
        decreases a.len() + b.len() - i - j,
    {
        let take_a = j >= b.len() || (i < a.len() && !comes_after(&a[i], &b[j]));
        if take_a {
            let x = copy_difference(&a[i]);
            let ghost before = out@;
            out.push(x);
            proof {
                assert(a@.take(i + 1) == a@.take(i as int).push(a@[i as int]));
                if j < b@.len() {
                    lemma_precedes_asymmetric_or(b@[j as int], a@[i as int]);
                }
                assert forall|k: int| 0 <= k < out@.len() && i + 1 < a@.len() implies !precedes(a@[i + 1], #[trigger] out@[k]) by {
                    assert(!precedes(a@[i + 1], a@[i as int]));
                    if k < before.len() {
                        lemma_not_after_transitive(out@[k], a@[i as int], a@[i + 1]);
                    }
                }
                assert forall|p: int, q: int| 0 <= p < q < out@.len() implies !precedes(#[trigger] out@[q], #[trigger] out@[p]) by {
                    if q == before.len() {
                        assert(out@[p] == before[p]);
                    }
                }
            }
            i = i + 1;
        } else {
            let x = copy_difference(&b[j]);
            let ghost before = out@;
            out.push(x);
            proof {
                assert(b@.take(j + 1) == b@.take(j as int).push(b@[j as int]));
                if i < a@.len() {
                    lemma_precedes_asymmetric(b@[j as int], a@[i as int]);
                }
                assert forall|k: int| 0 <= k < out@.len() && j + 1 < b@.len() implies !precedes(b@[j + 1], #[trigger] out@[k]) by {
                    assert(!precedes(b@[j + 1], b@[j as int]));
                    if k < before.len() {
                        lemma_not_after_transitive(out@[k], b@[j as int], b@[j + 1]);
                    }
                }
                assert forall|p: int, q: int| 0 <= p < q < out@.len() implies !precedes(#[trigger] out@[q], #[trigger] out@[p]) by {
                    if q == before.len() {
                        assert(out@[p] == before[p]);
                    }
                }
            }
            j = j + 1;
        }
    }
    assert(a@.take(a@.len() as int) == a@);
    assert(b@.take(b@.len() as int) == b@);
    out
}

proof fn lemma_precedes_asymmetric_or(x: CountDifference, y: CountDifference)
    ensures
        precedes(x, y) ==> !precedes(y, x),
{
    if precedes(x, y) {
        lemma_precedes_asymmetric(x, y);
    }
}

/// Sorts differences into report order (a merge sort).
fn sort_differences(v: Vec<CountDifference>) -> (out: Vec<CountDifference>)
    ensures
        weakly_sorted(out@),
        out@.to_multiset() == v@.to_multiset(),
    decreases v@.len(),
{
    if v.len() <= 1 {
        return v;
    }
    let ghost whole = v@;
    let mut left = v;
    let mid = left.len() / 2;
    let right = left.split_off(mid);
    proof {
        assert(whole == left@ + right@);
        lemma_multiset_commutative(left@, right@);
    }
    let sl = sort_differences(left);
    let sr = sort_differences(right);
    merge_differences(&sl, &sr)
}

/// A key's count; keys without one count zero.
pub open spec fn count_in(m: Map<Seq<char>, usize>, k: Seq<char>) -> int {
    if m.contains_key(k) {
        m[k] as int
    } else {
        0
    }
}

/// The difference entry is right for the two count maps.
pub open spec fn is_difference(d: CountDifference, l: Map<Seq<char>, usize>, r: Map<Seq<char>, usize>) -> bool {
    &&& d.left_count as int == count_in(l, d.key@)
    &&& d.right_count as int == count_in(r, d.key@)
    &&& d.left_count != d.right_count
}

pub open spec fn diff_keys(s: Seq<CountDifference>) -> Seq<Seq<char>> {
    s.map_values(|d: CountDifference| d.key@)
}

fn difference(key: &String, left_count: usize, right_count: usize) -> (d: CountDifference)
    ensures
        d.key@ == key@,
        d.left_count == left_count,
        d.right_count == right_count,
{
    CountDifference { key: key.clone(), left_count, right_count }
}

/// The differing keys of two count maps, in ascending key order.
fn collect_differences(left: &NameMap<usize>, right: &NameMap<usize>) -> (out: Vec<CountDifference>)
    requires
        left.wf(),
        right.wf(),
    ensures
        strictly_sorted(diff_keys(out@)),
        forall|i: int| 0 <= i < out@.len() ==> is_difference(#[trigger] out@[i], left@, right@),
        forall|k: Seq<char>| count_in(left@, k) != count_in(right@, k) ==> #[trigger] diff_keys(out@).contains(k),
{
    proof {
        left.lemma_view();
        right.lemma_view();
        left.lemma_sorted();
        right.lemma_sorted();
    }
    let ghost lk = left.keys();
    let ghost rk = right.keys();
    let mut out: Vec<CountDifference> = Vec::new();
    let mut i: usize = 0;
    let mut j: usize = 0;
    while i < left.len() || j < right.len()
        invariant
            left.wf(),
            right.wf(),
            lk == left.keys(),
            rk == right.keys(),
            lk.len() == left.values().len(),
            rk.len() == right.values().len(),
            i <= lk.len(),
            j <= rk.len(),
            strictly_sorted(lk),
            strictly_sorted(rk),
            forall|a: int| #![trigger lk[a]] 0 <= a < lk.len() ==> left@.contains_key(lk[a]) && left@[lk[a]] == left.values()[a],
            forall|b: int| #![trigger rk[b]] 0 <= b < rk.len() ==> right@.contains_key(rk[b]) && right@[rk[b]] == right.values()[b],
            forall|k: Seq<char>| left@.contains_key(k) <==> #[trigger] lk.contains(k),
            forall|k: Seq<char>| right@.contains_key(k) <==> #[trigger] rk.contains(k),
            // processed keys come before unprocessed ones
            forall|a: int, b: int| 0 <= a < i && j <= b < rk.len() ==> name_lt(#[trigger] lk[a], #[trigger] rk[b]),
            forall|a: int, b: int| 0 <= b < j && i <= a < lk.len() ==> name_lt(#[trigger] rk[b], #[trigger] lk[a]),
            strictly_sorted(diff_keys(out@)),
            forall|p: int, a: int| 0 <= p < out@.len() && i <= a < lk.len() ==> name_lt(#[trigger] diff_keys(out@)[p], #[trigger] lk[a]),
            forall|p: int, b: int| 0 <= p < out@.len() && j <= b < rk.len() ==> name_lt(#[trigger] diff_keys(out@)[p], #[trigger] rk[b]),
            forall|p: int| 0 <= p < out@.len() ==> is_difference(#[trigger] out@[p], left@, right@),
            forall|a: int| #![trigger lk[a]] 0 <= a < i ==> count_in(left@, lk[a]) != count_in(right@, lk[a]) ==> diff_keys(out@).contains(lk[a]),
            forall|b: int| #![trigger rk[b]] 0 <= b < j ==> count_in(left@, rk[b]) != count_in(right@, rk[b]) ==> diff_keys(out@).contains(rk[b]),
        decreases lk.len() + rk.len() - i - j,
    {
        let ghost before = out@;
        let order = if i >= left.len() {
            NameOrder::Greater
        } else if j >= right.len() {
            NameOrder::Less
        } else {
            compare_names(left.key_at(i).as_str(), right.key_at(j).as_str())
        };
        let ghost adv_i: bool;
        let ghost adv_j: bool;
        match order {
            NameOrder::Less => {
                // the left key is absent on the right
                proof {
                    adv_i = true;
                    adv_j = false;
                    if j < rk.len() {
                        lemma_name_lt_asymmetric_or(lk[i as int], rk[j as int]);
                    }
                    if rk.contains(lk[i as int]) {
                        let b = choose|b: int| 0 <= b < rk.len() && rk[b] == lk[i as int];
                        if b < j {
                            lemma_name_lt_asymmetric(rk[b], lk[i as int]);
                        } else if b > j {
                            lemma_name_lt_transitive(lk[i as int], rk[j as int], rk[b]);
                            lemma_name_lt_irreflexive(rk[b]);
                        } else {
                            lemma_name_lt_irreflexive(rk[b]);
                        }
                    }
                }
                let lc = *left.value_at(i);
                if lc != 0 {
                    out.push(difference(left.key_at(i), lc, 0));
                }
                i = i + 1;
            },
            NameOrder::Greater => {
                proof {
                    adv_i = false;
                    adv_j = true;
                    if i < lk.len() {
                        lemma_name_lt_total(lk[i as int], rk[j as int]);
                    }
                    if lk.contains(rk[j as int]) {
                        let a = choose|a: int| 0 <= a < lk.len() && lk[a] == rk[j as int];
                        if a < i {
                            lemma_name_lt_asymmetric(lk[a], rk[j as int]);
                        } else if a > i {
                            lemma_name_lt_transitive(rk[j as int], lk[i as int], lk[a]);
                            lemma_name_lt_irreflexive(lk[a]);
                        } else {
                            lemma_name_lt_asymmetric(rk[j as int], lk[a]);
                        }
                    }
                }
                let rc = *right.value_at(j);
                if rc != 0 {
                    out.push(difference(right.key_at(j), 0, rc));
                }
                j = j + 1;
            },
            NameOrder::Equal => {
                proof {
                    adv_i = true;
                    adv_j = true;
                }
                let lc = *left.value_at(i);
                let rc = *right.value_at(j);
                if lc != rc {
                    out.push(difference(left.key_at(i), lc, rc));
                }
                i = i + 1;
                j = j + 1;
            },
        }
        proof {
            let oi = if adv_i { i - 1 } else { i as int };
            let oj = if adv_j { j - 1 } else { j as int };
            let key = if adv_i { lk[oi] } else { rk[oj] };
            assert(diff_keys(before).len() == before.len());
            if out@.len() > before.len() {
                assert(out@ == before.push(out@[before.len() as int]));
                assert(diff_keys(out@) == diff_keys(before).push(key));
                assert(diff_keys(out@).contains(key)) by {
                    assert(diff_keys(out@)[before.len() as int] == key);
                }
            } else {
                assert(out@ == before);
            }
            // ordering facts for the new state
            assert forall|a: int, b: int| 0 <= a < i && j <= b < rk.len() implies name_lt(#[trigger] lk[a], #[trigger] rk[b]) by {
                if a < oi {
                } else if adv_j {
                    assert(lk[a] == rk[oj]);
                    assert(name_lt(rk[oj], rk[b]));
                } else if b > oj {
                    lemma_name_lt_transitive(lk[a], rk[oj], rk[b]);
                }
            }
            assert forall|a: int, b: int| 0 <= b < j && i <= a < lk.len() implies name_lt(#[trigger] rk[b], #[trigger] lk[a]) by {
                if b < oj {
                } else if adv_i {
                    assert(rk[b] == lk[oi]);
                    assert(name_lt(lk[oi], lk[a]));
                } else {
                    lemma_name_lt_total(lk[oi], rk[oj]);
                    if a > oi {
                        lemma_name_lt_transitive(rk[b], lk[oi], lk[a]);
                    }
                }
            }
            assert forall|p: int, a: int| 0 <= p < out@.len() && i <= a < lk.len() implies name_lt(#[trigger] diff_keys(out@)[p], #[trigger] lk[a]) by {
                if p < before.len() {
                    assert(diff_keys(out@)[p] == diff_keys(before)[p]);
                    if adv_i && oi < lk.len() {
                        lemma_name_lt_transitive(diff_keys(before)[p], lk[oi], lk[a]);
                    }
                } else {
                    if adv_i {
                    } else {
                        lemma_name_lt_total(lk[oi], rk[oj]);
                    }
                }
            }
            assert forall|p: int, b: int| 0 <= p < out@.len() && j <= b < rk.len() implies name_lt(#[trigger] diff_keys(out@)[p], #[trigger] rk[b]) by {
                if p < before.len() {
                    assert(diff_keys(out@)[p] == diff_keys(before)[p]);
                    if adv_j && oj < rk.len() {
                        lemma_name_lt_transitive(diff_keys(before)[p], rk[oj], rk[b]);
                    }
                }
            }
            assert forall|p: int, q: int| 0 <= p < q < diff_keys(out@).len() implies name_lt(#[trigger] diff_keys(out@)[p], #[trigger] diff_keys(out@)[q]) by {
                if q < before.len() {
                    assert(diff_keys(out@)[p] == diff_keys(before)[p]);
                    assert(diff_keys(out@)[q] == diff_keys(before)[q]);
                } else {
                    assert(diff_keys(out@)[p] == diff_keys(before)[p]);
                }
            }
            assert forall|a: int| #![trigger lk[a]] 0 <= a < i && count_in(left@, lk[a]) != count_in(right@, lk[a]) implies diff_keys(out@).contains(lk[a]) by {
                if a < oi || !adv_i {
                    let p = choose|p: int| 0 <= p < diff_keys(before).len() && diff_keys(before)[p] == lk[a];
                    assert(diff_keys(out@)[p] == lk[a]);
                }
            }
            assert forall|b: int| #![trigger rk[b]] 0 <= b < j && count_in(left@, rk[b]) != count_in(right@, rk[b]) implies diff_keys(out@).contains(rk[b]) by {
                if b < oj || !adv_j {
                    let p = choose|p: int| 0 <= p < diff_keys(before).len() && diff_keys(before)[p] == rk[b];
                    assert(diff_keys(out@)[p] == rk[b]);
                }
            }
        }
    }
    proof {
        assert forall|k: Seq<char>| count_in(left@, k) != count_in(right@, k) implies #[trigger] diff_keys(out@).contains(k) by {
            if lk.contains(k) {
                let a = choose|a: int| 0 <= a < lk.len() && lk[a] == k;
                assert(count_in(left@, lk[a]) != count_in(right@, lk[a]));
            } else {
                let b = choose|b: int| 0 <= b < rk.len() && rk[b] == k;
                assert(count_in(left@, rk[b]) != count_in(right@, rk[b]));
            }
        }
    }
    out
}

/// `out` lists the keys whose counts differ, each once with both counts, in
/// report order.
pub open spec fn is_count_diff(out: Seq<CountDifference>, l: Map<Seq<char>, usize>, r: Map<Seq<char>, usize>) -> bool {
    &&& forall|i: int| 0 <= i < out.len() ==> is_difference(#[trigger] out[i], l, r)
    &&& forall|k: Seq<char>| count_in(l, k) != count_in(r, k) <==> #[trigger] diff_keys(out).contains(k)
    &&& forall|i: int, j: int| 0 <= i < j < out.len() ==> precedes(#[trigger] out[i], #[trigger] out[j])
}

/// The keys whose counts differ between two count maps (a missing key counts
/// zero), each once with both counts, larger differences first and keys
/// ascending among equal differences.
pub fn diff_count_maps(left: &NameMap<usize>, right: &NameMap<usize>) -> (out: Vec<CountDifference>)
    requires
        left.wf(),
        right.wf(),
    ensures
        is_count_diff(out@, left@, right@),
{
    let collected = collect_differences(left, right);
    let ghost c = collected@;
    let out = sort_differences(collected);
    proof {
        // the collected entries are distinct, since their keys are
        assert(c.no_duplicates()) by {
            assert forall|i: int, j: int| 0 <= i < c.len() && 0 <= j < c.len() && i != j implies c[i] != c[j] by {
                if i < j {
                    assert(name_lt(diff_keys(c)[i], diff_keys(c)[j]));
                    lemma_name_lt_asymmetric(diff_keys(c)[i], diff_keys(c)[j]);
                } else {
                    assert(name_lt(diff_keys(c)[j], diff_keys(c)[i]));
                    lemma_name_lt_asymmetric(diff_keys(c)[j], diff_keys(c)[i]);
                }
            }
        }
        c.lemma_multiset_has_no_duplicates();
        out@.lemma_multiset_has_no_duplicates_conv();
        let o = out@;
        assert forall|i: int| 0 <= i < o.len() implies is_difference(#[trigger] o[i], left@, right@) && c.contains(o[i]) by {
            assert(o.to_multiset().contains(o[i]));
            assert(c.to_multiset().contains(o[i]));
            let p = choose|p: int| 0 <= p < c.len() && c[p] == o[i];
        }
        assert forall|k: Seq<char>| count_in(left@, k) != count_in(right@, k) <==> #[trigger] diff_keys(o).contains(k) by {
            if count_in(left@, k) != count_in(right@, k) {
                assert(diff_keys(c).contains(k));
                let p = choose|p: int| 0 <= p < diff_keys(c).len() && diff_keys(c)[p] == k;
                assert(c.contains(c[p]));
                assert(c.to_multiset().contains(c[p]));
                assert(o.to_multiset().contains(c[p]));
                let q = choose|q: int| 0 <= q < o.len() && o[q] == c[p];
                assert(diff_keys(o)[q] == k);
            }
            if diff_keys(o).contains(k) {
                let q = choose|q: int| 0 <= q < diff_keys(o).len() && diff_keys(o)[q] == k;
                assert(is_difference(o[q], left@, right@));
            }
        }
        assert forall|i: int, j: int| 0 <= i < j < o.len() implies precedes(#[trigger] o[i], #[trigger] o[j]) by {
            assert(!precedes(o[j], o[i]));
            assert(c.contains(o[i]) && c.contains(o[j]));
            let p = choose|p: int| 0 <= p < c.len() && c[p] == o[i];
            let q = choose|q: int| 0 <= q < c.len() && c[q] == o[j];
            assert(o[i] != o[j]);
            assert(p != q);
            if p < q {
                assert(name_lt(diff_keys(c)[p], diff_keys(c)[q]));
                lemma_name_lt_asymmetric(diff_keys(c)[p], diff_keys(c)[q]);
            } else {
                assert(name_lt(diff_keys(c)[q], diff_keys(c)[p]));
                lemma_name_lt_asymmetric(diff_keys(c)[q], diff_keys(c)[p]);
            }
            lemma_name_lt_total(o[i].key@, o[j].key@);
        }
    }
    out
}

/// The comparable name of a layout's root block: one name for model space,
/// and for a paper-space layout its tab order and name, so that renumbered
/// `*Paper_Space` blocks compare equal.
pub open spec fn canonical_layout_name(layout: LayoutInfo) -> Seq<char> {
    if layout.is_model {
        "__layout__:model"@
    } else {
        "__layout__:paper:"@ + signed_text(layout.tab_order as int) + ":"@ + layout.name@
    }
}

fn append_str(out: &mut Vec<char>, s: &str)
    ensures
        final(out)@ == old(out)@ + s@,
{
    let mut cs = chars_of(s);
    out.append(&mut cs);
}

pub fn canonical_layout_block_name(layout: &LayoutInfo) -> (r: String)
    ensures
        r@ == canonical_layout_name(*layout),
{
    if layout.is_model {
        "__layout__:model".to_owned()
    } else {
        let mut cs: Vec<char> = Vec::new();
        append_str(&mut cs, "__layout__:paper:");
        push_signed(&mut cs, layout.tab_order as i64);
        append_str(&mut cs, ":");
        append_str(&mut cs, layout.name.as_str());
        string_of(&cs)
    }
}

/// Index of the last layout whose root block is `root`, or -1.
pub open spec fn last_layout_with_root(layouts: Seq<LayoutInfo>, root: Seq<char>) -> int
    decreases layouts.len(),
{
    if layouts.len() == 0 {
        -1
    } else if layouts.last().root_block_name@ == root {
        layouts.len() - 1
    } else {
        last_layout_with_root(layouts.drop_last(), root)
    }
}

proof fn lemma_last_layout_with_root(layouts: Seq<LayoutInfo>, root: Seq<char>)
    ensures
        -1 <= last_layout_with_root(layouts, root) < layouts.len(),
        last_layout_with_root(layouts, root) >= 0 ==> layouts[last_layout_with_root(layouts, root)].root_block_name@ == root,
    decreases layouts.len(),
{
    if layouts.len() > 0 {
        lemma_last_layout_with_root(layouts.drop_last(), root);
    }
}

/// The views of a map's string values.
pub open spec fn string_values(m: Map<Seq<char>, String>) -> Map<Seq<char>, Seq<char>> {
    m.map_values(|v: String| v@)
}

/// Each layout root block's canonical name (the last layout of a root
/// winning).
pub open spec fn layout_names(layouts: Seq<LayoutInfo>) -> Map<Seq<char>, Seq<char>> {
    Map::new(
        |k: Seq<char>| last_layout_with_root(layouts, k) >= 0,
        |k: Seq<char>| canonical_layout_name(layouts[last_layout_with_root(layouts, k)]),
    )
}

proof fn lemma_layout_block_map(m: Map<Seq<char>, String>, layouts: Seq<LayoutInfo>)
    requires
        is_layout_block_map(m, layouts),
    ensures
        string_values(m) == layout_names(layouts),
{
    assert(string_values(m) =~= layout_names(layouts));
}

/// Whether `m` maps each layout root block to its canonical name (the last
/// layout of a root winning).
pub open spec fn is_layout_block_map(m: Map<Seq<char>, String>, layouts: Seq<LayoutInfo>) -> bool {
    &&& forall|k: Seq<char>| #[trigger] m.contains_key(k) <==> last_layout_with_root(layouts, k) >= 0
    &&& forall|k: Seq<char>| #[trigger] m.contains_key(k) ==> m[k]@ == canonical_layout_name(layouts[last_layout_with_root(layouts, k)])
}

/// Canonical names of the layout root blocks.
pub fn normalized_layout_blocks(layouts: &Vec<LayoutInfo>) -> (m: NameMap<String>)
    ensures
        m.wf(),
        is_layout_block_map(m@, layouts@),
{
    let mut m: NameMap<String> = NameMap::new();
    let mut i: usize = 0;
    while i < layouts.len()
        invariant
            i <= layouts.len(),
            m.wf(),
            is_layout_block_map(m@, layouts@.take(i as int)),
        decreases layouts.len() - i,
    {
        let layout = &layouts[i];
        let name = canonical_layout_block_name(layout);
        m.insert(layout.root_block_name.clone(), name);
        proof {
            let before = layouts@.take(i as int);
            let after = layouts@.take(i + 1);
            assert(after.drop_last() == before);
            assert forall|k: Seq<char>| #[trigger] m@.contains_key(k) implies m@[k]@ == canonical_layout_name(after[last_layout_with_root(after, k)]) by {
                if k != layout.root_block_name@ {
                    lemma_last_layout_with_root(before, k);
                    assert(after[last_layout_with_root(before, k)] == before[last_layout_with_root(before, k)]);
                }
            }
        }
        i = i + 1;
    }
    assert(layouts@.take(layouts.len() as int) == layouts@);
    m
}

/// The comparable form of an entity's block name: a layout root block's
/// canonical name, model space under any case, or the name itself.
pub open spec fn normalized_block(name: Seq<char>, m: Map<Seq<char>, Seq<char>>) -> Seq<char> {
    if m.contains_key(name) {
        m[name]
    } else if eq_ignore_case(name, "*model_space"@) {
        "__layout__:model"@
    } else {
        name
    }
}

pub fn normalized_block_name(block_name: Option<&str>, layout_blocks: &NameMap<String>) -> (r: Option<String>)
    requires
        layout_blocks.wf(),
    ensures
        match block_name {
            Some(n) => r is Some && r->0@ == normalized_block(n@, string_values(layout_blocks@)),
            None => r is None,
        },
{
    match block_name {
        None => None,
        Some(name) => match layout_blocks.get(name) {
            Some(canonical) => Some(canonical.clone()),
            None => {
                let nc = chars_of(name);
                let model = chars_of("*model_space");
                if same_chars_ignore_case(&nc, &model) {
                    Some("__layout__:model".to_owned())
                } else {
                    Some(name.to_owned())
                }
            },
        },
    }
}

/// Unsupported geometry takes no part in the comparison.
pub open spec fn is_comparable(e: EntityRecord) -> bool {
    !(e.geometry is Unsupported)
}

/// What the comparison counts.
#[derive(Debug, Clone, Copy, PartialEq, Eq, Structural)]
pub enum CountKind {
    Layer,
    Block,
    EntityType,
    Fingerprint,
}

/// The key an entity (with its fingerprint) adds one to, for a kind of count.
pub open spec fn count_key(
    kind: CountKind,
    item: (EntityRecord, Seq<char>),
    layout_blocks: Map<Seq<char>, Seq<char>>,
) -> Option<Seq<char>> {
    if !is_comparable(item.0) {
        None
    } else {
        match kind {
            CountKind::Layer => Some(item.0.layer_name@),
            CountKind::Block => match item.0.block_name {
                Some(n) => Some(normalized_block(n@, layout_blocks)),
                None => None,
            },
            CountKind::EntityType => Some(item.0.entity_type@),
            CountKind::Fingerprint => Some(item.1),
        }
    }
}

/// How many items count toward `k`.
pub open spec fn key_count(
    items: Seq<(EntityRecord, Seq<char>)>,
    kind: CountKind,
    layout_blocks: Map<Seq<char>, Seq<char>>,
    k: Seq<char>,
) -> nat
    decreases items.len(),
{
    if items.len() == 0 {
        0
    } else {
        key_count(items.drop_last(), kind, layout_blocks, k) + if count_key(
            kind,
            items.last(),
            layout_blocks,
        ) == Some(k) {
            1nat
        } else {
            0nat
        }
    }
}

/// The entities paired with their fingerprints.
pub open spec fn fingerprinted(es: Seq<EntityRecord>, fps: Seq<String>) -> Seq<(EntityRecord, Seq<char>)> {
    Seq::new(es.len(), |i: int| (es[i], fps[i]@))
}

/// `m` holds exactly the positive counts of one kind.
pub open spec fn is_count_map(
    m: Map<Seq<char>, usize>,
    items: Seq<(EntityRecord, Seq<char>)>,
    kind: CountKind,
    layout_blocks: Map<Seq<char>, Seq<char>>,
) -> bool {
    &&& forall|k: Seq<char>| #[trigger] m.contains_key(k) <==> key_count(items, kind, layout_blocks, k) > 0
    &&& forall|k: Seq<char>| #[trigger] m.contains_key(k) ==> m[k] == key_count(items, kind, layout_blocks, k)
}

proof fn lemma_key_count_bound(items: Seq<(EntityRecord, Seq<char>)>, kind: CountKind, lb: Map<Seq<char>, Seq<char>>, k: Seq<char>)
    ensures
        key_count(items, kind, lb, k) <= items.len(),
    decreases items.len(),
{
    if items.len() > 0 {
        lemma_key_count_bound(items.drop_last(), kind, lb, k);
    }
}

/// The comparable entities whose type is `t`.
pub open spec fn entities_of_type(es: Seq<EntityRecord>, t: Seq<char>) -> Seq<EntityRecord> {
    es.filter(|e: EntityRecord| !(e.geometry is Unsupported) && e.entity_type@ == t)
}

/// The comparable entities on layer `l`.
pub open spec fn entities_on_layer(es: Seq<EntityRecord>, l: Seq<char>) -> Seq<EntityRecord> {
    es.filter(|e: EntityRecord| !(e.geometry is Unsupported) && e.layer_name@ == l)
}

/// The comparable entities, with their fingerprints, whose fingerprint is `f`.
pub open spec fn entities_with_fingerprint(items: Seq<(EntityRecord, Seq<char>)>, f: Seq<char>) -> Seq<(EntityRecord, Seq<char>)> {
    items.filter(|it: (EntityRecord, Seq<char>)| !(it.0.geometry is Unsupported) && it.1 == f)
}

/// The comparable entities inside a block whose normalized name is `b`.
pub open spec fn entities_in_block(es: Seq<EntityRecord>, lb: Map<Seq<char>, Seq<char>>, b: Seq<char>) -> Seq<EntityRecord> {
    es.filter(
        |e: EntityRecord|
            !(e.geometry is Unsupported) && e.block_name is Some && normalized_block(e.block_name->0@, lb) == b,
    )
}

proof fn lemma_fingerprinted_drop_last(es: Seq<EntityRecord>, fps: Seq<String>)
    requires
        es.len() == fps.len(),
        es.len() > 0,
    ensures
        fingerprinted(es, fps).drop_last() == fingerprinted(es.drop_last(), fps.drop_last()),
        fingerprinted(es, fps).last() == (es.last(), fps.last()@),
{
    assert(fingerprinted(es, fps).drop_last() =~= fingerprinted(es.drop_last(), fps.drop_last()));
}

/// Count maps count what they are named for: for each key, the entity-type
/// map the comparable entities of that type, the layer map those on that
/// layer, the block map those in that (normalized) block and the fingerprint
/// map those with that fingerprint.
pub proof fn law_count_maps_count_entities(
    es: Seq<EntityRecord>,
    fps: Seq<String>,
    types: Map<Seq<char>, usize>,
    layers: Map<Seq<char>, usize>,
    blocks: Map<Seq<char>, usize>,
    prints: Map<Seq<char>, usize>,
    lb: Map<Seq<char>, Seq<char>>,
    k: Seq<char>,
)
    requires
        fps.len() == es.len(),
        is_count_map(types, fingerprinted(es, fps), CountKind::EntityType, lb),
        is_count_map(layers, fingerprinted(es, fps), CountKind::Layer, lb),
        is_count_map(blocks, fingerprinted(es, fps), CountKind::Block, lb),
        is_count_map(prints, fingerprinted(es, fps), CountKind::Fingerprint, lb),
    ensures
        count_in(types, k) == entities_of_type(es, k).len(),
        count_in(layers, k) == entities_on_layer(es, k).len(),
        count_in(blocks, k) == entities_in_block(es, lb, k).len(),
        count_in(prints, k) == entities_with_fingerprint(fingerprinted(es, fps), k).len(),
{
    lemma_type_and_layer_tally(es, fps, lb, k);
}

proof fn lemma_type_and_layer_tally(es: Seq<EntityRecord>, fps: Seq<String>, lb: Map<Seq<char>, Seq<char>>, k: Seq<char>)
    requires
        fps.len() == es.len(),
    ensures
        key_count(fingerprinted(es, fps), CountKind::EntityType, lb, k) == entities_of_type(es, k).len(),
        key_count(fingerprinted(es, fps), CountKind::Layer, lb, k) == entities_on_layer(es, k).len(),
        key_count(fingerprinted(es, fps), CountKind::Block, lb, k) == entities_in_block(es, lb, k).len(),
        key_count(fingerprinted(es, fps), CountKind::Fingerprint, lb, k) == entities_with_fingerprint(
            fingerprinted(es, fps),
            k,
        ).len(),
    decreases es.len(),
{
    reveal(Seq::filter);
    if es.len() > 0 {
        lemma_fingerprinted_drop_last(es, fps);
        lemma_type_and_layer_tally(es.drop_last(), fps.drop_last(), lb, k);
    }
}

/// The counts of one comparison snapshot.
pub struct SemanticSnapshot {
    pub total_entities: usize,
    pub renderable_entities: usize,
    pub ignored_entities: usize,
    pub layer_counts: NameMap<usize>,
    pub block_counts: NameMap<usize>,
    pub entity_type_counts: NameMap<usize>,
    pub entity_fingerprints: NameMap<usize>,
}

fn count_step(
    m: &mut NameMap<usize>,
    key: Option<String>,
    Ghost(items): Ghost<Seq<(EntityRecord, Seq<char>)>>,
    Ghost(kind): Ghost<CountKind>,
    Ghost(lb): Ghost<Map<Seq<char>, Seq<char>>>,
)
    requires
        old(m).wf(),
        items.len() > 0,
        items.len() <= usize::MAX,
        is_count_map(old(m)@, items.drop_last(), kind, lb),
        match key {
            Some(k) => count_key(kind, items.last(), lb) == Some(k@),
            None => count_key(kind, items.last(), lb) is None,
        },
    ensures
        final(m).wf(),
        is_count_map(final(m)@, items, kind, lb),
{
    proof {
        assert forall|k: Seq<char>| #[trigger] old(m)@.contains_key(k) implies old(m)@[k] < usize::MAX by {
            lemma_key_count_bound(items.drop_last(), kind, lb, k);
        }
    }
    match key {
        Some(k) => {
            m.increment(k);
        },
        None => {},
    }
}

/// Counts the comparable entities by layer, normalized block name, entity
/// type and fingerprint; `fingerprints[i]` is entity `i`'s fingerprint.
pub fn build_semantic_snapshot(
    entities: &Vec<EntityRecord>,
    fingerprints: &Vec<String>,
    layouts: &Vec<LayoutInfo>,
    stats: &ExtractionStats,
) -> (snap: SemanticSnapshot)
    requires
        fingerprints.len() == entities.len(),
    ensures
        snap.layer_counts.wf() && snap.block_counts.wf() && snap.entity_type_counts.wf()
            && snap.entity_fingerprints.wf(),
        snap.total_entities == stats.total_entities,
        snap.renderable_entities == stats.renderable_entities,
        snap.ignored_entities == stats.ignored_entities,
        ({
            let items = fingerprinted(entities@, fingerprints@);
            let lb = layout_names(layouts@);
            &&& is_count_map(snap.layer_counts@, items, CountKind::Layer, lb)
            &&& is_count_map(snap.block_counts@, items, CountKind::Block, lb)
            &&& is_count_map(snap.entity_type_counts@, items, CountKind::EntityType, lb)
            &&& is_count_map(snap.entity_fingerprints@, items, CountKind::Fingerprint, lb)
        }),
        forall|t: Seq<char>| #[trigger] count_in(snap.entity_type_counts@, t) == entities_of_type(entities@, t).len(),
        forall|l: Seq<char>| #[trigger] count_in(snap.layer_counts@, l) == entities_on_layer(entities@, l).len(),
        forall|b: Seq<char>| #[trigger] count_in(snap.block_counts@, b) == entities_in_block(entities@, layout_names(layouts@), b).len(),
        forall|f: Seq<char>| #[trigger] count_in(snap.entity_fingerprints@, f) == entities_with_fingerprint(
            fingerprinted(entities@, fingerprints@),
            f,
        ).len(),
{
    let layout_blocks = normalized_layout_blocks(layouts);
    let ghost lb = string_values(layout_blocks@);
    proof {
        lemma_layout_block_map(layout_blocks@, layouts@);
    }
    let ghost items = fingerprinted(entities@, fingerprints@);
    let mut layer_counts: NameMap<usize> = NameMap::new();
    let mut block_counts: NameMap<usize> = NameMap::new();
    let mut entity_type_counts: NameMap<usize> = NameMap::new();
    let mut entity_fingerprints: NameMap<usize> = NameMap::new();
    let mut i: usize = 0;
    while i < entities.len()
        invariant
            i <= entities.len(),
            fingerprints.len() == entities.len(),
            items == fingerprinted(entities@, fingerprints@),
            layout_blocks.wf(),
            lb == string_values(layout_blocks@),
            lb == layout_names(layouts@),
            layer_counts.wf() && block_counts.wf() && entity_type_counts.wf() && entity_fingerprints.wf(),
            is_count_map(layer_counts@, items.take(i as int), CountKind::Layer, lb),
            is_count_map(block_counts@, items.take(i as int), CountKind::Block, lb),
            is_count_map(entity_type_counts@, items.take(i as int), CountKind::EntityType, lb),
            is_count_map(entity_fingerprints@, items.take(i as int), CountKind::Fingerprint, lb),
        decreases entities.len() - i,
    {
        let entity = &entities[i];
        let ghost prefix = items.take(i + 1);
        proof {
            assert(prefix.drop_last() == items.take(i as int));
            assert(prefix.last() == (entities@[i as int], fingerprints@[i as int]@));
        }
        let comparable = match entity.geometry {
            GeometryKind::Unsupported { .. } => false,
            _ => true,
        };
        if comparable {
            count_step(&mut layer_counts, Some(entity.layer_name.clone()), Ghost(prefix), Ghost(CountKind::Layer), Ghost(lb));
            let block = match &entity.block_name {
                Some(n) => normalized_block_name(Some(n.as_str()), &layout_blocks),
                None => None,
            };
            count_step(&mut block_counts, block, Ghost(prefix), Ghost(CountKind::Block), Ghost(lb));
            count_step(&mut entity_type_counts, Some(entity.entity_type.clone()), Ghost(prefix), Ghost(CountKind::EntityType), Ghost(lb));
            count_step(&mut entity_fingerprints, Some(fingerprints[i].clone()), Ghost(prefix), Ghost(CountKind::Fingerprint), Ghost(lb));
        } else {
            count_step(&mut layer_counts, None, Ghost(prefix), Ghost(CountKind::Layer), Ghost(lb));
            count_step(&mut block_counts, None, Ghost(prefix), Ghost(CountKind::Block), Ghost(lb));
            count_step(&mut entity_type_counts, None, Ghost(prefix), Ghost(CountKind::EntityType), Ghost(lb));
            count_step(&mut entity_fingerprints, None, Ghost(prefix), Ghost(CountKind::Fingerprint), Ghost(lb));
        }
        i = i + 1;
    }
    assert(items.take(entities.len() as int) == items);
    proof {
        assert forall|t: Seq<char>| #[trigger] count_in(entity_type_counts@, t) == entities_of_type(entities@, t).len() by {
            law_count_maps_count_entities(entities@, fingerprints@, entity_type_counts@, layer_counts@, block_counts@, entity_fingerprints@, lb, t);
        }
        assert forall|l: Seq<char>| #[trigger] count_in(layer_counts@, l) == entities_on_layer(entities@, l).len() by {
            law_count_maps_count_entities(entities@, fingerprints@, entity_type_counts@, layer_counts@, block_counts@, entity_fingerprints@, lb, l);
        }
        assert forall|b: Seq<char>| #[trigger] count_in(block_counts@, b) == entities_in_block(entities@, lb, b).len() by {
            law_count_maps_count_entities(entities@, fingerprints@, entity_type_counts@, layer_counts@, block_counts@, entity_fingerprints@, lb, b);
        }
        assert forall|f: Seq<char>| #[trigger] count_in(entity_fingerprints@, f) == entities_with_fingerprint(items, f).len() by {
            law_count_maps_count_entities(entities@, fingerprints@, entity_type_counts@, layer_counts@, block_counts@, entity_fingerprints@, lb, f);
        }
    }
    SemanticSnapshot {
        total_entities: stats.total_entities,
        renderable_entities: stats.renderable_entities,
        ignored_entities: stats.ignored_entities,
        layer_counts,
        block_counts,
        entity_type_counts,
        entity_fingerprints,
    }
}

/// Two count maps agree on every key (a missing key counts zero).
pub open spec fn same_counts(l: Map<Seq<char>, usize>, r: Map<Seq<char>, usize>) -> bool {
    forall|k: Seq<char>| #[trigger] count_in(l, k) == count_in(r, k)
}

/// The outcome of comparing two snapshots.
pub struct SemanticDiffSummary {
    pub equivalent: bool,
    pub bounds_equal: bool,
    pub layer_counts_equal: bool,
    pub block_counts_equal: bool,
    pub entity_type_counts_equal: bool,
    pub entity_fingerprints_equal: bool,
    pub layer_differences: Vec<CountDifference>,
    pub block_differences: Vec<CountDifference>,
    pub entity_type_differences: Vec<CountDifference>,
    pub fingerprint_differences: Vec<CountDifference>,
    pub omitted_fingerprint_differences: usize,
}

/// The differences of two count maps are empty exactly when the maps agree
/// on every key.
pub proof fn law_empty_diff(out: Seq<CountDifference>, l: Map<Seq<char>, usize>, r: Map<Seq<char>, usize>)
    requires
        is_count_diff(out, l, r),
    ensures
        (out.len() == 0) == same_counts(l, r),
{
    if out.len() > 0 {
        assert(diff_keys(out).contains(out[0].key@)) by {
            assert(diff_keys(out)[0] == out[0].key@);
        }
    } else {
        assert forall|k: Seq<char>| #[trigger] count_in(l, k) == count_in(r, k) by {
            if count_in(l, k) != count_in(r, k) {
                assert(diff_keys(out).contains(k));
            }
        }
    }
}

/// Compares two snapshots: drawings are equivalent when their renderable
/// entity counts, bounds (compared by the caller), layer counts, entity type
/// counts and fingerprint counts agree; block counts are reported but do not
/// decide.  At most `detail_limit` fingerprint differences are listed.
pub fn build_semantic_diff_report(
    left: &SemanticSnapshot,
    right: &SemanticSnapshot,
    bounds_equal: bool,
    detail_limit: usize,
) -> (r: SemanticDiffSummary)
    requires
        left.layer_counts.wf() && left.block_counts.wf() && left.entity_type_counts.wf()
            && left.entity_fingerprints.wf(),
        right.layer_counts.wf() && right.block_counts.wf() && right.entity_type_counts.wf()
            && right.entity_fingerprints.wf(),
    ensures
        is_count_diff(r.layer_differences@, left.layer_counts@, right.layer_counts@),
        is_count_diff(r.block_differences@, left.block_counts@, right.block_counts@),
        is_count_diff(r.entity_type_differences@, left.entity_type_counts@, right.entity_type_counts@),
        exists|all: Seq<CountDifference>|
            {
                &&& is_count_diff(all, left.entity_fingerprints@, right.entity_fingerprints@)
                &&& #[trigger] r.fingerprint_differences@ == all.take(
                    if detail_limit < all.len() {
                        detail_limit as int
                    } else {
                        all.len() as int
                    },
                )
                &&& r.omitted_fingerprint_differences == all.len() - r.fingerprint_differences@.len()
            },
        r.bounds_equal == bounds_equal,
        r.layer_counts_equal == same_counts(left.layer_counts@, right.layer_counts@),
        r.block_counts_equal == same_counts(left.block_counts@, right.block_counts@),
        r.entity_type_counts_equal == same_counts(left.entity_type_counts@, right.entity_type_counts@),
        r.entity_fingerprints_equal == same_counts(left.entity_fingerprints@, right.entity_fingerprints@),
        r.equivalent == (left.renderable_entities == right.renderable_entities && bounds_equal
            && r.layer_counts_equal && r.entity_type_counts_equal && r.entity_fingerprints_equal),
{
    let layer_differences = diff_count_maps(&left.layer_counts, &right.layer_counts);
    let block_differences = diff_count_maps(&left.block_counts, &right.block_counts);
    let entity_type_differences = diff_count_maps(&left.entity_type_counts, &right.entity_type_counts);
    let mut fingerprint_differences = diff_count_maps(&left.entity_fingerprints, &right.entity_fingerprints);
    let ghost all = fingerprint_differences@;
    proof {
        law_empty_diff(layer_differences@, left.layer_counts@, right.layer_counts@);
        law_empty_diff(block_differences@, left.block_counts@, right.block_counts@);
        law_empty_diff(entity_type_differences@, left.entity_type_counts@, right.entity_type_counts@);
        law_empty_diff(all, left.entity_fingerprints@, right.entity_fingerprints@);
    }
    let all_len = fingerprint_differences.len();
    let entity_fingerprints_equal = all_len == 0;
    if detail_limit < all_len {
        fingerprint_differences.truncate(detail_limit);
    }
    let shown = fingerprint_differences.len();
    proof {
        if detail_limit >= all_len {
            assert(all.take(all.len() as int) == all);
        }
        assert(fingerprint_differences@ == all.take(
            if detail_limit < all.len() {
                detail_limit as int
            } else {
                all.len() as int
            },
        ));
    }
    let layer_counts_equal = layer_differences.len() == 0;
    let block_counts_equal = block_differences.len() == 0;
    let entity_type_counts_equal = entity_type_differences.len() == 0;
    let equivalent = left.renderable_entities == right.renderable_entities && bounds_equal
        && layer_counts_equal && entity_type_counts_equal && entity_fingerprints_equal;
    SemanticDiffSummary {
        equivalent,
        bounds_equal,
        layer_counts_equal,
        block_counts_equal,
        entity_type_counts_equal,
        entity_fingerprints_equal,
        layer_differences,
        block_differences,
        entity_type_differences,
        fingerprint_differences,
        omitted_fingerprint_differences: all_len - shown,
    }
}

/// The count of `k` is the count without item `i` plus what item `i` adds.
proof fn lemma_key_count_remove(
    items: Seq<(EntityRecord, Seq<char>)>,
    kind: CountKind,
    lb: Map<Seq<char>, Seq<char>>,
    k: Seq<char>,
    i: int,
)
    requires
        0 <= i < items.len(),
    ensures
        key_count(items, kind, lb, k) == key_count(items.remove(i), kind, lb, k) + if count_key(kind, items[i], lb)
            == Some(k) {
            1nat
        } else {
            0nat
        },
    decreases items.len(),
{
    if i == items.len() - 1 {
        assert(items.remove(i) =~= items.drop_last());
    } else {
        lemma_key_count_remove(items.drop_last(), kind, lb, k, i);
        assert(items.remove(i).drop_last() =~= items.drop_last().remove(i));
        assert(items.remove(i).last() == items.last());
    }
}

/// The comparison ignores entity order: two lists holding the same
/// (entity, fingerprint) pairs, in any order, give every key the same count.
pub proof fn law_counts_ignore_order(
    a: Seq<(EntityRecord, Seq<char>)>,
    b: Seq<(EntityRecord, Seq<char>)>,
    kind: CountKind,
    lb: Map<Seq<char>, Seq<char>>,
    k: Seq<char>,
)
    requires
        a.to_multiset() == b.to_multiset(),
    ensures
        key_count(a, kind, lb, k) == key_count(b, kind, lb, k),
    decreases a.len(),
{
    if a.len() == 0 {
        assert(b.to_multiset().len() == 0);
    } else {
        let x = a.last();
        let rest = a.drop_last();
        assert(a == rest.push(x));
        assert(a.to_multiset() == rest.to_multiset().insert(x));
        assert(b.to_multiset().count(x) > 0);
        assert(b.contains(x));
        let j = choose|j: int| 0 <= j < b.len() && b[j] == x;
        assert(b.remove(j).to_multiset() == b.to_multiset().remove(x));
        assert(rest.to_multiset() =~= b.remove(j).to_multiset());
        law_counts_ignore_order(rest, b.remove(j), kind, lb, k);
        lemma_key_count_remove(b, kind, lb, k, j);
    }
}

/// Snapshots of two entity lists that hold the same (entity, fingerprint)
/// pairs in different orders have equal counts, so the diff finds no
/// difference between them.
pub proof fn law_snapshot_ignores_entity_order(
    m1: Map<Seq<char>, usize>,
    m2: Map<Seq<char>, usize>,
    a: Seq<(EntityRecord, Seq<char>)>,
    b: Seq<(EntityRecord, Seq<char>)>,
    kind: CountKind,
    lb: Map<Seq<char>, Seq<char>>,
)
    requires
        is_count_map(m1, a, kind, lb),
        is_count_map(m2, b, kind, lb),
        a.to_multiset() == b.to_multiset(),
    ensures
        same_counts(m1, m2),
{
    assert forall|k: Seq<char>| #[trigger] count_in(m1, k) == count_in(m2, k) by {
        law_counts_ignore_order(a, b, kind, lb, k);
    }
}

/// Unsupported entities take no part in the comparison: adding one anywhere
/// leaves every count as it was.
pub proof fn law_unsupported_entities_ignored(
    items: Seq<(EntityRecord, Seq<char>)>,
    i: int,
    extra: (EntityRecord, Seq<char>),
    kind: CountKind,
    lb: Map<Seq<char>, Seq<char>>,
    k: Seq<char>,
)
    requires
        0 <= i <= items.len(),
        extra.0.geometry is Unsupported,
    ensures
        key_count(items.insert(i, extra), kind, lb, k) == key_count(items, kind, lb, k),
{
    lemma_key_count_remove(items.insert(i, extra), kind, lb, k, i);
    assert(items.insert(i, extra).remove(i) =~= items);
}

} // verus!
