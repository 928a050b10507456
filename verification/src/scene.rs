//! Which entities the viewer draws at the top level of a layout, and in what
//! order; and the counters of a rendered frame.
use vstd::prelude::*;
use vstd::relations::{sorted_by, total_ordering};
use std::collections::BTreeSet;

use crate::models::{EntityRecord, GeometryKind};
use crate::panels::{VisibilityFilters, shown};
use crate::text::{chars_of, eq_ignore_case, same_chars_ignore_case};

verus! {

broadcast use vstd::std_specs::btree::group_btree_axioms, vstd::laws_cmp::group_laws_cmp;

/// Counters of one rendered frame.
#[derive(Debug, Clone)]
pub struct RenderStats {
    pub traversed_entities: usize,
    pub drawn_entities: usize,
    pub culled_entities: usize,
}

/// Every entity traversed was either drawn or culled.
pub open spec fn balanced(s: RenderStats) -> bool {
    s.traversed_entities == s.drawn_entities + s.culled_entities
}

impl Default for RenderStats {
    fn default() -> (s: Self)
        ensures
            s.traversed_entities == 0,
            s.drawn_entities == 0,
            s.culled_entities == 0,
            balanced(s),
    {
        RenderStats { traversed_entities: 0, drawn_entities: 0, culled_entities: 0 }
    }
}

impl RenderStats {
    /// Counts one visited entity as traversed, and as drawn or, when it lies
    /// outside the view, culled.
    pub fn record_visit(&mut self, drawn: bool)
        requires
            old(self).traversed_entities < usize::MAX,
            old(self).drawn_entities < usize::MAX,
            old(self).culled_entities < usize::MAX,
        ensures
            final(self).traversed_entities == old(self).traversed_entities + 1,
            final(self).drawn_entities == old(self).drawn_entities + if drawn {
                1int
            } else {
                0int
            },
            final(self).culled_entities == old(self).culled_entities + if drawn {
                0int
            } else {
                1int
            },
            balanced(*old(self)) ==> balanced(*final(self)),
    {
        self.traversed_entities = self.traversed_entities + 1;
        if drawn {
            self.drawn_entities = self.drawn_entities + 1;
        } else {
            self.culled_entities = self.culled_entities + 1;
        }
    }
}

/// How many of a frame's visits were drawn.
pub open spec fn count_drawn(flags: Seq<bool>) -> nat
    decreases flags.len(),
{
    if flags.len() == 0 {
        0
    } else {
        count_drawn(flags.drop_last()) + if flags.last() {
            1nat
        } else {
            0nat
        }
    }
}

proof fn lemma_count_drawn_bound(flags: Seq<bool>)
    ensures
        count_drawn(flags) <= flags.len(),
    decreases flags.len(),
{
    if flags.len() > 0 {
        lemma_count_drawn_bound(flags.drop_last());
    }
}

impl RenderStats {
    /// Counts the visits of one walk, in order, each drawn or culled as its
    /// flag says: the walk adds as many traversals as drawings and cullings
    /// together, and a walk that visits nothing leaves the counters as they
    /// were.
    pub fn record_visits(&mut self, drawn: &Vec<bool>)
        requires
            old(self).traversed_entities + drawn@.len() <= usize::MAX,
            old(self).drawn_entities + drawn@.len() <= usize::MAX,
            old(self).culled_entities + drawn@.len() <= usize::MAX,
        ensures
            final(self).traversed_entities == old(self).traversed_entities + drawn@.len(),
            final(self).drawn_entities == old(self).drawn_entities + count_drawn(drawn@),
            final(self).culled_entities == old(self).culled_entities + drawn@.len() - count_drawn(drawn@),
            final(self).traversed_entities - old(self).traversed_entities
                == (final(self).drawn_entities - old(self).drawn_entities)
                + (final(self).culled_entities - old(self).culled_entities),
            drawn@.len() == 0 ==> *final(self) == *old(self),
            balanced(*old(self)) ==> balanced(*final(self)),
    {
        let ghost s0 = *self;
        let mut i: usize = 0;
        while i < drawn.len()
            invariant
                i <= drawn@.len(),
                s0.traversed_entities + drawn@.len() <= usize::MAX,
                s0.drawn_entities + drawn@.len() <= usize::MAX,
                s0.culled_entities + drawn@.len() <= usize::MAX,
                self.traversed_entities == s0.traversed_entities + i,
                self.drawn_entities == s0.drawn_entities + count_drawn(drawn@.take(i as int)),
                self.culled_entities == s0.culled_entities + i - count_drawn(drawn@.take(i as int)),
            decreases drawn@.len() - i,
        {
            proof {
                lemma_count_drawn_bound(drawn@.take(i as int));
                let t = drawn@.take(i + 1);
                assert(t.drop_last() =~= drawn@.take(i as int));
                assert(t.last() == drawn@[i as int]);
            }
            self.record_visit(drawn[i]);
            i = i + 1;
        }
        proof {
            assert(drawn@.take(drawn@.len() as int) =~= drawn@);
            lemma_count_drawn_bound(drawn@);
        }
    }
}

pub open spec fn is_model_space(name: Seq<char>) -> bool {
    eq_ignore_case(name, "*Model_Space"@)
}

/// Whether a block name is model space, in any ASCII case.
pub fn is_model_space_name(name: &str) -> (r: bool)
    ensures
        r == is_model_space(name@),
{
    let n = chars_of(name);
    let m = chars_of("*Model_Space");
    same_chars_ignore_case(&n, &m)
}

/// Whether an entity owned by `block` is drawn at the top level of the layout
/// whose root block is `root`: model space (or no root) takes entities of no
/// block or of model space; a paper-space root takes its own entities.
pub open spec fn is_root(block: Option<Seq<char>>, root: Option<Seq<char>>) -> bool {
    match root {
        Some(r) => if is_model_space(r) {
            match block {
                Some(b) => is_model_space(b),
                None => true,
            }
        } else {
            match block {
                Some(b) => eq_ignore_case(b, r),
                None => false,
            }
        },
        None => match block {
            Some(b) => is_model_space(b),
            None => true,
        },
    }
}

pub open spec fn opt_view(o: Option<&str>) -> Option<Seq<char>> {
    match o {
        Some(s) => Some(s@),
        None => None,
    }
}

pub fn is_root_entity(block_name: Option<&str>, active_root: Option<&str>) -> (r: bool)
    ensures
        r == is_root(opt_view(block_name), opt_view(active_root)),
{
    match active_root {
        Some(root) => {
            if is_model_space_name(root) {
                match block_name {
                    Some(b) => is_model_space_name(b),
                    None => true,
                }
            } else {
                match block_name {
                    Some(b) => {
                        let bc = chars_of(b);
                        let rc = chars_of(root);
                        same_chars_ignore_case(&bc, &rc)
                    },
                    None => false,
                }
            }
        },
        None => match block_name {
            Some(b) => is_model_space_name(b),
            None => true,
        },
    }
}

pub open spec fn opt_string_view(o: Option<String>) -> Option<Seq<char>> {
    match o {
        Some(s) => Some(s@),
        None => None,
    }
}

pub open spec fn is_hatch(e: EntityRecord) -> bool {
    e.geometry is Hatch
}

/// The draw order of two entity ids: an entity that is not a hatch before a
/// hatch, otherwise the smaller id first (the order of `(is_hatch, id)`).
pub open spec fn draw_leq(es: Seq<EntityRecord>) -> spec_fn(usize, usize) -> bool {
    |a: usize, b: usize|
        {
            let ha = is_hatch(es[a as int]);
            let hb = is_hatch(es[b as int]);
            (!ha && hb) || (ha == hb && a <= b)
        }
}

/// Ids sorted into draw order, so that fills never hide outlines.
pub open spec fn draw_sorted(es: Seq<EntityRecord>, ids: Seq<usize>) -> Seq<usize> {
    ids.sort_by(draw_leq(es))
}

pub proof fn lemma_draw_leq_total(es: Seq<EntityRecord>)
    ensures
        total_ordering(draw_leq(es)),
{
    let leq = draw_leq(es);
    assert forall|x: usize, y: usize| #[trigger] leq(x, y) && #[trigger] leq(y, x) implies x == y by {}
    assert forall|x: usize, y: usize, z: usize| #[trigger] leq(x, y) && #[trigger] leq(y, z) implies leq(x, z) by {}
    assert forall|x: usize, y: usize| #[trigger] leq(x, y) || #[trigger] leq(y, x) by {}
    assert forall|x: usize| #[trigger] leq(x, x) by {}
}

fn draw_leq_exec(es: &Vec<EntityRecord>, a: usize, b: usize) -> (r: bool)
    requires
        a < es@.len(),
        b < es@.len(),
    ensures
        r == draw_leq(es@)(a, b),
{
    let ha = match es[a].geometry {
        GeometryKind::Hatch => true,
        _ => false,
    };
    let hb = match es[b].geometry {
        GeometryKind::Hatch => true,
        _ => false,
    };
    (!ha && hb) || (ha == hb && a <= b)
}

/// Ids of entities, sorted into draw order (`sort_by_key(|id| (is_hatch, id))`).
pub fn sort_draw_order(es: &Vec<EntityRecord>, ids: &Vec<usize>) -> (out: Vec<usize>)
    requires
        forall|j: int| 0 <= j < ids@.len() ==> ids@[j] < es@.len(),
    ensures
        out@ == draw_sorted(es@, ids@),
{
    broadcast use {vstd::seq_lib::group_to_multiset_ensures, vstd::multiset::group_multiset_axioms};
    let ghost leq = draw_leq(es@);
    proof {
        lemma_draw_leq_total(es@);
    }
    let mut out: Vec<usize> = Vec::new();
    let mut k: usize = 0;
    while k < ids.len()
        invariant
            k <= ids.len(),
            leq == draw_leq(es@),
            total_ordering(leq),
            forall|j: int| 0 <= j < ids@.len() ==> ids@[j] < es@.len(),
            forall|j: int| 0 <= j < out@.len() ==> out@[j] < es@.len(),
            sorted_by(out@, leq),
            out@.to_multiset() == ids@.take(k as int).to_multiset(),
        decreases ids.len() - k,
    {
        let x = ids[k];
        let mut p: usize = 0;
        while p < out.len() && draw_leq_exec(es, out[p], x)
            invariant
                p <= out.len(),
                x < es@.len(),
                forall|j: int| 0 <= j < out@.len() ==> out@[j] < es@.len(),
                forall|i: int| 0 <= i < p ==> leq(out@[i], x),
                leq == draw_leq(es@),
            decreases out.len() - p,
        {
            p = p + 1;
        }
        let ghost before = out@;
        out.insert(p, x);
        proof {
            assert forall|i: int, j: int| 0 <= i < j < out@.len() implies #[trigger] leq(out@[i], out@[j]) by {
                if j < p {
                    assert(out@[i] == before[i] && out@[j] == before[j]);
                } else if j == p {
                    assert(out@[i] == before[i]);
                } else if i == p {
                    assert(out@[j] == before[j - 1]);
                    assert(!leq(before[p as int], x));
                    if leq(before[j - 1], x) {
                        if j - 1 > p {
                            assert(leq(before[p as int], before[j - 1]));
                        }
                    }
                    assert(leq(before[j - 1], x) || leq(x, before[j - 1]));
                } else if i < p {
                    assert(out@[i] == before[i] && out@[j] == before[j - 1]);
                } else {
                    assert(out@[i] == before[i - 1] && out@[j] == before[j - 1]);
                }
            }
            assert(ids@.take(k + 1) == ids@.take(k as int).push(x));
            assert(out@ == before.insert(p as int, x));
            vstd::seq_lib::to_multiset_insert(before, p as int, x);
            assert(out@.to_multiset() == before.to_multiset().insert(x));
            vstd::seq_lib::to_multiset_build(ids@.take(k as int), x);
            assert(ids@.take(k + 1).to_multiset() == ids@.take(k as int).to_multiset().insert(x));
        }
        k = k + 1;
    }
    proof {
        assert(ids@.take(ids.len() as int) == ids@);
        ids@.lemma_sort_by_ensures(leq);
        vstd::seq_lib::lemma_sorted_unique(out@, ids@.sort_by(leq), leq);
    }
    out
}

/// The ids of the first `n` entities that are visible and top-level for
/// `root`, in entity order.
pub open spec fn root_candidates(es: Seq<EntityRecord>, visible: Set<usize>, root: Option<Seq<char>>, n: int) -> Seq<usize>
    decreases n,
{
    if n <= 0 {
        Seq::empty()
    } else {
        let before = root_candidates(es, visible, root, n - 1);
        let e = es[n - 1];
        if visible.contains(e.id) && is_root(opt_string_view(e.block_name), root) {
            before.push(e.id)
        } else {
            before
        }
    }
}

/// The top-level draw order: the visible root entities, sorted by
/// `(is_hatch, id)`.
pub open spec fn root_queue(es: Seq<EntityRecord>, visible: Set<usize>, root: Option<Seq<char>>) -> Seq<usize> {
    draw_sorted(es, root_candidates(es, visible, root, es.len() as int))
}

/// Every entity's id names an entity of the list (as extraction makes
/// them: an entity's id is its position).
pub open spec fn ids_in_range(es: Seq<EntityRecord>) -> bool {
    forall|i: int| 0 <= i < es.len() ==> #[trigger] es[i].id < es.len()
}

/// Ids of the entities drawn at the top level of the layout rooted at
/// `active_root` (model space when `None`), hatches last.
pub fn build_root_draw_queue(
    entities: &Vec<EntityRecord>,
    visible: &BTreeSet<usize>,
    active_root: Option<&str>,
) -> (r: Vec<usize>)
    requires
        ids_in_range(entities@),
    ensures
        r@ == root_queue(entities@, visible@, opt_view(active_root)),
{
    let mut roots: Vec<usize> = Vec::new();
    let mut i: usize = 0;
    while i < entities.len()
        invariant
            i <= entities.len(),
            ids_in_range(entities@),
            roots@ == root_candidates(entities@, visible@, opt_view(active_root), i as int),
            forall|j: int| 0 <= j < roots@.len() ==> roots@[j] < entities@.len(),
        decreases entities.len() - i,
    {
        let e = &entities[i];
        let block: Option<&str> = match &e.block_name {
            Some(b) => Some(b.as_str()),
            None => None,
        };
        if visible.contains(&e.id) && is_root_entity(block, active_root) {
            roots.push(e.id);
        }
        i = i + 1;
    }
    sort_draw_order(entities, &roots)
}

/// Ids of the entities that the filters show.
pub open spec fn visible_ids(filters: VisibilityFilters, es: Seq<EntityRecord>) -> Set<usize> {
    Set::new(
        |id: usize|
            exists|i: int|
                0 <= i < es.len() && #[trigger] es[i].id == id && shown(filters.layer_visibility@, es[i].layer_name@)
                    && match es[i].block_name {
                    Some(b) => shown(filters.block_visibility@, b@),
                    None => true,
                },
    )
}

pub fn visible_entity_ids(filters: &VisibilityFilters, entities: &Vec<EntityRecord>) -> (r: BTreeSet<usize>)
    requires
        filters.wf(),
    ensures
        r@ == visible_ids(*filters, entities@),
{
    let mut out: BTreeSet<usize> = BTreeSet::new();
    let mut i: usize = 0;
    while i < entities.len()
        invariant
            i <= entities.len(),
            filters.wf(),
            out@ == visible_ids(*filters, entities@.take(i as int)),
        decreases entities.len() - i,
    {
        let e = &entities[i];
        let ghost prev = out@;
        let vis = filters.is_entity_visible(e);
        if vis {
            out.insert(e.id);
        }
        proof {
            assert(out@ == if vis { prev.insert(e.id) } else { prev });
            let before = entities@.take(i as int);
            let after = entities@.take(i + 1);
            assert forall|id: usize| #[trigger] out@.contains(id) <==> visible_ids(*filters, after).contains(id) by {
                if visible_ids(*filters, before).contains(id) {
                    let j = choose|j: int| 0 <= j < before.len() && #[trigger] before[j].id == id && shown(filters.layer_visibility@, before[j].layer_name@)
                    && match before[j].block_name {
                        Some(b) => shown(filters.block_visibility@, b@),
                        None => true,
                    };
                    assert(after[j] == before[j]);
                }
                if visible_ids(*filters, after).contains(id) {
                    let j = choose|j: int| 0 <= j < after.len() && #[trigger] after[j].id == id && shown(filters.layer_visibility@, after[j].layer_name@)
                    && match after[j].block_name {
                        Some(b) => shown(filters.block_visibility@, b@),
                        None => true,
                    };
                    if j < i {
                        assert(before[j] == after[j]);
                    } else {
                        assert(after[j] == entities@[i as int]);
                    }
                }
                if vis && id == e.id {
                    assert(after[i as int] == entities@[i as int]);
                }
            }
            assert(out@ =~= visible_ids(*filters, after));
        }
        i = i + 1;
    }
    assert(entities@.take(entities.len() as int) == entities@);
    out
}

} // verus!
