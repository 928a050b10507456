//! The walk through a scene that drawing, bounds and picking share: from
//! each top-level entity down through the blocks that inserts and
//! dimensions place, to a fixed depth.  Each visit carries the path of
//! block-placing entities above it, so the viewer composes the placement
//! transforms along it.
use vstd::prelude::*;
use std::collections::BTreeSet;

use crate::models::{EntityRecord, GeometryKind};
use crate::name_map::{compare_names, NameMap, NameOrder};
use crate::output::{hex_text, hex_upper};
use crate::scene::{draw_sorted, sort_draw_order};
use vstd::string::{StrSliceExecFns, StringExecFns};

verus! {

broadcast use vstd::std_specs::btree::group_btree_axioms, vstd::laws_cmp::group_laws_cmp;

/// How deep blocks nest before the walk stops descending.
pub const MAX_RECURSION_DEPTH: usize = 30;

/// What the walk is for.  Drawing puts a block's hatches after its other
/// entities; drawing and bounds do not enter a block already on the path
/// (nor a dimension without a block); picking enters every block.
#[derive(Debug, Clone, Copy, PartialEq, Eq, Structural)]
pub enum WalkMode {
    Bounds,
    Draw,
    Pick,
}

/// One visited entity and the block-placing entities above it, outermost
/// first.
#[derive(Debug, Clone)]
pub struct Visit {
    pub entity_id: usize,
    pub path: Vec<usize>,
}

pub open spec fn visit_view(v: Visit) -> (usize, Seq<usize>) {
    (v.entity_id, v.path@)
}

pub open spec fn visits_view(vs: Seq<Visit>) -> Seq<(usize, Seq<usize>)> {
    vs.map_values(|v: Visit| visit_view(v))
}

/// The block an insert or a dimension places.
pub open spec fn placed_block(g: GeometryKind) -> Option<Seq<char>> {
    match g {
        GeometryKind::Insert { block_name } => Some(block_name@),
        GeometryKind::Dimension { block_name } => Some(block_name@),
        _ => None,
    }
}

/// The blocks placed along a path.
pub open spec fn path_blocks(es: Seq<EntityRecord>, path: Seq<usize>) -> Seq<Seq<char>> {
    path.map_values(
        |id: usize|
            match placed_block(es[id as int].geometry) {
                Some(b) => b,
                None => Seq::empty(),
            },
    )
}

/// The block the walk enters below entity `e` on `path`, if any.
pub open spec fn entered_block(es: Seq<EntityRecord>, path: Seq<usize>, e: EntityRecord, mode: WalkMode) -> Option<Seq<char>> {
    match e.geometry {
        GeometryKind::Insert { block_name } => if mode != WalkMode::Pick && path_blocks(es, path).contains(block_name@) {
            None
        } else {
            Some(block_name@)
        },
        GeometryKind::Dimension { block_name } => if mode != WalkMode::Pick && (block_name@.len() == 0 || path_blocks(
            es,
            path,
        ).contains(block_name@)) {
            None
        } else {
            Some(block_name@)
        },
        _ => None,
    }
}

/// The entities of block `b`.
pub open spec fn block_children(index: Map<Seq<char>, Vec<usize>>, b: Seq<char>) -> Seq<usize> {
    if index.contains_key(b) {
        index[b]@
    } else {
        Seq::empty()
    }
}

/// The order in which a block's entities are walked: drawing an insert
/// sorts them by `(is_hatch, id)`, so that fills never hide outlines;
/// otherwise the block's order.
pub open spec fn child_order(es: Seq<EntityRecord>, e: EntityRecord, mode: WalkMode, ids: Seq<usize>) -> Seq<usize> {
    if mode == WalkMode::Draw && e.geometry is Insert {
        draw_sorted(es, ids)
    } else {
        ids
    }
}

/// The visits of the walk from entity `id` reached by `path`, in order:
/// the entity itself, then the walks of the entities of the block it
/// places, if it is entered.  Nothing is visited deeper than the maximum
/// depth, nor an invisible entity.
pub open spec fn walk(
    es: Seq<EntityRecord>,
    index: Map<Seq<char>, Vec<usize>>,
    visible: Set<usize>,
    mode: WalkMode,
    id: usize,
    path: Seq<usize>,
) -> Seq<(usize, Seq<usize>)>
    decreases 31 - path.len(), 0int,
{
    if path.len() > 30 || !visible.contains(id) || id >= es.len() {
        Seq::empty()
    } else {
        let e = es[id as int];
        seq![(id, path)] + match entered_block(es, path, e, mode) {
            Some(b) => walk_list(es, index, visible, mode, child_order(es, e, mode, block_children(index, b)), path.push(id)),
            None => Seq::empty(),
        }
    }
}

/// The walks from each of `ids` in turn.
pub open spec fn walk_list(
    es: Seq<EntityRecord>,
    index: Map<Seq<char>, Vec<usize>>,
    visible: Set<usize>,
    mode: WalkMode,
    ids: Seq<usize>,
    path: Seq<usize>,
) -> Seq<(usize, Seq<usize>)>
    decreases 31 - path.len(), ids.len() + 1,
{
    if ids.len() == 0 {
        Seq::empty()
    } else {
        walk_list(es, index, visible, mode, ids.drop_last(), path) + walk(es, index, visible, mode, ids.last(), path)
    }
}

fn copy_path(v: &Vec<usize>) -> (r: Vec<usize>)
    ensures
        r@ == v@,
{
    let mut r: Vec<usize> = Vec::new();
    let mut i: usize = 0;
    while i < v.len()
        invariant
            i <= v.len(),
            r@ == v@.take(i as int),
        decreases v.len() - i,
    {
        r.push(v[i]);
        assert(v@.take(i + 1) == v@.take(i as int).push(v@[i as int]));
        i = i + 1;
    }
    assert(v@.take(v.len() as int) == v@);
    r
}

/// Whether a block placed along the path is named `b`.
fn path_places(es: &Vec<EntityRecord>, path: &Vec<usize>, b: &str) -> (r: bool)
    requires
        forall|j: int| 0 <= j < path@.len() ==> path@[j] < es@.len(),
    ensures
        r == path_blocks(es@, path@).contains(b@),
{
    let ghost blocks = path_blocks(es@, path@);
    let mut j: usize = 0;
    while j < path.len()
        invariant
            j <= path.len(),
            blocks == path_blocks(es@, path@),
            forall|j: int| 0 <= j < path@.len() ==> path@[j] < es@.len(),
            forall|k: int| 0 <= k < j ==> blocks[k] != b@,
        decreases path.len() - j,
    {
        let placed: &str = match &es[path[j]].geometry {
            GeometryKind::Insert { block_name } => block_name.as_str(),
            GeometryKind::Dimension { block_name } => block_name.as_str(),
            _ => "",
        };
        proof {
            reveal_strlit("");
        }
        assert(placed@ == blocks[j as int]);
        match compare_names(placed, b) {
            NameOrder::Equal => {
                return true;
            },
            _ => {},
        }
        j = j + 1;
    }
    false
}

/// Every id listed in the block index names an entity.
pub open spec fn index_in_range(index: Map<Seq<char>, Vec<usize>>, n: nat) -> bool {
    forall|k: Seq<char>, j: int| #[trigger] index.contains_key(k) && 0 <= j < index[k]@.len() ==> #[trigger] index[k]@[j] < n
}

fn walk_from(
    es: &Vec<EntityRecord>,
    index: &NameMap<Vec<usize>>,
    visible: &BTreeSet<usize>,
    mode: WalkMode,
    id: usize,
    path: &mut Vec<usize>,
    out: &mut Vec<Visit>,
)
    requires
        index.wf(),
        index_in_range(index@, es@.len()),
        old(path)@.len() <= 31,
        forall|j: int| 0 <= j < old(path)@.len() ==> old(path)@[j] < es@.len(),
    ensures
        final(path)@ == old(path)@,
        visits_view(final(out)@) == visits_view(old(out)@) + walk(es@, index@, visible@, mode, id, old(path)@),
    decreases 31 - old(path)@.len(), 0int,
{
    let ghost p = path@;
    if path.len() > MAX_RECURSION_DEPTH || !visible.contains(&id) || id >= es.len() {
        return;
    }
    let visit = Visit { entity_id: id, path: copy_path(path) };
    let ghost start = visits_view(out@);
    out.push(visit);
    proof {
        assert(visits_view(out@) =~= start.push((id, p)));
    }
    let e = &es[id];
    let entered: Option<&str> = match &e.geometry {
        GeometryKind::Insert { block_name } => {
            if mode != WalkMode::Pick && path_places(es, path, block_name.as_str()) {
                None
            } else {
                Some(block_name.as_str())
            }
        },
        GeometryKind::Dimension { block_name } => {
            if mode != WalkMode::Pick && (block_name.as_str().unicode_len() == 0 || path_places(es, path, block_name.as_str())) {
                None
            } else {
                Some(block_name.as_str())
            }
        },
        _ => None,
    };
    proof {
        match entered_block(es@, p, es@[id as int], mode) {
            Some(b) => {
                assert(entered matches Some(name) && name@ == b);
            },
            None => {
                assert(entered is None);
            },
        }
    }
    match entered {
        Some(b) => {
            let listed: Vec<usize> = match index.get(b) {
                Some(ids) => copy_path(ids),
                None => Vec::new(),
            };
            let is_insert = match e.geometry {
                GeometryKind::Insert { .. } => true,
                _ => false,
            };
            let ordered = if mode == WalkMode::Draw && is_insert {
                sort_draw_order(es, &listed)
            } else {
                listed
            };
            let ghost kids = ordered@;
            let ghost q = p.push(id);
            assert(kids == child_order(es@, es@[id as int], mode, block_children(index@, b@)));
            path.push(id);
            let ghost mid = visits_view(out@);
            let mut k: usize = 0;
            while k < ordered.len()
                invariant
                    k <= ordered.len(),
                    kids == ordered@,
                    path@ == q,
                    p == old(path)@,
                    q.len() <= 31,
                    q.len() == p.len() + 1,
                    p.len() <= 30,
                    index.wf(),
                    index_in_range(index@, es@.len()),
                    forall|j: int| 0 <= j < q.len() ==> q[j] < es@.len(),
                    visits_view(out@) == mid + walk_list(es@, index@, visible@, mode, kids.take(k as int), q),
                decreases ordered.len() - k,
            {
                walk_from(es, index, visible, mode, ordered[k], path, out);
                proof {
                    let t = kids.take(k + 1);
                    assert(t.drop_last() =~= kids.take(k as int));
                    assert(t.last() == kids[k as int]);
                    assert(visits_view(out@) =~= mid + walk_list(es@, index@, visible@, mode, t, q));
                }
                k = k + 1;
            }
            path.pop();
            proof {
                assert(kids.take(kids.len() as int) =~= kids);
                assert(path@ =~= p);
                assert(visits_view(out@) =~= visits_view(old(out)@) + walk(es@, index@, visible@, mode, id, p));
            }
        },
        None => {
            proof {
                assert(visits_view(out@) =~= visits_view(old(out)@) + walk(es@, index@, visible@, mode, id, p));
            }
        },
    }
}

/// The walk from each of the top-level entities `roots` in turn, each
/// starting with an empty path.
pub fn walk_scene(
    entities: &Vec<EntityRecord>,
    block_index: &NameMap<Vec<usize>>,
    visible: &BTreeSet<usize>,
    roots: &Vec<usize>,
    mode: WalkMode,
) -> (visits: Vec<Visit>)
    requires
        block_index.wf(),
        index_in_range(block_index@, entities@.len()),
    ensures
        visits_view(visits@) == walk_list(entities@, block_index@, visible@, mode, roots@, Seq::empty()),
{
    let mut out: Vec<Visit> = Vec::new();
    let mut path: Vec<usize> = Vec::new();
    let ghost empty = path@;
    let mut k: usize = 0;
    while k < roots.len()
        invariant
            k <= roots.len(),
            path@ == empty,
            empty == Seq::<usize>::empty(),
            block_index.wf(),
            index_in_range(block_index@, entities@.len()),
            visits_view(out@) == walk_list(entities@, block_index@, visible@, mode, roots@.take(k as int), empty),
        decreases roots.len() - k,
    {
        walk_from(entities, block_index, visible, mode, roots[k], &mut path, &mut out);
        proof {
            let t = roots@.take(k + 1);
            assert(t.drop_last() =~= roots@.take(k as int));
            assert(t.last() == roots@[k as int]);
        }
        k = k + 1;
    }
    assert(roots@.take(roots.len() as int) =~= roots@);
    out
}

/// The transform chain shown for a selected entity: the blocks placed along
/// its path, then `Entity:` and its handle in hex.
pub open spec fn transform_chain_text(es: Seq<EntityRecord>, v: (usize, Seq<usize>)) -> Seq<Seq<char>> {
    path_blocks(es, v.1).push("Entity:"@ + hex_text(es[v.0 as int].handle as nat))
}

pub fn transform_chain(entities: &Vec<EntityRecord>, visit: &Visit) -> (chain: Vec<String>)
    requires
        visit.entity_id < entities@.len(),
        forall|j: int| 0 <= j < visit.path@.len() ==> visit.path@[j] < entities@.len(),
    ensures
        chain@.map_values(|s: String| s@) == transform_chain_text(entities@, visit_view(*visit)),
{
    let ghost blocks = path_blocks(entities@, visit.path@);
    let mut chain: Vec<String> = Vec::new();
    let mut j: usize = 0;
    while j < visit.path.len()
        invariant
            j <= visit.path@.len(),
            blocks == path_blocks(entities@, visit.path@),
            forall|j: int| 0 <= j < visit.path@.len() ==> visit.path@[j] < entities@.len(),
            chain@.map_values(|s: String| s@) == blocks.take(j as int),
        decreases visit.path.len() - j,
    {
        let name = match &entities[visit.path[j]].geometry {
            GeometryKind::Insert { block_name } => block_name.clone(),
            GeometryKind::Dimension { block_name } => block_name.clone(),
            _ => String::new(),
        };
        let ghost before = chain@.map_values(|s: String| s@);
        chain.push(name);
        assert(chain@.map_values(|s: String| s@) =~= before.push(blocks[j as int]));
        assert(blocks.take(j + 1) =~= blocks.take(j as int).push(blocks[j as int]));
        j = j + 1;
    }
    let mut last = "Entity:".to_owned();
    let handle = hex_upper(entities[visit.entity_id].handle);
    last.append(handle.as_str());
    let ghost before = chain@.map_values(|s: String| s@);
    chain.push(last);
    assert(blocks.take(blocks.len() as int) =~= blocks);
    assert(chain@.map_values(|s: String| s@) =~= before.push("Entity:"@ + hex_text(entities@[visit.entity_id as int].handle as nat)));
    chain
}

/// Every visit is of a visible entity of the drawing at a depth of at most
/// the maximum.
pub open spec fn visits_within(w: Seq<(usize, Seq<usize>)>, visible: Set<usize>, n: nat) -> bool {
    forall|k: int| 0 <= k < w.len() ==> visible.contains(#[trigger] w[k].0) && w[k].0 < n && w[k].1.len() <= 30
}

proof fn lemma_visits_within_concat(a: Seq<(usize, Seq<usize>)>, b: Seq<(usize, Seq<usize>)>, visible: Set<usize>, n: nat)
    requires
        visits_within(a, visible, n),
        visits_within(b, visible, n),
    ensures
        visits_within(a + b, visible, n),
{
    assert forall|k: int| 0 <= k < (a + b).len() implies visible.contains(#[trigger] (a + b)[k].0) && (a + b)[k].0 < n && (a + b)[k].1.len() <= 30 by {
        if k < a.len() {
            assert((a + b)[k] == a[k]);
        } else {
            assert((a + b)[k] == b[k - a.len()]);
        }
    }
}

/// The walk from an entity visits only visible entities of the drawing, and
/// never deeper than the maximum depth.
pub proof fn law_walk_stays_visible_and_bounded(
    es: Seq<EntityRecord>,
    index: Map<Seq<char>, Vec<usize>>,
    visible: Set<usize>,
    mode: WalkMode,
    id: usize,
    path: Seq<usize>,
)
    ensures
        visits_within(walk(es, index, visible, mode, id, path), visible, es.len()),
    decreases 31 - path.len(), 0int,
{
    if !(path.len() > 30 || !visible.contains(id) || id >= es.len()) {
        let e = es[id as int];
        let head = seq![(id, path)];
        match entered_block(es, path, e, mode) {
            Some(b) => {
                let kids = child_order(es, e, mode, block_children(index, b));
                law_walk_list_stays_visible_and_bounded(es, index, visible, mode, kids, path.push(id));
                lemma_visits_within_concat(head, walk_list(es, index, visible, mode, kids, path.push(id)), visible, es.len());
            },
            None => {
                lemma_visits_within_concat(head, Seq::empty(), visible, es.len());
            },
        }
    }
}

/// The walks from a list of entities visit only visible entities of the
/// drawing, never deeper than the maximum depth.
pub proof fn law_walk_list_stays_visible_and_bounded(
    es: Seq<EntityRecord>,
    index: Map<Seq<char>, Vec<usize>>,
    visible: Set<usize>,
    mode: WalkMode,
    ids: Seq<usize>,
    path: Seq<usize>,
)
    ensures
        visits_within(walk_list(es, index, visible, mode, ids, path), visible, es.len()),
    decreases 31 - path.len(), ids.len() + 1,
{
    if ids.len() > 0 {
        law_walk_list_stays_visible_and_bounded(es, index, visible, mode, ids.drop_last(), path);
        law_walk_stays_visible_and_bounded(es, index, visible, mode, ids.last(), path);
        lemma_visits_within_concat(
            walk_list(es, index, visible, mode, ids.drop_last(), path),
            walk(es, index, visible, mode, ids.last(), path),
            visible,
            es.len(),
        );
    }
}

} // verus!
