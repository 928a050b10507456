//! The index of an extracted drawing: one record per entity with the block
//! that owns it, the entities of each layer and block, the entity of each
//! handle, layer and block summaries, the layouts in tab order, and counts.
use vstd::prelude::*;
use std::collections::BTreeMap;

use crate::models::{
    BlockInfo, CadColorSpec, CadLineWeightSpec, EntityRecord, EntityStyle, ExtractionStats,
    GeometryKind, LayerInfo, LayoutInfo,
};
use crate::name_map::{NameMap, name_lt, lemma_name_lt_asymmetric, lemma_name_lt_irreflexive, lemma_name_lt_total, lemma_name_lt_transitive};
use crate::scene::is_model_space;
use crate::text::{chars_of, same_chars_ignore_case};

verus! {

broadcast use vstd::std_specs::btree::group_btree_axioms, vstd::laws_cmp::group_laws_cmp;

/// What the index reads from one entity of the document.
#[derive(Debug, Clone)]
pub struct EntitySource {
    pub handle: u64,
    pub owner_handle: u64,
    pub entity_type: String,
    pub layer_name: String,
    pub style: EntityStyle,
    pub geometry: GeometryKind,
}

/// A block record of the document: its handle and name.
#[derive(Debug, Clone)]
pub struct BlockRecordSource {
    pub handle: u64,
    pub name: String,
}

/// A layer of the document's layer table.
#[derive(Debug, Clone)]
pub struct LayerSource {
    pub name: String,
    pub visible: bool,
    pub color: CadColorSpec,
    pub line_weight: CadLineWeightSpec,
}

/// A layout object of the document: its name, the handle of its root block
/// record, and its tab order.
#[derive(Debug, Clone)]
pub struct LayoutSource {
    pub name: String,
    pub block_record: u64,
    pub tab_order: i16,
}

/// The name of the last block record with handle `h`.
pub open spec fn block_name_of(records: Seq<BlockRecordSource>, h: u64) -> Option<Seq<char>>
    decreases records.len(),
{
    if records.len() == 0 {
        None
    } else if records.last().handle == h {
        Some(records.last().name@)
    } else {
        block_name_of(records.drop_last(), h)
    }
}

/// Block names by handle, the last record of a handle winning.
pub(crate) fn block_names_by_handle(records: &Vec<BlockRecordSource>) -> (m: BTreeMap<u64, String>)
    ensures
        forall|h: u64| #[trigger] m@.contains_key(h) <==> block_name_of(records@, h) is Some,
        forall|h: u64| #[trigger] m@.contains_key(h) ==> block_name_of(records@, h) == Some(m@[h]@),
{
    let mut m: BTreeMap<u64, String> = BTreeMap::new();
    let mut i: usize = 0;
    while i < records.len()
        invariant
            i <= records.len(),
            forall|h: u64| #[trigger] m@.contains_key(h) <==> block_name_of(records@.take(i as int), h) is Some,
            forall|h: u64| #[trigger] m@.contains_key(h) ==> block_name_of(records@.take(i as int), h) == Some(m@[h]@),
        decreases records.len() - i,
    {
        let r = &records[i];
        m.insert(r.handle, r.name.clone());
        assert(records@.take(i + 1).drop_last() == records@.take(i as int));
        i = i + 1;
    }
    assert(records@.take(records.len() as int) == records@);
    m
}

/// Indices of the entities among the first `n` on layer `k`.
pub open spec fn layer_members(src: Seq<EntitySource>, k: Seq<char>, n: int) -> Seq<usize>
    decreases n,
{
    if n <= 0 {
        Seq::empty()
    } else if src[n - 1].layer_name@ == k {
        layer_members(src, k, n - 1).push((n - 1) as usize)
    } else {
        layer_members(src, k, n - 1)
    }
}

/// Indices of the entities among the first `n` owned by block `k`.
pub open spec fn block_members(src: Seq<EntitySource>, records: Seq<BlockRecordSource>, k: Seq<char>, n: int) -> Seq<usize>
    decreases n,
{
    if n <= 0 {
        Seq::empty()
    } else if block_name_of(records, src[n - 1].owner_handle) == Some(k) {
        block_members(src, records, k, n - 1).push((n - 1) as usize)
    } else {
        block_members(src, records, k, n - 1)
    }
}

/// Index of the last entity among the first `n` with handle `h`, or -1.
pub open spec fn last_with_handle(src: Seq<EntitySource>, h: u64, n: int) -> int
    decreases n,
{
    if n <= 0 {
        -1
    } else if src[n - 1].handle == h {
        n - 1
    } else {
        last_with_handle(src, h, n - 1)
    }
}

/// The number of unsupported entities among the first `n`.
pub open spec fn unsupported_count(src: Seq<EntitySource>, n: int) -> nat
    decreases n,
{
    if n <= 0 {
        0
    } else {
        unsupported_count(src, n - 1) + if src[n - 1].geometry is Unsupported {
            1nat
        } else {
            0nat
        }
    }
}

pub open spec fn opt_string_view(o: Option<String>) -> Option<Seq<char>> {
    match o {
        Some(s) => Some(s@),
        None => None,
    }
}

/// The record made of entity `i`.
pub open spec fn is_record_of(r: EntityRecord, i: int, e: EntitySource, records: Seq<BlockRecordSource>) -> bool {
    &&& r.id == i
    &&& r.handle == e.handle
    &&& r.owner_handle == e.owner_handle
    &&& r.entity_type@ == e.entity_type@
    &&& r.layer_name@ == e.layer_name@
    &&& opt_string_view(r.block_name) == block_name_of(records, e.owner_handle)
    &&& r.style == e.style
    &&& r.geometry == e.geometry
}

proof fn lemma_members_len(src: Seq<EntitySource>, records: Seq<BlockRecordSource>, k: Seq<char>, n: int)
    ensures
        layer_members(src, k, n).len() <= if n < 0 { 0 } else { n },
        block_members(src, records, k, n).len() <= if n < 0 { 0 } else { n },
        n > 0 && src[n - 1].layer_name@ == k ==> layer_members(src, k, n).len() > 0,
    decreases n,
{
    if n > 0 {
        lemma_members_len(src, records, k, n - 1);
    }
}

fn copy_geometry(g: &GeometryKind) -> (r: GeometryKind)
    ensures
        r == *g,
{
    match g {
        GeometryKind::Line => GeometryKind::Line,
        GeometryKind::Circle => GeometryKind::Circle,
        GeometryKind::Arc => GeometryKind::Arc,
        GeometryKind::Ellipse => GeometryKind::Ellipse,
        GeometryKind::LwPolyline => GeometryKind::LwPolyline,
        GeometryKind::Spline => GeometryKind::Spline,
        GeometryKind::Polyline2D => GeometryKind::Polyline2D,
        GeometryKind::Polyline3D => GeometryKind::Polyline3D,
        GeometryKind::Solid => GeometryKind::Solid,
        GeometryKind::Hatch => GeometryKind::Hatch,
        GeometryKind::Text => GeometryKind::Text,
        GeometryKind::Insert { block_name } => GeometryKind::Insert { block_name: block_name.clone() },
        GeometryKind::Dimension { block_name } => GeometryKind::Dimension { block_name: block_name.clone() },
        GeometryKind::Unsupported { reason } => GeometryKind::Unsupported { reason: reason.clone() },
    }
}

/// The per-entity part of the index.
pub struct EntityIndex {
    pub entities: Vec<EntityRecord>,
    pub entity_by_handle: BTreeMap<u64, usize>,
    pub layer_index: NameMap<Vec<usize>>,
    pub block_index: NameMap<Vec<usize>>,
    pub ignored_entities: usize,
}

pub open spec fn is_entity_index(x: EntityIndex, src: Seq<EntitySource>, records: Seq<BlockRecordSource>, n: int) -> bool {
    &&& x.layer_index.wf()
    &&& x.block_index.wf()
    &&& x.entities@.len() == n
    &&& forall|i: int| 0 <= i < n ==> is_record_of(#[trigger] x.entities@[i], i, src[i], records)
    &&& forall|k: Seq<char>| #[trigger] x.layer_index@.contains_key(k) <==> layer_members(src, k, n).len() > 0
    &&& forall|k: Seq<char>| #[trigger] x.layer_index@.contains_key(k) ==> x.layer_index@[k]@ == layer_members(src, k, n)
    &&& forall|k: Seq<char>| #[trigger] x.block_index@.contains_key(k) <==> block_members(src, records, k, n).len() > 0
    &&& forall|k: Seq<char>| #[trigger] x.block_index@.contains_key(k) ==> x.block_index@[k]@ == block_members(src, records, k, n)
    &&& forall|h: u64| #[trigger] x.entity_by_handle@.contains_key(h) <==> (h != 0 && last_with_handle(src, h, n) >= 0)
    &&& forall|h: u64| #[trigger] x.entity_by_handle@.contains_key(h) ==> x.entity_by_handle@[h] == last_with_handle(src, h, n)
    &&& x.ignored_entities == unsupported_count(src, n)
}

/// Indexes the entities: records with their owning block, the entities of
/// each layer and block in order, and the last entity of each non-zero
/// handle.
pub fn index_entities(sources: &Vec<EntitySource>, block_records: &Vec<BlockRecordSource>) -> (x: EntityIndex)
    ensures
        is_entity_index(x, sources@, block_records@, sources@.len() as int),
{
    let block_by_handle = block_names_by_handle(block_records);
    let mut x = EntityIndex {
        entities: Vec::new(),
        entity_by_handle: BTreeMap::new(),
        layer_index: NameMap::new(),
        block_index: NameMap::new(),
        ignored_entities: 0,
    };
    let ghost src = sources@;
    let ghost br = block_records@;
    let mut i: usize = 0;
    while i < sources.len()
        invariant
            i <= sources.len(),
            src == sources@,
            br == block_records@,
            forall|h: u64| #[trigger] block_by_handle@.contains_key(h) <==> block_name_of(br, h) is Some,
            forall|h: u64| #[trigger] block_by_handle@.contains_key(h) ==> block_name_of(br, h) == Some(block_by_handle@[h]@),
            is_entity_index(x, src, br, i as int),
            x.ignored_entities <= i,
        decreases sources.len() - i,
    {
        let e = &sources[i];
        let block_name: Option<String> = match block_by_handle.get(&e.owner_handle) {
            Some(name) => Some(name.clone()),
            None => None,
        };
        assert(opt_string_view(block_name) == block_name_of(br, e.owner_handle));
        let unsupported = match e.geometry {
            GeometryKind::Unsupported { .. } => true,
            _ => false,
        };
        if unsupported {
            x.ignored_entities = x.ignored_entities + 1;
        }
        let record = EntityRecord {
            id: i,
            handle: e.handle,
            owner_handle: e.owner_handle,
            entity_type: e.entity_type.clone(),
            layer_name: e.layer_name.clone(),
            block_name: block_name.clone(),
            style: e.style,
            geometry: copy_geometry(&e.geometry),
        };
        if e.handle != 0 {
            x.entity_by_handle.insert(e.handle, i);
        }
        let ghost old_layer = x.layer_index@;
        let ghost old_block = x.block_index@;
        x.layer_index.push_to(e.layer_name.clone(), i);
        match block_name {
            Some(b) => {
                x.block_index.push_to(b, i);
            },
            None => {},
        }
        let ghost before_entities = x.entities@;
        x.entities.push(record);
        proof {
            let n = i + 1;
            assert forall|j: int| 0 <= j < n implies is_record_of(#[trigger] x.entities@[j], j, src[j], br) by {
                if j < i {
                    assert(x.entities@[j] == before_entities[j]);
                }
            }
            assert forall|k: Seq<char>| #[trigger] x.layer_index@.contains_key(k) <==> layer_members(src, k, n).len() > 0 by {
                lemma_members_len(src, br, k, i as int);
            }
            assert forall|k: Seq<char>| #[trigger] x.block_index@.contains_key(k) <==> block_members(src, br, k, n).len() > 0 by {
                lemma_members_len(src, br, k, i as int);
            }
            assert(x.layer_index.wf());
            assert(x.block_index.wf());
            assert(x.entities@.len() == n);
            assert(forall|k: Seq<char>| #[trigger] x.layer_index@.contains_key(k) ==> x.layer_index@[k]@ == layer_members(src, k, n));
            assert(forall|k: Seq<char>| #[trigger] x.block_index@.contains_key(k) ==> x.block_index@[k]@ == block_members(src, br, k, n));
            assert(forall|h: u64| #[trigger] x.entity_by_handle@.contains_key(h) <==> (h != 0 && last_with_handle(src, h, n) >= 0));
            assert(forall|h: u64| #[trigger] x.entity_by_handle@.contains_key(h) ==> x.entity_by_handle@[h] == last_with_handle(src, h, n));
            assert(x.ignored_entities == unsupported_count(src, n));
        }
        i = i + 1;
    }
    x
}

/// Index of the last layer-table entry named `k`, or -1.
pub open spec fn last_layer_source(ls: Seq<LayerSource>, k: Seq<char>) -> int
    decreases ls.len(),
{
    if ls.len() == 0 {
        -1
    } else if ls.last().name@ == k {
        ls.len() - 1
    } else {
        last_layer_source(ls.drop_last(), k)
    }
}

proof fn lemma_last_layer_source(ls: Seq<LayerSource>, k: Seq<char>)
    ensures
        -1 <= last_layer_source(ls, k) < ls.len(),
        last_layer_source(ls, k) >= 0 ==> ls[last_layer_source(ls, k)].name@ == k,
    decreases ls.len(),
{
    if ls.len() > 0 {
        lemma_last_layer_source(ls.drop_last(), k);
    }
}

/// The summary of layer `k`: the table entry's settings (or visible, by layer,
/// by layer when the table has no such layer) and its entity count.
pub open spec fn is_layer_info(info: LayerInfo, k: Seq<char>, ls: Seq<LayerSource>, count: nat) -> bool {
    let j = last_layer_source(ls, k);
    &&& info.name@ == k
    &&& info.entity_count == count
    &&& if j >= 0 {
        info.visible_by_default == ls[j].visible && info.color == ls[j].color && info.line_weight
            == ls[j].line_weight
    } else {
        info.visible_by_default && info.color == CadColorSpec::ByLayer && info.line_weight
            == CadLineWeightSpec::ByLayer
    }
}

pub open spec fn index_count(m: Map<Seq<char>, Vec<usize>>, k: Seq<char>) -> nat {
    if m.contains_key(k) {
        m[k]@.len()
    } else {
        0
    }
}

/// The layer summaries: every layer of the table or with entities.
pub fn summarize_layers(layer_sources: &Vec<LayerSource>, layer_index: &NameMap<Vec<usize>>) -> (layers: NameMap<LayerInfo>)
    requires
        layer_index.wf(),
    ensures
        layers.wf(),
        forall|k: Seq<char>| #[trigger] layers@.contains_key(k) <==> (last_layer_source(layer_sources@, k) >= 0 || layer_index@.contains_key(k)),
        forall|k: Seq<char>| #[trigger] layers@.contains_key(k) ==> is_layer_info(layers@[k], k, layer_sources@, index_count(layer_index@, k)),
{
    let ghost ls = layer_sources@;
    let mut layers: NameMap<LayerInfo> = NameMap::new();
    let mut i: usize = 0;
    while i < layer_sources.len()
        invariant
            i <= layer_sources.len(),
            ls == layer_sources@,
            layers.wf(),
            forall|k: Seq<char>| #[trigger] layers@.contains_key(k) <==> last_layer_source(ls.take(i as int), k) >= 0,
            forall|k: Seq<char>| #[trigger] layers@.contains_key(k) ==> is_layer_info(layers@[k], k, ls.take(i as int), 0),
        decreases layer_sources.len() - i,
    {
        let l = &layer_sources[i];
        let info = LayerInfo {
            name: l.name.clone(),
            visible_by_default: l.visible,
            entity_count: 0,
            color: l.color,
            line_weight: l.line_weight,
        };
        layers.insert(l.name.clone(), info);
        proof {
            let before = ls.take(i as int);
            let after = ls.take(i + 1);
            assert(after.drop_last() == before);
            assert forall|k: Seq<char>| #[trigger] layers@.contains_key(k) implies is_layer_info(layers@[k], k, after, 0) by {
                if k != l.name@ {
                    lemma_last_layer_source(before, k);
                    if last_layer_source(before, k) >= 0 {
                        assert(after[last_layer_source(before, k)] == before[last_layer_source(before, k)]);
                    }
                }
            }
        }
        i = i + 1;
    }
    assert(ls.take(ls.len() as int) == ls);
    proof {
        layer_index.lemma_view();
        layer_index.lemma_lengths();
        layer_index.lemma_sorted();
    }
    let ghost keys = layer_index.keys();
    let mut j: usize = 0;
    while j < layer_index.len()
        invariant
            j <= keys.len(),
            keys == layer_index.keys(),
            keys.len() == layer_index.values().len(),
            layer_index.wf(),
            ls == layer_sources@,
            layers.wf(),
            forall|a: int| #![trigger keys[a]] 0 <= a < keys.len() ==> layer_index@.contains_key(keys[a]) && layer_index@[keys[a]] == layer_index.values()[a],
            forall|k: Seq<char>| layer_index@.contains_key(k) <==> #[trigger] keys.contains(k),
            crate::name_map::strictly_sorted(keys),
            forall|k: Seq<char>| #[trigger] layers@.contains_key(k) <==> (last_layer_source(ls, k) >= 0 || keys.take(j as int).contains(k)),
            forall|k: Seq<char>| #[trigger] layers@.contains_key(k) ==> is_layer_info(layers@[k], k, ls, if keys.take(j as int).contains(k) { index_count(layer_index@, k) } else { 0 }),
        decreases keys.len() - j,
    {
        let name = layer_index.key_at(j);
        let count = layer_index.value_at(j).len();
        let info = match layers.get(name.as_str()) {
            Some(existing) => LayerInfo {
                name: existing.name.clone(),
                visible_by_default: existing.visible_by_default,
                entity_count: count,
                color: existing.color,
                line_weight: existing.line_weight,
            },
            None => LayerInfo {
                name: name.clone(),
                visible_by_default: true,
                entity_count: count,
                color: CadColorSpec::ByLayer,
                line_weight: CadLineWeightSpec::ByLayer,
            },
        };
        proof {
            assert(keys.take(j as int).contains(name@) == false) by {
                if keys.take(j as int).contains(name@) {
                    let a = choose|a: int| 0 <= a < j && keys.take(j as int)[a] == name@;
                    assert(keys[a] == keys[j as int]);
                    crate::name_map::lemma_sorted_find(keys, a);
                    crate::name_map::lemma_sorted_find(keys, j as int);
                }
            }
            if !layers@.contains_key(name@) {
                lemma_last_layer_source(ls, name@);
            }
        }
        layers.insert(name.clone(), info);
        proof {
            let before = keys.take(j as int);
            let after = keys.take(j + 1);
            assert(after == before.push(keys[j as int]));
            assert forall|k: Seq<char>| #[trigger] layers@.contains_key(k) <==> (last_layer_source(ls, k) >= 0 || after.contains(k)) by {
                if after.contains(k) && k != keys[j as int] {
                    let a = choose|a: int| 0 <= a < after.len() && after[a] == k;
                    assert(before[a] == k);
                }
                if before.contains(k) {
                    let a = choose|a: int| 0 <= a < before.len() && before[a] == k;
                    assert(after[a] == k);
                }
                assert(after[j as int] == keys[j as int]);
            }
            assert forall|k: Seq<char>| #[trigger] layers@.contains_key(k) implies is_layer_info(layers@[k], k, ls, if after.contains(k) { index_count(layer_index@, k) } else { 0 }) by {
                if k != keys[j as int] {
                    if after.contains(k) {
                        let a = choose|a: int| 0 <= a < after.len() && after[a] == k;
                        assert(before[a] == k);
                    }
                    if before.contains(k) {
                        let a = choose|a: int| 0 <= a < before.len() && before[a] == k;
                        assert(after[a] == k);
                    }
                } else {
                    assert(after[j as int] == k);
                }
            }
        }
        j = j + 1;
    }
    proof {
        assert(keys.take(keys.len() as int) == keys);
    }
    layers
}

/// The block summaries: one per block with entities.
pub fn summarize_blocks(block_index: &NameMap<Vec<usize>>) -> (blocks: NameMap<BlockInfo>)
    requires
        block_index.wf(),
    ensures
        blocks.wf(),
        forall|k: Seq<char>| #[trigger] blocks@.contains_key(k) <==> block_index@.contains_key(k),
        forall|k: Seq<char>| #[trigger] blocks@.contains_key(k) ==> blocks@[k].name@ == k && blocks@[k].entity_count == block_index@[k]@.len(),
{
    proof {
        block_index.lemma_view();
        block_index.lemma_lengths();
    }
    let ghost keys = block_index.keys();
    let mut blocks: NameMap<BlockInfo> = NameMap::new();
    let mut j: usize = 0;
    while j < block_index.len()
        invariant
            j <= keys.len(),
            keys == block_index.keys(),
            keys.len() == block_index.values().len(),
            block_index.wf(),
            blocks.wf(),
            forall|a: int| #![trigger keys[a]] 0 <= a < keys.len() ==> block_index@.contains_key(keys[a]) && block_index@[keys[a]] == block_index.values()[a],
            forall|k: Seq<char>| block_index@.contains_key(k) <==> #[trigger] keys.contains(k),
            forall|k: Seq<char>| #[trigger] blocks@.contains_key(k) <==> keys.take(j as int).contains(k),
            forall|k: Seq<char>| #[trigger] blocks@.contains_key(k) ==> blocks@[k].name@ == k && blocks@[k].entity_count == block_index@[k]@.len(),
        decreases keys.len() - j,
    {
        let name = block_index.key_at(j);
        let count = block_index.value_at(j).len();
        blocks.insert(name.clone(), BlockInfo { name: name.clone(), entity_count: count });
        proof {
            let before = keys.take(j as int);
            let after = keys.take(j + 1);
            assert(after == before.push(keys[j as int]));
            assert forall|k: Seq<char>| #[trigger] blocks@.contains_key(k) <==> after.contains(k) by {
                if after.contains(k) && k != keys[j as int] {
                    let a = choose|a: int| 0 <= a < after.len() && after[a] == k;
                    assert(before[a] == k);
                }
                if before.contains(k) {
                    let a = choose|a: int| 0 <= a < before.len() && before[a] == k;
                    assert(after[a] == k);
                }
                assert(after[j as int] == keys[j as int]);
            }
        }
        j = j + 1;
    }
    proof {
        assert(keys.take(keys.len() as int) == keys);
        assert forall|k: Seq<char>| #[trigger] blocks@.contains_key(k) <==> block_index@.contains_key(k) by {}
    }
    blocks
}

/// A layout as `(is_model, tab_order, name, root block name)`.
pub open spec fn layout_view(l: LayoutInfo) -> (bool, i16, Seq<char>, Seq<char>) {
    (l.is_model, l.tab_order, l.name@, l.root_block_name@)
}

pub open spec fn layout_views(s: Seq<LayoutInfo>) -> Seq<(bool, i16, Seq<char>, Seq<char>)> {
    s.map_values(|l: LayoutInfo| layout_view(l))
}

/// Tab order of layouts: model space first, then by tab order, then by name.
pub open spec fn layout_before(a: (bool, i16, Seq<char>, Seq<char>), b: (bool, i16, Seq<char>, Seq<char>)) -> bool {
    (a.0 && !b.0) || (a.0 == b.0 && (a.1 < b.1 || (a.1 == b.1 && name_lt(a.2, b.2))))
}

/// The layouts whose root block record exists, in document order.
pub open spec fn found_layouts(ls: Seq<LayoutSource>, br: Seq<BlockRecordSource>) -> Seq<(bool, i16, Seq<char>, Seq<char>)>
    decreases ls.len(),
{
    if ls.len() == 0 {
        Seq::empty()
    } else {
        let before = found_layouts(ls.drop_last(), br);
        let l = ls.last();
        match block_name_of(br, l.block_record) {
            Some(root) => before.push((is_model_space(root), l.tab_order, l.name@, root)),
            None => before,
        }
    }
}

/// Where `x` goes in a sorted sequence: after everything not after it.
pub open spec fn insert_position(s: Seq<(bool, i16, Seq<char>, Seq<char>)>, x: (bool, i16, Seq<char>, Seq<char>), from: int) -> int
    decreases s.len() - from,
{
    if from >= s.len() {
        s.len() as int
    } else if layout_before(x, s[from]) {
        from
    } else {
        insert_position(s, x, from + 1)
    }
}

/// The stable sort of layouts into tab order (`sort_by_key`), by insertion.
pub open spec fn sorted_layouts(s: Seq<(bool, i16, Seq<char>, Seq<char>)>) -> Seq<(bool, i16, Seq<char>, Seq<char>)>
    decreases s.len(),
{
    if s.len() == 0 {
        Seq::empty()
    } else {
        let rest = sorted_layouts(s.drop_last());
        rest.insert(insert_position(rest, s.last(), 0), s.last())
    }
}

proof fn lemma_insert_position(s: Seq<(bool, i16, Seq<char>, Seq<char>)>, x: (bool, i16, Seq<char>, Seq<char>), from: int)
    requires
        0 <= from <= s.len(),
    ensures
        from <= insert_position(s, x, from) <= s.len(),
        forall|k: int| from <= k < insert_position(s, x, from) ==> !layout_before(x, #[trigger] s[k]),
        insert_position(s, x, from) < s.len() ==> layout_before(x, s[insert_position(s, x, from)]),
    decreases s.len() - from,
{
    if from < s.len() && !layout_before(x, s[from]) {
        lemma_insert_position(s, x, from + 1);
    }
}

proof fn lemma_sorted_layouts_len(s: Seq<(bool, i16, Seq<char>, Seq<char>)>)
    ensures
        sorted_layouts(s).len() == s.len(),
    decreases s.len(),
{
    if s.len() > 0 {
        lemma_sorted_layouts_len(s.drop_last());
        lemma_insert_position(sorted_layouts(s.drop_last()), s.last(), 0);
    }
}

/// The default layout when the document has none.
pub open spec fn model_layout() -> (bool, i16, Seq<char>, Seq<char>) {
    (true, 0i16, "Model"@, "*Model_Space"@)
}

/// The layouts of the drawing in tab order, or the model layout alone.
pub open spec fn drawing_layouts(ls: Seq<LayoutSource>, br: Seq<BlockRecordSource>) -> Seq<(bool, i16, Seq<char>, Seq<char>)> {
    if found_layouts(ls, br).len() == 0 {
        seq![model_layout()]
    } else {
        sorted_layouts(found_layouts(ls, br))
    }
}

fn layout_goes_before(x: &LayoutInfo, y: &LayoutInfo) -> (r: bool)
    ensures
        r == layout_before(layout_view(*x), layout_view(*y)),
{
    if x.is_model != y.is_model {
        x.is_model
    } else if x.tab_order != y.tab_order {
        x.tab_order < y.tab_order
    } else {
        proof {
            if name_lt(x.name@, y.name@) {
                lemma_name_lt_asymmetric(x.name@, y.name@);
            }
        }
        match crate::name_map::compare_names(x.name.as_str(), y.name.as_str()) {
            crate::name_map::NameOrder::Less => true,
            _ => false,
        }
    }
}

/// The drawing's layouts in tab order: those whose root block record exists,
/// model space first, then by tab order and name (ties keep document order);
/// the model layout alone when there is none.
pub fn collect_layouts(layout_sources: &Vec<LayoutSource>, block_records: &Vec<BlockRecordSource>) -> (layouts: Vec<LayoutInfo>)
    ensures
        layout_views(layouts@) == drawing_layouts(layout_sources@, block_records@),
{
    let block_by_handle = block_names_by_handle(block_records);
    let ghost ls = layout_sources@;
    let ghost br = block_records@;
    let mut sorted: Vec<LayoutInfo> = Vec::new();
    let mut i: usize = 0;
    while i < layout_sources.len()
        invariant
            i <= layout_sources.len(),
            ls == layout_sources@,
            br == block_records@,
            forall|h: u64| #[trigger] block_by_handle@.contains_key(h) <==> block_name_of(br, h) is Some,
            forall|h: u64| #[trigger] block_by_handle@.contains_key(h) ==> block_name_of(br, h) == Some(block_by_handle@[h]@),
            layout_views(sorted@) == sorted_layouts(found_layouts(ls.take(i as int), br)),
            found_layouts(ls.take(i as int), br).len() == 0 <==> sorted@.len() == 0,
        decreases layout_sources.len() - i,
    {
        let l = &layout_sources[i];
        proof {
            assert(ls.take(i + 1).drop_last() == ls.take(i as int));
            assert(ls.take(i + 1).last() == l);
        }
        match block_by_handle.get(&l.block_record) {
            Some(root) => {
                let is_model = crate::scene::is_model_space_name(root.as_str());
                let info = LayoutInfo {
                    name: l.name.clone(),
                    root_block_name: root.clone(),
                    tab_order: l.tab_order,
                    is_model,
                };
                let ghost x = layout_view(info);
                let ghost before = layout_views(sorted@);
                let mut p: usize = 0;
                while p < sorted.len() && !layout_goes_before(&info, &sorted[p])
                    invariant
                        p <= sorted.len(),
                        before == layout_views(sorted@),
                        x == layout_view(info),
                        insert_position(before, x, 0) == insert_position(before, x, p as int),
                    decreases sorted.len() - p,
                {
                    assert(before[p as int] == layout_view(sorted@[p as int]));
                    p = p + 1;
                }
                proof {
                    if p < sorted.len() {
                        assert(before[p as int] == layout_view(sorted@[p as int]));
                    }
                }
                sorted.insert(p, info);
                proof {
                    let s = found_layouts(ls.take(i as int), br);
                    assert(layout_views(sorted@) =~= before.insert(p as int, x));
                    assert(found_layouts(ls.take(i + 1), br) == s.push(x));
                    assert(s.push(x).drop_last() =~= s);
                    assert(insert_position(before, x, p as int) == p);
                    assert(sorted_layouts(s.push(x)) == before.insert(p as int, x));
                    lemma_sorted_layouts_len(s);
                }
            },
            None => {
                assert(found_layouts(ls.take(i + 1), br) == found_layouts(ls.take(i as int), br));
            },
        }
        i = i + 1;
    }
    proof {
        assert(ls.take(ls.len() as int) == ls);
    }
    if sorted.len() == 0 {
        let mut only: Vec<LayoutInfo> = Vec::new();
        only.push(LayoutInfo {
            name: "Model".to_owned(),
            root_block_name: "*Model_Space".to_owned(),
            tab_order: 0,
            is_model: true,
        });
        assert(layout_views(only@) =~= seq![model_layout()]);
        only
    } else {
        sorted
    }
}

proof fn lemma_unsupported_count_bound(src: Seq<EntitySource>, n: int)
    requires
        0 <= n,
    ensures
        unsupported_count(src, n) <= n,
    decreases n,
{
    if n > 0 {
        lemma_unsupported_count_bound(src, n - 1);
    }
}

/// The index of an extracted drawing.
pub struct DrawingIndex {
    pub entities: Vec<EntityRecord>,
    pub entity_by_handle: BTreeMap<u64, usize>,
    pub layer_index: NameMap<Vec<usize>>,
    pub block_index: NameMap<Vec<usize>>,
    pub layers: NameMap<LayerInfo>,
    pub blocks: NameMap<BlockInfo>,
    pub layouts: Vec<LayoutInfo>,
    pub stats: ExtractionStats,
}

/// `d` indexes a document with these entities, block records, layers and
/// layouts, loaded in `load_ms` milliseconds.
pub open spec fn is_drawing_index(
    d: DrawingIndex,
    src: Seq<EntitySource>,
    records: Seq<BlockRecordSource>,
    ls: Seq<LayerSource>,
    lay: Seq<LayoutSource>,
    load_ms: u128,
) -> bool {
    let n = src.len() as int;
    &&& is_entity_index(
        EntityIndex {
            entities: d.entities,
            entity_by_handle: d.entity_by_handle,
            layer_index: d.layer_index,
            block_index: d.block_index,
            ignored_entities: d.stats.ignored_entities,
        },
        src,
        records,
        n,
    )
    &&& d.layers.wf()
    &&& forall|k: Seq<char>| #[trigger] d.layers@.contains_key(k) <==> (last_layer_source(ls, k) >= 0 || layer_members(src, k, n).len() > 0)
    &&& forall|k: Seq<char>| #[trigger] d.layers@.contains_key(k) ==> is_layer_info(d.layers@[k], k, ls, layer_members(src, k, n).len())
    &&& d.blocks.wf()
    &&& forall|k: Seq<char>| #[trigger] d.blocks@.contains_key(k) <==> block_members(src, records, k, n).len() > 0
    &&& forall|k: Seq<char>| #[trigger] d.blocks@.contains_key(k) ==> d.blocks@[k].name@ == k && d.blocks@[k].entity_count == block_members(src, records, k, n).len()
    &&& layout_views(d.layouts@) == drawing_layouts(lay, records)
    &&& d.stats.total_entities == n
    &&& d.stats.ignored_entities == unsupported_count(src, n)
    &&& d.stats.renderable_entities == n - unsupported_count(src, n)
    &&& d.stats.load_duration_ms == load_ms
}

/// Indexes a drawing: the entity records and indexes, the layer and block
/// summaries, the layouts in tab order, and the counts.
pub fn index_drawing(
    entity_sources: &Vec<EntitySource>,
    block_records: &Vec<BlockRecordSource>,
    layer_sources: &Vec<LayerSource>,
    layout_sources: &Vec<LayoutSource>,
    load_duration_ms: u128,
) -> (d: DrawingIndex)
    ensures
        is_drawing_index(d, entity_sources@, block_records@, layer_sources@, layout_sources@, load_duration_ms),
{
    let x = index_entities(entity_sources, block_records);
    let ghost n = entity_sources@.len() as int;
    let layers = summarize_layers(layer_sources, &x.layer_index);
    let blocks = summarize_blocks(&x.block_index);
    let layouts = collect_layouts(layout_sources, block_records);
    let total_entities = x.entities.len();
    proof {
        lemma_unsupported_count_bound(entity_sources@, n);
    }
    let stats = ExtractionStats {
        total_entities,
        renderable_entities: total_entities - x.ignored_entities,
        ignored_entities: x.ignored_entities,
        load_duration_ms,
    };
    let d = DrawingIndex {
        entities: x.entities,
        entity_by_handle: x.entity_by_handle,
        layer_index: x.layer_index,
        block_index: x.block_index,
        layers,
        blocks,
        layouts,
        stats,
    };
    proof {
        assert forall|k: Seq<char>| #[trigger] d.layers@.contains_key(k) implies is_layer_info(d.layers@[k], k, layer_sources@, layer_members(entity_sources@, k, n).len()) by {
            assert(x.layer_index@.contains_key(k) ==> x.layer_index@[k]@ == layer_members(entity_sources@, k, n));
            assert(!x.layer_index@.contains_key(k) ==> layer_members(entity_sources@, k, n).len() == 0);
        }
    }
    d
}

pub open spec fn in_tab_order(s: Seq<(bool, i16, Seq<char>, Seq<char>)>) -> bool {
    forall|i: int, j: int| 0 <= i < j < s.len() ==> !layout_before(#[trigger] s[j], #[trigger] s[i])
}

proof fn lemma_layout_before_strict(a: (bool, i16, Seq<char>, Seq<char>), b: (bool, i16, Seq<char>, Seq<char>), c: (bool, i16, Seq<char>, Seq<char>))
    ensures
        layout_before(a, b) ==> !layout_before(b, a),
        layout_before(a, b) && layout_before(b, c) ==> layout_before(a, c),
{
    if layout_before(a, b) && a.0 == b.0 && a.1 == b.1 {
        lemma_name_lt_asymmetric(a.2, b.2);
    }
    if layout_before(a, b) && layout_before(b, c) && a.0 == b.0 && b.0 == c.0 && a.1 == b.1 && b.1 == c.1 {
        lemma_name_lt_transitive(a.2, b.2, c.2);
    }
}

/// Inserting at the insert position keeps a tab-ordered sequence in order.
proof fn lemma_insert_keeps_order(s: Seq<(bool, i16, Seq<char>, Seq<char>)>, x: (bool, i16, Seq<char>, Seq<char>))
    requires
        in_tab_order(s),
    ensures
        in_tab_order(s.insert(insert_position(s, x, 0), x)),
{
    lemma_insert_position(s, x, 0);
    let p = insert_position(s, x, 0);
    let t = s.insert(p, x);
    assert forall|i: int, j: int| 0 <= i < j < t.len() implies !layout_before(#[trigger] t[j], #[trigger] t[i]) by {
        if j < p {
            assert(t[i] == s[i] && t[j] == s[j]);
        } else if j == p {
            assert(t[i] == s[i]);
        } else if i == p {
            assert(t[j] == s[j - 1]);
            lemma_layout_before_strict(x, s[p], s[p]);
            if j - 1 > p {
                lemma_layout_before_strict(s[j - 1], x, s[p]);
            }
        } else if i < p {
            assert(t[i] == s[i] && t[j] == s[j - 1]);
        } else {
            assert(t[i] == s[i - 1] && t[j] == s[j - 1]);
        }
    }
}

/// Layouts come out in tab order: none goes before a layout listed ahead of
/// it (model space first, then by tab order, then by name), and the sorted
/// list holds exactly the layouts it was given.
pub proof fn law_layouts_in_tab_order(s: Seq<(bool, i16, Seq<char>, Seq<char>)>)
    ensures
        in_tab_order(sorted_layouts(s)),
        sorted_layouts(s).to_multiset() == s.to_multiset(),
    decreases s.len(),
{
    broadcast use {vstd::seq_lib::group_to_multiset_ensures, vstd::multiset::group_multiset_axioms};
    if s.len() > 0 {
        let rest = sorted_layouts(s.drop_last());
        law_layouts_in_tab_order(s.drop_last());
        lemma_insert_keeps_order(rest, s.last());
        lemma_insert_position(rest, s.last(), 0);
        vstd::seq_lib::to_multiset_insert(rest, insert_position(rest, s.last(), 0), s.last());
        assert(s == s.drop_last().push(s.last()));
    }
}

/// When the drawing has a model-space layout, the first layout is one.
pub proof fn law_model_layout_first(ls: Seq<LayoutSource>, br: Seq<BlockRecordSource>)
    ensures
        (exists|i: int| 0 <= i < drawing_layouts(ls, br).len() && #[trigger] drawing_layouts(ls, br)[i].0) ==> drawing_layouts(ls, br)[0].0,
{
    let found = found_layouts(ls, br);
    if found.len() > 0 {
        law_layouts_in_tab_order(found);
        let out = sorted_layouts(found);
        if exists|i: int| 0 <= i < out.len() && #[trigger] out[i].0 {
            let i = choose|i: int| 0 <= i < out.len() && #[trigger] out[i].0;
            if i > 0 && !out[0].0 {
                assert(layout_before(out[i], out[0]));
            }
        }
    }
}

} // verus!
