use std::collections::BTreeSet;

use cad_extraction::models::{
    CadColorSpec, CadLineWeightSpec, EntityRecord, EntityStyle, GeometryKind,
};
use cad_extraction::name_map::NameMap;
use cad_extraction::panels::VisibilityFilters;
use cad_extraction::scene::{
    build_root_draw_queue, is_model_space_name, is_root_entity, sort_draw_order, visible_entity_ids, RenderStats,
};
use cad_extraction::walk::{transform_chain, walk_scene, WalkMode};

fn default_style() -> EntityStyle {
    EntityStyle { color: CadColorSpec::ByLayer, line_weight: CadLineWeightSpec::ByLayer }
}

fn record(id: usize, kind: &str, layer: &str, block: Option<&str>, geometry: GeometryKind) -> EntityRecord {
    EntityRecord {
        id,
        handle: (id + 1) as u64,
        owner_handle: 0,
        entity_type: kind.to_owned(),
        layer_name: layer.to_owned(),
        block_name: block.map(str::to_owned),
        style: default_style(),
        geometry,
    }
}

#[test]
fn treats_uppercase_model_space_as_root() {
    let entities = vec![
        record(0, "LINE", "0", Some("*MODEL_SPACE"), GeometryKind::Line),
        record(1, "LINE", "0", Some("Other"), GeometryKind::Line),
    ];
    let visible: BTreeSet<usize> = [0usize, 1usize].into_iter().collect();
    assert_eq!(build_root_draw_queue(&entities, &visible, Some("*Model_Space")), vec![0]);
}

#[test]
fn root_queue_puts_hatches_last_and_follows_the_layout() {
    let entities = vec![
        record(0, "HATCH", "0", None, GeometryKind::Hatch),
        record(1, "LINE", "0", Some("*Model_Space"), GeometryKind::Line),
        record(2, "LINE", "0", Some("*Paper_Space"), GeometryKind::Line),
        record(3, "CIRCLE", "0", None, GeometryKind::Circle),
        record(4, "LINE", "0", None, GeometryKind::Line),
    ];
    let visible: BTreeSet<usize> = [0usize, 1, 2, 3].into_iter().collect();
    assert_eq!(build_root_draw_queue(&entities, &visible, None), vec![1, 3, 0]);
    assert_eq!(build_root_draw_queue(&entities, &visible, Some("*paper_space")), vec![2]);
    assert!(is_model_space_name("*model_SPACE"));
    assert!(!is_model_space_name("*Model_Space0"));
    assert!(is_root_entity(None, None));
    assert!(!is_root_entity(None, Some("*Paper_Space")));
    assert!(is_root_entity(Some("*PAPER_space"), Some("*Paper_Space")));
}

#[test]
fn visible_ids_follow_layer_and_block_filters() {
    let entities = vec![
        record(0, "LINE", "A", None, GeometryKind::Line),
        record(1, "LINE", "B", None, GeometryKind::Line),
        record(2, "LINE", "A", Some("BLK"), GeometryKind::Line),
        record(3, "LINE", "NEW", None, GeometryKind::Line),
    ];
    let mut filters = VisibilityFilters::default();
    filters.layer_visibility.insert("A".to_owned(), true);
    filters.layer_visibility.insert("B".to_owned(), false);
    filters.block_visibility.insert("BLK".to_owned(), false);
    let ids = visible_entity_ids(&filters, &entities);
    assert_eq!(ids.into_iter().collect::<Vec<_>>(), vec![0, 3]);
}

fn scene() -> (Vec<EntityRecord>, NameMap<Vec<usize>>) {
    let entities = vec![
        record(0, "INSERT", "0", Some("*Model_Space"), GeometryKind::Insert { block_name: "A".to_owned() }),
        record(1, "HATCH", "0", Some("A"), GeometryKind::Hatch),
        record(2, "LINE", "0", Some("A"), GeometryKind::Line),
        record(3, "INSERT", "0", Some("A"), GeometryKind::Insert { block_name: "A".to_owned() }),
        record(4, "DIMENSION", "0", Some("*Model_Space"), GeometryKind::Dimension { block_name: String::new() }),
    ];
    let mut index: NameMap<Vec<usize>> = NameMap::new();
    index.insert("A".to_owned(), vec![1, 2, 3]);
    (entities, index)
}

fn visits(mode: WalkMode, roots: Vec<usize>, visible: &[usize]) -> Vec<(usize, Vec<usize>)> {
    let (entities, index) = scene();
    let visible: BTreeSet<usize> = visible.iter().copied().collect();
    walk_scene(&entities, &index, &visible, &roots, mode)
        .into_iter()
        .map(|v| (v.entity_id, v.path))
        .collect()
}

#[test]
fn drawing_walk_enters_blocks_once_per_path_with_hatches_last() {
    let v = visits(WalkMode::Draw, vec![0, 4], &[0, 1, 2, 3, 4]);
    assert_eq!(
        v,
        vec![(0, vec![]), (2, vec![0]), (3, vec![0]), (1, vec![0]), (4, vec![])]
    );
}

#[test]
fn bounds_walk_keeps_block_order_and_skips_invisible() {
    let v = visits(WalkMode::Bounds, vec![0], &[0, 2, 3]);
    assert_eq!(v, vec![(0, vec![]), (2, vec![0]), (3, vec![0])]);
}

#[test]
fn picking_walk_stops_at_the_depth_limit() {
    let v = visits(WalkMode::Pick, vec![0], &[0, 3]);
    // the self-insert is followed until the depth limit of 30 nested blocks
    assert_eq!(v.len(), 31);
    assert_eq!(v[30].0, 3);
    assert_eq!(v[30].1.len(), 30);
}

#[test]
fn selected_entity_transform_chain() {
    let (entities, index) = scene();
    let visible: BTreeSet<usize> = (0..5).collect();
    let walk = walk_scene(&entities, &index, &visible, &vec![0], WalkMode::Draw);
    let line = walk.iter().find(|v| v.entity_id == 2).unwrap();
    assert_eq!(transform_chain(&entities, line), vec!["A".to_owned(), "Entity:3".to_owned()]);
    assert_eq!(transform_chain(&entities, &walk[0]), vec!["Entity:1".to_owned()]);
}

#[test]
fn draw_order_sorts_by_hatch_then_id() {
    let entities = vec![
        record(0, "HATCH", "0", None, GeometryKind::Hatch),
        record(1, "LINE", "0", None, GeometryKind::Line),
        record(2, "HATCH", "0", None, GeometryKind::Hatch),
        record(3, "LINE", "0", None, GeometryKind::Line),
    ];
    assert_eq!(sort_draw_order(&entities, &vec![3, 2, 0, 1]), vec![1, 3, 0, 2]);
    assert_eq!(sort_draw_order(&entities, &vec![]), Vec::<usize>::new());
}

#[test]
fn frame_counters_add_up() {
    let mut stats = RenderStats::default();
    stats.record_visit(true);
    stats.record_visit(false);
    stats.record_visit(true);
    assert_eq!(stats.traversed_entities, 3);
    assert_eq!(stats.drawn_entities, 2);
    assert_eq!(stats.culled_entities, 1);
}

#[test]
fn walk_counters_add_up() {
    let mut stats = RenderStats::default();
    stats.record_visit(false);
    stats.record_visits(&vec![true, false, true, true]);
    assert_eq!(stats.traversed_entities, 5);
    assert_eq!(stats.drawn_entities, 3);
    assert_eq!(stats.culled_entities, 2);
    let before = stats.clone();
    stats.record_visits(&Vec::new());
    assert_eq!(stats.traversed_entities, before.traversed_entities);
    assert_eq!(stats.drawn_entities, before.drawn_entities);
    assert_eq!(stats.culled_entities, before.culled_entities);
}
