use cad_extraction::extract::{index_drawing, BlockRecordSource, DrawingIndex, EntitySource};
use cad_extraction::fingerprint::semantic_entity_fingerprint;
use cad_extraction::models::{
    CadColorSpec, CadLineWeightSpec, EntityStyle, GeometryKind, LayoutInfo,
};
use cad_extraction::name_map::NameMap;
use cad_extraction::semantic::{
    build_semantic_diff_report, build_semantic_snapshot, canonical_layout_block_name,
    diff_count_maps, normalized_block_name, normalized_layout_blocks, SemanticSnapshot,
};

fn by_layer() -> EntityStyle {
    EntityStyle { color: CadColorSpec::ByLayer, line_weight: CadLineWeightSpec::ByLayer }
}

fn source(kind: &str, layer: &str, geometry: GeometryKind) -> EntitySource {
    EntitySource {
        handle: 0,
        owner_handle: 0,
        entity_type: kind.to_owned(),
        layer_name: layer.to_owned(),
        style: by_layer(),
        geometry,
    }
}

/// The drawing's index and each entity's geometry key, as the extractor
/// writes them.
fn drawing(entities: Vec<(EntitySource, &str)>) -> (DrawingIndex, Vec<String>) {
    let sources: Vec<EntitySource> = entities.iter().map(|(s, _)| s.clone()).collect();
    let index = index_drawing(&sources, &Vec::<BlockRecordSource>::new(), &Vec::new(), &Vec::new(), 0);
    let keys = entities.iter().map(|(_, k)| k.to_string()).collect();
    (index, keys)
}

fn snapshot(d: &DrawingIndex, keys: &[String]) -> SemanticSnapshot {
    let fingerprints: Vec<String> = d
        .entities
        .iter()
        .zip(keys)
        .map(|(e, k)| semantic_entity_fingerprint(e, k))
        .collect();
    build_semantic_snapshot(&d.entities, &fingerprints, &d.layouts, &d.stats)
}

const LINE_0_5: &str = "Line(start=(0.0000, 0.0000),end=(5.0000, 0.0000))";
const LINE_0_6: &str = "Line(start=(0.0000, 0.0000),end=(6.0000, 0.0000))";
const CIRCLE: &str = "Circle(center=(10.0000, 10.0000),radius=2.0000)";

#[test]
fn semantic_diff_ignores_entity_order() {
    let (left, lk) = drawing(vec![
        (source("LINE", "0", GeometryKind::Line), LINE_0_5),
        (source("CIRCLE", "0", GeometryKind::Circle), CIRCLE),
    ]);
    let (right, rk) = drawing(vec![
        (source("CIRCLE", "0", GeometryKind::Circle), CIRCLE),
        (source("LINE", "0", GeometryKind::Line), LINE_0_5),
    ]);
    let report = build_semantic_diff_report(&snapshot(&left, &lk), &snapshot(&right, &rk), true, 10);
    assert!(report.equivalent);
    assert!(report.fingerprint_differences.is_empty());
}

#[test]
fn semantic_diff_detects_geometry_changes() {
    let (left, lk) = drawing(vec![(source("LINE", "0", GeometryKind::Line), LINE_0_5)]);
    let (right, rk) = drawing(vec![(source("LINE", "0", GeometryKind::Line), LINE_0_6)]);
    // the extents differ too (x up to 5 against x up to 6)
    let report = build_semantic_diff_report(&snapshot(&left, &lk), &snapshot(&right, &rk), false, 10);
    assert!(!report.equivalent);
    assert!(!report.fingerprint_differences.is_empty());
}

#[test]
fn semantic_diff_ignores_unsupported_entities() {
    let (left, lk) = drawing(vec![
        (source("LINE", "0", GeometryKind::Line), LINE_0_5),
        (
            source(
                "POINT",
                "ANNO",
                GeometryKind::Unsupported { reason: "not yet supported by scene extractor".to_owned() },
            ),
            "Unsupported(reason=\"not yet supported by scene extractor\")",
        ),
    ]);
    let (right, rk) = drawing(vec![(source("LINE", "0", GeometryKind::Line), LINE_0_5)]);
    let report = build_semantic_diff_report(&snapshot(&left, &lk), &snapshot(&right, &rk), true, 10);
    assert!(report.equivalent);
    assert!(report.fingerprint_differences.is_empty());
}

#[test]
fn semantic_diff_normalizes_layout_block_names() {
    let (mut left, lk) = drawing(vec![(source("LINE", "0", GeometryKind::Line), LINE_0_5)]);
    let (mut right, rk) = drawing(vec![(source("LINE", "0", GeometryKind::Line), LINE_0_5)]);
    left.layouts = vec![LayoutInfo {
        name: "Sheet A".to_owned(),
        root_block_name: "*Paper_Space0".to_owned(),
        tab_order: 1,
        is_model: false,
    }];
    right.layouts = vec![LayoutInfo {
        name: "Sheet A".to_owned(),
        root_block_name: "*Paper_Space4".to_owned(),
        tab_order: 1,
        is_model: false,
    }];
    left.entities[0].block_name = Some("*Paper_Space0".to_owned());
    right.entities[0].block_name = Some("*Paper_Space4".to_owned());

    let report = build_semantic_diff_report(&snapshot(&left, &lk), &snapshot(&right, &rk), true, 10);
    assert!(report.equivalent);
    assert!(report.block_differences.is_empty());
    assert!(report.fingerprint_differences.is_empty());
}

#[test]
fn layout_block_names_are_canonical() {
    let model = LayoutInfo {
        name: "Model".to_owned(),
        root_block_name: "*MODEL_SPACE".to_owned(),
        tab_order: 0,
        is_model: true,
    };
    let sheet = LayoutInfo {
        name: "Sheet A".to_owned(),
        root_block_name: "*Paper_Space4".to_owned(),
        tab_order: 1,
        is_model: false,
    };
    assert_eq!(canonical_layout_block_name(&model), "__layout__:model");
    assert_eq!(canonical_layout_block_name(&sheet), "__layout__:paper:1:Sheet A");
    let map = normalized_layout_blocks(&vec![model, sheet]);
    assert_eq!(normalized_block_name(Some("*Paper_Space4"), &map).as_deref(), Some("__layout__:paper:1:Sheet A"));
    assert_eq!(normalized_block_name(Some("*model_space"), &map).as_deref(), Some("__layout__:model"));
    assert_eq!(normalized_block_name(Some("DOOR"), &map).as_deref(), Some("DOOR"));
    assert_eq!(normalized_block_name(None, &map), None);
    let empty = normalized_layout_blocks(&Vec::new());
    assert_eq!(normalized_block_name(Some("*Model_Space"), &empty).as_deref(), Some("__layout__:model"));
}

#[test]
fn count_differences_are_sorted_by_size_then_key() {
    let mut left: NameMap<usize> = NameMap::new();
    left.insert("A".to_owned(), 1);
    left.insert("B".to_owned(), 5);
    left.insert("C".to_owned(), 2);
    let mut right: NameMap<usize> = NameMap::new();
    right.insert("A".to_owned(), 1);
    right.insert("B".to_owned(), 2);
    right.insert("D".to_owned(), 3);
    let diffs = diff_count_maps(&left, &right);
    let keys: Vec<&str> = diffs.iter().map(|d| d.key.as_str()).collect();
    assert_eq!(keys, vec!["B", "D", "C"]);
    assert_eq!((diffs[0].left_count, diffs[0].right_count), (5, 2));
    assert_eq!((diffs[1].left_count, diffs[1].right_count), (0, 3));
    assert_eq!((diffs[2].left_count, diffs[2].right_count), (2, 0));
    assert!(diff_count_maps(&left, &left).is_empty());
}

#[test]
fn fingerprint_detail_is_limited() {
    let (left, lk) = drawing(vec![
        (source("LINE", "0", GeometryKind::Line), LINE_0_5),
        (source("CIRCLE", "0", GeometryKind::Circle), CIRCLE),
    ]);
    let (right, rk) = drawing(vec![(source("LINE", "0", GeometryKind::Line), LINE_0_6)]);
    let report = build_semantic_diff_report(&snapshot(&left, &lk), &snapshot(&right, &rk), true, 1);
    assert!(!report.equivalent);
    assert_eq!(report.fingerprint_differences.len(), 1);
    assert_eq!(report.omitted_fingerprint_differences, 2);
    assert!(!report.entity_type_counts_equal);
    assert!(report.layer_counts_equal == false);
}

#[test]
fn fingerprint_joins_type_layer_style_and_geometry() {
    let (d, _) = drawing(vec![(source("LINE", "WALL \"A\"", GeometryKind::Line), LINE_0_5)]);
    let fp = semantic_entity_fingerprint(&d.entities[0], LINE_0_5);
    assert_eq!(
        fp,
        format!(
            "type=LINE|layer=\"WALL \\\"A\\\"\"|style=color=ByLayer,line_weight=ByLayer|geometry={LINE_0_5}"
        )
    );
}
