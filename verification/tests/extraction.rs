use std::time::Instant;

use cad_extraction::blocks::convert_blocks;
use cad_extraction::extract::{
    index_drawing, BlockRecordSource, EntitySource, LayerSource, LayoutSource,
};
use cad_extraction::models::{
    CadColorSpec, CadLineWeightSpec, EntityStyle, GeometryKind,
};
use cad_extraction::panels::WGPU_RECOMMENDATION_THRESHOLD;

fn by_layer() -> EntityStyle {
    EntityStyle { color: CadColorSpec::ByLayer, line_weight: CadLineWeightSpec::ByLayer }
}

fn entity(handle: u64, owner: u64, kind: &str, layer: &str, geometry: GeometryKind) -> EntitySource {
    EntitySource {
        handle,
        owner_handle: owner,
        entity_type: kind.to_owned(),
        layer_name: layer.to_owned(),
        style: by_layer(),
        geometry,
    }
}

fn record(handle: u64, name: &str) -> BlockRecordSource {
    BlockRecordSource { handle, name: name.to_owned() }
}

#[test]
fn wgpu_gate_threshold_is_defined() {
    assert!(WGPU_RECOMMENDATION_THRESHOLD >= 100_000);
}

#[test]
fn index_drawing_creates_layer_index() {
    let sources = vec![
        entity(1, 0, "LINE", "WALLS", GeometryKind::Line),
        entity(2, 0, "CIRCLE", "DOORS", GeometryKind::Circle),
    ];
    let output = index_drawing(&sources, &Vec::new(), &Vec::new(), &Vec::new(), 1);
    assert_eq!(output.stats.total_entities, 2);
    assert!(output.layer_index.contains_key("WALLS"));
    assert!(output.layer_index.contains_key("DOORS"));
    assert_eq!(output.layer_index.get("WALLS").unwrap(), &vec![0usize]);
    assert_eq!(output.layers.get("DOORS").unwrap().entity_count, 1);
    assert!(output.layers.get("DOORS").unwrap().visible_by_default);
}

#[test]
fn extract_document_marks_unsupported_entities() {
    let sources = vec![
        entity(1, 0, "ARC", "ANNO", GeometryKind::Arc),
        entity(
            2,
            0,
            "POINT",
            "ANNO",
            GeometryKind::Unsupported { reason: "not yet supported by scene extractor".to_owned() },
        ),
    ];
    let output = index_drawing(&sources, &Vec::new(), &Vec::new(), &Vec::new(), 1);
    assert_eq!(output.stats.total_entities, 2);
    assert_eq!(output.stats.ignored_entities, 1);
    assert_eq!(output.stats.renderable_entities, 1);
    assert_eq!(output.stats.load_duration_ms, 1);
}

#[test]
fn extraction_perf_baseline_generated_geometry() {
    let mut sources = Vec::new();
    for index in 0..20_000u64 {
        sources.push(entity(index + 1, 0, "LINE", "PERF", GeometryKind::Line));
    }
    let start = Instant::now();
    let output = index_drawing(&sources, &Vec::new(), &Vec::new(), &Vec::new(), 0);
    let elapsed = start.elapsed().as_millis();
    assert_eq!(output.stats.total_entities, 20_000);
    assert!(elapsed < 10_000, "extraction took too long: {elapsed}ms");
}

#[test]
fn index_drawing_tracks_blocks_handles_and_layer_table() {
    let records = vec![record(0x1F, "*Model_Space"), record(0x20, "DOOR")];
    let sources = vec![
        entity(0x30, 0x1F, "INSERT", "0", GeometryKind::Insert { block_name: "DOOR".to_owned() }),
        entity(0x31, 0x20, "LINE", "FRAME", GeometryKind::Line),
        entity(0x31, 0x20, "LINE", "FRAME", GeometryKind::Line),
        entity(0, 0x99, "LINE", "FRAME", GeometryKind::Line),
    ];
    let layers = vec![
        LayerSource {
            name: "FRAME".to_owned(),
            visible: false,
            color: CadColorSpec::Index(3),
            line_weight: CadLineWeightSpec::Value(50),
        },
        LayerSource {
            name: "EMPTY".to_owned(),
            visible: true,
            color: CadColorSpec::Rgb(1, 2, 3),
            line_weight: CadLineWeightSpec::Default,
        },
    ];
    let output = index_drawing(&sources, &records, &layers, &Vec::new(), 5);
    assert_eq!(output.entities[0].block_name.as_deref(), Some("*Model_Space"));
    assert_eq!(output.entities[1].block_name.as_deref(), Some("DOOR"));
    assert_eq!(output.entities[3].block_name, None);
    assert_eq!(output.block_index.get("DOOR").unwrap(), &vec![1usize, 2]);
    assert_eq!(output.blocks.get("DOOR").unwrap().entity_count, 2);
    assert!(output.blocks.get("*Model_Space").is_some());
    // the last entity of a handle wins; handle 0 is never indexed
    assert_eq!(output.entity_by_handle.get(&0x31), Some(&2usize));
    assert_eq!(output.entity_by_handle.get(&0), None);
    let frame = output.layers.get("FRAME").unwrap();
    assert_eq!(frame.entity_count, 3);
    assert!(!frame.visible_by_default);
    assert_eq!(frame.color, CadColorSpec::Index(3));
    let empty = output.layers.get("EMPTY").unwrap();
    assert_eq!(empty.entity_count, 0);
    assert_eq!(empty.line_weight, CadLineWeightSpec::Default);
    let zero = output.layers.get("0").unwrap();
    assert!(zero.visible_by_default);
    assert_eq!(zero.color, CadColorSpec::ByLayer);
    // no layout objects: the model layout alone
    assert_eq!(output.layouts.len(), 1);
    assert_eq!(output.layouts[0].name, "Model");
    assert_eq!(output.layouts[0].root_block_name, "*Model_Space");
    assert!(output.layouts[0].is_model);
}

#[test]
fn layouts_come_in_tab_order_with_model_first() {
    let records = vec![
        record(1, "*Model_Space"),
        record(2, "*Paper_Space"),
        record(3, "*Paper_Space0"),
        record(4, "*Paper_Space1"),
    ];
    let layouts = vec![
        LayoutSource { name: "B".to_owned(), block_record: 3, tab_order: 2 },
        LayoutSource { name: "A".to_owned(), block_record: 4, tab_order: 2 },
        LayoutSource { name: "Layout1".to_owned(), block_record: 2, tab_order: 1 },
        LayoutSource { name: "Model".to_owned(), block_record: 1, tab_order: 0 },
        LayoutSource { name: "Orphan".to_owned(), block_record: 99, tab_order: 0 },
    ];
    let output = index_drawing(&Vec::new(), &records, &Vec::new(), &layouts, 0);
    let names: Vec<&str> = output.layouts.iter().map(|l| l.name.as_str()).collect();
    assert_eq!(names, vec!["Model", "Layout1", "A", "B"]);
    assert!(output.layouts[0].is_model);
    assert_eq!(output.layouts[3].root_block_name, "*Paper_Space0");
}

#[test]
fn blocks_section_groups_entities_by_owner() {
    let records = vec![record(0x1F, "*Model_Space"), record(0xA, "DOOR"), record(0xB, "DUP"), record(0xC, "DUP")];
    let owners = vec![0x1F, 0xA, 0x77, 0xA, 0xB];
    let blocks = convert_blocks(&records, &owners);
    let model = blocks.get("*Model_Space").unwrap();
    assert_eq!(model.handle, "1F");
    // an unknown owner is listed under model space
    assert_eq!(model.entity_ids, vec![0, 2]);
    let door = blocks.get("DOOR").unwrap();
    assert_eq!(door.handle, "A");
    assert_eq!(door.entity_ids, vec![1, 3]);
    // a second record of a name is written last, without entities
    let dup = blocks.get("DUP").unwrap();
    assert_eq!(dup.handle, "C");
    assert!(dup.entity_ids.is_empty());
    assert_eq!(blocks.len(), 3);
}

#[test]
fn blocks_section_keeps_entities_of_unrecorded_blocks() {
    let records = vec![record(0xA, "DOOR")];
    let owners = vec![0x5];
    let blocks = convert_blocks(&records, &owners);
    let model = blocks.get("*Model_Space").unwrap();
    assert_eq!(model.handle, "0");
    assert_eq!(model.entity_ids, vec![0]);
    assert!(blocks.get("DOOR").unwrap().entity_ids.is_empty());
}
