use cad_extraction::models::{
    BlockInfo, CadColorSpec, CadLineWeightSpec, EntityRecord, EntityStyle, GeometryKind, LayerInfo,
};
use cad_extraction::name_map::NameMap;
use cad_extraction::panels::{matches_search, VisibilityFilters};

fn layer(name: &str, visible: bool) -> LayerInfo {
    LayerInfo {
        name: name.to_owned(),
        visible_by_default: visible,
        entity_count: 0,
        color: CadColorSpec::ByLayer,
        line_weight: CadLineWeightSpec::ByLayer,
    }
}

fn entity(layer: &str, block: Option<&str>) -> EntityRecord {
    EntityRecord {
        id: 0,
        handle: 1,
        owner_handle: 0,
        entity_type: "LINE".to_owned(),
        layer_name: layer.to_owned(),
        block_name: block.map(str::to_owned),
        style: EntityStyle { color: CadColorSpec::ByLayer, line_weight: CadLineWeightSpec::ByLayer },
        geometry: GeometryKind::Line,
    }
}

#[test]
fn syncing_keeps_choices_and_adds_new_names() {
    let mut layers: NameMap<LayerInfo> = NameMap::new();
    layers.insert("A".to_owned(), layer("A", true));
    layers.insert("B".to_owned(), layer("B", false));
    let mut blocks: NameMap<BlockInfo> = NameMap::new();
    blocks.insert("DOOR".to_owned(), BlockInfo { name: "DOOR".to_owned(), entity_count: 1 });

    let mut filters = VisibilityFilters::default();
    filters.layer_visibility.insert("A".to_owned(), false);
    filters.sync_from_drawing(&layers, &blocks);
    assert_eq!(filters.layer_visibility.get("A"), Some(&false));
    assert_eq!(filters.layer_visibility.get("B"), Some(&false));
    assert_eq!(filters.block_visibility.get("DOOR"), Some(&true));
    filters.sync_from_drawing(&layers, &blocks);
    assert_eq!(filters.layer_visibility.len(), 2);
}

#[test]
fn all_layers_and_blocks_on_or_off() {
    let mut filters = VisibilityFilters::default();
    filters.layer_visibility.insert("A".to_owned(), true);
    filters.layer_visibility.insert("B".to_owned(), false);
    filters.block_visibility.insert("DOOR".to_owned(), true);
    filters.set_all_layers(false);
    assert!(!filters.is_entity_visible(&entity("A", None)));
    assert!(!filters.is_entity_visible(&entity("B", Some("DOOR"))));
    // a layer the filters do not know stays visible
    assert!(filters.is_entity_visible(&entity("C", None)));
    filters.set_all_layers(true);
    filters.set_all_blocks(false);
    assert!(filters.is_entity_visible(&entity("B", None)));
    assert!(!filters.is_entity_visible(&entity("B", Some("DOOR"))));
    filters.set_all_blocks(true);
    assert!(filters.is_entity_visible(&entity("B", Some("DOOR"))));
    assert_eq!(filters.layer_visibility.len(), 2);
    assert_eq!(filters.block_visibility.len(), 1);
}

#[test]
fn search_matches_names_ignoring_case() {
    assert!(matches_search("Walls-Exterior", ""));
    assert!(matches_search("Walls-Exterior", "EXT"));
    assert!(matches_search("Walls-Exterior", "walls-exterior"));
    assert!(!matches_search("Walls", "wallsx"));
    assert!(!matches_search("Doors", "wall"));
    assert!(matches_search("a", "A"));
}
