use cad_extraction::models::{
    CadColorSpec, CadLineWeightSpec, EntityRecord, EntityStyle, GeometryKind, LayerInfo, StyleSource,
};
use cad_extraction::name_map::NameMap;
use cad_extraction::style::{aci_to_color, choose_color, resolve_color, resolve_line_weight};
use egui::Color32;

fn entity(color: CadColorSpec, line_weight: CadLineWeightSpec, layer: &str) -> EntityRecord {
    EntityRecord {
        id: 0,
        handle: 1,
        owner_handle: 0,
        entity_type: "LINE".to_owned(),
        layer_name: layer.to_owned(),
        block_name: None,
        style: EntityStyle { color, line_weight },
        geometry: GeometryKind::Line,
    }
}

fn layers() -> NameMap<LayerInfo> {
    let mut m = NameMap::new();
    m.insert(
        "RED".to_owned(),
        LayerInfo {
            name: "RED".to_owned(),
            visible_by_default: true,
            entity_count: 1,
            color: CadColorSpec::Index(1),
            line_weight: CadLineWeightSpec::Value(50),
        },
    );
    m.insert(
        "PLAIN".to_owned(),
        LayerInfo {
            name: "PLAIN".to_owned(),
            visible_by_default: true,
            entity_count: 1,
            color: CadColorSpec::ByBlock,
            line_weight: CadLineWeightSpec::Default,
        },
    );
    m
}

#[test]
fn own_colour_wins_over_the_layer() {
    let l = layers();
    let e = entity(CadColorSpec::Rgb(10, 20, 30), CadLineWeightSpec::ByLayer, "RED");
    assert_eq!(resolve_color(&e, &l), (Color32::from_rgb(10, 20, 30), StyleSource::TrueColor));
    let e = entity(CadColorSpec::Index(5), CadLineWeightSpec::ByLayer, "RED");
    assert_eq!(resolve_color(&e, &l), (Color32::from_rgb(0, 0, 255), StyleSource::Aci));
}

#[test]
fn by_layer_colour_comes_from_the_layer_or_falls_back() {
    let l = layers();
    let e = entity(CadColorSpec::ByLayer, CadLineWeightSpec::ByLayer, "RED");
    assert_eq!(resolve_color(&e, &l), (Color32::from_rgb(255, 0, 0), StyleSource::Layer));
    let e = entity(CadColorSpec::ByBlock, CadLineWeightSpec::ByLayer, "PLAIN");
    assert_eq!(resolve_color(&e, &l), (Color32::LIGHT_BLUE, StyleSource::Fallback));
    let e = entity(CadColorSpec::ByLayer, CadLineWeightSpec::ByLayer, "MISSING");
    assert_eq!(resolve_color(&e, &l), (Color32::LIGHT_BLUE, StyleSource::Fallback));
    assert_eq!(choose_color(CadColorSpec::ByLayer, Some(CadColorSpec::Rgb(1, 2, 3))), (Some((1, 2, 3)), StyleSource::Layer));
}

#[test]
fn aci_display_colours() {
    assert_eq!(aci_to_color(7), Color32::from_rgb(255, 255, 255));
    assert_eq!(aci_to_color(9), Color32::from_rgb(192, 192, 192));
    assert_eq!(aci_to_color(0), Color32::from_rgb(200, 200, 200));
    assert_eq!(aci_to_color(130), Color32::from_rgb(200, 200, 200));
}

#[test]
fn line_weights_in_hundredths() {
    let l = layers();
    assert_eq!(resolve_line_weight(&entity(CadColorSpec::ByLayer, CadLineWeightSpec::Value(70), "RED"), &l), 70);
    assert_eq!(resolve_line_weight(&entity(CadColorSpec::ByLayer, CadLineWeightSpec::ByLayer, "RED"), &l), 50);
    assert_eq!(resolve_line_weight(&entity(CadColorSpec::ByLayer, CadLineWeightSpec::ByLayer, "PLAIN"), &l), 25);
    assert_eq!(resolve_line_weight(&entity(CadColorSpec::ByLayer, CadLineWeightSpec::ByBlock, "RED"), &l), 25);
    assert_eq!(resolve_line_weight(&entity(CadColorSpec::ByLayer, CadLineWeightSpec::ByLayer, "NONE"), &l), 25);
}
