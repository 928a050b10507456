use cad_extraction::models::{CadColorSpec, CadLineWeightSpec};
use cad_extraction::output::{
    aci_to_rgb_decimal, color_to_layer_index, color_to_layer_rgb, color_to_output, convert_layers,
    decimal_string, hex_upper, layer_entry, line_weight_to_output, pack_rgb, LayerRecord,
};

#[test]
fn aci_colours_in_decimal_rgb() {
    assert_eq!(aci_to_rgb_decimal(0), 0);
    assert_eq!(aci_to_rgb_decimal(1), 16711680);
    assert_eq!(aci_to_rgb_decimal(2), 16776960);
    assert_eq!(aci_to_rgb_decimal(5), 255);
    assert_eq!(aci_to_rgb_decimal(8), 8421504);
    assert_eq!(aci_to_rgb_decimal(9), 12632256);
    assert_eq!(aci_to_rgb_decimal(250), 3355443);
    assert_eq!(aci_to_rgb_decimal(254), 14079702);
    assert_eq!(aci_to_rgb_decimal(42), 16777215);
}

#[test]
fn colours_for_entity_output() {
    assert_eq!(color_to_output(&CadColorSpec::ByLayer), (None, None));
    assert_eq!(color_to_output(&CadColorSpec::ByBlock), (Some(0), Some(0)));
    assert_eq!(color_to_output(&CadColorSpec::Index(3)), (Some(3), Some(65280)));
    assert_eq!(color_to_output(&CadColorSpec::Rgb(1, 2, 3)), (None, Some(0x010203)));
    assert_eq!(pack_rgb(255, 128, 0), 0xFF8000);
}

#[test]
fn colours_for_layer_output() {
    assert_eq!(color_to_layer_index(&CadColorSpec::ByLayer), 7);
    assert_eq!(color_to_layer_index(&CadColorSpec::ByBlock), 0);
    assert_eq!(color_to_layer_index(&CadColorSpec::Index(200)), 200);
    assert_eq!(color_to_layer_index(&CadColorSpec::Rgb(1, 1, 1)), 7);
    assert_eq!(color_to_layer_rgb(&CadColorSpec::Index(4)), 65535);
    assert_eq!(color_to_layer_rgb(&CadColorSpec::Rgb(0, 0, 9)), 9);
    assert_eq!(color_to_layer_rgb(&CadColorSpec::ByLayer), 16777215);
}

#[test]
fn line_weights_for_output() {
    assert_eq!(line_weight_to_output(&CadLineWeightSpec::ByLayer), -1);
    assert_eq!(line_weight_to_output(&CadLineWeightSpec::ByBlock), -2);
    assert_eq!(line_weight_to_output(&CadLineWeightSpec::Default), -3);
    assert_eq!(line_weight_to_output(&CadLineWeightSpec::Value(35)), 35);
}

#[test]
fn handles_and_numbers_as_text() {
    assert_eq!(hex_upper(0), "0");
    assert_eq!(hex_upper(0x1F), "1F");
    assert_eq!(hex_upper(0xABCDEF0123), "ABCDEF0123");
    assert_eq!(hex_upper(u64::MAX), "FFFFFFFFFFFFFFFF");
    assert_eq!(decimal_string(0), "0");
    assert_eq!(decimal_string(20_000), "20000");
    assert_eq!(decimal_string(u64::MAX), "18446744073709551615");
}

fn layer(name: &str, color: CadColorSpec) -> LayerRecord {
    LayerRecord {
        name: name.to_owned(),
        frozen: false,
        visible: true,
        color,
        line_type: "CONTINUOUS".to_owned(),
        line_weight: CadLineWeightSpec::Value(25),
    }
}

#[test]
fn layer_table_output_last_record_wins() {
    let records = vec![
        layer("0", CadColorSpec::Index(7)),
        layer("WALLS", CadColorSpec::Index(1)),
        layer("WALLS", CadColorSpec::Rgb(0, 0, 1)),
    ];
    let table = convert_layers(0x2, &records);
    assert_eq!(table.handle, "2");
    assert_eq!(table.owner_handle, "0");
    assert_eq!(table.layers.len(), 2);
    let walls = table.layers.get("WALLS").unwrap();
    assert_eq!(walls.color_index, 7);
    assert_eq!(walls.color, 1);
    assert_eq!(walls.line_weight, 25);
    assert_eq!(walls.display_name, "WALLS");
    assert_eq!(walls.line_type, "CONTINUOUS");
    let entry = layer_entry(&layer("X", CadColorSpec::Index(2)));
    assert_eq!((entry.color_index, entry.color), (2, 16776960));
}
