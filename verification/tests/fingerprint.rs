use cad_extraction::fingerprint::{color_key, json_string, line_weight_key, style_key};
use cad_extraction::models::{CadColorSpec, CadLineWeightSpec, EntityStyle};

#[test]
fn json_strings_are_quoted_and_escaped() {
    assert_eq!(json_string("WALLS"), "\"WALLS\"");
    assert_eq!(json_string("a\"b\\c\n"), "\"a\\\"b\\\\c\\n\"");
}

#[test]
fn json_strings_escape_control_characters() {
    assert_eq!(json_string("a\u{1}"), "\"a\\u0001\"");
    assert_eq!(json_string("\t\r\u{1f}"), "\"\\t\\r\\u001f\"");
}

#[test]
fn style_keys() {
    assert_eq!(color_key(CadColorSpec::ByLayer), "ByLayer");
    assert_eq!(color_key(CadColorSpec::ByBlock), "ByBlock");
    assert_eq!(color_key(CadColorSpec::Index(3)), "Index(3)");
    assert_eq!(color_key(CadColorSpec::Rgb(255, 0, 17)), "Rgb(255,0,17)");
    assert_eq!(line_weight_key(CadLineWeightSpec::Default), "Default");
    assert_eq!(line_weight_key(CadLineWeightSpec::Value(-3)), "Value(-3)");
    assert_eq!(
        style_key(&EntityStyle { color: CadColorSpec::Index(1), line_weight: CadLineWeightSpec::Value(25) }),
        "color=Index(1),line_weight=Value(25)"
    );
}
