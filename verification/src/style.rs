//! The display colour and line weight of an entity: its own colour or line
//! weight, or its layer's when it has none of its own.
use vstd::prelude::*;

use egui::Color32;

use crate::models::{CadColorSpec, CadLineWeightSpec, EntityRecord, LayerInfo, StyleSource};
use crate::name_map::NameMap;
use crate::output::aci_rgb;

verus! {

#[verifier::external_type_specification]
#[verifier::external_body]
pub struct ExColor32(Color32);

/// The opaque colour with these channels (`Color32::from_rgb`).
pub uninterp spec fn opaque_rgb(r: u8, g: u8, b: u8) -> Color32;

/// `Color32::from_rgb`: the opaque colour with the given channels.
#[verifier::external_body]
fn rgb_color(r: u8, g: u8, b: u8) -> (c: Color32)
    ensures
        c == opaque_rgb(r, g, b),
{
    Color32::from_rgb(r, g, b)
}

/// `Color32::LIGHT_BLUE`, which egui defines as `from_rgb(0xAD, 0xD8, 0xE6)`.
#[verifier::external_body]
fn light_blue() -> (c: Color32)
    ensures
        c == opaque_rgb(0xAD, 0xD8, 0xE6),
{
    Color32::LIGHT_BLUE
}

/// The display colour of an AutoCAD colour index: the nine standard colours,
/// light grey for the others.
pub open spec fn aci_display_rgb(index: u8) -> (u8, u8, u8) {
    if index == 1 {
        (255, 0, 0)
    } else if index == 2 {
        (255, 255, 0)
    } else if index == 3 {
        (0, 255, 0)
    } else if index == 4 {
        (0, 255, 255)
    } else if index == 5 {
        (0, 0, 255)
    } else if index == 6 {
        (255, 0, 255)
    } else if index == 7 {
        (255, 255, 255)
    } else if index == 8 {
        (128, 128, 128)
    } else if index == 9 {
        (192, 192, 192)
    } else {
        (200, 200, 200)
    }
}

pub fn aci_display_channels(index: u8) -> (c: (u8, u8, u8))
    ensures
        c == aci_display_rgb(index),
{
    match index {
        1 => (255, 0, 0),
        2 => (255, 255, 0),
        3 => (0, 255, 0),
        4 => (0, 255, 255),
        5 => (0, 0, 255),
        6 => (255, 0, 255),
        7 => (255, 255, 255),
        8 => (128, 128, 128),
        9 => (192, 192, 192),
        _ => (200, 200, 200),
    }
}

/// The display colour of an AutoCAD colour index.
pub fn aci_to_color(index: u8) -> (c: Color32)
    ensures
        c == opaque_rgb(aci_display_rgb(index).0, aci_display_rgb(index).1, aci_display_rgb(index).2),
{
    let (r, g, b) = aci_display_channels(index);
    rgb_color(r, g, b)
}

/// The channels of a colour drawn from an entity's colour and its layer's
/// (when the layer table has its layer), and where they came from; `None`
/// channels stand for the fallback colour.
pub open spec fn color_choice(own: CadColorSpec, layer: Option<CadColorSpec>) -> (Option<(u8, u8, u8)>, StyleSource) {
    match own {
        CadColorSpec::Rgb(r, g, b) => (Some((r, g, b)), StyleSource::TrueColor),
        CadColorSpec::Index(i) => (Some(aci_display_rgb(i)), StyleSource::Aci),
        _ => match layer {
            Some(CadColorSpec::Rgb(r, g, b)) => (Some((r, g, b)), StyleSource::Layer),
            Some(CadColorSpec::Index(i)) => (Some(aci_display_rgb(i)), StyleSource::Layer),
            _ => (None, StyleSource::Fallback),
        },
    }
}

/// Which colour an entity is drawn in, from its own colour and its layer's.
pub fn choose_color(own: CadColorSpec, layer: Option<CadColorSpec>) -> (r: (Option<(u8, u8, u8)>, StyleSource))
    ensures
        r == color_choice(own, layer),
{
    match own {
        CadColorSpec::Rgb(r, g, b) => (Some((r, g, b)), StyleSource::TrueColor),
        CadColorSpec::Index(i) => (Some(aci_display_channels(i)), StyleSource::Aci),
        _ => match layer {
            Some(CadColorSpec::Rgb(r, g, b)) => (Some((r, g, b)), StyleSource::Layer),
            Some(CadColorSpec::Index(i)) => (Some(aci_display_channels(i)), StyleSource::Layer),
            _ => (None, StyleSource::Fallback),
        },
    }
}

/// The colour of the entity's layer, when the table has the layer.
pub open spec fn layer_color_of(layers: Map<Seq<char>, LayerInfo>, name: Seq<char>) -> Option<CadColorSpec> {
    if layers.contains_key(name) {
        Some(layers[name].color)
    } else {
        None
    }
}

/// The colour an entity is drawn in, and where it came from: its true
/// colour, its colour index, its layer's colour, or light blue.
pub fn resolve_color(entity: &EntityRecord, layers: &NameMap<LayerInfo>) -> (r: (Color32, StyleSource))
    requires
        layers.wf(),
    ensures
        r.1 == color_choice(entity.style.color, layer_color_of(layers@, entity.layer_name@)).1,
        r.0 == match color_choice(entity.style.color, layer_color_of(layers@, entity.layer_name@)).0 {
            Some(c) => opaque_rgb(c.0, c.1, c.2),
            None => opaque_rgb(0xAD, 0xD8, 0xE6),
        },
{
    let layer = match entity.style.color {
        CadColorSpec::ByLayer | CadColorSpec::ByBlock => match layers.get(entity.layer_name.as_str()) {
            Some(info) => Some(info.color),
            None => None,
        },
        _ => None,
    };
    let ghost full = layer_color_of(layers@, entity.layer_name@);
    assert(color_choice(entity.style.color, layer) == color_choice(entity.style.color, full));
    let (channels, source) = choose_color(entity.style.color, layer);
    let color = match channels {
        Some((r, g, b)) => rgb_color(r, g, b),
        None => light_blue(),
    };
    (color, source)
}

/// The line weight an entity is drawn with, in hundredths of a millimetre:
/// its own value, its layer's value when it is by layer, or 25.
pub open spec fn line_weight_choice(own: CadLineWeightSpec, layer: Option<CadLineWeightSpec>) -> i16 {
    match own {
        CadLineWeightSpec::Value(v) => v,
        CadLineWeightSpec::ByLayer => match layer {
            Some(CadLineWeightSpec::Value(v)) => v,
            _ => 25,
        },
        _ => 25,
    }
}

pub open spec fn layer_line_weight_of(layers: Map<Seq<char>, LayerInfo>, name: Seq<char>) -> Option<CadLineWeightSpec> {
    if layers.contains_key(name) {
        Some(layers[name].line_weight)
    } else {
        None
    }
}

/// The entity's line weight in hundredths of a millimetre, before the viewer
/// scales it to pixels.
pub fn resolve_line_weight(entity: &EntityRecord, layers: &NameMap<LayerInfo>) -> (w: i16)
    requires
        layers.wf(),
    ensures
        w == line_weight_choice(entity.style.line_weight, layer_line_weight_of(layers@, entity.layer_name@)),
{
    match entity.style.line_weight {
        CadLineWeightSpec::Value(v) => v,
        CadLineWeightSpec::ByLayer => match layers.get(entity.layer_name.as_str()) {
            Some(info) => match info.line_weight {
                CadLineWeightSpec::Value(v) => v,
                _ => 25,
            },
            None => 25,
        },
        _ => 25,
    }
}

/// The viewer draws colour indices 1 to 9 in the same colours that the
/// extracted output records for them: the channels, packed as `0xRRGGBB`,
/// give the output's decimal RGB value.
pub proof fn law_viewer_palette_matches_output(index: u8)
    requires
        1 <= index <= 9,
    ensures
        aci_display_rgb(index).0 as int * 65536 + aci_display_rgb(index).1 as int * 256
            + aci_display_rgb(index).2 as int == aci_rgb(index) as int,
{
}

} // verus!
