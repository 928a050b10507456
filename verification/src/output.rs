//! Values of the extracted-JSON schema that the library computes: colours,
//! line weights, handles and the layer table.
use vstd::prelude::*;

use crate::models::{CadColorSpec, CadLineWeightSpec};
use crate::name_map::NameMap;
use crate::text::string_of;

verus! {

/// The 24-bit RGB value of an AutoCAD Color Index entry, as the schema
/// writes it; indices without an entry of their own are white.
pub open spec fn aci_rgb(index: u8) -> u32 {
    if index == 0 {
        0
    } else if index == 1 {
        16711680
    } else if index == 2 {
        16776960
    } else if index == 3 {
        65280
    } else if index == 4 {
        65535
    } else if index == 5 {
        255
    } else if index == 6 {
        16711935
    } else if index == 7 {
        16777215
    } else if index == 8 {
        8421504
    } else if index == 9 {
        12632256
    } else if index == 250 {
        3355443
    } else if index == 251 {
        5000268
    } else if index == 252 {
        6710886
    } else if index == 253 {
        8421504
    } else if index == 254 {
        14079702
    } else {
        16777215
    }
}

/// The seven standard colour indices are the primaries and their mixes at
/// full strength: 1 red, 2 yellow, 3 green, 4 cyan, 5 blue, 6 magenta and
/// 7 white, written as `0xRRGGBB`.
pub proof fn law_standard_aci_colours(index: u8)
    requires
        1 <= index <= 7,
    ensures
        index == 1 ==> aci_rgb(index) == 0xFF0000,
        index == 2 ==> aci_rgb(index) == 0xFFFF00,
        index == 3 ==> aci_rgb(index) == 0x00FF00,
        index == 4 ==> aci_rgb(index) == 0x00FFFF,
        index == 5 ==> aci_rgb(index) == 0x0000FF,
        index == 6 ==> aci_rgb(index) == 0xFF00FF,
        index == 7 ==> aci_rgb(index) == 0xFFFFFF,
        aci_rgb(index) == (if index == 1 || index == 2 || index == 6 || index == 7 { 0xFF0000u32 } else { 0u32 })
            + (if 2 <= index <= 4 || index == 7 { 0x00FF00u32 } else { 0u32 })
            + (if 4 <= index <= 7 { 0x0000FFu32 } else { 0u32 }),
{
}

/// Indices 8, 9 and 250 to 254 are greys (equal red, green and blue), and
/// 250 to 254 grow lighter step by step.
pub proof fn law_grey_aci_colours(index: u8, other: u8)
    requires
        index == 8 || index == 9 || 250 <= index <= 254,
    ensures
        aci_rgb(index) == (aci_rgb(index) % 256) * 0x010101,
        250 <= index < other <= 254 ==> aci_rgb(index) < aci_rgb(other),
        index == 8 ==> aci_rgb(index) == 0x808080,
        index == 9 ==> aci_rgb(index) == 0xC0C0C0,
{
}

/// AutoCAD Color Index to 24-bit decimal RGB.
pub fn aci_to_rgb_decimal(index: u8) -> (rgb: u32)
    ensures
        rgb == aci_rgb(index),
{
    match index {
        0 => 0,
        1 => 16711680,
        2 => 16776960,
        3 => 65280,
        4 => 65535,
        5 => 255,
        6 => 16711935,
        7 => 16777215,
        8 => 8421504,
        9 => 12632256,
        250 => 3355443,
        251 => 5000268,
        252 => 6710886,
        253 => 8421504,
        254 => 14079702,
        255 => 16777215,
        _ => 16777215,
    }
}

/// `r`, `g`, `b` packed as `0xRRGGBB`.
pub open spec fn rgb_value(r: u8, g: u8, b: u8) -> u32 {
    ((r as u32) * 65536 + (g as u32) * 256 + (b as u32)) as u32
}

pub fn pack_rgb(r: u8, g: u8, b: u8) -> (v: u32)
    ensures
        v == rgb_value(r, g, b),
{
    let rr: u32 = r as u32;
    let gg: u32 = g as u32;
    let bb: u32 = b as u32;
    assert((rr << 16u32) | (gg << 8u32) | bb == rr * 65536 + gg * 256 + bb) by (bit_vector)
        requires
            rr < 256,
            gg < 256,
            bb < 256,
    ;
    (rr << 16u32) | (gg << 8u32) | bb
}

/// The `colorIndex` and `color` fields of an entity.
pub open spec fn color_output(color: CadColorSpec) -> (Option<i16>, Option<u32>) {
    match color {
        CadColorSpec::ByLayer => (None, None),
        CadColorSpec::ByBlock => (Some(0i16), Some(0u32)),
        CadColorSpec::Index(i) => (Some(i as i16), Some(aci_rgb(i))),
        CadColorSpec::Rgb(r, g, b) => (None, Some(rgb_value(r, g, b))),
    }
}

/// Converts a colour to the entity's `(colorIndex, color)` output pair.
pub fn color_to_output(color: &CadColorSpec) -> (r: (Option<i16>, Option<u32>))
    ensures
        r == color_output(*color),
{
    match color {
        CadColorSpec::ByLayer => (None, None),
        CadColorSpec::ByBlock => (Some(0), Some(0)),
        CadColorSpec::Index(i) => (Some(*i as i16), Some(aci_to_rgb_decimal(*i))),
        CadColorSpec::Rgb(r, g, b) => (None, Some(pack_rgb(*r, *g, *b))),
    }
}

/// Packing keeps each channel in its own byte: red, green and blue are read
/// back from the packed value.
pub proof fn law_rgb_channels_recoverable(r: u8, g: u8, b: u8)
    ensures
        rgb_value(r, g, b) / 65536 == r as u32,
        (rgb_value(r, g, b) / 256) % 256 == g as u32,
        rgb_value(r, g, b) % 256 == b as u32,
        rgb_value(r, g, b) <= 0xFFFFFF,
{
}

/// A colour index or a true colour is written as the same decimal RGB for a
/// layer as for an entity; the index is written as it is.
pub proof fn law_layer_and_entity_colours_agree(color: CadColorSpec)
    ensures
        (color is Index || color is Rgb) ==> color_output(color).1 == Some(layer_color_rgb(color)),
        color is Index ==> color_output(color).0 == Some(layer_color_index(color)),
{
}

/// The `colorIndex` of a layer, which always has one.
pub open spec fn layer_color_index(color: CadColorSpec) -> i16 {
    match color {
        CadColorSpec::ByLayer => 7,
        CadColorSpec::ByBlock => 0,
        CadColorSpec::Index(i) => i as i16,
        CadColorSpec::Rgb(_, _, _) => 7,
    }
}

pub fn color_to_layer_index(color: &CadColorSpec) -> (r: i16)
    ensures
        r == layer_color_index(*color),
{
    match color {
        CadColorSpec::ByLayer => 7,
        CadColorSpec::ByBlock => 0,
        CadColorSpec::Index(i) => *i as i16,
        CadColorSpec::Rgb(..) => 7,
    }
}

/// The decimal RGB `color` of a layer; white where the colour has none.
pub open spec fn layer_color_rgb(color: CadColorSpec) -> u32 {
    match color {
        CadColorSpec::Index(i) => aci_rgb(i),
        CadColorSpec::Rgb(r, g, b) => rgb_value(r, g, b),
        _ => 16777215,
    }
}

pub fn color_to_layer_rgb(color: &CadColorSpec) -> (r: u32)
    ensures
        r == layer_color_rgb(*color),
{
    match color {
        CadColorSpec::Index(i) => aci_to_rgb_decimal(*i),
        CadColorSpec::Rgb(r, g, b) => pack_rgb(*r, *g, *b),
        _ => 16777215,
    }
}

/// The numeric line weight of the schema: -1 by layer, -2 by block, -3
/// default, else the value.
pub open spec fn line_weight_value(lw: CadLineWeightSpec) -> i16 {
    match lw {
        CadLineWeightSpec::ByLayer => -1i16,
        CadLineWeightSpec::ByBlock => -2i16,
        CadLineWeightSpec::Default => -3i16,
        CadLineWeightSpec::Value(v) => v,
    }
}

pub fn line_weight_to_output(lw: &CadLineWeightSpec) -> (r: i16)
    ensures
        r == line_weight_value(*lw),
{
    match lw {
        CadLineWeightSpec::ByLayer => -1,
        CadLineWeightSpec::ByBlock => -2,
        CadLineWeightSpec::Default => -3,
        CadLineWeightSpec::Value(v) => *v,
    }
}

/// Upper-case hexadecimal digit of `d < 16`.
pub open spec fn hex_digit(d: nat) -> char {
    if d < 10 {
        ((d + 48) as u32) as char
    } else {
        ((d + 55) as u32) as char
    }
}

/// `format!("{:X}", n)`: upper-case hexadecimal without leading zeros.
pub open spec fn hex_text(n: nat) -> Seq<char>
    decreases n,
{
    if n < 16 {
        seq![hex_digit(n)]
    } else {
        hex_text(n / 16).push(hex_digit(n % 16))
    }
}

fn hex_digit_exec(d: u64) -> (c: char)
    requires
        d < 16,
    ensures
        c == hex_digit(d as nat),
{
    let b: u8 = d as u8;
    if b < 10 {
        (b + 48) as char
    } else {
        (b + 55) as char
    }
}

fn push_hex(out: &mut Vec<char>, n: u64)
    ensures
        final(out)@ == old(out)@ + hex_text(n as nat),
    decreases n,
{
    if n < 16 {
        out.push(hex_digit_exec(n));
    } else {
        push_hex(out, n / 16);
        out.push(hex_digit_exec(n % 16));
    }
}

/// A handle written as the schema writes it.
pub fn hex_upper(n: u64) -> (s: String)
    ensures
        s@ == hex_text(n as nat),
{
    let mut cs: Vec<char> = Vec::new();
    push_hex(&mut cs, n);
    assert(cs@ == hex_text(n as nat));
    string_of(&cs)
}

/// What the layer table reads from a layer record of the document.
#[derive(Debug, Clone)]
pub struct LayerRecord {
    pub name: String,
    pub frozen: bool,
    pub visible: bool,
    pub color: CadColorSpec,
    pub line_type: String,
    pub line_weight: CadLineWeightSpec,
}

#[derive(Debug, Clone)]
pub struct LayerEntryOutput {
    pub name: String,
    pub frozen: bool,
    pub visible: bool,
    pub color_index: i16,
    pub color: u32,
    pub line_type: String,
    pub line_weight: i16,
    pub display_name: String,
}

#[derive(Debug, Clone)]
pub struct LayerTableOutput {
    pub handle: String,
    pub owner_handle: String,
    pub layers: NameMap<LayerEntryOutput>,
}

/// The output entry of a layer record.
pub open spec fn layer_entry_of(e: LayerEntryOutput, r: LayerRecord) -> bool {
    &&& e.name@ == r.name@
    &&& e.frozen == r.frozen
    &&& e.visible == r.visible
    &&& e.color_index == layer_color_index(r.color)
    &&& e.color == layer_color_rgb(r.color)
    &&& e.line_type@ == r.line_type@
    &&& e.line_weight == line_weight_value(r.line_weight)
    &&& e.display_name@ == r.name@
}

/// Index of the last record named `name`, or -1.
pub open spec fn last_named(rs: Seq<LayerRecord>, name: Seq<char>) -> int
    decreases rs.len(),
{
    if rs.len() == 0 {
        -1
    } else if rs.last().name@ == name {
        rs.len() - 1
    } else {
        last_named(rs.drop_last(), name)
    }
}

pub proof fn lemma_last_named(rs: Seq<LayerRecord>, name: Seq<char>)
    ensures
        -1 <= last_named(rs, name) < rs.len(),
        last_named(rs, name) >= 0 ==> rs[last_named(rs, name)].name@ == name,
        last_named(rs, name) < 0 <==> forall|i: int| 0 <= i < rs.len() ==> #[trigger] rs[i].name@ != name,
    decreases rs.len(),
{
    if rs.len() > 0 {
        lemma_last_named(rs.drop_last(), name);
        assert forall|i: int| 0 <= i < rs.len() - 1 implies #[trigger] rs[i] == rs.drop_last()[i] by {}
    }
}

/// The output entry of one layer record.
pub fn layer_entry(r: &LayerRecord) -> (e: LayerEntryOutput)
    ensures
        layer_entry_of(e, *r),
{
    LayerEntryOutput {
        name: r.name.clone(),
        frozen: r.frozen,
        visible: r.visible,
        color_index: color_to_layer_index(&r.color),
        color: color_to_layer_rgb(&r.color),
        line_type: r.line_type.clone(),
        line_weight: line_weight_to_output(&r.line_weight),
        display_name: r.name.clone(),
    }
}

/// The layer table of the extracted JSON: one entry per layer name, the last
/// record of a name winning, under the table's handle.
pub fn convert_layers(table_handle: u64, records: &Vec<LayerRecord>) -> (t: LayerTableOutput)
    ensures
        t.layers.wf(),
        t.handle@ == hex_text(table_handle as nat),
        t.owner_handle@ == "0"@,
        forall|k: Seq<char>| #[trigger] t.layers@.contains_key(k) <==> last_named(records@, k) >= 0,
        forall|k: Seq<char>| #[trigger] t.layers@.contains_key(k) ==> layer_entry_of(t.layers@[k], records@[last_named(records@, k)]),
{
    let mut layers: NameMap<LayerEntryOutput> = NameMap::new();
    let mut i: usize = 0;
    while i < records.len()
        invariant
            i <= records.len(),
            layers.wf(),
            forall|k: Seq<char>| #[trigger] layers@.contains_key(k) <==> last_named(records@.take(i as int), k) >= 0,
            forall|k: Seq<char>| #[trigger] layers@.contains_key(k) ==> layer_entry_of(layers@[k], records@.take(i as int)[last_named(records@.take(i as int), k)]),
        decreases records.len() - i,
    {
        let r = &records[i];
        let e = layer_entry(r);
        layers.insert(r.name.clone(), e);
        proof {
            let before = records@.take(i as int);
            let after = records@.take(i + 1);
            assert(after.drop_last() == before);
            assert forall|k: Seq<char>| #[trigger] layers@.contains_key(k) implies layer_entry_of(layers@[k], after[last_named(after, k)]) by {
                if k != r.name@ {
                    lemma_last_named(before, k);
                    assert(after[last_named(before, k)] == before[last_named(before, k)]);
                }
            }
        }
        i = i + 1;
    }
    assert(records@.take(records.len() as int) == records@);
    LayerTableOutput { handle: hex_upper(table_handle), owner_handle: "0".to_owned(), layers }
}

/// Decimal digits of `n` (`format!("{}", n)` for a non-negative number).
pub open spec fn decimal_text(n: nat) -> Seq<char>
    decreases n,
{
    if n < 10 {
        seq![hex_digit(n)]
    } else {
        decimal_text(n / 10).push(hex_digit(n % 10))
    }
}

/// `format!("{}", n)` for a signed number.
pub open spec fn signed_text(n: int) -> Seq<char> {
    if n < 0 {
        seq!['-'] + decimal_text((-n) as nat)
    } else {
        decimal_text(n as nat)
    }
}

fn push_decimal(out: &mut Vec<char>, n: u64)
    ensures
        final(out)@ == old(out)@ + decimal_text(n as nat),
    decreases n,
{
    if n < 10 {
        out.push(hex_digit_exec(n));
    } else {
        push_decimal(out, n / 10);
        out.push(hex_digit_exec(n % 10));
    }
}

/// Appends the decimal text of `n` to `out`.
pub fn push_signed(out: &mut Vec<char>, n: i64)
    ensures
        final(out)@ == old(out)@ + signed_text(n as int),
{
    if n < 0 {
        out.push('-');
        let m: u64 = if n == i64::MIN {
            9223372036854775808u64
        } else {
            (-n) as u64
        };
        let ghost mid = out@;
        push_decimal(out, m);
        assert(out@ == old(out)@ + (seq!['-'] + decimal_text(m as nat)));
    } else {
        push_decimal(out, n as u64);
    }
}

/// `format!("{}", n)` for an unsigned number.
pub fn decimal_string(n: u64) -> (s: String)
    ensures
        s@ == decimal_text(n as nat),
{
    let mut cs: Vec<char> = Vec::new();
    push_decimal(&mut cs, n);
    assert(cs@ =~= decimal_text(n as nat));
    string_of(&cs)
}

} // verus!
