//! The text keys that identify an entity's style in the semantic comparison,
//! and the fingerprint assembled from them.
use vstd::prelude::*;

use crate::models::{CadColorSpec, CadLineWeightSpec, EntityRecord, EntityStyle};
use crate::output::{push_signed, signed_text};
use crate::text::{chars_of, string_of};

verus! {

/// A lower-case hexadecimal digit.
pub open spec fn lower_hex(d: int) -> char {
    if d < 10 {
        (('0' as int) + d) as char
    } else {
        (('a' as int) + d - 10) as char
    }
}

/// How serde_json writes one character inside a string literal: `"` and
/// `\` escaped, the control characters below U+0020 as `\b`, `\t`, `\n`,
/// `\f`, `\r` or `\u00XX` (lower-case hex), anything else as it is.
pub open spec fn json_escaped_char(c: char) -> Seq<char> {
    if c == '"' {
        seq!['\\', '"']
    } else if c == '\\' {
        seq!['\\', '\\']
    } else if c == '\u{8}' {
        seq!['\\', 'b']
    } else if c == '\t' {
        seq!['\\', 't']
    } else if c == '\n' {
        seq!['\\', 'n']
    } else if c == '\u{c}' {
        seq!['\\', 'f']
    } else if c == '\r' {
        seq!['\\', 'r']
    } else if (c as int) < 0x20 {
        seq!['\\', 'u', '0', '0', lower_hex((c as int) / 16), lower_hex((c as int) % 16)]
    } else {
        seq![c]
    }
}

pub open spec fn json_escaped(s: Seq<char>) -> Seq<char>
    decreases s.len(),
{
    if s.len() == 0 {
        Seq::empty()
    } else {
        json_escaped(s.drop_last()) + json_escaped_char(s.last())
    }
}

/// What `serde_json::to_string` gives for a string: the escaped characters
/// between double quotes.
pub open spec fn json_literal(s: Seq<char>) -> Seq<char> {
    seq!['"'] + json_escaped(s) + seq!['"']
}

/// What `format!("{:?}", s)` gives for a string.
pub uninterp spec fn debug_literal(s: Seq<char>) -> Seq<char>;

/// `serde_json::to_string(s)`: the JSON encoding of a string, with the
/// compact formatter's escapes.  For a string the encoder's only errors are
/// those of its writer, a `Vec<u8>`, whose writes never fail, so the
/// encoding is always there.
#[verifier::external_body]
fn json_encode(s: &str) -> (r: Option<String>)
    ensures
        r is Some,
        r is Some ==> r->0@ == json_literal(s@),
{
    serde_json::to_string(s).ok()
}

/// `format!("{:?}", s)`: the Rust debug rendering of a string.
#[verifier::external_body]
fn debug_encode(s: &str) -> (r: String)
    ensures
        r@ == debug_literal(s@),
{
    format!("{s:?}")
}

/// A string as a quoted JSON literal (its debug rendering should the
/// encoder fail, which for a string it does not).
pub fn json_string(s: &str) -> (r: String)
    ensures
        r@ == json_literal(s@),
{
    match json_encode(s) {
        Some(t) => t,
        None => debug_encode(s),
    }
}

fn append_str(out: &mut Vec<char>, s: &str)
    ensures
        final(out)@ == old(out)@ + s@,
{
    let mut cs = chars_of(s);
    out.append(&mut cs);
}

pub open spec fn color_key_text(c: CadColorSpec) -> Seq<char> {
    match c {
        CadColorSpec::ByLayer => "ByLayer"@,
        CadColorSpec::ByBlock => "ByBlock"@,
        CadColorSpec::Index(i) => "Index("@ + signed_text(i as int) + ")"@,
        CadColorSpec::Rgb(r, g, b) => "Rgb("@ + signed_text(r as int) + ","@ + signed_text(g as int)
            + ","@ + signed_text(b as int) + ")"@,
    }
}

pub open spec fn line_weight_key_text(lw: CadLineWeightSpec) -> Seq<char> {
    match lw {
        CadLineWeightSpec::ByLayer => "ByLayer"@,
        CadLineWeightSpec::ByBlock => "ByBlock"@,
        CadLineWeightSpec::Default => "Default"@,
        CadLineWeightSpec::Value(v) => "Value("@ + signed_text(v as int) + ")"@,
    }
}

pub open spec fn style_key_text(s: EntityStyle) -> Seq<char> {
    "color="@ + color_key_text(s.color) + ",line_weight="@ + line_weight_key_text(s.line_weight)
}

fn push_color_key(out: &mut Vec<char>, c: CadColorSpec)
    ensures
        final(out)@ == old(out)@ + color_key_text(c),
{
    match c {
        CadColorSpec::ByLayer => append_str(out, "ByLayer"),
        CadColorSpec::ByBlock => append_str(out, "ByBlock"),
        CadColorSpec::Index(i) => {
            append_str(out, "Index(");
            push_signed(out, i as i64);
            append_str(out, ")");
            assert(out@ == old(out)@ + color_key_text(c));
        },
        CadColorSpec::Rgb(r, g, b) => {
            append_str(out, "Rgb(");
            push_signed(out, r as i64);
            append_str(out, ",");
            push_signed(out, g as i64);
            append_str(out, ",");
            push_signed(out, b as i64);
            append_str(out, ")");
            assert(out@ == old(out)@ + color_key_text(c));
        },
    }
}

fn push_line_weight_key(out: &mut Vec<char>, lw: CadLineWeightSpec)
    ensures
        final(out)@ == old(out)@ + line_weight_key_text(lw),
{
    match lw {
        CadLineWeightSpec::ByLayer => append_str(out, "ByLayer"),
        CadLineWeightSpec::ByBlock => append_str(out, "ByBlock"),
        CadLineWeightSpec::Default => append_str(out, "Default"),
        CadLineWeightSpec::Value(v) => {
            append_str(out, "Value(");
            push_signed(out, v as i64);
            append_str(out, ")");
            assert(out@ == old(out)@ + line_weight_key_text(lw));
        },
    }
}

/// The comparison key of a colour, such as `Index(3)` or `Rgb(1,2,3)`.
pub fn color_key(c: CadColorSpec) -> (r: String)
    ensures
        r@ == color_key_text(c),
{
    let mut out: Vec<char> = Vec::new();
    push_color_key(&mut out, c);
    string_of(&out)
}

/// The comparison key of a line weight, such as `Value(25)`.
pub fn line_weight_key(lw: CadLineWeightSpec) -> (r: String)
    ensures
        r@ == line_weight_key_text(lw),
{
    let mut out: Vec<char> = Vec::new();
    push_line_weight_key(&mut out, lw);
    string_of(&out)
}

/// The comparison key of a style: `color=...,line_weight=...`.
pub fn style_key(s: &EntityStyle) -> (r: String)
    ensures
        r@ == style_key_text(*s),
{
    let mut out: Vec<char> = Vec::new();
    push_style_key(&mut out, s);
    assert(out@ =~= style_key_text(*s));
    string_of(&out)
}

/// The fingerprint of an entity given its geometry key and its layer name as
/// a JSON literal.
pub open spec fn fingerprint_text(e: EntityRecord, layer_literal: Seq<char>, geometry: Seq<char>) -> Seq<char> {
    "type="@ + e.entity_type@ + "|layer="@ + layer_literal + "|style="@ + style_key_text(e.style)
        + "|geometry="@ + geometry
}

/// The fingerprint of an entity in the semantic comparison:
/// `type=...|layer=...|style=...|geometry=...`, where `geometry_key` is the
/// rounded text of the entity's geometry.
pub fn semantic_entity_fingerprint(entity: &EntityRecord, geometry_key: &str) -> (r: String)
    ensures
        r@ == fingerprint_text(*entity, json_literal(entity.layer_name@), geometry_key@),
{
    let layer = json_string(entity.layer_name.as_str());
    let mut out: Vec<char> = Vec::new();
    append_str(&mut out, "type=");
    append_str(&mut out, entity.entity_type.as_str());
    append_str(&mut out, "|layer=");
    append_str(&mut out, layer.as_str());
    append_str(&mut out, "|style=");
    push_style_key(&mut out, &entity.style);
    append_str(&mut out, "|geometry=");
    append_str(&mut out, geometry_key);
    assert(out@ == fingerprint_text(*entity, layer@, geometry_key@));
    string_of(&out)
}

fn push_style_key(out: &mut Vec<char>, s: &EntityStyle)
    ensures
        final(out)@ == old(out)@ + style_key_text(*s),
{
    append_str(out, "color=");
    push_color_key(out, s.color);
    append_str(out, ",line_weight=");
    push_line_weight_key(out, s.line_weight);
    assert(out@ == old(out)@ + style_key_text(*s));
}

} // verus!
