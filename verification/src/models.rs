//! The plain-valued part of the extracted drawing model: styles, layers,
//! blocks, layouts, statistics, and one record per entity.  Geometry
//! coordinates stay with the viewer; the library keeps what its rules read.
use vstd::prelude::*;

verus! {

/// An entity's or layer's colour.
#[derive(Debug, Clone, Copy, PartialEq, Eq, Structural)]
pub enum CadColorSpec {
    ByLayer,
    ByBlock,
    Index(u8),
    Rgb(u8, u8, u8),
}

/// An entity's or layer's line weight, in hundredths of a millimetre.
#[derive(Debug, Clone, Copy, PartialEq, Eq, Structural)]
pub enum CadLineWeightSpec {
    ByLayer,
    ByBlock,
    Default,
    Value(i16),
}

/// Where a resolved display colour came from.
#[derive(Debug, Clone, Copy, PartialEq, Eq, Structural)]
pub enum StyleSource {
    TrueColor,
    Aci,
    Layer,
    Fallback,
}

#[derive(Debug, Clone, Copy, PartialEq, Eq, Structural)]
pub struct EntityStyle {
    pub color: CadColorSpec,
    pub line_weight: CadLineWeightSpec,
}

#[derive(Debug, Clone)]
pub struct LayerInfo {
    pub name: String,
    pub visible_by_default: bool,
    pub entity_count: usize,
    pub color: CadColorSpec,
    pub line_weight: CadLineWeightSpec,
}

#[derive(Debug, Clone)]
pub struct BlockInfo {
    pub name: String,
    pub entity_count: usize,
}

#[derive(Debug, Clone)]
pub struct LayoutInfo {
    pub name: String,
    pub root_block_name: String,
    pub tab_order: i16,
    pub is_model: bool,
}

#[derive(Debug, Clone, Copy, PartialEq, Eq, Structural)]
pub struct ExtractionStats {
    pub total_entities: usize,
    pub renderable_entities: usize,
    pub ignored_entities: usize,
    pub load_duration_ms: u128,
}

/// The kind of an entity's geometry, with the block an insert or a dimension
/// refers to.
#[derive(Debug, Clone)]
pub enum GeometryKind {
    Line,
    Circle,
    Arc,
    Ellipse,
    LwPolyline,
    Spline,
    Polyline2D,
    Polyline3D,
    Solid,
    Hatch,
    Text,
    Insert { block_name: String },
    Dimension { block_name: String },
    Unsupported { reason: String },
}

/// One extracted entity without its coordinates.
#[derive(Debug, Clone)]
pub struct EntityRecord {
    pub id: usize,
    pub handle: u64,
    pub owner_handle: u64,
    pub entity_type: String,
    pub layer_name: String,
    pub block_name: Option<String>,
    pub style: EntityStyle,
    pub geometry: GeometryKind,
}

} // verus!
