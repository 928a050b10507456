//! File formats the extractor reads, and its errors.
use vstd::prelude::*;

use crate::paths::{extension_of, path_extension};
use crate::text::{chars_of, chars_equal_str, lower, lower_chars};

verus! {

#[verifier::external_type_specification]
#[verifier::external_body]
pub struct ExDxfError(acadrust::DxfError);

#[verifier::external_type_specification]
#[verifier::external_body]
pub struct ExIoError(std::io::Error);

/// Why a CAD file could not be extracted.
#[derive(Debug)]
pub enum ExtractionError {
    /// The path's extension is neither `.dwg` nor `.dxf`.
    UnsupportedFormat(String),
    /// The CAD reader rejected the file.
    Parse { path: String, source: acadrust::DxfError },
    /// The file could not be opened.
    Io { path: String, source: std::io::Error },
}

/// The two CAD formats the extractor reads.
#[derive(Debug, Clone, Copy, PartialEq, Eq, Structural)]
pub enum CadFileFormat {
    Dxf,
    Dwg,
}

/// The format a path's extension names, ignoring ASCII case.
pub open spec fn format_of(p: Seq<char>) -> Option<CadFileFormat> {
    match path_extension(p) {
        Some(e) => if lower(e) == "dxf"@ {
            Some(CadFileFormat::Dxf)
        } else if lower(e) == "dwg"@ {
            Some(CadFileFormat::Dwg)
        } else {
            None
        },
        None => None,
    }
}

impl CadFileFormat {
    /// The format of a file, from its extension; any other extension, or
    /// none, is `UnsupportedFormat` with the path.
    pub fn from_path(path: &str) -> (r: Result<Self, ExtractionError>)
        ensures
            match r {
                Ok(f) => format_of(path@) == Some(f),
                Err(ExtractionError::UnsupportedFormat(p)) => format_of(path@) is None && p@ == path@,
                Err(_) => false,
            },
    {
        match extension_of(path) {
            Some(e) => {
                let ec = chars_of(e.as_str());
                let lc = lower_chars(&ec);
                if chars_equal_str(&lc, "dxf") {
                    Ok(CadFileFormat::Dxf)
                } else if chars_equal_str(&lc, "dwg") {
                    Ok(CadFileFormat::Dwg)
                } else {
                    Err(ExtractionError::UnsupportedFormat(path.to_owned()))
                }
            },
            None => Err(ExtractionError::UnsupportedFormat(path.to_owned())),
        }
    }
}

} // verus!
