use cad_extraction::paths::{
    extension_of, file_stem_of, file_stem_or_default, has_allowed_extension, json_file_name_for,
    resolve_cad_output_base, resolve_json_output_path, strip_known_extension, with_extension,
};
use cad_extraction::reader::{CadFileFormat, ExtractionError};

#[test]
fn strip_known_extension_removes_roundtrip_related_suffixes() {
    assert_eq!(strip_known_extension("/tmp/example.json"), "/tmp/example");
    assert_eq!(strip_known_extension("/tmp/example.dwg"), "/tmp/example");
    assert_eq!(strip_known_extension("/tmp/example.custom"), "/tmp/example.custom");
}

#[test]
fn strip_known_extension_ignores_case() {
    assert_eq!(strip_known_extension("plan.DXF"), "plan");
    assert_eq!(strip_known_extension("plan"), "plan");
}

#[test]
fn extensions_and_stems_follow_the_file_name() {
    assert_eq!(extension_of("dir.v2/plan.dxf").as_deref(), Some("dxf"));
    assert_eq!(extension_of("dir.v2/plan").as_deref(), None);
    assert_eq!(extension_of(".hidden").as_deref(), None);
    assert_eq!(extension_of("archive.tar.gz").as_deref(), Some("gz"));
    assert_eq!(file_stem_of("dir/archive.tar.gz").as_deref(), Some("archive.tar"));
    assert_eq!(file_stem_of(".hidden").as_deref(), Some(".hidden"));
    assert_eq!(file_stem_or_default("/"), "output");
    assert_eq!(file_stem_or_default("a/b.dwg"), "b");
}

#[test]
fn allowed_extensions_ignore_case() {
    assert!(has_allowed_extension("A.DXF", &vec!["dxf", "dwg"]));
    assert!(has_allowed_extension("b.dwg", &vec!["dxf", "dwg"]));
    assert!(!has_allowed_extension("c.json", &vec!["dxf", "dwg"]));
    assert!(!has_allowed_extension("noext", &vec!["dxf"]));
}

#[test]
fn json_file_names() {
    assert_eq!(json_file_name_for("in/plan.dxf"), "plan.json");
    assert_eq!(json_file_name_for("in/plan"), "plan.json");
    assert_eq!(json_file_name_for("/"), "output.json");
    assert_eq!(with_extension("out/a.dxf", "dwg"), "out/a.dwg");
}

#[test]
fn json_output_locations() {
    assert_eq!(resolve_json_output_path("in/a.dxf", None, false, false), "output/a.json");
    assert_eq!(resolve_json_output_path("in/a.dxf", Some("res"), true, false), "res/a.json");
    assert_eq!(resolve_json_output_path("in/a.dxf", Some("res/x.txt"), false, false), "res/x.json");
    assert_eq!(resolve_json_output_path("in/a.dxf", Some("res"), false, true), "res/a.json");
    assert_eq!(resolve_json_output_path("in/a.dxf", None, false, true), "output/a.json");
}

#[test]
fn cad_output_locations() {
    assert_eq!(resolve_cad_output_base("in/a.json", None, false, false), "output/a");
    assert_eq!(resolve_cad_output_base("in/a.json", Some("res"), true, false), "res/a");
    assert_eq!(resolve_cad_output_base("in/a.json", Some("res/b.dxf"), false, false), "res/b");
    assert_eq!(resolve_cad_output_base("in/a.json", Some("res/b.txt"), false, false), "res/b.txt");
    assert_eq!(resolve_cad_output_base("in/a.json", Some("res"), false, true), "res/a");
}

#[test]
fn cad_formats_come_from_the_extension() {
    assert_eq!(CadFileFormat::from_path("a/plan.DXF").unwrap(), CadFileFormat::Dxf);
    assert_eq!(CadFileFormat::from_path("plan.dwg").unwrap(), CadFileFormat::Dwg);
    match CadFileFormat::from_path("notes.txt") {
        Err(ExtractionError::UnsupportedFormat(p)) => assert_eq!(p, "notes.txt"),
        other => panic!("expected an unsupported format, got {other:?}"),
    }
    assert!(matches!(CadFileFormat::from_path("plan"), Err(ExtractionError::UnsupportedFormat(_))));
}
