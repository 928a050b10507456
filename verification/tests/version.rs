use cad_extraction::version::{
    build_roundtrip_skip_report, dxf_header_version, normalize_output_version,
    repair_version_header, scan_header_line, should_skip_roundtrip, split_text_lines,
    version_text, CadVersion, HeaderScan, ScanStep,
};

fn lines_of(text: &str) -> Vec<String> {
    text.lines().map(str::to_owned).collect()
}

#[test]
fn normalize_output_version_upgrades_legacy_and_unknown_versions() {
    assert_eq!(normalize_output_version(CadVersion::Unknown), CadVersion::AC1024);
    assert_eq!(normalize_output_version(CadVersion::AC1015), CadVersion::AC1024);
    assert_eq!(normalize_output_version(CadVersion::AC1024), CadVersion::AC1024);
    assert_eq!(normalize_output_version(CadVersion::AC1032), CadVersion::AC1032);
}

#[test]
fn sniff_dxf_header_version_detects_ac1009() {
    let lines = lines_of("0\nSECTION\n2\nHEADER\n9\n$ACADVER\n1\nAC1009\n0\nENDSEC\n0\nEOF\n");
    let version = dxf_header_version(&lines);
    assert_eq!(version, Some("AC1009".to_owned()));
    assert!(build_roundtrip_skip_report("legacy.dxf", version).is_some());
}

#[test]
fn sniff_dxf_header_version_ignores_supported_versions() {
    let lines = lines_of("0\nSECTION\n2\nHEADER\n9\n$ACADVER\n1\nAC1012\n0\nENDSEC\n0\nEOF\n");
    let version = dxf_header_version(&lines);
    assert_eq!(version, Some("AC1012".to_owned()));
    assert!(build_roundtrip_skip_report("modern.dxf", version).is_none());
}

#[test]
fn header_scan_stops_at_endsec_and_trims() {
    assert_eq!(dxf_header_version(&lines_of("0\nENDSEC\n9\n$ACADVER\n1\nAC1009\n")), None);
    assert_eq!(dxf_header_version(&lines_of("  $ACADVER \n 1\n  ac1009  \n")), Some("ac1009".to_owned()));
    // a group code other than 1 is skipped together with its value
    assert_eq!(
        dxf_header_version(&lines_of("$ACADVER\n3\nX\n$ACADVER\n1\nAC1015\n")),
        Some("AC1015".to_owned())
    );
    assert_eq!(dxf_header_version(&lines_of("$ACADVER\n1\n")), None);
    assert_eq!(dxf_header_version(&Vec::new()), None);
}

#[test]
fn header_scan_steps_one_line_at_a_time() {
    assert!(matches!(
        scan_header_line(HeaderScan::Scanning, "$ACADVER"),
        ScanStep::Continue(HeaderScan::AfterName)
    ));
    assert!(matches!(
        scan_header_line(HeaderScan::AfterName, " 1 "),
        ScanStep::Continue(HeaderScan::AfterCode(true))
    ));
    assert!(matches!(
        scan_header_line(HeaderScan::AfterCode(true), " AC1009\r"),
        ScanStep::Found(ref v) if v == "AC1009"
    ));
    assert!(matches!(scan_header_line(HeaderScan::Scanning, "ENDSEC"), ScanStep::Stop));
}

#[test]
fn legacy_skip_ignores_ascii_case() {
    assert!(should_skip_roundtrip(&Some("ac1009".to_owned())));
    assert!(!should_skip_roundtrip(&Some("AC1012".to_owned())));
    assert!(!should_skip_roundtrip(&None));
    let report = build_roundtrip_skip_report("in/a.dxf", Some("Ac1009".to_owned())).unwrap();
    assert_eq!(report.input_path, "in/a.dxf");
    assert!(report.skipped);
    assert_eq!(report.source_version.as_deref(), Some("Ac1009"));
    assert!(report.reason.starts_with("Legacy DXF AC1009/R12 input is skipped"));
}

#[test]
fn version_codes_are_header_codes() {
    assert_eq!(version_text(CadVersion::Unknown), "UNKNOWN");
    assert_eq!(version_text(CadVersion::AC1012), "AC1012");
    assert_eq!(version_text(CadVersion::AC1032), "AC1032");
}

#[test]
fn repair_replaces_the_version_value_line() {
    let text = "0\nSECTION\n2\nHEADER\n  9\n$ACADVER\n1\nUNKNOWN\n0\nENDSEC\n";
    assert_eq!(
        repair_version_header(text, "AC1012").as_deref(),
        Some("0\nSECTION\n2\nHEADER\n  9\n$ACADVER\n1\nAC1012\n0\nENDSEC")
    );
}

#[test]
fn repair_keeps_crlf_line_endings() {
    let text = "9\r\n$ACADVER\r\n1\r\nUNKNOWN\r\n0\r\n";
    assert_eq!(
        repair_version_header(text, "AC1012").as_deref(),
        Some("9\r\n$ACADVER\r\n1\r\nAC1012\r\n0")
    );
}

#[test]
fn repair_leaves_text_without_version_entry() {
    assert_eq!(repair_version_header("9\n$ACADVER\n1\n", "AC1012"), None);
    assert_eq!(repair_version_header("9\n$INSBASE\n1\nX\n", "AC1012"), None);
    assert_eq!(repair_version_header("", "AC1012"), None);
}

#[test]
fn text_lines_split_like_str_lines() {
    for text in ["a\nb", "a\r\nb\r\n", "\n\nx", "x\r", "", "\n", "a\n\n"] {
        let chars: Vec<char> = text.chars().collect();
        let split: Vec<String> = split_text_lines(&chars).into_iter().map(|l| l.into_iter().collect()).collect();
        let expected: Vec<String> = text.lines().map(str::to_owned).collect();
        assert_eq!(split, expected, "{text:?}");
    }
}
