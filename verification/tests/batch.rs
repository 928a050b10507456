use cad_extraction::batch::{
    classify_dir_entry, classify_input, ConversionRun, InputDisposition, RoundtripOutcome,
    RoundtripTally, RunStep,
};

#[test]
fn inputs_are_taken_walked_or_skipped() {
    assert_eq!(classify_input(true, false, true), InputDisposition::Take);
    assert_eq!(classify_input(true, false, false), InputDisposition::WrongExtension);
    assert_eq!(classify_input(false, true, false), InputDisposition::Walk);
    assert_eq!(classify_input(false, false, false), InputDisposition::Missing);
    assert_eq!(classify_dir_entry(true, false, true, false), Some(InputDisposition::Take));
    assert_eq!(classify_dir_entry(false, true, false, true), Some(InputDisposition::Walk));
    assert_eq!(classify_dir_entry(false, true, false, false), None);
    assert_eq!(classify_dir_entry(true, false, false, true), None);
}

#[test]
fn a_single_file_run_stops_on_error_and_a_batch_goes_on() {
    assert!(ConversionRun::begin(0).is_none());
    let single = ConversionRun::begin(1).unwrap();
    assert!(!single.is_batch);
    assert_eq!(single.record_failure(), RunStep::Stop);
    let mut batch = ConversionRun::begin(3).unwrap();
    assert_eq!(batch.record_failure(), RunStep::Continue);
    batch.record_success(10);
    batch.record_success(5);
    assert_eq!(batch.converted_files, 2);
    assert_eq!(batch.total_entities, 15);
}

#[test]
fn roundtrip_check_fails_when_a_file_fails() {
    let mut tally = RoundtripTally::new();
    tally.record(RoundtripOutcome::Passed);
    tally.record(RoundtripOutcome::Skipped);
    assert!(tally.finish().is_ok());
    assert_eq!(
        tally.summary_line("test_outputs"),
        "Roundtrip check summary: passed=1 failed=0 skipped=1 output_root=test_outputs"
    );
    tally.record(RoundtripOutcome::Failed);
    tally.record(RoundtripOutcome::Failed);
    assert_eq!(tally.finish().unwrap_err(), "roundtrip-check failed for 2 file(s)");
}
