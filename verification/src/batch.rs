//! The bookkeeping of the command-line runs over many input files: which
//! inputs are taken, when an error ends the run, and the totals reported.
use vstd::prelude::*;
use vstd::string::StringExecFns;

use crate::output::{decimal_string, decimal_text};

verus! {

/// What becomes of one path named on the command line.
#[derive(Debug, Clone, Copy, PartialEq, Eq, Structural)]
pub enum InputDisposition {
    /// A file with an accepted extension: it is converted.
    Take,
    /// A file with another extension: skipped with a warning.
    WrongExtension,
    /// A directory: its files are collected.
    Walk,
    /// Neither a file nor a directory: skipped with a warning.
    Missing,
}

pub fn classify_input(is_file: bool, is_dir: bool, allowed_extension: bool) -> (d: InputDisposition)
    ensures
        d == if is_file {
            if allowed_extension {
                InputDisposition::Take
            } else {
                InputDisposition::WrongExtension
            }
        } else if is_dir {
            InputDisposition::Walk
        } else {
            InputDisposition::Missing
        },
{
    if is_file {
        if allowed_extension {
            InputDisposition::Take
        } else {
            InputDisposition::WrongExtension
        }
    } else if is_dir {
        InputDisposition::Walk
    } else {
        InputDisposition::Missing
    }
}

/// What becomes of one entry of a directory being collected: files with an
/// accepted extension are taken, subdirectories are entered only when the
/// walk is recursive, anything else is passed over in silence.
pub fn classify_dir_entry(is_file: bool, is_dir: bool, allowed_extension: bool, recursive: bool) -> (d: Option<InputDisposition>)
    ensures
        d == if is_file && allowed_extension {
            Some(InputDisposition::Take)
        } else if is_dir && recursive {
            Some(InputDisposition::Walk)
        } else {
            None
        },
{
    if is_file && allowed_extension {
        Some(InputDisposition::Take)
    } else if is_dir && recursive {
        Some(InputDisposition::Walk)
    } else {
        None
    }
}

/// A conversion run over the collected input files.
#[derive(Debug, Clone, Copy, PartialEq, Eq, Structural)]
pub struct ConversionRun {
    /// More than one input: an error is reported and the run goes on.
    pub is_batch: bool,
    pub converted_files: usize,
    pub total_entities: usize,
}

/// Whether a run goes on after a file failed.
#[derive(Debug, Clone, Copy, PartialEq, Eq, Structural)]
pub enum RunStep {
    Continue,
    Stop,
}

impl ConversionRun {
    /// A run over `file_count` files; `None` when there is nothing to convert.
    pub fn begin(file_count: usize) -> (r: Option<ConversionRun>)
        ensures
            file_count == 0 <==> r is None,
            r matches Some(run) ==> run.is_batch == (file_count > 1) && run.converted_files == 0 && run.total_entities == 0,
    {
        if file_count == 0 {
            None
        } else {
            Some(ConversionRun { is_batch: file_count > 1, converted_files: 0, total_entities: 0 })
        }
    }

    /// A file was converted with `entity_count` entities.
    pub fn record_success(&mut self, entity_count: usize)
        requires
            old(self).converted_files < usize::MAX,
            old(self).total_entities + entity_count <= usize::MAX,
        ensures
            final(self).is_batch == old(self).is_batch,
            final(self).converted_files == old(self).converted_files + 1,
            final(self).total_entities == old(self).total_entities + entity_count,
    {
        self.converted_files = self.converted_files + 1;
        self.total_entities = self.total_entities + entity_count;
    }

    /// A file failed: a single-file run ends with its error, a batch goes on.
    pub fn record_failure(&self) -> (step: RunStep)
        ensures
            step == if self.is_batch {
                RunStep::Continue
            } else {
                RunStep::Stop
            },
    {
        if self.is_batch {
            RunStep::Continue
        } else {
            RunStep::Stop
        }
    }
}

/// How one file of a roundtrip check ended.
#[derive(Debug, Clone, Copy, PartialEq, Eq, Structural)]
pub enum RoundtripOutcome {
    Passed,
    Failed,
    Skipped,
}

/// The counts of a roundtrip check.
#[derive(Debug, Clone, Copy, PartialEq, Eq, Structural)]
pub struct RoundtripTally {
    pub passed: usize,
    pub failed: usize,
    pub skipped: usize,
}

pub open spec fn roundtrip_failure_message(failed: usize) -> Seq<char> {
    "roundtrip-check failed for "@ + decimal_text(failed as nat) + " file(s)"@
}

pub open spec fn roundtrip_summary_text(t: RoundtripTally, output_root: Seq<char>) -> Seq<char> {
    "Roundtrip check summary: passed="@ + decimal_text(t.passed as nat) + " failed="@ + decimal_text(
        t.failed as nat,
    ) + " skipped="@ + decimal_text(t.skipped as nat) + " output_root="@ + output_root
}

impl RoundtripTally {
    pub fn new() -> (t: RoundtripTally)
        ensures
            t.passed == 0 && t.failed == 0 && t.skipped == 0,
    {
        RoundtripTally { passed: 0, failed: 0, skipped: 0 }
    }

    /// Counts one file's outcome.
    pub fn record(&mut self, outcome: RoundtripOutcome)
        requires
            outcome == RoundtripOutcome::Passed ==> old(self).passed < usize::MAX,
            outcome == RoundtripOutcome::Failed ==> old(self).failed < usize::MAX,
            outcome == RoundtripOutcome::Skipped ==> old(self).skipped < usize::MAX,
        ensures
            final(self).passed == old(self).passed + if outcome == RoundtripOutcome::Passed {
                1int
            } else {
                0int
            },
            final(self).failed == old(self).failed + if outcome == RoundtripOutcome::Failed {
                1int
            } else {
                0int
            },
            final(self).skipped == old(self).skipped + if outcome == RoundtripOutcome::Skipped {
                1int
            } else {
                0int
            },
    {
        match outcome {
            RoundtripOutcome::Passed => self.passed = self.passed + 1,
            RoundtripOutcome::Failed => self.failed = self.failed + 1,
            RoundtripOutcome::Skipped => self.skipped = self.skipped + 1,
        }
    }

    /// The summary line printed at the end of the check.
    pub fn summary_line(&self, output_root: &str) -> (s: String)
        ensures
            s@ == roundtrip_summary_text(*self, output_root@),
    {
        let mut s = "Roundtrip check summary: passed=".to_owned();
        let passed = decimal_string(self.passed as u64);
        s.append(passed.as_str());
        s.append(" failed=");
        let failed = decimal_string(self.failed as u64);
        s.append(failed.as_str());
        s.append(" skipped=");
        let skipped = decimal_string(self.skipped as u64);
        s.append(skipped.as_str());
        s.append(" output_root=");
        s.append(output_root);
        s
    }

    /// The check fails when any file failed; skipped files do not count.
    pub fn finish(&self) -> (r: Result<(), String>)
        ensures
            self.failed == 0 <==> r is Ok,
            r matches Err(m) ==> m@ == roundtrip_failure_message(self.failed),
    {
        if self.failed > 0 {
            let mut m = "roundtrip-check failed for ".to_owned();
            let n = decimal_string(self.failed as u64);
            m.append(n.as_str());
            m.append(" file(s)");
            Err(m)
        } else {
            Ok(())
        }
    }
}

} // verus!
