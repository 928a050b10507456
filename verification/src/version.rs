//! DXF/DWG format versions: their header codes, which versions the DWG
//! writer accepts, the legacy-version rule of the roundtrip check, and the
//! scan for `$ACADVER` in a DXF header.
use vstd::prelude::*;

use crate::text::{chars_equal_str, chars_of, eq_ignore_case, same_chars_ignore_case, string_of, trim, trim_chars};

verus! {

/// The format versions of a CAD document (`acadrust::DxfVersion`).
#[derive(Debug, Clone, Copy, PartialEq, Eq, Structural)]
pub enum CadVersion {
    Unknown,
    AC1012,
    AC1014,
    AC1015,
    AC1018,
    AC1021,
    AC1024,
    AC1027,
    AC1032,
}

/// The header code of a version (`DxfVersion::as_str`).
pub open spec fn version_code(v: CadVersion) -> Seq<char> {
    match v {
        CadVersion::Unknown => "UNKNOWN"@,
        CadVersion::AC1012 => "AC1012"@,
        CadVersion::AC1014 => "AC1014"@,
        CadVersion::AC1015 => "AC1015"@,
        CadVersion::AC1018 => "AC1018"@,
        CadVersion::AC1021 => "AC1021"@,
        CadVersion::AC1024 => "AC1024"@,
        CadVersion::AC1027 => "AC1027"@,
        CadVersion::AC1032 => "AC1032"@,
    }
}

pub fn version_text(v: CadVersion) -> (s: &'static str)
    ensures
        s@ == version_code(v),
{
    match v {
        CadVersion::Unknown => "UNKNOWN",
        CadVersion::AC1012 => "AC1012",
        CadVersion::AC1014 => "AC1014",
        CadVersion::AC1015 => "AC1015",
        CadVersion::AC1018 => "AC1018",
        CadVersion::AC1021 => "AC1021",
        CadVersion::AC1024 => "AC1024",
        CadVersion::AC1027 => "AC1027",
        CadVersion::AC1032 => "AC1032",
    }
}

/// Versions the DWG writer is given unchanged.
pub open spec fn dwg_safe(v: CadVersion) -> bool {
    v == CadVersion::AC1024 || v == CadVersion::AC1027 || v == CadVersion::AC1032
}

/// `json2cad` writes DWG only in a modern version: AC1024 and later stay,
/// any other version (legacy or unknown) becomes AC1024.
pub fn normalize_output_version(version: CadVersion) -> (r: CadVersion)
    ensures
        r == if dwg_safe(version) {
            version
        } else {
            CadVersion::AC1024
        },
{
    match version {
        CadVersion::AC1024 | CadVersion::AC1027 | CadVersion::AC1032 => version,
        _ => CadVersion::AC1024,
    }
}

/// Normalizing twice is normalizing once, and the result is always a version
/// the DWG writer accepts.
pub proof fn law_normalize_output_version(v: CadVersion)
    ensures
        dwg_safe(if dwg_safe(v) {
            v
        } else {
            CadVersion::AC1024
        }),
        ({
            let once = if dwg_safe(v) {
                v
            } else {
                CadVersion::AC1024
            };
            (if dwg_safe(once) {
                once
            } else {
                CadVersion::AC1024
            }) == once
        }),
{
}

/// The legacy R12 header code whose DXF files the roundtrip check skips.
pub open spec fn is_legacy_r12(code: Seq<char>) -> bool {
    eq_ignore_case(code, "AC1009"@)
}

/// Whether the roundtrip check skips an input whose DXF header names
/// `source_version`: only AC1009 (any ASCII case) is skipped.
pub fn should_skip_roundtrip(source_version: &Option<String>) -> (r: bool)
    ensures
        r == match source_version {
            Some(v) => is_legacy_r12(v@),
            None => false,
        },
{
    match source_version {
        Some(v) => {
            let vc = chars_of(v.as_str());
            let legacy = chars_of("AC1009");
            same_chars_ignore_case(&vc, &legacy)
        },
        None => false,
    }
}

/// The report the roundtrip check writes for a skipped input.
#[derive(Debug, Clone)]
pub struct RoundtripSkipReport {
    pub input_path: String,
    pub skipped: bool,
    pub source_version: Option<String>,
    pub reason: String,
}

pub open spec fn skip_reason() -> Seq<char> {
    "Legacy DXF AC1009/R12 input is skipped during roundtrip-check because the current json2cad DXF writer path collapses entities for this format. cad2json and semantic extraction remain available, but semantic roundtrip validation is not reliable for this source version."@
}

/// The skip report for an input whose header names `source_version`, when
/// the input is skipped.
pub fn build_roundtrip_skip_report(input_path: &str, source_version: Option<String>) -> (r: Option<
    RoundtripSkipReport,
>)
    ensures
        match r {
            Some(report) => {
                &&& (match source_version {
                    Some(v) => is_legacy_r12(v@),
                    None => false,
                })
                &&& report.input_path@ == input_path@
                &&& report.skipped
                &&& report.source_version == source_version
                &&& report.reason@ == skip_reason()
            },
            None => !(match source_version {
                Some(v) => is_legacy_r12(v@),
                None => false,
            }),
        },
{
    if !should_skip_roundtrip(&source_version) {
        return None;
    }
    Some(
        RoundtripSkipReport {
            input_path: input_path.to_owned(),
            skipped: true,
            source_version,
            reason: "Legacy DXF AC1009/R12 input is skipped during roundtrip-check because the current json2cad DXF writer path collapses entities for this format. cad2json and semantic extraction remain available, but semantic roundtrip validation is not reliable for this source version.".to_owned(),
        },
    )
}

/// The `$ACADVER` value of a DXF header read line by line: after a line
/// `$ACADVER`, a group-code line `1` is followed by the value.  The scan stops
/// at the first `ENDSEC` line or when the input ends.  Lines are compared
/// after trimming white space.
pub open spec fn header_version(ls: Seq<Seq<char>>) -> Option<Seq<char>>
    decreases ls.len(),
{
    if ls.len() == 0 {
        None
    } else if trim(ls[0]) == "ENDSEC"@ {
        None
    } else if trim(ls[0]) != "$ACADVER"@ {
        header_version(ls.drop_first())
    } else if ls.len() < 3 {
        None
    } else if trim(ls[1]) == "1"@ {
        Some(trim(ls[2]))
    } else {
        header_version(ls.skip(3))
    }
}

/// Where a line-by-line scan of a DXF header stands.
#[derive(Debug, Clone, Copy, PartialEq, Eq, Structural)]
pub enum HeaderScan {
    /// Looking for `$ACADVER`.
    Scanning,
    /// `$ACADVER` was read; the group-code line comes next.
    AfterName,
    /// The group-code line was read (whether it was `1`); the value comes next.
    AfterCode(bool),
}

/// What the scan does after a line.
#[derive(Debug, Clone)]
pub enum ScanStep {
    /// Read the next line in this state.
    Continue(HeaderScan),
    /// The version was found.
    Found(String),
    /// The header ended without a version.
    Stop,
}

/// The outcome of scanning the rest of the input `ls` from `state`.
pub open spec fn scan_rest(state: HeaderScan, ls: Seq<Seq<char>>) -> Option<Seq<char>> {
    match state {
        HeaderScan::Scanning => header_version(ls),
        HeaderScan::AfterName => if ls.len() < 2 {
            None
        } else if trim(ls[0]) == "1"@ {
            Some(trim(ls[1]))
        } else {
            header_version(ls.skip(2))
        },
        HeaderScan::AfterCode(one) => if ls.len() < 1 {
            None
        } else if one {
            Some(trim(ls[0]))
        } else {
            header_version(ls.skip(1))
        },
    }
}

/// What a step leads to, given the lines after it.
pub open spec fn step_outcome(step: ScanStep, rest: Seq<Seq<char>>) -> Option<Seq<char>> {
    match step {
        ScanStep::Continue(next) => scan_rest(next, rest),
        ScanStep::Found(v) => Some(v@),
        ScanStep::Stop => None,
    }
}

/// One step of the header scan: the state after `line`, or the result.
pub fn scan_header_line(state: HeaderScan, line: &str) -> (step: ScanStep)
    ensures
        forall|rest: Seq<Seq<char>>| #[trigger] step_outcome(step, rest) == scan_rest(state, seq![line@] + rest),
{
    let raw = chars_of(line);
    let t = trim_chars(&raw);
    let step = match state {
        HeaderScan::Scanning => {
            if chars_equal_str(&t, "ENDSEC") {
                ScanStep::Stop
            } else if !chars_equal_str(&t, "$ACADVER") {
                ScanStep::Continue(HeaderScan::Scanning)
            } else {
                ScanStep::Continue(HeaderScan::AfterName)
            }
        },
        HeaderScan::AfterName => ScanStep::Continue(HeaderScan::AfterCode(chars_equal_str(&t, "1"))),
        HeaderScan::AfterCode(one) => {
            if one {
                ScanStep::Found(string_of(&t))
            } else {
                ScanStep::Continue(HeaderScan::Scanning)
            }
        },
    };
    proof {
        assert forall|rest: Seq<Seq<char>>| #[trigger] step_outcome(step, rest) == scan_rest(state, seq![line@] + rest) by {
            let ls = seq![line@] + rest;
            assert(ls[0] == line@);
            assert(ls.drop_first() =~= rest);
            if ls.len() >= 2 {
                assert(ls[1] == rest[0]);
            }
            if ls.len() >= 3 {
                assert(ls[2] == rest[1]);
                assert(ls.skip(3) =~= rest.skip(2));
            }
            if ls.len() >= 2 {
                assert(ls.skip(2) =~= rest.skip(1));
            }
            assert(ls.skip(1) =~= rest);
        }
    }
    step
}

/// The `$ACADVER` value of a DXF file's lines, found by running the scan.
pub fn dxf_header_version(lines: &Vec<String>) -> (r: Option<String>)
    ensures
        match r {
            Some(v) => header_version(lines@.map_values(|l: String| l@)) == Some(v@),
            None => header_version(lines@.map_values(|l: String| l@)) is None,
        },
{
    let ghost all = lines@.map_values(|l: String| l@);
    let mut state = HeaderScan::Scanning;
    let mut i: usize = 0;
    assert(all.skip(0) =~= all);
    while i < lines.len()
        invariant
            i <= lines.len(),
            all == lines@.map_values(|l: String| l@),
            scan_rest(state, all.skip(i as int)) == header_version(all),
        decreases lines.len() - i,
    {
        let step = scan_header_line(state, lines[i].as_str());
        proof {
            let rest = all.skip(i + 1);
            assert(seq![lines@[i as int]@] + rest =~= all.skip(i as int));
            assert(step_outcome(step, rest) == scan_rest(state, seq![lines@[i as int]@] + rest));
        }
        match step {
            ScanStep::Continue(next) => {
                state = next;
            },
            ScanStep::Found(v) => {
                return Some(v);
            },
            ScanStep::Stop => {
                return None;
            },
        }
        i = i + 1;
    }
    proof {
        assert(all.skip(lines.len() as int).len() == 0);
    }
    None
}

/// The index of the first line feed at or after `j`, or the length.
pub open spec fn newline_from(s: Seq<char>, j: int) -> int
    decreases s.len() - j,
{
    if j >= s.len() {
        s.len() as int
    } else if s[j] == '\n' {
        j
    } else {
        newline_from(s, j + 1)
    }
}

pub proof fn lemma_newline_from(s: Seq<char>, j: int)
    requires
        0 <= j <= s.len(),
    ensures
        j <= newline_from(s, j) <= s.len(),
        newline_from(s, j) < s.len() ==> s[newline_from(s, j)] == '\n',
    decreases s.len() - j,
{
    if j < s.len() && s[j] != '\n' {
        lemma_newline_from(s, j + 1);
    }
}

/// The lines of `s` from index `i` on, as `str::lines` gives them: split at
/// each line feed, with a carriage return before it dropped; a final line
/// feed ends the last line and starts no new one.
pub open spec fn text_lines_from(s: Seq<char>, i: int) -> Seq<Seq<char>>
    decreases s.len() - i,
{
    if i < 0 || i >= s.len() {
        Seq::empty()
    } else {
        let k = newline_from(s, i);
        let piece = s.subrange(i, k);
        let line = if k < s.len() && piece.len() > 0 && piece.last() == '\r' {
            piece.drop_last()
        } else {
            piece
        };
        proof {
            lemma_newline_from(s, i);
        }
        seq![line] + if k < s.len() {
            text_lines_from(s, k + 1)
        } else {
            Seq::empty()
        }
    }
}

pub open spec fn text_lines(s: Seq<char>) -> Seq<Seq<char>> {
    text_lines_from(s, 0)
}

/// Lines joined with `sep` between them.
pub open spec fn joined(ls: Seq<Seq<char>>, sep: Seq<char>) -> Seq<char>
    decreases ls.len(),
{
    if ls.len() == 0 {
        Seq::empty()
    } else if ls.len() == 1 {
        ls[0]
    } else {
        joined(ls.drop_last(), sep) + sep + ls.last()
    }
}

/// Whether `s` holds a carriage return followed by a line feed.
pub open spec fn has_crlf(s: Seq<char>) -> bool {
    exists|i: int| 0 <= i && i + 1 < s.len() && s[i] == '\r' && #[trigger] s[i + 1] == '\n'
}

/// Lines `i .. i + 3` are the group code `9`, the name `$ACADVER` and the
/// group code `1`, and a value line follows them.
pub open spec fn is_version_slot(ls: Seq<Seq<char>>, i: int) -> bool {
    &&& 0 <= i
    &&& i + 3 < ls.len()
    &&& trim(ls[i]) == "9"@
    &&& trim(ls[i + 1]) == "$ACADVER"@
    &&& trim(ls[i + 2]) == "1"@
}

/// The first version slot at or after `i`.
pub open spec fn version_slot_from(ls: Seq<Seq<char>>, i: int) -> Option<int>
    decreases ls.len() - i,
{
    if i < 0 || i + 3 >= ls.len() {
        None
    } else if is_version_slot(ls, i) {
        Some(i)
    } else {
        version_slot_from(ls, i + 1)
    }
}

/// The DXF text with the value line of its first `$ACADVER` entry replaced
/// by `version`, its lines joined with CRLF when the text has one and LF
/// otherwise; `None` when the text has no such entry and is left alone.
pub open spec fn repaired_header(contents: Seq<char>, version: Seq<char>) -> Option<Seq<char>> {
    let ls = text_lines(contents);
    let sep = if has_crlf(contents) {
        "\r\n"@
    } else {
        "\n"@
    };
    match version_slot_from(ls, 0) {
        Some(i) => Some(joined(ls.update(i + 3, version), sep)),
        None => None,
    }
}

pub open spec fn lines_view(v: Seq<Vec<char>>) -> Seq<Seq<char>> {
    v.map_values(|l: Vec<char>| l@)
}

/// The first line feed at or after `j`, or the length.
fn find_newline(cs: &Vec<char>, j: usize) -> (k: usize)
    requires
        j <= cs.len(),
    ensures
        k == newline_from(cs@, j as int),
{
    let mut k = j;
    while k < cs.len() && cs[k] != '\n'
        invariant
            j <= k <= cs.len(),
            newline_from(cs@, j as int) == newline_from(cs@, k as int),
        decreases cs.len() - k,
    {
        k = k + 1;
    }
    k
}

/// The lines of a text, as `str::lines` splits it.
pub fn split_text_lines(cs: &Vec<char>) -> (out: Vec<Vec<char>>)
    ensures
        lines_view(out@) == text_lines(cs@),
{
    let ghost s = cs@;
    let n = cs.len();
    let mut out: Vec<Vec<char>> = Vec::new();
    let mut i: usize = 0;
    while i < n
        invariant
            s == cs@,
            n == cs.len(),
            i <= n,
            lines_view(out@) + text_lines_from(s, i as int) == text_lines(s),
        decreases n - i,
    {
        let k = find_newline(cs, i);
        proof {
            lemma_newline_from(s, i as int);
        }
        let mut end = k;
        if k < n && k > i && cs[k - 1] == '\r' {
            end = k - 1;
        }
        let mut line: Vec<char> = Vec::new();
        let mut p = i;
        while p < end
            invariant
                s == cs@,
                i <= p <= end <= k <= n == cs.len(),
                line@ == s.subrange(i as int, p as int),
            decreases end - p,
        {
            line.push(cs[p]);
            assert(s.subrange(i as int, p + 1) == s.subrange(i as int, p as int).push(s[p as int]));
            p = p + 1;
        }
        proof {
            let piece = s.subrange(i as int, k as int);
            let l = if k < s.len() && piece.len() > 0 && piece.last() == '\r' {
                piece.drop_last()
            } else {
                piece
            };
            let rest = if k < s.len() {
                text_lines_from(s, k + 1)
            } else {
                Seq::empty()
            };
            assert(line@ =~= l);
            assert(text_lines_from(s, i as int) == seq![l] + rest);
            assert(lines_view(out@.push(line)) =~= lines_view(out@).push(line@));
            assert(lines_view(out@).push(line@) + rest =~= lines_view(out@) + (seq![l] + rest));
        }
        out.push(line);
        if k == n {
            i = n;
        } else {
            i = k + 1;
        }
    }
    assert(lines_view(out@) + text_lines_from(s, i as int) =~= lines_view(out@));
    out
}

fn has_crlf_chars(cs: &Vec<char>) -> (r: bool)
    ensures
        r == has_crlf(cs@),
{
    let mut i: usize = 0;
    while cs.len() > 0 && i < cs.len() - 1
        invariant
            forall|k: int| 0 <= k < i && k + 1 < cs@.len() ==> !(cs@[k] == '\r' && #[trigger] cs@[k + 1] == '\n'),
        decreases cs.len() - i,
    {
        if cs[i] == '\r' && cs[i + 1] == '\n' {
            return true;
        }
        i = i + 1;
    }
    false
}

fn trimmed_is(line: &Vec<char>, lit: &str) -> (r: bool)
    ensures
        r == (trim(line@) == lit@),
{
    let t = trim_chars(line);
    chars_equal_str(&t, lit)
}

fn push_all(out: &mut Vec<char>, s: &Vec<char>)
    ensures
        final(out)@ == old(out)@ + s@,
{
    let mut k: usize = 0;
    while k < s.len()
        invariant
            k <= s.len(),
            out@ == old(out)@ + s@.take(k as int),
        decreases s.len() - k,
    {
        out.push(s[k]);
        assert(s@.take(k + 1) == s@.take(k as int).push(s@[k as int]));
        k = k + 1;
    }
    assert(s@.take(s.len() as int) == s@);
}

/// Lines joined with a separator.
fn join_lines(ls: &Vec<Vec<char>>, sep: &Vec<char>) -> (out: Vec<char>)
    ensures
        out@ == joined(lines_view(ls@), sep@),
{
    let ghost v = lines_view(ls@);
    let mut out: Vec<char> = Vec::new();
    let mut k: usize = 0;
    while k < ls.len()
        invariant
            k <= ls.len(),
            v == lines_view(ls@),
            out@ == joined(v.take(k as int), sep@),
        decreases ls.len() - k,
    {
        proof {
            let t = v.take(k + 1);
            assert(t.drop_last() =~= v.take(k as int));
            assert(t.last() == ls@[k as int]@);
            if k == 0 {
                assert(joined(v.take(0), sep@) =~= Seq::<char>::empty());
            }
        }
        if k > 0 {
            push_all(&mut out, sep);
        }
        push_all(&mut out, &ls[k]);
        proof {
            if k == 0 {
                assert(out@ =~= joined(v.take(1), sep@));
            }
        }
        k = k + 1;
    }
    assert(v.take(ls.len() as int) =~= v);
    out
}

/// Rewrites the version in a DXF text's header (the value line after `9`,
/// `$ACADVER`, `1`), keeping its line endings; `None` when the text has no
/// such entry.
pub fn repair_version_header(contents: &str, version: &str) -> (r: Option<String>)
    ensures
        match r {
            Some(t) => repaired_header(contents@, version@) == Some(t@),
            None => repaired_header(contents@, version@) is None,
        },
{
    let cs = chars_of(contents);
    let crlf = has_crlf_chars(&cs);
    let mut lines = split_text_lines(&cs);
    let ghost ls = lines_view(lines@);
    let n = lines.len();
    if n < 4 {
        assert(version_slot_from(ls, 0) is None);
        return None;
    }
    let mut i: usize = 0;
    while i + 3 < n
        invariant
            n == lines.len(),
            ls == lines_view(lines@),
            n >= 4,
            i + 3 <= n,
            crlf == has_crlf(contents@),
            ls == text_lines(contents@),
            version_slot_from(ls, 0) == version_slot_from(ls, i as int),
        decreases n - i,
    {
        assert(ls[i as int] == lines@[i as int]@);
        assert(ls[i + 1] == lines@[i + 1]@);
        assert(ls[i + 2] == lines@[i + 2]@);
        if trimmed_is(&lines[i], "9") && trimmed_is(&lines[i + 1], "$ACADVER") && trimmed_is(&lines[i + 2], "1") {
            assert(is_version_slot(ls, i as int));
            let v = chars_of(version);
            lines.set(i + 3, v);
            assert(lines_view(lines@) =~= ls.update(i + 3, version@));
            let sep = if crlf {
                chars_of("\r\n")
            } else {
                chars_of("\n")
            };
            let joined_chars = join_lines(&lines, &sep);
            return Some(string_of(&joined_chars));
        }
        i = i + 1;
    }
    None
}

} // verus!
