//! Path rules of the command-line tool: extensions, output file names and
//! output locations.  The final component of a path and the joining and
//! re-extending of paths are `std::path`'s; the rest is stated here.
use vstd::prelude::*;

use crate::text::{chars_of, eq_ignore_case, lower, lower_chars, same_chars_ignore_case, string_from};

verus! {

/// What `Path::file_name` gives for a path.
pub uninterp spec fn path_file_name(p: Seq<char>) -> Option<Seq<char>>;

/// What `PathBuf::set_extension(e)` makes of a path.
pub uninterp spec fn path_with_extension(p: Seq<char>, e: Seq<char>) -> Seq<char>;

/// What `Path::join(name)` makes of a path.
pub uninterp spec fn path_joined(p: Seq<char>, name: Seq<char>) -> Seq<char>;

/// `Path::new(p).file_name()`: the final component of `p`, if it has one.
#[verifier::external_body]
fn file_name_of(p: &str) -> (r: Option<String>)
    ensures
        match r {
            Some(n) => path_file_name(p@) == Some(n@),
            None => path_file_name(p@) is None,
        },
{
    std::path::Path::new(p).file_name().map(|n| n.to_string_lossy().into_owned())
}

/// No character of `e` separates path components (`/`, and `\\` where
/// that is a separator too).
pub open spec fn no_separator(e: Seq<char>) -> bool {
    forall|i: int| 0 <= i < e.len() ==> e[i] != '/' && e[i] != '\\'
}

/// `PathBuf::set_extension`: `p` with its extension replaced by `e`, or
/// removed when `e` is empty; a path without a file name is left as it is.
/// It panics on an extension holding a path separator, which `requires`
/// leaves out.
#[verifier::external_body]
fn set_extension_of(p: &str, e: &str) -> (r: String)
    requires
        no_separator(e@),
    ensures
        r@ == path_with_extension(p@, e@),
        path_file_name(p@) is None ==> r@ == p@,
{
    let mut buf = std::path::PathBuf::from(p);
    buf.set_extension(e);
    buf.to_string_lossy().into_owned()
}

/// `Path::join`: `name` appended to `p` as a further component.
#[verifier::external_body]
fn join_path(p: &str, name: &str) -> (r: String)
    ensures
        r@ == path_joined(p@, name@),
{
    std::path::Path::new(p).join(name).to_string_lossy().into_owned()
}

/// Index of the last `.` in `s`, or -1.
pub open spec fn last_dot(s: Seq<char>) -> int
    decreases s.len(),
{
    if s.len() == 0 {
        -1
    } else if s.last() == '.' {
        s.len() - 1
    } else {
        last_dot(s.drop_last())
    }
}

pub proof fn lemma_last_dot(s: Seq<char>)
    ensures
        -1 <= last_dot(s) < s.len(),
        last_dot(s) >= 0 ==> s[last_dot(s)] == '.',
        forall|i: int| last_dot(s) < i < s.len() ==> #[trigger] s[i] != '.',
    decreases s.len(),
{
    if s.len() > 0 {
        lemma_last_dot(s.drop_last());
        assert forall|i: int| last_dot(s) < i < s.len() implies #[trigger] s[i] != '.' by {
            if i < s.len() - 1 {
                assert(s[i] == s.drop_last()[i]);
            }
        }
    }
}

/// `Path::extension` of a file name: what follows its last `.`, unless the
/// only `.` is the first character or there is none.
pub open spec fn name_extension(name: Seq<char>) -> Option<Seq<char>> {
    if last_dot(name) <= 0 {
        None
    } else {
        Some(name.skip(last_dot(name) + 1))
    }
}

/// `Path::file_stem` of a file name: what precedes its last `.`, or the
/// whole name when `name_extension` is `None`.
pub open spec fn name_stem(name: Seq<char>) -> Seq<char> {
    if last_dot(name) <= 0 {
        name
    } else {
        name.take(last_dot(name))
    }
}

/// `Path::extension`.
pub open spec fn path_extension(p: Seq<char>) -> Option<Seq<char>> {
    match path_file_name(p) {
        Some(n) => name_extension(n),
        None => None,
    }
}

/// `Path::file_stem`.
pub open spec fn path_file_stem(p: Seq<char>) -> Option<Seq<char>> {
    match path_file_name(p) {
        Some(n) => Some(name_stem(n)),
        None => None,
    }
}

fn last_dot_exec(cs: &Vec<char>) -> (r: Option<usize>)
    ensures
        match r {
            Some(i) => i == last_dot(cs@),
            None => last_dot(cs@) == -1,
        },
{
    let mut i = cs.len();
    assert(cs@.take(i as int) == cs@);
    while i > 0
        invariant
            i <= cs.len(),
            last_dot(cs@) == last_dot(cs@.take(i as int)),
        decreases i,
    {
        assert(cs@.take(i as int).drop_last() == cs@.take(i - 1));
        if cs[i - 1] == '.' {
            return Some(i - 1);
        }
        i = i - 1;
    }
    None
}

/// The extension of a path's file name.
pub fn extension_of(p: &str) -> (r: Option<String>)
    ensures
        match r {
            Some(e) => path_extension(p@) == Some(e@),
            None => path_extension(p@) is None,
        },
{
    match file_name_of(p) {
        None => None,
        Some(name) => {
            let cs = chars_of(name.as_str());
            proof {
                lemma_last_dot(cs@);
            }
            match last_dot_exec(&cs) {
                Some(d) => {
                    if d == 0 {
                        None
                    } else {
                        Some(string_from(&cs, d + 1, cs.len()))
                    }
                },
                None => None,
            }
        },
    }
}

/// The stem of a path's file name.
pub fn file_stem_of(p: &str) -> (r: Option<String>)
    ensures
        match r {
            Some(e) => path_file_stem(p@) == Some(e@),
            None => path_file_stem(p@) is None,
        },
{
    match file_name_of(p) {
        None => None,
        Some(name) => {
            let cs = chars_of(name.as_str());
            match last_dot_exec(&cs) {
                Some(d) => {
                    if d == 0 {
                        Some(name)
                    } else {
                        proof {
                            lemma_last_dot(cs@);
                        }
                        let stem = string_from(&cs, 0, d);
                        assert(cs@.subrange(0, d as int) == cs@.take(d as int));
                        Some(stem)
                    }
                },
                None => Some(name),
            }
        },
    }
}

/// Whether the path's extension, ignoring ASCII case, is one of `allowed`
/// (which are lower case).
pub open spec fn has_extension_in(p: Seq<char>, allowed: Seq<Seq<char>>) -> bool {
    match path_extension(p) {
        Some(e) => allowed.contains(lower(e)),
        None => false,
    }
}

pub open spec fn str_views(s: Seq<&str>) -> Seq<Seq<char>> {
    s.map_values(|a: &str| a@)
}

/// Whether the path has one of the given extensions, ignoring ASCII case.
pub fn has_allowed_extension(p: &str, allowed: &Vec<&str>) -> (r: bool)
    ensures
        r == has_extension_in(p@, str_views(allowed@)),
{
    match extension_of(p) {
        None => false,
        Some(e) => {
            let ec = chars_of(e.as_str());
            let lc = lower_chars(&ec);
            let mut i: usize = 0;
            while i < allowed.len()
                invariant
                    i <= allowed.len(),
                    lc@ == lower(e@),
                    path_extension(p@) == Some(e@),
                    forall|j: int| 0 <= j < i ==> (#[trigger] allowed@[j])@ != lower(e@),
                decreases allowed.len() - i,
            {
                let ac = chars_of(allowed[i]);
                if crate::text::same_chars(&ac, &lc) {
                    proof {
                        let v = str_views(allowed@);
                        assert(v[i as int] == lower(e@));
                        assert(v.contains(lower(e@)));
                    }
                    return true;
                }
                i = i + 1;
            }
            proof {
                let v = str_views(allowed@);
                if v.contains(lower(e@)) {
                    let j = choose|j: int| 0 <= j < v.len() && v[j] == lower(e@);
                    assert(allowed@[j]@ == v[j]);
                }
            }
            false
        },
    }
}

/// A path with a new extension (`PathBuf::set_extension`); the extension
/// holds no path separator, on which std panics.
pub fn with_extension(p: &str, e: &str) -> (r: String)
    requires
        no_separator(e@),
    ensures
        r@ == path_with_extension(p@, e@),
{
    set_extension_of(p, e)
}

/// The known extensions of the tool's own files.
pub open spec fn is_known_extension(e: Seq<char>) -> bool {
    lower(e) == "json"@ || lower(e) == "dxf"@ || lower(e) == "dwg"@
}

/// A path without a `json`, `dxf` or `dwg` extension (any case); other
/// paths unchanged.
pub open spec fn stripped_path(p: Seq<char>) -> Seq<char> {
    match path_extension(p) {
        Some(e) => if is_known_extension(e) {
            path_with_extension(p, Seq::empty())
        } else {
            p
        },
        None => p,
    }
}

pub fn strip_known_extension(p: &str) -> (r: String)
    ensures
        r@ == stripped_path(p@),
{
    match extension_of(p) {
        Some(e) => {
            let ec = chars_of(e.as_str());
            let lc = lower_chars(&ec);
            if crate::text::chars_equal_str(&lc, "json") || crate::text::chars_equal_str(&lc, "dxf")
                || crate::text::chars_equal_str(&lc, "dwg") {
                proof {
                    reveal_strlit("");
                }
                let r = set_extension_of(p, "");
                proof {
                    let empty = ""@;
                    assert(empty =~= Seq::<char>::empty()) by {
                        reveal_strlit("");
                    }
                }
                r
            } else {
                p.to_owned()
            }
        },
        None => p.to_owned(),
    }
}

/// The stem of the path's file name, or `output` without one.
pub open spec fn stem_or_default(p: Seq<char>) -> Seq<char> {
    match path_file_stem(p) {
        Some(s) => s,
        None => "output"@,
    }
}

pub fn file_stem_or_default(p: &str) -> (r: String)
    ensures
        r@ == stem_or_default(p@),
{
    match file_stem_of(p) {
        Some(s) => s,
        None => "output".to_owned(),
    }
}

pub open spec fn opt_view(o: Option<&str>) -> Option<Seq<char>> {
    match o {
        Some(q) => Some(q@),
        None => None,
    }
}

/// The JSON file name for an input: its file name (or `output`) with the
/// extension `json`.
pub open spec fn json_name(p: Seq<char>) -> Seq<char> {
    let name = match path_file_name(p) {
        Some(n) => n,
        None => "output"@,
    };
    path_with_extension(name, "json"@)
}

pub fn json_file_name_for(p: &str) -> (r: String)
    ensures
        r@ == json_name(p@),
{
    let name = match file_name_of(p) {
        Some(n) => n,
        None => "output".to_owned(),
    };
    proof {
        reveal_strlit("json");
    }
    set_extension_of(name.as_str(), "json")
}

/// Where `cad2json` writes an input's JSON: in batch mode inside the output
/// directory (default `output`); otherwise inside a requested directory,
/// at a requested file path with the extension `json`, or inside `output`.
pub open spec fn json_output_path(
    input: Seq<char>,
    requested: Option<Seq<char>>,
    requested_is_dir: bool,
    is_batch: bool,
) -> Seq<char> {
    if is_batch {
        match requested {
            Some(d) => path_joined(d, json_name(input)),
            None => path_joined("output"@, json_name(input)),
        }
    } else {
        match requested {
            Some(p) => if requested_is_dir {
                path_joined(p, json_name(input))
            } else {
                path_with_extension(p, "json"@)
            },
            None => path_joined("output"@, json_name(input)),
        }
    }
}

/// `requested_is_dir` tells whether the requested path is an existing
/// directory.
pub fn resolve_json_output_path(
    input: &str,
    requested: Option<&str>,
    requested_is_dir: bool,
    is_batch: bool,
) -> (r: String)
    ensures
        r@ == json_output_path(input@, opt_view(requested), requested_is_dir, is_batch),
{
    let default_name = json_file_name_for(input);
    if is_batch {
        match requested {
            Some(d) => join_path(d, default_name.as_str()),
            None => join_path("output", default_name.as_str()),
        }
    } else {
        match requested {
            Some(p) => {
                if requested_is_dir {
                    join_path(p, default_name.as_str())
                } else {
                    proof {
                        reveal_strlit("json");
                    }
                    with_extension(p, "json")
                }
            },
            None => join_path("output", default_name.as_str()),
        }
    }
}

/// Where `json2cad` writes an input's DXF and DWG (without extension): in
/// batch mode inside the output directory (default `output`); otherwise
/// inside a requested directory, at a requested path without its known
/// extension, or inside `output`.
pub open spec fn cad_output_base(
    input: Seq<char>,
    requested: Option<Seq<char>>,
    requested_is_dir: bool,
    is_batch: bool,
) -> Seq<char> {
    if is_batch {
        match requested {
            Some(d) => path_joined(d, stem_or_default(input)),
            None => path_joined("output"@, stem_or_default(input)),
        }
    } else {
        match requested {
            Some(p) => if requested_is_dir {
                path_joined(p, stem_or_default(input))
            } else {
                stripped_path(p)
            },
            None => path_joined("output"@, stem_or_default(input)),
        }
    }
}

pub fn resolve_cad_output_base(
    input: &str,
    requested: Option<&str>,
    requested_is_dir: bool,
    is_batch: bool,
) -> (r: String)
    ensures
        r@ == cad_output_base(input@, opt_view(requested), requested_is_dir, is_batch),
{
    let default_stem = file_stem_or_default(input);
    if is_batch {
        match requested {
            Some(d) => join_path(d, default_stem.as_str()),
            None => join_path("output", default_stem.as_str()),
        }
    } else {
        match requested {
            Some(p) => {
                if requested_is_dir {
                    join_path(p, default_stem.as_str())
                } else {
                    strip_known_extension(p)
                }
            },
            None => join_path("output", default_stem.as_str()),
        }
    }
}

} // verus!
