//! The export orchestrator: filtering artboards, deciding the output
//! mode, computing every path the pipeline touches, and the state machine
//! that drives rendering, symbol assembly, relocation and cleanup. All
//! decisions are made here; performing them is the caller's part.

use vstd::prelude::*;
use crate::chars::{contains_seq, str_eq, str_to_chars};
use crate::error::ExportError;
use crate::files::{looks_like_file_path, path_ext, path_join, path_parent, spec_ext, spec_join,
    spec_looks_like_file_path, spec_parent};
use crate::globs::{glob_match, glob_set_patterns, matches_glob_set};
use crate::sprite::{assemble_sprite, spec_build_sprite, spec_symbols};

verus! {

/// A named, independently exportable design region within a source
/// design file. The identifier is tool-assigned and opaque; the name is
/// hierarchical, `/`-delimited.
pub struct Artboard {
    pub uid: String,
    pub name: String,
}

/// The patterns a glob set holds, when one was supplied at all.
pub open spec fn glob_opt_patterns(set: Option<&globset::GlobSet>) -> Option<Seq<Seq<char>>> {
    match set {
        Option::Some(s) => Option::Some(glob_set_patterns(*s)),
        Option::None => Option::None,
    }
}

/// Whether an artboard passes the filter: with no patterns every
/// artboard does, else its name must match one of them.
pub open spec fn spec_artboard_keep(pats: Option<Seq<Seq<char>>>, a: Artboard) -> bool {
    match pats {
        Option::None => true,
        Option::Some(ps) => glob_match(ps, a.name@),
    }
}

/// The artboards that pass the filter, in their original order.
pub open spec fn spec_filter_artboards(abs: Seq<Artboard>, pats: Option<Seq<Seq<char>>>) -> Seq<
    Artboard,
> {
    abs.filter(|a: Artboard| spec_artboard_keep(pats, a))
}

/// Keeps the artboards whose name matches the glob set; with no set,
/// keeps all.
#[verifier::loop_isolation(false)]
pub fn filter_artboards(artboards: Vec<Artboard>, set: Option<&globset::GlobSet>) -> (r: Vec<
    Artboard,
>)
    ensures
        r@ == spec_filter_artboards(artboards@, glob_opt_patterns(set)),
{
    let ghost full = artboards@;
    let ghost pats = glob_opt_patterns(set);
    let total = artboards.len();
    let mut artboards = artboards;
    let mut out: Vec<Artboard> = Vec::new();
    let mut i: usize = 0;
    proof {
        reveal(Seq::filter);
        assert(full.take(0) =~= Seq::<Artboard>::empty());
        assert(out@ =~= spec_filter_artboards(full.take(0), pats));
    }
    while artboards.len() > 0
        invariant
            i <= total,
            full.len() == total,
            artboards@ == full.skip(i as int),
            out@ == spec_filter_artboards(full.take(i as int), pats),
        decreases artboards@.len(),
    {
        let a = artboards.remove(0);
        proof {
            assert(a == full[i as int]);
            assert(full.skip(i as int).remove(0) =~= full.skip(i as int + 1));
        }
        let keep = matches_glob_set(set, a.name.as_str());
        let ghost out_before = out@;
        if keep {
            out.push(a);
        }
        i = i + 1;
        proof {
            reveal(Seq::filter);
            assert(full.take(i as int).drop_last() =~= full.take(i - 1));
            assert(full.take(i as int).last() == full[i - 1]);
            assert(out@ =~= spec_filter_artboards(full.take(i as int), pats));
        }
    }
    proof {
        assert(full.take(full.len() as int) =~= full);
    }
    out
}

/// The token that routes a format to symbol assembly instead of plain
/// rendering.
pub open spec fn symbols_token() -> Seq<char> {
    "svg-symbols"@
}

/// The formats that are rendered as plain files: every requested format
/// except the symbols token.
pub open spec fn spec_regular_formats(formats: Seq<Seq<char>>) -> Seq<Seq<char>> {
    formats.filter(|f: Seq<char>| f != symbols_token())
}

/// Whether the symbols token was requested.
pub open spec fn spec_has_symbols(formats: Seq<Seq<char>>) -> bool {
    exists|i: int| 0 <= i < formats.len() && formats[i] == symbols_token()
}

/// The abstract form of a format list.
pub open spec fn format_views(formats: Seq<String>) -> Seq<Seq<char>> {
    formats.map_values(|f: String| f@)
}

/// Splits the requested formats into the symbols flag and the regular
/// formats, keeping their order.
#[verifier::loop_isolation(false)]
pub fn partition_formats(formats: &Vec<String>) -> (r: (bool, Vec<String>))
    ensures
        r.0 == spec_has_symbols(format_views(formats@)),
        format_views(r.1@) == spec_regular_formats(format_views(formats@)),
{
    let ghost fv = format_views(formats@);
    let n = formats.len();
    let mut regular: Vec<String> = Vec::new();
    let mut has_symbols = false;
    let mut i: usize = 0;
    proof {
        reveal(Seq::filter);
        assert(fv.take(0) =~= Seq::<Seq<char>>::empty());
        assert(format_views(regular@) =~= spec_regular_formats(fv.take(0)));
    }
    while i < n
        invariant
            i <= n,
            n == formats@.len(),
            fv == format_views(formats@),
            fv.len() == n,
            has_symbols == (exists|j: int| 0 <= j < i && fv[j] == symbols_token()),
            format_views(regular@) == spec_regular_formats(fv.take(i as int)),
        decreases n - i,
    {
        proof {
            assert(fv[i as int] == formats@[i as int]@);
        }
        let ghost regular_before = regular@;
        if str_eq(formats[i].as_str(), "svg-symbols") {
            has_symbols = true;
        } else {
            regular.push(formats[i].clone());
        }
        i = i + 1;
        proof {
            reveal(Seq::filter);
            assert(fv.take(i as int).drop_last() =~= fv.take(i - 1));
            assert(fv.take(i as int).last() == fv[i - 1]);
            if fv[i - 1] == symbols_token() {
                assert(format_views(regular@) =~= spec_regular_formats(fv.take(i as int)));
            } else {
                assert(format_views(regular@) =~= format_views(regular_before).push(
                    fv[i - 1],
                ));
                assert(format_views(regular@) =~= spec_regular_formats(fv.take(i as int)));
            }
        }
    }
    proof {
        assert(fv.take(n as int) =~= fv);
    }
    (has_symbols, regular)
}

/// The case-blind key of a character: upper-case ASCII letters count as
/// their lower-case form.
pub open spec fn lower_key(c: char) -> int {
    let u = c as u32;
    if 65 <= u && u <= 90 {
        u + 32
    } else {
        u as int
    }
}

/// Case-blind equality of two texts, over ASCII letters.
pub open spec fn eq_ignore_case(a: Seq<char>, b: Seq<char>) -> bool {
    a.len() == b.len() && (forall|i: int| 0 <= i < a.len() ==> lower_key(a[i]) == lower_key(b[i]))
}

/// Compares two strings case-blind over ASCII letters.
pub fn str_eq_ignore_case(a: &str, b: &str) -> (r: bool)
    ensures
        r == eq_ignore_case(a@, b@),
{
    let av = str_to_chars(a);
    let bv = str_to_chars(b);
    let na = av.len();
    if na != bv.len() {
        return false;
    }
    let mut i: usize = 0;
    while i < na
        invariant
            i <= na,
            na == av@.len(),
            na == bv@.len(),
            av@ == a@,
            bv@ == b@,
            forall|j: int| 0 <= j < i ==> lower_key(a@[j]) == lower_key(b@[j]),
        decreases na - i,
    {
        let ca = av[i];
        let cb = bv[i];
        let ua = ca as u32;
        let ub = cb as u32;
        let ka: u32 = if 65 <= ua && ua <= 90 {
            ua + 32
        } else {
            ua
        };
        let kb: u32 = if 65 <= ub && ub <= 90 {
            ub + 32
        } else {
            ub
        };
        proof {
            assert(a@[i as int] == ca);
            assert(b@[i as int] == cb);
            assert(lower_key(ca) == ka as int);
            assert(lower_key(cb) == kb as int);
        }
        if ka != kb {
            return false;
        }
        i = i + 1;
    }
    true
}

/// Whether the output path names a single file for these formats: it has
/// an extension, and the extension matches one of the formats, case
/// blind.
pub open spec fn spec_is_single_file(output: Seq<char>, formats: Seq<Seq<char>>) -> bool {
    spec_ext(output).len() > 0 && (exists|i: int|
        0 <= i < formats.len() && eq_ignore_case(#[trigger] formats[i], spec_ext(output)))
}

/// Checks if the output path appears to be a single file target for one
/// of the requested formats.
#[verifier::loop_isolation(false)]
pub fn is_single_file_output(output_path: &str, formats: &Vec<String>) -> (r: bool)
    ensures
        r == spec_is_single_file(output_path@, format_views(formats@)),
{
    let ghost fv = format_views(formats@);
    let ext = path_ext(output_path);
    let ev = str_to_chars(ext.as_str());
    if ev.len() == 0 {
        return false;
    }
    let n = formats.len();
    let mut i: usize = 0;
    while i < n
        invariant
            i <= n,
            n == formats@.len(),
            fv == format_views(formats@),
            fv.len() == n,
            ext@ == spec_ext(output_path@),
            forall|j: int| 0 <= j < i ==> !eq_ignore_case(#[trigger] fv[j], spec_ext(output_path@)),
        decreases n - i,
    {
        proof {
            assert(fv[i as int] == formats@[i as int]@);
        }
        if str_eq_ignore_case(formats[i].as_str(), ext.as_str()) {
            return true;
        }
        i = i + 1;
    }
    false
}

/// The directory a path lives in, with the current directory standing in
/// for a bare file name.
pub open spec fn parent_or_dot(p: Seq<char>) -> Seq<char> {
    match spec_parent(p) {
        Option::Some(d) => d,
        Option::None => "."@,
    }
}

/// Computes the directory a path lives in.
pub fn parent_or_dot_exec(p: &str) -> (r: String)
    ensures
        r@ == parent_or_dot(p@),
{
    match path_parent(p) {
        Some(d) => d,
        None => ".".to_owned(),
    }
}

/// Where the rendering tool writes and what is cleaned up afterwards,
/// for the plain-format part of an export.
pub struct ExportPlan {
    pub single_file: bool,
    pub output_dir_for_tool: String,
    pub cache_dir: Option<String>,
}

/// A plan is about an output path and regular formats: in single-file
/// mode the tool renders into a fresh cache beside the destination, else
/// straight into the destination directory.
pub open spec fn plan_matches(plan: ExportPlan, output: Seq<char>, formats: Seq<Seq<char>>) -> bool {
    &&& plan.single_file == spec_is_single_file(output, formats)
    &&& (plan.single_file ==> plan.output_dir_for_tool@ == spec_join(
        parent_or_dot(output),
        ".cache"@,
    ) && (plan.cache_dir matches Option::Some(c) && c@ == plan.output_dir_for_tool@))
    &&& (!plan.single_file ==> plan.output_dir_for_tool@ == output && plan.cache_dir is None)
}

/// Derives the plan for an output path and regular formats, with no
/// validation: the mode decision and the paths alone.
fn build_plan(output_path: &str, formats: &Vec<String>) -> (r: ExportPlan)
    ensures
        plan_matches(r, output_path@, format_views(formats@)),
{
    let single = is_single_file_output(output_path, formats);
    if single {
        let parent = parent_or_dot_exec(output_path);
        let cache = path_join(parent.as_str(), ".cache");
        let cache2 = path_join(parent.as_str(), ".cache");
        ExportPlan { single_file: true, output_dir_for_tool: cache, cache_dir: Some(cache2) }
    } else {
        ExportPlan {
            single_file: false,
            output_dir_for_tool: output_path.to_owned(),
            cache_dir: None,
        }
    }
}

/// Decides the output mode for the regular formats and rejects an
/// ambiguous fan-in: a single-file destination cannot take more than one
/// artboard or more than one format. Nothing is rendered or written
/// before this decision.
pub fn plan_regular_export(output_path: &str, formats: &Vec<String>, artboard_count: usize) -> (r:
    Result<ExportPlan, ExportError>)
    ensures
        ({
            let single = spec_is_single_file(output_path@, format_views(formats@));
            if single && (artboard_count > 1 || formats@.len() > 1) {
                r matches Err(e) && e matches ExportError::AmbiguousOutput(p) && p@ == output_path@
            } else {
                r matches Ok(plan) && plan_matches(plan, output_path@, format_views(formats@))
            }
        }),
{
    let single = is_single_file_output(output_path, formats);
    if single && (artboard_count > 1 || formats.len() > 1) {
        return Err(ExportError::AmbiguousOutput(output_path.to_owned()));
    }
    Ok(build_plan(output_path, formats))
}

/// The file the sprite is written to: a path that looks like a file is
/// used verbatim, a directory receives a fixed file name.
pub open spec fn spec_symbols_target(output: Seq<char>) -> Seq<char> {
    if spec_looks_like_file_path(output) {
        output
    } else {
        spec_join(output, "symbols.svg"@)
    }
}

/// Resolves the sprite's target file from the output path.
pub fn symbols_target_file(output_path: &str) -> (r: String)
    ensures
        r@ == spec_symbols_target(output_path@),
{
    if looks_like_file_path(output_path) {
        output_path.to_owned()
    } else {
        path_join(output_path, "symbols.svg")
    }
}

/// The cache directory for symbol assembly: a fixed marker name beside
/// the target file.
pub open spec fn spec_symbols_cache(target: Seq<char>) -> Seq<char> {
    spec_join(parent_or_dot(target), ".cache-symbols"@)
}

/// Resolves the symbol-assembly cache directory from the target file.
pub fn symbols_cache_dir(target_file: &str) -> (r: String)
    ensures
        r@ == spec_symbols_cache(target_file@),
{
    let parent = parent_or_dot_exec(target_file);
    path_join(parent.as_str(), ".cache-symbols")
}

/// The artboard identifiers joined by commas, in order, as the rendering
/// tool takes them.
pub open spec fn uids_from(abs: Seq<Artboard>, i: int) -> Seq<char>
    decreases abs.len() - i,
{
    if i < 0 || i >= abs.len() {
        Seq::empty()
    } else if i == abs.len() - 1 {
        abs[i].uid@
    } else {
        abs[i].uid@ + ","@ + uids_from(abs, i + 1)
    }
}

/// The comma-joined identifier list of the artboards.
pub open spec fn spec_join_uids(abs: Seq<Artboard>) -> Seq<char> {
    uids_from(abs, 0)
}

/// Joins the artboards' identifiers with commas.
#[verifier::loop_isolation(false)]
pub fn join_uids(artboards: &Vec<Artboard>) -> (r: String)
    ensures
        r@ == spec_join_uids(artboards@),
{
    let n = artboards.len();
    let mut out = String::new();
    let mut i: usize = 0;
    proof {
        assert(out@ + uids_from(artboards@, 0) =~= uids_from(artboards@, 0));
    }
    while i < n
        invariant
            i <= n,
            n == artboards@.len(),
            spec_join_uids(artboards@) == out@ + uids_from(artboards@, i as int),
        decreases n - i,
    {
        out.append(artboards[i].uid.as_str());
        if i + 1 < n {
            out.append(",");
        }
        i = i + 1;
        proof {
            assert(out@ + uids_from(artboards@, i as int) =~= spec_join_uids(artboards@));
        }
    }
    proof {
        assert(uids_from(artboards@, n as int) =~= Seq::<char>::empty());
        assert(out@ =~= spec_join_uids(artboards@));
    }
    out
}

/// The relative path the rendering tool gives an artboard's file: the
/// raw hierarchical name followed by a dot and the format.
pub open spec fn spec_artifact_rel_path(name: Seq<char>, format: Seq<char>) -> Seq<char> {
    name + "."@ + format
}

/// Builds the relative path of one artboard's rendered file.
pub fn artifact_rel_path(name: &str, format: &str) -> (r: String)
    ensures
        r@ == spec_artifact_rel_path(name@, format@),
{
    let mut out = String::new();
    out.append(name);
    out.append(".");
    out.append(format);
    proof {
        assert(out@ =~= name@ + "."@ + format@);
    }
    out
}

/// The abstract form of a list of strings.
pub open spec fn string_views(ps: Seq<String>) -> Seq<Seq<char>> {
    ps.map_values(|p: String| p@)
}

/// The file each artboard's rendered SVG is expected at under the cache
/// directory. The lookup is by this exact path: no fuzzy fallback, so a
/// mismatch fails fast instead of silently picking another artboard's
/// artwork.
pub open spec fn spec_expected_svg_paths(cache: Seq<char>, abs: Seq<Artboard>) -> Seq<Seq<char>> {
    Seq::new(abs.len(), |i: int| spec_join(cache, spec_artifact_rel_path(abs[i].name@, "svg"@)))
}

/// Builds the expected rendered-SVG path of every artboard.
#[verifier::loop_isolation(false)]
pub fn expected_svg_paths(cache: &str, artboards: &Vec<Artboard>) -> (r: Vec<String>)
    ensures
        string_views(r@) == spec_expected_svg_paths(cache@, artboards@),
{
    let n = artboards.len();
    let mut out: Vec<String> = Vec::new();
    let mut i: usize = 0;
    while i < n
        invariant
            i <= n,
            n == artboards@.len(),
            out@.len() == i,
            forall|j: int|
                0 <= j < i ==> #[trigger] string_views(out@)[j] == spec_expected_svg_paths(
                    cache@,
                    artboards@,
                )[j],
        decreases n - i,
    {
        let rel = artifact_rel_path(artboards[i].name.as_str(), "svg");
        let full = path_join(cache, rel.as_str());
        let ghost out_before = out@;
        out.push(full);
        proof {
            assert(forall|j: int|
                0 <= j < i ==> #[trigger] string_views(out@)[j] == string_views(out_before)[j]);
            assert(string_views(out@)[i as int] == out@[i as int]@);
        }
        i = i + 1;
    }
    proof {
        assert(string_views(out@) =~= spec_expected_svg_paths(cache@, artboards@));
    }
    out
}


/// The names of the artboards, in order.
pub open spec fn names_of(abs: Seq<Artboard>) -> Seq<Seq<char>> {
    abs.map_values(|a: Artboard| a.name@)
}

/// Whether every file read came back with content.
pub open spec fn all_some(cs: Seq<Option<String>>) -> bool {
    forall|i: int| 0 <= i < cs.len() ==> (#[trigger] cs[i]) is Some
}

/// The contents of the files read, blanks standing for missing ones.
pub open spec fn some_views(cs: Seq<Option<String>>) -> Seq<Seq<char>> {
    cs.map_values(
        |c: Option<String>|
            match c {
                Option::Some(s) => s@,
                Option::None => Seq::<char>::empty(),
            },
    )
}

/// Clones the artboards' names into a list of their own.
#[verifier::loop_isolation(false)]
fn artboard_names(artboards: &Vec<Artboard>) -> (r: Vec<String>)
    ensures
        string_views(r@) == names_of(artboards@),
{
    let n = artboards.len();
    let mut out: Vec<String> = Vec::new();
    let mut i: usize = 0;
    while i < n
        invariant
            i <= n,
            n == artboards@.len(),
            out@.len() == i,
            forall|j: int|
                0 <= j < i ==> #[trigger] string_views(out@)[j] == names_of(artboards@)[j],
        decreases n - i,
    {
        let ghost out_before = out@;
        out.push(artboards[i].name.clone());
        proof {
            assert(forall|j: int|
                0 <= j < i ==> #[trigger] string_views(out@)[j] == string_views(out_before)[j]);
            assert(string_views(out@)[i as int] == out@[i as int]@);
            assert(names_of(artboards@)[i as int] == artboards@[i as int].name@);
        }
        i = i + 1;
    }
    proof {
        assert(string_views(out@) =~= names_of(artboards@));
    }
    out
}

/// Unwraps the contents of the files read, or reports the index of the
/// first file that was missing.
#[verifier::loop_isolation(false)]
fn unwrap_contents(contents: Vec<Option<String>>) -> (r: Result<Vec<String>, usize>)
    ensures
        match r {
            Ok(texts) => all_some(contents@) && string_views(texts@) == some_views(contents@),
            Err(j) => j < contents@.len() && contents@[j as int] is None,
        },
{
    let ghost full = contents@;
    let mut contents = contents;
    let mut out: Vec<String> = Vec::new();
    let mut i: usize = 0;
    let total = contents.len();
    while contents.len() > 0
        invariant
            i <= total,
            full.len() == total,
            contents@ == full.skip(i as int),
            out@.len() == i,
            forall|j: int| 0 <= j < i ==> (#[trigger] full[j]) is Some,
            forall|j: int|
                0 <= j < i ==> #[trigger] string_views(out@)[j] == some_views(full)[j],
        decreases contents@.len(),
    {
        let c = contents.remove(0);
        proof {
            assert(c == full[i as int]);
            assert(full.skip(i as int).remove(0) =~= full.skip(i as int + 1));
        }
        match c {
            None => {
                return Err(i);
            },
            Some(s) => {
                let ghost out_before = out@;
                out.push(s);
                proof {
                    assert(forall|j: int|
                        0 <= j < i ==> #[trigger] string_views(out@)[j] == string_views(
                            out_before,
                        )[j]);
                    assert(string_views(out@)[i as int] == out@[i as int]@);
                    assert(some_views(full)[i as int] == (match full[i as int] {
                        Option::Some(s2) => s2@,
                        Option::None => Seq::<char>::empty(),
                    }));
                }
            },
        }
        i = i + 1;
    }
    proof {
        assert(i == total);
        assert(string_views(out@) =~= some_views(full));
    }
    Ok(out)
}

/// The destination of every artboard's file for one format in
/// directory mode.
pub open spec fn spec_multi_paths(output: Seq<char>, abs: Seq<Artboard>, fmt: Seq<char>) -> Seq<
    Seq<char>,
> {
    Seq::new(abs.len(), |i: int| spec_join(output, spec_artifact_rel_path(abs[i].name@, fmt)))
}

/// Builds the destination path of every artboard's file for one format.
#[verifier::loop_isolation(false)]
fn multi_paths(output: &str, artboards: &Vec<Artboard>, fmt: &str) -> (r: Vec<String>)
    ensures
        string_views(r@) == spec_multi_paths(output@, artboards@, fmt@),
{
    let n = artboards.len();
    let mut out: Vec<String> = Vec::new();
    let mut i: usize = 0;
    while i < n
        invariant
            i <= n,
            n == artboards@.len(),
            out@.len() == i,
            forall|j: int|
                0 <= j < i ==> #[trigger] string_views(out@)[j] == spec_multi_paths(
                    output@,
                    artboards@,
                    fmt@,
                )[j],
        decreases n - i,
    {
        let rel = artifact_rel_path(artboards[i].name.as_str(), fmt);
        let full = path_join(output, rel.as_str());
        let ghost out_before = out@;
        out.push(full);
        proof {
            assert(forall|j: int|
                0 <= j < i ==> #[trigger] string_views(out@)[j] == string_views(out_before)[j]);
            assert(string_views(out@)[i as int] == out@[i as int]@);
        }
        i = i + 1;
    }
    proof {
        assert(string_views(out@) =~= spec_multi_paths(output@, artboards@, fmt@));
    }
    out
}

proof fn lemma_contains_join_child(a: Seq<char>, b: Seq<char>, m: Seq<char>)
    requires
        contains_seq(b, m),
    ensures
        contains_seq(spec_join(a, b), m),
{
    let at = choose|at: int| crate::chars::matches_at(b, m, at);
    let off: int = if a.len() == 0 {
        0
    } else if a[a.len() - 1] == '/' {
        a.len() as int
    } else {
        a.len() + 1int
    };
    assert(crate::chars::matches_at(spec_join(a, b), m, off + at)) by {
        assert(spec_join(a, b).subrange(off + at, off + at + m.len() as int) =~= b.subrange(
            at,
            at + m.len() as int,
        ));
    }
}

proof fn lemma_cache_names_hold_marker()
    ensures
        contains_seq(".cache"@, ".cache"@),
        contains_seq(".cache-symbols"@, ".cache"@),
{
    reveal_strlit(".cache");
    reveal_strlit(".cache-symbols");
    assert(crate::chars::matches_at(".cache"@, ".cache"@, 0)) by {
        assert(".cache"@.subrange(0, 6) =~= ".cache"@);
    }
    assert(crate::chars::matches_at(".cache-symbols"@, ".cache"@, 0)) by {
        assert(".cache-symbols"@.subrange(0, 6) =~= ".cache"@);
    }
}

/// What the caller is asked to do next. Performing the action and
/// reporting its outcome is the caller's part; every decision between
/// actions is made here.
pub enum ExportAction {
    /// Create the directory and its parents if absent.
    EnsureDir { path: String },
    /// Invoke the rendering tool for one format, with the comma-joined
    /// artboard identifiers, into the given directory.
    RunRender { format: String, items: String, output_dir: String },
    /// Read each file, reporting missing ones as absent.
    ReadFiles { paths: Vec<String> },
    /// Find the first file with the given extension under the directory,
    /// searching recursively.
    FindFileByExt { dir: String, ext: String },
    /// Copy a file to the exact destination.
    CopyFile { from: String, to: String },
    /// Write the content to the file, whole.
    WriteFile { path: String, content: String },
    /// Remove the directory tree, through the deletion guard.
    RemoveDir { path: String },
    /// The export is complete; these are the exported paths.
    Finish { exported: Vec<String> },
    /// The export failed; nothing more will be asked.
    Abort { error: ExportError },
}

/// What the caller reports back about the previous action.
pub enum ExportEvent {
    /// Starts the machine; the first event it is given.
    Start,
    /// The previous action succeeded.
    Done,
    /// The previous action failed; the detail is the caller's diagnostic.
    Failed { detail: String },
    /// The rendering tool exited; on failure its diagnostic text.
    RenderDone { ok: bool, stderr: String },
    /// The contents of the files asked for, in the same order.
    FilesRead { contents: Vec<Option<String>> },
    /// The file found under the directory, if any.
    FileFound { path: Option<String> },
}

/// Where the machine stands between two actions.
pub enum ExportPhase {
    Start,
    SymEnsureCache,
    SymRender,
    SymRead,
    SymEnsureTargetParent { content: String },
    SymWrite,
    SymCleanup,
    SymAbortCleanup { error: ExportError },
    RegEnsureOut,
    RegRender { fi: usize },
    RegFind { fi: usize },
    RegEnsureTargetParent { fi: usize, from: String },
    RegCopy { fi: usize },
    RegCacheCleanup { fi: usize },
    Done,
    Aborted,
}

/// The export state machine: holds the filtered artboards, the requested
/// formats split into the symbols flag and the plain formats, the
/// resolved paths, and the progress made so far.
pub struct ExportMachine {
    pub artboards: Vec<Artboard>,
    pub formats: Vec<String>,
    pub has_symbols: bool,
    pub output_path: String,
    pub keep_raw: bool,
    pub plan: ExportPlan,
    pub symbols_target: String,
    pub symbols_cache: String,
    pub exported: Vec<String>,
    pub phase: ExportPhase,
}

/// The machine's standing invariant: its paths are the ones the
/// specification derives from the output path and the formats, and an
/// active machine has artboards to work on.
pub open spec fn machine_wf(m: ExportMachine) -> bool {
    &&& m.symbols_target@ == spec_symbols_target(m.output_path@)
    &&& m.symbols_cache@ == spec_symbols_cache(m.symbols_target@)
    &&& plan_matches(m.plan, m.output_path@, format_views(m.formats@))
    &&& (!(m.phase is Start) && !(m.phase is Done) && !(m.phase is Aborted) ==> m.artboards@.len()
        > 0)
    &&& match m.phase {
        ExportPhase::RegEnsureOut => m.formats@.len() > 0,
        ExportPhase::RegRender { fi } => fi < m.formats@.len(),
        ExportPhase::RegFind { fi } => fi < m.formats@.len() && m.plan.single_file,
        ExportPhase::RegEnsureTargetParent { fi, from } => fi < m.formats@.len()
            && m.plan.single_file,
        ExportPhase::RegCopy { fi } => fi < m.formats@.len() && m.plan.single_file,
        ExportPhase::RegCacheCleanup { fi } => fi < m.formats@.len() && m.plan.single_file,
        _ => true,
    }
}

/// Sets up an export of the given artboards: splits the formats, decides
/// the output mode, and rejects an ambiguous single-file target before
/// anything is rendered or written. With no artboards at all there is
/// nothing to reject: the export short-circuits to an empty success.
pub fn export_machine_new(
    artboards: Vec<Artboard>,
    formats: &Vec<String>,
    output_path: &str,
    keep_raw_export: bool,
) -> (r: Result<ExportMachine, ExportError>)
    ensures
        ({
            let regular = spec_regular_formats(format_views(formats@));
            let ambiguous = artboards@.len() > 0 && spec_is_single_file(output_path@, regular)
                && (artboards@.len() > 1 || regular.len() > 1);
            match r {
                Ok(m) => {
                    &&& !ambiguous
                    &&& (m.artboards@.len() > 0 && m.plan.single_file ==> m.artboards@.len() <= 1
                        && m.formats@.len() <= 1)
                    &&& machine_wf(m)
                    &&& m.phase is Start
                    &&& m.exported@.len() == 0
                    &&& m.artboards@ == artboards@
                    &&& m.output_path@ == output_path@
                    &&& m.has_symbols == spec_has_symbols(format_views(formats@))
                    &&& format_views(m.formats@) == regular
                    &&& m.keep_raw == keep_raw_export
                },
                Err(e) => ambiguous && (e matches ExportError::AmbiguousOutput(p) && p@
                    == output_path@),
            }
        }),
{
    let (has_symbols, regular) = partition_formats(formats);
    let plan = if artboards.len() == 0 {
        build_plan(output_path, &regular)
    } else {
        match plan_regular_export(output_path, &regular, artboards.len()) {
            Err(e) => {
                return Err(e);
            },
            Ok(plan) => plan,
        }
    };
    let symbols_target = symbols_target_file(output_path);
    let symbols_cache = symbols_cache_dir(symbols_target.as_str());
    Ok(
        ExportMachine {
            artboards,
            formats: regular,
            has_symbols,
            output_path: output_path.to_owned(),
            keep_raw: keep_raw_export,
            plan,
            symbols_target,
            symbols_cache,
            exported: Vec::new(),
            phase: ExportPhase::Start,
        },
    )
}


/// One decision of the orchestrator: from the machine's standing and the
/// outcome of the previous action, the next machine and the next action.
///
/// An export with no matching artboards finishes at once with nothing
/// exported and no rendering-tool invocation. The tool is only ever
/// invoked with the filtered artboards' comma-joined identifiers. The
/// sprite written for symbol assembly is exactly the assembly of the
/// documents that were read, in artboard order. Every directory the
/// machine asks to remove carries the cache marker that the deletion
/// guard demands.
#[verifier::loop_isolation(false)]
pub fn export_step(m: ExportMachine, ev: ExportEvent) -> (r: (ExportMachine, ExportAction))
    requires
        machine_wf(m),
        !(m.phase is Done),
        !(m.phase is Aborted),
    ensures
        machine_wf(r.0),
        r.0.artboards@ == m.artboards@,
        r.0.formats@ == m.formats@,
        r.0.output_path@ == m.output_path@,
        r.0.has_symbols == m.has_symbols,
        r.0.keep_raw == m.keep_raw,
        r.1 matches ExportAction::RemoveDir { path } ==> contains_seq(path@, ".cache"@),
        r.1 matches ExportAction::RunRender { format, items, output_dir } ==> m.artboards@.len()
            > 0 && items@ == spec_join_uids(m.artboards@),
        (m.phase is Start && m.artboards@.len() == 0) ==> (r.1 matches ExportAction::Finish {
            exported,
        } && exported@ == m.exported@ && r.0.phase is Done),
        r.1 matches ExportAction::ReadFiles { paths } ==> string_views(paths@)
            == spec_expected_svg_paths(m.symbols_cache@, m.artboards@),
        r.1 matches ExportAction::WriteFile { path, content } ==> path@ == spec_symbols_target(
            m.output_path@,
        ) && (m.phase matches ExportPhase::SymEnsureTargetParent { content: c } && content == c),
        (m.phase is SymRead && (ev matches ExportEvent::FilesRead { contents } && all_some(
            contents@,
        ) && contents@.len() == m.artboards@.len())) ==> (match spec_symbols(
            names_of(m.artboards@),
            some_views(files_read_payload(ev)@),
            0,
        ) {
            Result::Ok(syms) => r.0.phase matches ExportPhase::SymEnsureTargetParent { content }
                && content@ == spec_build_sprite(syms),
            Result::Err(j) => r.0.phase matches ExportPhase::SymAbortCleanup { error }
                && error matches ExportError::InvalidSvg(p) && p@ == names_of(m.artboards@)[j],
        }),
        r.1 matches ExportAction::Abort { error } ==> r.0.phase is Aborted,
        (match m.phase {
            ExportPhase::Start => {
                if m.artboards@.len() == 0 {
                    true
                } else if m.has_symbols {
                    r.1 matches ExportAction::EnsureDir { path } && path@ == m.symbols_cache@
                        && r.0.phase is SymEnsureCache
                } else if m.formats@.len() > 0 {
                    r.1 matches ExportAction::EnsureDir { path } && path@
                        == m.plan.output_dir_for_tool@ && r.0.phase is RegEnsureOut
                } else {
                    r.1 matches ExportAction::Finish { exported } && exported@ == m.exported@
                        && r.0.phase is Done
                }
            },
            ExportPhase::SymEnsureCache => (ev is Done) ==> (r.1
                matches ExportAction::RunRender { format, items, output_dir } && format@
                == "svg"@ && output_dir@ == m.symbols_cache@ && r.0.phase is SymRender),
            ExportPhase::SymRender => (match ev {
                ExportEvent::RenderDone { ok, stderr } => {
                    if ok {
                        r.1 is ReadFiles && r.0.phase is SymRead
                    } else {
                        r.1 is RemoveDir && (r.0.phase matches ExportPhase::SymAbortCleanup {
                            error,
                        } && (error matches ExportError::ExternalToolFailure(d) && d == stderr))
                    }
                },
                _ => true,
            }),
            ExportPhase::SymRead => (match ev {
                ExportEvent::FilesRead { contents } => {
                    if contents@.len() != m.artboards@.len() || !all_some(contents@) {
                        r.1 is RemoveDir && (r.0.phase matches ExportPhase::SymAbortCleanup {
                            error,
                        } && error is MissingExpectedArtifact)
                    } else {
                        true
                    }
                },
                _ => true,
            }),
            ExportPhase::SymEnsureTargetParent { content: c } => (ev is Done) ==> (r.1
                matches ExportAction::WriteFile { path, content } && content == c && r.0.phase
                is SymWrite),
            ExportPhase::SymWrite => (ev is Done) ==> (r.1 is RemoveDir && r.0.phase
                is SymCleanup && string_views(r.0.exported@) == string_views(m.exported@).push(
                spec_symbols_target(m.output_path@),
            )),
            ExportPhase::SymCleanup => {
                if m.formats@.len() == 0 {
                    r.1 matches ExportAction::Finish { exported } && exported@ == m.exported@
                        && r.0.phase is Done
                } else {
                    r.1 matches ExportAction::EnsureDir { path } && path@
                        == m.plan.output_dir_for_tool@ && r.0.phase is RegEnsureOut
                }
            },
            ExportPhase::SymAbortCleanup { error: e0 } => r.1 matches ExportAction::Abort {
                error,
            } && error == e0,
            ExportPhase::RegEnsureOut => (ev is Done) ==> (r.1 matches ExportAction::RunRender {
                format,
                items,
                output_dir,
            } && format == m.formats@[0] && output_dir@ == m.plan.output_dir_for_tool@ && (
            r.0.phase matches ExportPhase::RegRender { fi } && fi == 0)),
            ExportPhase::RegRender { fi } => (match ev {
                ExportEvent::RenderDone { ok, stderr } => {
                    if !ok {
                        r.1 matches ExportAction::Abort { error } && (error
                            matches ExportError::ExternalToolFailure(d) && d == stderr)
                    } else if m.plan.single_file {
                        r.1 matches ExportAction::FindFileByExt { dir, ext } && dir@
                            == m.plan.output_dir_for_tool@ && ext == m.formats@[fi as int]
                    } else {
                        match r.1 {
                            ExportAction::RunRender { format, items, output_dir } => string_views(
                                r.0.exported@,
                            ) == string_views(m.exported@) + spec_multi_paths(
                                m.output_path@,
                                m.artboards@,
                                m.formats@[fi as int]@,
                            ) && fi + 1 < m.formats@.len() && format == m.formats@[fi as int
                                + 1],
                            ExportAction::Finish { exported } => string_views(exported@)
                                == string_views(m.exported@) + spec_multi_paths(
                                m.output_path@,
                                m.artboards@,
                                m.formats@[fi as int]@,
                            ) && fi + 1 == m.formats@.len(),
                            _ => false,
                        }
                    }
                },
                _ => true,
            }),
            ExportPhase::RegFind { fi } => (match ev {
                ExportEvent::FileFound { path: Option::Some(found) } => r.1
                    matches ExportAction::EnsureDir { path } && path@ == parent_or_dot(
                    m.output_path@,
                ) && (r.0.phase matches ExportPhase::RegEnsureTargetParent { fi: fi2, from }
                    && from == found),
                ExportEvent::FileFound { path: Option::None } => r.1
                    matches ExportAction::Abort { error } && error is MissingExpectedArtifact,
                _ => true,
            }),
            ExportPhase::RegEnsureTargetParent { fi, from: f0 } => (ev is Done) ==> (r.1
                matches ExportAction::CopyFile { from, to } && from == f0 && to@
                == m.output_path@ && r.0.phase matches ExportPhase::RegCopy { fi: fi3 }),
            ExportPhase::RegCopy { fi } => (ev is Done) ==> (match r.1 {
                ExportAction::RemoveDir { path } => !m.keep_raw && string_views(r.0.exported@)
                    == string_views(m.exported@).push(m.output_path@),
                ExportAction::RunRender { format, items, output_dir } => m.keep_raw
                    && string_views(r.0.exported@) == string_views(m.exported@).push(
                    m.output_path@,
                ),
                ExportAction::Finish { exported } => m.keep_raw && string_views(exported@)
                    == string_views(m.exported@).push(m.output_path@),
                _ => false,
            }),
            _ => true,
        }),
{
    let ExportMachine {
        artboards,
        formats,
        has_symbols,
        output_path,
        keep_raw,
        plan,
        symbols_target,
        symbols_cache,
        exported,
        phase,
    } = m;
    let mut next = ExportMachine {
        artboards,
        formats,
        has_symbols,
        output_path,
        keep_raw,
        plan,
        symbols_target,
        symbols_cache,
        exported,
        phase: ExportPhase::Aborted,
    };
    match phase {
        ExportPhase::Start => {
            if next.artboards.len() == 0 {
                next.phase = ExportPhase::Done;
                let mut finished: Vec<String> = Vec::new();
                std::mem::swap(&mut finished, &mut next.exported);
                (next, ExportAction::Finish { exported: finished })
            } else if next.has_symbols {
                next.phase = ExportPhase::SymEnsureCache;
                let path = next.symbols_cache.clone();
                (next, ExportAction::EnsureDir { path })
            } else if next.formats.len() == 0 {
                next.phase = ExportPhase::Done;
                let mut finished: Vec<String> = Vec::new();
                std::mem::swap(&mut finished, &mut next.exported);
                (next, ExportAction::Finish { exported: finished })
            } else {
                next.phase = ExportPhase::RegEnsureOut;
                let path = next.plan.output_dir_for_tool.clone();
                (next, ExportAction::EnsureDir { path })
            }
        },
        ExportPhase::SymEnsureCache => {
            match ev {
                ExportEvent::Done => {
                    next.phase = ExportPhase::SymRender;
                    let items = join_uids(&next.artboards);
                    let output_dir = next.symbols_cache.clone();
                    (
                        next,
                        ExportAction::RunRender {
                            format: "svg".to_owned(),
                            items,
                            output_dir,
                        },
                    )
                },
                ExportEvent::Failed { detail } => {
                    next.phase = ExportPhase::Aborted;
                    (next, ExportAction::Abort { error: ExportError::ExternalToolFailure(detail) })
                },
                _ => {
                    next.phase = ExportPhase::Aborted;
                    (
                        next,
                        ExportAction::Abort {
                            error: ExportError::ExternalToolFailure(String::new()),
                        },
                    )
                },
            }
        },
        ExportPhase::SymRender => {
            match ev {
                ExportEvent::RenderDone { ok, stderr } => {
                    if ok {
                        next.phase = ExportPhase::SymRead;
                        let paths = expected_svg_paths(next.symbols_cache.as_str(), &next.artboards);
                        (next, ExportAction::ReadFiles { paths })
                    } else {
                        next.phase = ExportPhase::SymAbortCleanup {
                            error: ExportError::ExternalToolFailure(stderr),
                        };
                        let path = next.symbols_cache.clone();
                        proof {
                            lemma_cache_names_hold_marker();
                            lemma_contains_join_child(
                                parent_or_dot(next.symbols_target@),
                                ".cache-symbols"@,
                                ".cache"@,
                            );
                        }
                        (next, ExportAction::RemoveDir { path })
                    }
                },
                _ => {
                    next.phase = ExportPhase::SymAbortCleanup {
                        error: ExportError::ExternalToolFailure(String::new()),
                    };
                    let path = next.symbols_cache.clone();
                    proof {
                        lemma_cache_names_hold_marker();
                        lemma_contains_join_child(
                            parent_or_dot(next.symbols_target@),
                            ".cache-symbols"@,
                            ".cache"@,
                        );
                    }
                    (next, ExportAction::RemoveDir { path })
                },
            }
        },
        ExportPhase::SymRead => {
            match ev {
                ExportEvent::FilesRead { contents } => {
                    let ghost contents_ghost = contents@;
                    if contents.len() != next.artboards.len() {
                        next.phase = ExportPhase::SymAbortCleanup {
                            error: ExportError::MissingExpectedArtifact(
                                next.symbols_cache.clone(),
                            ),
                        };
                        let path = next.symbols_cache.clone();
                        proof {
                            lemma_cache_names_hold_marker();
                            lemma_contains_join_child(
                                parent_or_dot(next.symbols_target@),
                                ".cache-symbols"@,
                                ".cache"@,
                            );
                        }
                        return (next, ExportAction::RemoveDir { path });
                    }
                    match unwrap_contents(contents) {
                        Err(j) => {
                            let missing = artifact_rel_path(
                                next.artboards[j].name.as_str(),
                                "svg",
                            );
                            let expected = path_join(
                                next.symbols_cache.as_str(),
                                missing.as_str(),
                            );
                            next.phase = ExportPhase::SymAbortCleanup {
                                error: ExportError::MissingExpectedArtifact(expected),
                            };
                            let path = next.symbols_cache.clone();
                            proof {
                                lemma_cache_names_hold_marker();
                                lemma_contains_join_child(
                                    parent_or_dot(next.symbols_target@),
                                    ".cache-symbols"@,
                                    ".cache"@,
                                );
                            }
                            (next, ExportAction::RemoveDir { path })
                        },
                        Ok(texts) => {
                            let names = artboard_names(&next.artboards);
                            proof {
                                assert(string_views(names@).len() == names@.len());
                                assert(names_of(next.artboards@).len() == next.artboards@.len());
                                assert(string_views(texts@).len() == texts@.len());
                                assert(some_views(contents_ghost).len() == contents_ghost.len());
                            }
                            match assemble_sprite(&names, &texts) {
                                Ok(sprite) => {
                                    next.phase = ExportPhase::SymEnsureTargetParent {
                                        content: sprite,
                                    };
                                    let parent = parent_or_dot_exec(
                                        next.symbols_target.as_str(),
                                    );
                                    (next, ExportAction::EnsureDir { path: parent })
                                },
                                Err(e) => {
                                    next.phase = ExportPhase::SymAbortCleanup { error: e };
                                    let path = next.symbols_cache.clone();
                                    proof {
                                        lemma_cache_names_hold_marker();
                                        lemma_contains_join_child(
                                            parent_or_dot(next.symbols_target@),
                                            ".cache-symbols"@,
                                            ".cache"@,
                                        );
                                    }
                                    (next, ExportAction::RemoveDir { path })
                                },
                            }
                        },
                    }
                },
                _ => {
                    next.phase = ExportPhase::SymAbortCleanup {
                        error: ExportError::ExternalToolFailure(String::new()),
                    };
                    let path = next.symbols_cache.clone();
                    proof {
                        lemma_cache_names_hold_marker();
                        lemma_contains_join_child(
                            parent_or_dot(next.symbols_target@),
                            ".cache-symbols"@,
                            ".cache"@,
                        );
                    }
                    (next, ExportAction::RemoveDir { path })
                },
            }
        },
        ExportPhase::SymEnsureTargetParent { content } => {
            match ev {
                ExportEvent::Done => {
                    next.phase = ExportPhase::SymWrite;
                    let path = next.symbols_target.clone();
                    (next, ExportAction::WriteFile { path, content })
                },
                _ => {
                    next.phase = ExportPhase::SymAbortCleanup {
                        error: ExportError::ExternalToolFailure(String::new()),
                    };
                    let path = next.symbols_cache.clone();
                    proof {
                        lemma_cache_names_hold_marker();
                        lemma_contains_join_child(
                            parent_or_dot(next.symbols_target@),
                            ".cache-symbols"@,
                            ".cache"@,
                        );
                    }
                    (next, ExportAction::RemoveDir { path })
                },
            }
        },
        ExportPhase::SymWrite => {
            match ev {
                ExportEvent::Done => {
                    next.exported.push(next.symbols_target.clone());
                    next.phase = ExportPhase::SymCleanup;
                    let path = next.symbols_cache.clone();
                    proof {
                        lemma_cache_names_hold_marker();
                        lemma_contains_join_child(
                            parent_or_dot(next.symbols_target@),
                            ".cache-symbols"@,
                            ".cache"@,
                        );
                    }
                    (next, ExportAction::RemoveDir { path })
                },
                _ => {
                    next.phase = ExportPhase::SymAbortCleanup {
                        error: ExportError::ExternalToolFailure(String::new()),
                    };
                    let path = next.symbols_cache.clone();
                    proof {
                        lemma_cache_names_hold_marker();
                        lemma_contains_join_child(
                            parent_or_dot(next.symbols_target@),
                            ".cache-symbols"@,
                            ".cache"@,
                        );
                    }
                    (next, ExportAction::RemoveDir { path })
                },
            }
        },
        ExportPhase::SymCleanup => {
            // A failed cache removal does not fail the export.
            if next.formats.len() == 0 {
                next.phase = ExportPhase::Done;
                let mut finished: Vec<String> = Vec::new();
                std::mem::swap(&mut finished, &mut next.exported);
                (next, ExportAction::Finish { exported: finished })
            } else {
                next.phase = ExportPhase::RegEnsureOut;
                let path = next.plan.output_dir_for_tool.clone();
                (next, ExportAction::EnsureDir { path })
            }
        },
        ExportPhase::SymAbortCleanup { error } => {
            next.phase = ExportPhase::Aborted;
            (next, ExportAction::Abort { error })
        },
        ExportPhase::RegEnsureOut => {
            match ev {
                ExportEvent::Done => {
                    next.phase = ExportPhase::RegRender { fi: 0 };
                    let items = join_uids(&next.artboards);
                    let output_dir = next.plan.output_dir_for_tool.clone();
                    let format = next.formats[0].clone();
                    (next, ExportAction::RunRender { format, items, output_dir })
                },
                ExportEvent::Failed { detail } => {
                    next.phase = ExportPhase::Aborted;
                    (next, ExportAction::Abort { error: ExportError::ExternalToolFailure(detail) })
                },
                _ => {
                    next.phase = ExportPhase::Aborted;
                    (
                        next,
                        ExportAction::Abort {
                            error: ExportError::ExternalToolFailure(String::new()),
                        },
                    )
                },
            }
        },
        ExportPhase::RegRender { fi } => {
            match ev {
                ExportEvent::RenderDone { ok, stderr } => {
                    if !ok {
                        next.phase = ExportPhase::Aborted;
                        (
                            next,
                            ExportAction::Abort {
                                error: ExportError::ExternalToolFailure(stderr),
                            },
                        )
                    } else if next.plan.single_file {
                        next.phase = ExportPhase::RegFind { fi };
                        let dir = next.plan.output_dir_for_tool.clone();
                        let ext = next.formats[fi].clone();
                        (next, ExportAction::FindFileByExt { dir, ext })
                    } else {
                        let mut batch = multi_paths(
                            next.output_path.as_str(),
                            &next.artboards,
                            next.formats[fi].as_str(),
                        );
                        next.exported.append(&mut batch);
                        let nf = next.formats.len();
                        if nf - fi > 1 {
                            next.phase = ExportPhase::RegRender { fi: fi + 1 };
                            let items = join_uids(&next.artboards);
                            let output_dir = next.plan.output_dir_for_tool.clone();
                            let format = next.formats[fi + 1].clone();
                            (next, ExportAction::RunRender { format, items, output_dir })
                        } else {
                            next.phase = ExportPhase::Done;
                            let mut finished: Vec<String> = Vec::new();
                            std::mem::swap(&mut finished, &mut next.exported);
                            (next, ExportAction::Finish { exported: finished })
                        }
                    }
                },
                _ => {
                    next.phase = ExportPhase::Aborted;
                    (
                        next,
                        ExportAction::Abort {
                            error: ExportError::ExternalToolFailure(String::new()),
                        },
                    )
                },
            }
        },
        ExportPhase::RegFind { fi } => {
            match ev {
                ExportEvent::FileFound { path } => {
                    match path {
                        Some(found) => {
                            let parent = parent_or_dot_exec(next.output_path.as_str());
                            next.phase = ExportPhase::RegEnsureTargetParent { fi, from: found };
                            (next, ExportAction::EnsureDir { path: parent })
                        },
                        None => {
                            next.phase = ExportPhase::Aborted;
                            let dir = next.plan.output_dir_for_tool.clone();
                            (
                                next,
                                ExportAction::Abort {
                                    error: ExportError::MissingExpectedArtifact(dir),
                                },
                            )
                        },
                    }
                },
                _ => {
                    next.phase = ExportPhase::Aborted;
                    (
                        next,
                        ExportAction::Abort {
                            error: ExportError::ExternalToolFailure(String::new()),
                        },
                    )
                },
            }
        },
        ExportPhase::RegEnsureTargetParent { fi, from } => {
            match ev {
                ExportEvent::Done => {
                    next.phase = ExportPhase::RegCopy { fi };
                    let to = next.output_path.clone();
                    (next, ExportAction::CopyFile { from, to })
                },
                _ => {
                    next.phase = ExportPhase::Aborted;
                    (
                        next,
                        ExportAction::Abort {
                            error: ExportError::ExternalToolFailure(String::new()),
                        },
                    )
                },
            }
        },
        ExportPhase::RegCopy { fi } => {
            match ev {
                ExportEvent::Done => {
                    next.exported.push(next.output_path.clone());
                    if next.keep_raw {
                        // The raw rendering cache is preserved on request.
                        next.phase = ExportPhase::RegCacheCleanup { fi };
                        return reg_advance(next, fi);
                    }
                    next.phase = ExportPhase::RegCacheCleanup { fi };
                    let path = match &next.plan.cache_dir {
                        Some(c) => c.clone(),
                        None => {
                            proof {
                                assert(false);
                            }
                            next.plan.output_dir_for_tool.clone()
                        },
                    };
                    proof {
                        lemma_cache_names_hold_marker();
                        lemma_contains_join_child(
                            parent_or_dot(next.output_path@),
                            ".cache"@,
                            ".cache"@,
                        );
                    }
                    (next, ExportAction::RemoveDir { path })
                },
                _ => {
                    next.phase = ExportPhase::Aborted;
                    (
                        next,
                        ExportAction::Abort {
                            error: ExportError::ExternalToolFailure(String::new()),
                        },
                    )
                },
            }
        },
        ExportPhase::RegCacheCleanup { fi } => {
            // A failed cache removal does not fail the export.
            reg_advance(next, fi)
        },
        ExportPhase::Done => {
            proof {
                assert(false);
            }
            (next, ExportAction::Abort { error: ExportError::ExternalToolFailure(String::new()) })
        },
        ExportPhase::Aborted => {
            proof {
                assert(false);
            }
            (next, ExportAction::Abort { error: ExportError::ExternalToolFailure(String::new()) })
        },
    }
}

/// Moves on to the next plain format, or finishes when none is left.
fn reg_advance(m: ExportMachine, fi: usize) -> (r: (ExportMachine, ExportAction))
    requires
        machine_wf(m),
        fi < m.formats@.len(),
        m.artboards@.len() > 0,
    ensures
        machine_wf(r.0),
        r.0.artboards@ == m.artboards@,
        r.0.formats@ == m.formats@,
        r.0.output_path@ == m.output_path@,
        r.0.has_symbols == m.has_symbols,
        r.0.keep_raw == m.keep_raw,
        !(r.1 matches ExportAction::RemoveDir { path }),
        !(r.1 matches ExportAction::ReadFiles { paths }),
        !(r.1 matches ExportAction::WriteFile { path, content }),
        !(r.1 matches ExportAction::Abort { error }),
        r.1 matches ExportAction::RunRender { format, items, output_dir } ==> m.artboards@.len()
            > 0 && items@ == spec_join_uids(m.artboards@) && r.0.exported@ == m.exported@,
        r.1 matches ExportAction::Finish { exported } ==> exported@ == m.exported@,
        r.1 is RunRender || r.1 is Finish,
{
    let mut next = m;
    let nf = next.formats.len();
    if nf - fi > 1 {
        next.phase = ExportPhase::RegRender { fi: fi + 1 };
        let items = join_uids(&next.artboards);
        let output_dir = next.plan.output_dir_for_tool.clone();
        let format = next.formats[fi + 1].clone();
        (next, ExportAction::RunRender { format, items, output_dir })
    } else {
        next.phase = ExportPhase::Done;
        let mut finished: Vec<String> = Vec::new();
        std::mem::swap(&mut finished, &mut next.exported);
        (next, ExportAction::Finish { exported: finished })
    }
}

/// The contents a files-read event carries.
pub open spec fn files_read_payload(ev: ExportEvent) -> Vec<Option<String>> {
    match ev {
        ExportEvent::FilesRead { contents } => contents,
        _ => arbitrary(),
    }
}

} // verus!
