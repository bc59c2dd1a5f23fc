//! Glob-based artboard name filtering. The pattern compiler and the
//! matching decision itself come from the `globset` crate; this module
//! states what those calls return and keeps the surrounding logic
//! verified.

use vstd::prelude::*;

verus! {

#[verifier::external_type_specification]
#[verifier::external_body]
pub struct ExGlob(globset::Glob);

#[verifier::external_type_specification]
#[verifier::external_body]
pub struct ExGlobSet(globset::GlobSet);

#[verifier::external_type_specification]
#[verifier::external_body]
pub struct ExGlobSetBuilder(globset::GlobSetBuilder);

#[verifier::external_type_specification]
#[verifier::external_body]
pub struct ExGlobError(globset::Error);

/// The pattern text a compiled glob was built from.
pub uninterp spec fn glob_pattern(g: globset::Glob) -> Seq<char>;

/// The pattern texts a builder has accumulated, in insertion order.
pub uninterp spec fn builder_patterns(b: globset::GlobSetBuilder) -> Seq<Seq<char>>;

/// The pattern texts a compiled glob set was built from, in insertion
/// order.
pub uninterp spec fn glob_set_patterns(s: globset::GlobSet) -> Seq<Seq<char>>;

/// The matching decision globset makes: whether a value is matched by at
/// least one of the patterns. A function of the patterns and the value
/// alone.
pub uninterp spec fn glob_match(patterns: Seq<Seq<char>>, value: Seq<char>) -> bool;

/// Whether a pattern text is valid glob syntax: the compiler's own
/// acceptance, a function of the pattern text alone.
pub uninterp spec fn glob_syntax_ok(pattern: Seq<char>) -> bool;

/// Relies on `globset::Glob::new`: compiles one pattern, keeping its
/// text; it fails exactly on invalid pattern syntax, a property of the
/// text alone, and never panics.
#[verifier::external_body]
fn glob_new(pattern: &str) -> (r: Result<globset::Glob, globset::Error>)
    ensures
        r is Ok <==> glob_syntax_ok(pattern@),
        r matches Ok(g) ==> glob_pattern(g) == pattern@,
{
    globset::Glob::new(pattern)
}

/// Relies on `globset::GlobSetBuilder::new`: a fresh builder holds no
/// patterns.
#[verifier::external_body]
fn glob_set_builder_new() -> (b: globset::GlobSetBuilder)
    ensures
        builder_patterns(b) == Seq::<Seq<char>>::empty(),
{
    globset::GlobSetBuilder::new()
}

/// Relies on `globset::GlobSetBuilder::add`: appends one compiled glob to
/// the builder's patterns.
#[verifier::external_body]
fn glob_set_builder_add(b: &mut globset::GlobSetBuilder, g: globset::Glob)
    ensures
        builder_patterns(*final(b)) == builder_patterns(*old(b)).push(glob_pattern(g)),
{
    b.add(g);
}

/// Relies on `globset::GlobSetBuilder::build`: on success the compiled
/// set holds exactly the builder's patterns.
#[verifier::external_body]
fn glob_set_build(b: &globset::GlobSetBuilder) -> (r: Result<globset::GlobSet, globset::Error>)
    ensures
        r matches Ok(s) ==> glob_set_patterns(s) == builder_patterns(*b),
{
    b.build()
}

/// Relies on `globset::GlobSet::is_match`: decides membership of the
/// value in the set's patterns, a function of the patterns and the value.
#[verifier::external_body]
fn glob_set_is_match(s: &globset::GlobSet, value: &str) -> (r: bool)
    ensures
        r == glob_match(glob_set_patterns(*s), value@),
{
    s.is_match(value)
}

/// The patterns' own abstract form.
pub open spec fn pattern_views(patterns: Seq<String>) -> Seq<Seq<char>> {
    patterns.map_values(|p: String| p@)
}

/// The index of the first pattern with invalid syntax at or after `i`.
pub open spec fn first_bad_pattern(pats: Seq<Seq<char>>, i: int) -> Option<int>
    decreases pats.len() - i,
{
    if i < 0 || i >= pats.len() {
        Option::None
    } else if !glob_syntax_ok(pats[i]) {
        Option::Some(i)
    } else {
        first_bad_pattern(pats, i + 1)
    }
}

/// Builds a glob set from pattern strings. No patterns means no set: the
/// caller then matches everything. The first pattern with invalid syntax
/// is named in the error; a failure of the final set build names the
/// whole pattern list.
#[verifier::loop_isolation(false)]
pub fn build_glob_set(patterns: &Vec<String>) -> (r: Result<Option<globset::GlobSet>, crate::error::ExportError>)
    ensures
        patterns@.len() == 0 ==> (r matches Ok(o) && o is None),
        (r matches Ok(o) && patterns@.len() > 0) ==> (r matches Ok(o) && o matches Some(s)
            && glob_set_patterns(s) == pattern_views(patterns@)),
        r matches Err(e) ==> e is InvalidGlob,
        r is Ok ==> first_bad_pattern(pattern_views(patterns@), 0) is None,
        (match first_bad_pattern(pattern_views(patterns@), 0) {
            Option::Some(j) => r matches Err(e) && (e matches crate::error::ExportError::InvalidGlob(p)
                && p@ == pattern_views(patterns@)[j]),
            Option::None => true,
        }),
{
    if patterns.len() == 0 {
        return Ok(None);
    }
    let mut builder = glob_set_builder_new();
    let n = patterns.len();
    let mut i: usize = 0;
    proof {
        assert(builder_patterns(builder) =~= pattern_views(patterns@).take(0));
    }
    while i < n
        invariant
            i <= n,
            n == patterns@.len(),
            builder_patterns(builder) == pattern_views(patterns@).take(i as int),
            first_bad_pattern(pattern_views(patterns@), 0) == first_bad_pattern(
                pattern_views(patterns@),
                i as int,
            ),
        decreases n - i,
    {
        proof {
            assert(pattern_views(patterns@)[i as int] == patterns@[i as int]@);
        }
        let g = match glob_new(patterns[i].as_str()) {
            Ok(g) => g,
            Err(_) => {
                return Err(crate::error::ExportError::InvalidGlob(patterns[i].clone()));
            },
        };
        glob_set_builder_add(&mut builder, g);
        i = i + 1;
        proof {
            assert(builder_patterns(builder) =~= pattern_views(patterns@).take(i as int));
        }
    }
    proof {
        assert(pattern_views(patterns@).take(n as int) =~= pattern_views(patterns@));
        assert(first_bad_pattern(pattern_views(patterns@), n as int) is None);
    }
    match glob_set_build(&builder) {
        Ok(s) => Ok(Some(s)),
        Err(_) => {
            let mut joined = String::new();
            let mut j: usize = 0;
            while j < n
                invariant
                    j <= n,
                    n == patterns@.len(),
                decreases n - j,
            {
                if j > 0 {
                    joined.append(", ");
                }
                joined.append(patterns[j].as_str());
                j = j + 1;
            }
            Err(crate::error::ExportError::InvalidGlob(joined))
        },
    }
}

/// Checks whether a value matches the glob set; with no set present every
/// value matches.
pub fn matches_glob_set(glob_set: Option<&globset::GlobSet>, value: &str) -> (r: bool)
    ensures
        r == match glob_set {
            Option::Some(s) => glob_match(glob_set_patterns(*s), value@),
            Option::None => true,
        },
{
    match glob_set {
        Some(s) => glob_set_is_match(s, value),
        None => true,
    }
}

} // verus!
