//! Path classification and the deletion guard.
//!
//! Paths are handled as plain strings with `/` separators. The deletion
//! guard is the last line of defense against a path-construction bug
//! deleting user data: removal is authorized only for a path that is a
//! descendant of the current working directory and carries one of the
//! cache-naming marker substrings.

use vstd::prelude::*;
use crate::chars::{chars_contain, chars_match_at, chars_subrange, chars_to_string, contains_seq,
    str_to_chars};
use crate::error::ExportError;

verus! {

/// Index of the last occurrence of `c` in `s`, or `-1` when absent.
pub open spec fn find_last(s: Seq<char>, c: char) -> int
    decreases s.len(),
{
    if s.len() == 0 {
        -1
    } else if s[s.len() - 1] == c {
        s.len() - 1
    } else {
        find_last(s.drop_last(), c)
    }
}

pub proof fn lemma_find_last_bounds(s: Seq<char>, c: char)
    ensures
        -1 <= find_last(s, c) < s.len(),
        find_last(s, c) >= 0 ==> s[find_last(s, c)] == c,
    decreases s.len(),
{
    if s.len() > 0 && s[s.len() - 1] != c {
        lemma_find_last_bounds(s.drop_last(), c);
        if find_last(s, c) >= 0 {
            assert(s.drop_last()[find_last(s, c)] == s[find_last(s, c)]);
        }
    }
}

/// The final component of a path: everything after the last `/`.
pub open spec fn spec_file_name(s: Seq<char>) -> Seq<char> {
    s.skip(find_last(s, '/') + 1)
}

/// The extension of a path: what follows the last `.` of the file name,
/// provided that dot is neither absent nor the file name's first
/// character (so `.cache` has no extension).
pub open spec fn spec_ext(s: Seq<char>) -> Seq<char> {
    let name = spec_file_name(s);
    let d = find_last(name, '.');
    if d >= 1 {
        name.skip(d + 1)
    } else {
        Seq::empty()
    }
}

/// A path that ends in a non-empty extension names a file; one without
/// names a directory.
pub open spec fn spec_looks_like_file_path(s: Seq<char>) -> bool {
    spec_ext(s).len() > 0
}

/// The directory part of a path: everything before the last `/`, or the
/// root `/` alone, or nothing when the path has a single component.
pub open spec fn spec_parent(s: Seq<char>) -> Option<Seq<char>> {
    let k = find_last(s, '/');
    if k == -1 {
        Option::None
    } else if k == 0 {
        Option::Some(seq!['/'])
    } else {
        Option::Some(s.take(k))
    }
}

/// Joining a path onto a base: empty base yields the child, a base that
/// already ends with `/` is prepended as is, any other base gets a `/`
/// between the two.
pub open spec fn spec_join(base: Seq<char>, child: Seq<char>) -> Seq<char> {
    if base.len() == 0 {
        child
    } else if base[base.len() - 1] == '/' {
        base + child
    } else {
        base + seq!['/'] + child
    }
}

/// `path` lies strictly below the directory `base`.
pub open spec fn spec_is_descendant(path: Seq<char>, base: Seq<char>) -> bool {
    if base.len() > 0 && base[base.len() - 1] == '/' {
        path.len() > base.len() && path.take(base.len() as int) == base
    } else {
        base.len() > 0 && path.len() > base.len() && path.take(base.len() as int) == base
            && path[base.len() as int] == '/'
    }
}

/// A `..` path component starts at `i`: two dots bounded by separators
/// or the ends of the path.
pub open spec fn is_parent_component_at(p: Seq<char>, i: int) -> bool {
    &&& 0 <= i
    &&& i + 2 <= p.len()
    &&& p[i] == '.'
    &&& p[i + 1] == '.'
    &&& (i == 0 || p[i - 1] == '/')
    &&& (i + 2 == p.len() || p[i + 2] == '/')
}

/// The path has a `..` component somewhere. Such a path can textually
/// lie below a directory yet resolve outside it, so the guard refuses
/// it outright.
pub open spec fn has_parent_component(p: Seq<char>) -> bool {
    exists|i: int| is_parent_component_at(p, i)
}

/// Marker substrings that authorize directory removal: the cache naming
/// convention of this system. A path with a `..` component is never
/// authorized, whatever it otherwise looks like.
pub open spec fn spec_dir_removal_authorized(path: Seq<char>, current_dir: Seq<char>) -> bool {
    spec_is_descendant(path, current_dir) && !has_parent_component(path) && (contains_seq(
        path,
        ".cache-symbols"@,
    ) || contains_seq(path, ".cache"@))
}

/// Marker substrings that authorize file removal: the extensions this
/// system itself writes. A path with a `..` component is never
/// authorized.
pub open spec fn spec_file_removal_authorized(path: Seq<char>, current_dir: Seq<char>) -> bool {
    spec_is_descendant(path, current_dir) && !has_parent_component(path) && (contains_seq(
        path,
        ".svg"@,
    ) || contains_seq(path, ".png"@) || contains_seq(path, ".jpeg"@))
}

/// Scans a path for a `..` component.
fn chars_have_parent_component(v: &Vec<char>) -> (r: bool)
    ensures
        r == has_parent_component(v@),
{
    let n = v.len();
    let mut i: usize = 0;
    while n >= 2 && i <= n - 2
        invariant
            i <= n,
            n == v@.len(),
            forall|j: int| 0 <= j < i ==> !is_parent_component_at(v@, j),
        decreases n - i,
    {
        if v[i] == '.' && v[i + 1] == '.' && (i == 0 || v[i - 1] == '/') && (i + 2 == n || v[i
            + 2] == '/') {
            proof {
                assert(is_parent_component_at(v@, i as int));
            }
            return true;
        }
        i = i + 1;
    }
    proof {
        assert(forall|j: int| is_parent_component_at(v@, j) ==> 0 <= j && j + 2 <= n);
    }
    false
}

/// Finds the last occurrence of `c` in `v`.
fn chars_find_last(v: &Vec<char>, c: char) -> (r: Option<usize>)
    ensures
        match r {
            Option::Some(k) => find_last(v@, c) == k as int,
            Option::None => find_last(v@, c) == -1,
        },
{
    let mut i: usize = v.len();
    proof {
        assert(v@.take(v@.len() as int) =~= v@);
    }
    while i > 0
        invariant
            i <= v@.len(),
            find_last(v@, c) == find_last(v@.take(i as int), c),
        decreases i,
    {
        if v[i - 1] == c {
            return Some(i - 1);
        }
        proof {
            assert(v@.take(i as int).drop_last() =~= v@.take(i - 1));
        }
        i = i - 1;
    }
    None
}

/// The final component of `path`: everything after the last `/`.
pub fn file_name(path: &str) -> (r: String)
    ensures
        r@ == spec_file_name(path@),
{
    let v = str_to_chars(path);
    proof {
        lemma_find_last_bounds(v@, '/');
    }
    let from: usize = match chars_find_last(&v, '/') {
        Some(k) => k + 1,
        None => 0,
    };
    let out = chars_subrange(&v, from, v.len());
    proof {
        assert(v@.subrange(from as int, v@.len() as int) =~= v@.skip(find_last(v@, '/') + 1));
    }
    chars_to_string(&out)
}

/// The extension of `path`, or the empty string when it has none.
pub fn path_ext(path: &str) -> (r: String)
    ensures
        r@ == spec_ext(path@),
{
    let name_s = file_name(path);
    let name = str_to_chars(name_s.as_str());
    proof {
        lemma_find_last_bounds(name@, '.');
    }
    match chars_find_last(&name, '.') {
        Some(d) if d >= 1 => {
            let out = chars_subrange(&name, d + 1, name.len());
            proof {
                assert(name@.subrange(d + 1 as int, name@.len() as int) =~= name@.skip(d + 1));
            }
            chars_to_string(&out)
        },
        _ => {
            let out: Vec<char> = Vec::new();
            proof {
                assert(out@ =~= Seq::<char>::empty());
            }
            chars_to_string(&out)
        },
    }
}

/// Returns true if the path looks like a file path (has an extension),
/// false if it looks like a directory path.
pub fn looks_like_file_path(path: &str) -> (r: bool)
    ensures
        r == spec_looks_like_file_path(path@),
{
    let e = path_ext(path);
    let v = str_to_chars(e.as_str());
    v.len() > 0
}

/// The directory part of `path`, when it has one.
pub fn path_parent(path: &str) -> (r: Option<String>)
    ensures
        match r {
            Option::Some(p) => spec_parent(path@) == Option::Some(p@),
            Option::None => spec_parent(path@) == Option::<Seq<char>>::None,
        },
{
    let v = str_to_chars(path);
    proof {
        lemma_find_last_bounds(v@, '/');
    }
    match chars_find_last(&v, '/') {
        None => None,
        Some(k) => {
            if k == 0 {
                let mut root: Vec<char> = Vec::new();
                root.push('/');
                proof {
                    assert(root@ =~= seq!['/']);
                }
                Some(chars_to_string(&root))
            } else {
                let out = chars_subrange(&v, 0, k);
                proof {
                    assert(v@.subrange(0, k as int) =~= v@.take(k as int));
                }
                Some(chars_to_string(&out))
            }
        },
    }
}

/// Joins `child` onto the directory `base`.
pub fn path_join(base: &str, child: &str) -> (r: String)
    ensures
        r@ == spec_join(base@, child@),
{
    let b = str_to_chars(base);
    let c = str_to_chars(child);
    let mut out: Vec<char> = Vec::new();
    let mut i: usize = 0;
    let nb = b.len();
    while i < nb
        invariant
            i <= nb,
            nb == b@.len(),
            out@ == b@.take(i as int),
        decreases nb - i,
    {
        out.push(b[i]);
        i = i + 1;
        proof {
            assert(out@ =~= b@.take(i as int));
        }
    }
    proof {
        assert(out@ =~= b@);
    }
    if nb > 0 && out[nb - 1] != '/' {
        out.push('/');
        proof {
            assert(out@ =~= b@ + seq!['/']);
        }
    }
    let ghost mid: Seq<char> = out@;
    let nc = c.len();
    let mut j: usize = 0;
    while j < nc
        invariant
            j <= nc,
            nc == c@.len(),
            out@ == mid + c@.take(j as int),
        decreases nc - j,
    {
        out.push(c[j]);
        j = j + 1;
        proof {
            assert(out@ =~= mid + c@.take(j as int));
        }
    }
    proof {
        assert(c@.take(nc as int) =~= c@);
        assert(out@ =~= spec_join(base@, child@));
    }
    chars_to_string(&out)
}

/// Decides whether `path` lies strictly below the directory `base`.
pub fn is_descendant_path(path: &str, base: &str) -> (r: bool)
    ensures
        r == spec_is_descendant(path@, base@),
{
    let p = str_to_chars(path);
    let b = str_to_chars(base);
    let np = p.len();
    let nb = b.len();
    if nb == 0 || np <= nb {
        return false;
    }
    let prefix_ok = chars_match_at(&p, &b, 0);
    proof {
        assert(p@.subrange(0, nb as int) =~= p@.take(nb as int));
    }
    if !prefix_ok {
        return false;
    }
    if b[nb - 1] == '/' {
        true
    } else {
        p[nb] == '/'
    }
}

/// Authorizes removing a directory: it must lie below the current working
/// directory and carry one of the cache markers. Refusal reports the path.
pub fn authorize_dir_removal(path: &str, current_dir: &str) -> (r: Result<(), ExportError>)
    ensures
        r is Ok <==> spec_dir_removal_authorized(path@, current_dir@),
        r matches Err(e) ==> e is UnsafeRemoval,
{
    let p = str_to_chars(path);
    let m1 = str_to_chars(".cache-symbols");
    let m2 = str_to_chars(".cache");
    if is_descendant_path(path, current_dir) && !chars_have_parent_component(&p) && (
    chars_contain(&p, &m1) || chars_contain(&p, &m2)) {
        Ok(())
    } else {
        Err(ExportError::UnsafeRemoval(path.to_owned()))
    }
}

/// Authorizes removing a file: it must lie below the current working
/// directory and carry one of the exported-asset extensions as a
/// substring. Refusal reports the path.
pub fn authorize_file_removal(path: &str, current_dir: &str) -> (r: Result<(), ExportError>)
    ensures
        r is Ok <==> spec_file_removal_authorized(path@, current_dir@),
        r matches Err(e) ==> e is UnsafeRemoval,
{
    let p = str_to_chars(path);
    let m1 = str_to_chars(".svg");
    let m2 = str_to_chars(".png");
    let m3 = str_to_chars(".jpeg");
    if is_descendant_path(path, current_dir) && !chars_have_parent_component(&p) && (
    chars_contain(&p, &m1) || chars_contain(&p, &m2) || chars_contain(&p, &m3)) {
        Ok(())
    } else {
        Err(ExportError::UnsafeRemoval(path.to_owned()))
    }
}

} // verus!
