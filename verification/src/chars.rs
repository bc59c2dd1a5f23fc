//! Character-level helpers shared by the string-processing modules:
//! conversions between `&str` and `Vec<char>`, equality and search over
//! character sequences.

use vstd::prelude::*;

verus! {

/// Collects the characters of a string slice into a vector.
pub fn str_to_chars(s: &str) -> (v: Vec<char>)
    ensures
        v@ == s@,
{
    let n = s.unicode_len();
    let mut v: Vec<char> = Vec::new();
    let mut i: usize = 0;
    while i < n
        invariant
            i <= n,
            n == s@.len(),
            v@ == s@.take(i as int),
        decreases n - i,
    {
        v.push(s.get_char(i));
        i = i + 1;
        proof {
            assert(v@ =~= s@.take(i as int));
        }
    }
    proof {
        assert(v@ =~= s@);
    }
    v
}

/// Relies on `String`'s `FromIterator<char>` impl: collecting characters
/// yields the string made of exactly those characters, in order.
#[verifier::external_body]
pub fn chars_to_string(v: &Vec<char>) -> (r: String)
    ensures
        r@ == v@,
{
    v.iter().collect()
}

/// Character-by-character string equality.
pub fn str_eq(a: &str, b: &str) -> (r: bool)
    ensures
        r == (a@ == b@),
{
    let na = a.unicode_len();
    let nb = b.unicode_len();
    if na != nb {
        return false;
    }
    let mut i: usize = 0;
    while i < na
        invariant
            i <= na,
            na == a@.len(),
            na == b@.len(),
            forall|j: int| 0 <= j < i ==> a@[j] == b@[j],
        decreases na - i,
    {
        if a.get_char(i) != b.get_char(i) {
            return false;
        }
        i = i + 1;
    }
    proof {
        assert(a@ =~= b@);
    }
    true
}

/// True when `sub` occurs in `s` starting at index `at`.
pub open spec fn matches_at(s: Seq<char>, sub: Seq<char>, at: int) -> bool {
    0 <= at && at + sub.len() <= s.len() && s.subrange(at, at + sub.len() as int) == sub
}

/// True when `sub` occurs somewhere in `s`.
pub open spec fn contains_seq(s: Seq<char>, sub: Seq<char>) -> bool {
    exists|at: int| matches_at(s, sub, at)
}

/// Checks whether `sub` occurs in `v` starting at index `at`.
pub fn chars_match_at(v: &Vec<char>, sub: &Vec<char>, at: usize) -> (r: bool)
    requires
        at <= v@.len(),
    ensures
        r == matches_at(v@, sub@, at as int),
{
    let n = v.len();
    if sub.len() > n - at {
        return false;
    }
    let m = sub.len();
    let mut j: usize = 0;
    while j < m
        invariant
            j <= m,
            m == sub@.len(),
            n == v@.len(),
            at + m <= n,
            forall|k: int| 0 <= k < j ==> v@[at + k] == sub@[k],
        decreases m - j,
    {
        if v[at + j] != sub[j] {
            proof {
                assert(v@.subrange(at as int, at + m as int)[j as int] == v@[at + j]);
            }
            return false;
        }
        j = j + 1;
    }
    proof {
        assert(v@.subrange(at as int, at + m as int) =~= sub@);
    }
    true
}

/// Checks whether `sub` occurs anywhere in `v`.
pub fn chars_contain(v: &Vec<char>, sub: &Vec<char>) -> (r: bool)
    ensures
        r == contains_seq(v@, sub@),
{
    let n = v.len();
    let mut i: usize = 0;
    while i < n
        invariant
            i <= n,
            n == v@.len(),
            forall|at: int| 0 <= at < i ==> !matches_at(v@, sub@, at),
        decreases n - i,
    {
        if chars_match_at(v, sub, i) {
            return true;
        }
        i = i + 1;
    }
    if chars_match_at(v, sub, n) {
        return true;
    }
    proof {
        assert(forall|at: int| matches_at(v@, sub@, at) ==> 0 <= at <= n);
    }
    false
}

/// Copies the characters of `v` between `from` (inclusive) and `to`
/// (exclusive) into a fresh vector.
pub fn chars_subrange(v: &Vec<char>, from: usize, to: usize) -> (out: Vec<char>)
    requires
        from <= to <= v@.len(),
    ensures
        out@ == v@.subrange(from as int, to as int),
{
    let mut out: Vec<char> = Vec::new();
    let mut j: usize = from;
    while j < to
        invariant
            from <= j <= to <= v@.len(),
            out@ == v@.subrange(from as int, j as int),
        decreases to - j,
    {
        out.push(v[j]);
        j = j + 1;
        proof {
            assert(out@ =~= v@.subrange(from as int, j as int));
        }
    }
    out
}

/// Checks whether the string `s` contains the string `sub`.
pub fn str_contains_str(s: &str, sub: &str) -> (r: bool)
    ensures
        r == contains_seq(s@, sub@),
{
    let v = str_to_chars(s);
    let w = str_to_chars(sub);
    chars_contain(&v, &w)
}

/// The whitespace characters of XML: space, tab, line feed, carriage
/// return.
pub open spec fn is_xml_ws(c: char) -> bool {
    c == ' ' || c == '\t' || c == '\n' || c == '\r'
}

/// Decides `is_xml_ws` for one character.
pub fn char_is_xml_ws(c: char) -> (r: bool)
    ensures
        r == is_xml_ws(c),
{
    c == ' ' || c == '\t' || c == '\n' || c == '\r'
}

/// Removes every leading whitespace character.
pub open spec fn trim_leading_ws(s: Seq<char>) -> Seq<char>
    decreases s.len(),
{
    if s.len() > 0 && is_xml_ws(s[0]) {
        trim_leading_ws(s.drop_first())
    } else {
        s
    }
}

/// Removes every trailing whitespace character.
pub open spec fn trim_trailing_ws(s: Seq<char>) -> Seq<char>
    decreases s.len(),
{
    if s.len() > 0 && is_xml_ws(s[s.len() - 1]) {
        trim_trailing_ws(s.drop_last())
    } else {
        s
    }
}

/// Removes whitespace from both ends.
pub open spec fn trim_ws(s: Seq<char>) -> Seq<char> {
    trim_trailing_ws(trim_leading_ws(s))
}

/// Trims whitespace from both ends of a character vector.
pub fn trim_ws_chars(v: &Vec<char>) -> (out: Vec<char>)
    ensures
        out@ == trim_ws(v@),
{
    let m = v.len();
    let mut start: usize = 0;
    proof {
        assert(v@.skip(0) =~= v@);
    }
    while start < m && char_is_xml_ws(v[start])
        invariant
            start <= m,
            m == v@.len(),
            trim_leading_ws(v@) == trim_leading_ws(v@.skip(start as int)),
        decreases m - start,
    {
        proof {
            assert(v@.skip(start as int).drop_first() =~= v@.skip(start as int + 1));
        }
        start = start + 1;
    }
    proof {
        if start == m {
            assert(v@.skip(start as int) =~= Seq::<char>::empty());
        }
        assert(trim_leading_ws(v@) == v@.skip(start as int));
    }
    let ghost led: Seq<char> = v@.skip(start as int);
    let mut end: usize = m;
    proof {
        assert(led.take(m - start as int) =~= led);
    }
    while end > start && char_is_xml_ws(v[end - 1])
        invariant
            start <= end <= m,
            m == v@.len(),
            led == v@.skip(start as int),
            trim_trailing_ws(led) == trim_trailing_ws(led.take(end - start as int)),
        decreases end,
    {
        proof {
            assert(led.take(end - start as int)[end - 1 - start as int] == v@[end - 1]);
            assert(led.take(end - start as int).drop_last() =~= led.take(end - 1 - start as int));
        }
        end = end - 1;
    }
    proof {
        if end == start {
            assert(led.take(0) =~= Seq::<char>::empty());
        } else {
            assert(led.take(end - start as int)[end - 1 - start as int] == v@[end - 1]);
        }
        assert(trim_trailing_ws(led) == led.take(end - start as int));
        assert(led.take(end - start as int) =~= v@.subrange(start as int, end as int));
    }
    chars_subrange(v, start, end)
}

/// Trims whitespace from both ends of a string.
pub fn trim_ws_str(s: &str) -> (r: String)
    ensures
        r@ == trim_ws(s@),
{
    let v = str_to_chars(s);
    let t = trim_ws_chars(&v);
    chars_to_string(&t)
}

} // verus!
