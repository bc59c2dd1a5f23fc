//! Name canonicalization: turning a hierarchical, human-readable artboard
//! name into an identifier-safe slug made of ASCII alphanumerics and single
//! dashes.

use vstd::prelude::*;
use crate::chars::{chars_to_string, str_to_chars};

verus! {

/// True for ASCII letters and digits, the only characters a canonical
/// slug may contain besides single dashes.
pub open spec fn is_slug_char(c: char) -> bool {
    ('a' <= c && c <= 'z') || ('A' <= c && c <= 'Z') || ('0' <= c && c <= '9')
}

/// Decides `is_slug_char` for one character.
pub fn char_is_slug_char(c: char) -> (r: bool)
    ensures
        r == is_slug_char(c),
{
    ('a' <= c && c <= 'z') || ('A' <= c && c <= 'Z') || ('0' <= c && c <= '9')
}

/// One pass over the input: every slug character is kept, every run of
/// other characters becomes a single dash. `prev_dash` records whether the
/// previous emitted character was already a dash.
pub open spec fn canon_core(s: Seq<char>, prev_dash: bool) -> Seq<char>
    decreases s.len(),
{
    if s.len() == 0 {
        Seq::empty()
    } else if is_slug_char(s[0]) {
        seq![s[0]] + canon_core(s.drop_first(), false)
    } else if prev_dash {
        canon_core(s.drop_first(), true)
    } else {
        seq!['-'] + canon_core(s.drop_first(), true)
    }
}

/// Removes every leading dash.
pub open spec fn trim_leading_dashes(s: Seq<char>) -> Seq<char>
    decreases s.len(),
{
    if s.len() > 0 && s[0] == '-' {
        trim_leading_dashes(s.drop_first())
    } else {
        s
    }
}

/// Removes every trailing dash.
pub open spec fn trim_trailing_dashes(s: Seq<char>) -> Seq<char>
    decreases s.len(),
{
    if s.len() > 0 && s[s.len() - 1] == '-' {
        trim_trailing_dashes(s.drop_last())
    } else {
        s
    }
}

/// The canonical slug of a name: non-alphanumeric runs become single
/// dashes, then leading and trailing dashes are stripped.
pub open spec fn spec_canonicalize(s: Seq<char>) -> Seq<char> {
    trim_trailing_dashes(trim_leading_dashes(canon_core(s, false)))
}

/// Every character is an ASCII alphanumeric or a dash.
pub open spec fn slug_chars_only(s: Seq<char>) -> bool {
    forall|i: int| 0 <= i < s.len() ==> is_slug_char(#[trigger] s[i]) || s[i] == '-'
}

/// No two adjacent dashes.
pub open spec fn no_double_dash(s: Seq<char>) -> bool {
    forall|i: int| 0 <= i < s.len() - 1 ==> !(#[trigger] s[i] == '-' && s[i + 1] == '-')
}

/// What it means for a string to be a canonical slug: alphanumerics and
/// single dashes only, with no dash at either end.
pub open spec fn is_canonical_slug(s: Seq<char>) -> bool {
    &&& slug_chars_only(s)
    &&& no_double_dash(s)
    &&& (s.len() > 0 ==> s[0] != '-' && s[s.len() - 1] != '-')
}

/// Canonicalizes a name: replaces every run of non-alphanumeric characters
/// with a single dash and strips leading and trailing dashes.
pub fn canonicalize_name(name: &str) -> (r: String)
    ensures
        r@ == spec_canonicalize(name@),
{
    let chars = str_to_chars(name);
    let n = chars.len();
    let mut collapsed: Vec<char> = Vec::new();
    let mut prev_dash = false;
    let mut i: usize = 0;
    proof {
        assert(name@.skip(0) =~= name@);
        assert(collapsed@ + canon_core(name@, false) =~= canon_core(name@, false));
    }
    while i < n
        invariant
            i <= n,
            n == chars@.len(),
            chars@ == name@,
            canon_core(name@, false) == collapsed@ + canon_core(name@.skip(i as int), prev_dash),
        decreases n - i,
    {
        let c = chars[i];
        proof {
            assert(name@.skip(i as int)[0] == c);
            assert(name@.skip(i as int).drop_first() =~= name@.skip(i as int + 1));
        }
        if char_is_slug_char(c) {
            collapsed.push(c);
            prev_dash = false;
        } else if !prev_dash {
            collapsed.push('-');
            prev_dash = true;
        }
        i = i + 1;
        proof {
            assert(canon_core(name@, false) == collapsed@ + canon_core(
                name@.skip(i as int),
                prev_dash,
            ));
        }
    }
    proof {
        assert(name@.skip(n as int) =~= Seq::<char>::empty());
        assert(canon_core(name@, false) =~= collapsed@);
    }
    // Strip the leading and trailing dashes from the collapsed form.
    let m = collapsed.len();
    let mut start: usize = 0;
    proof {
        assert(collapsed@.skip(0) =~= collapsed@);
    }
    while start < m && collapsed[start] == '-'
        invariant
            start <= m,
            m == collapsed@.len(),
            trim_leading_dashes(collapsed@) == trim_leading_dashes(collapsed@.skip(start as int)),
        decreases m - start,
    {
        proof {
            assert(collapsed@.skip(start as int).drop_first() =~= collapsed@.skip(
                start as int + 1,
            ));
        }
        start = start + 1;
    }
    proof {
        if start == m {
            assert(collapsed@.skip(start as int) =~= Seq::<char>::empty());
        }
        assert(trim_leading_dashes(collapsed@) == collapsed@.skip(start as int));
    }
    let ghost led: Seq<char> = collapsed@.skip(start as int);
    let mut end: usize = m;
    proof {
        assert(led.take(m - start as int) =~= led);
    }
    while end > start && collapsed[end - 1] == '-'
        invariant
            start <= end <= m,
            m == collapsed@.len(),
            led == collapsed@.skip(start as int),
            trim_trailing_dashes(led) == trim_trailing_dashes(
                led.take(end - start as int),
            ),
        decreases end,
    {
        proof {
            assert(led.take(end - start as int)[end - 1 - start as int] == collapsed@[end
                - 1]);
            assert(led.take(end - start as int).drop_last() =~= led.take(
                end - 1 - start as int,
            ));
        }
        end = end - 1;
    }
    proof {
        if end == start {
            assert(led.take(0) =~= Seq::<char>::empty());
        } else {
            assert(led.take(end - start as int)[end - 1 - start as int] == collapsed@[end - 1]);
        }
        assert(trim_trailing_dashes(led) == led.take(end - start as int));
        assert(led.take(end - start as int) =~= collapsed@.subrange(start as int, end as int));
    }
    let mut out: Vec<char> = Vec::new();
    let mut j: usize = start;
    while j < end
        invariant
            start <= j <= end <= m,
            m == collapsed@.len(),
            out@ == collapsed@.subrange(start as int, j as int),
        decreases end - j,
    {
        out.push(collapsed[j]);
        j = j + 1;
        proof {
            assert(out@ =~= collapsed@.subrange(start as int, j as int));
        }
    }
    chars_to_string(&out)
}

/// Every character that `canon_core` emits is an alphanumeric or a dash,
/// no two dashes are adjacent, and with `prev_dash` set the result never
/// starts with a dash.
proof fn lemma_canon_core_shape(s: Seq<char>, prev_dash: bool)
    ensures
        slug_chars_only(canon_core(s, prev_dash)),
        no_double_dash(canon_core(s, prev_dash)),
        prev_dash && canon_core(s, prev_dash).len() > 0 ==> canon_core(s, prev_dash)[0] != '-',
    decreases s.len(),
{
    if s.len() == 0 {
    } else if is_slug_char(s[0]) {
        lemma_canon_core_shape(s.drop_first(), false);
        let rest = canon_core(s.drop_first(), false);
        let whole = seq![s[0]] + rest;
        assert(forall|i: int| 0 < i < whole.len() ==> whole[i] == rest[i - 1]);
    } else if prev_dash {
        lemma_canon_core_shape(s.drop_first(), true);
    } else {
        lemma_canon_core_shape(s.drop_first(), true);
        let rest = canon_core(s.drop_first(), true);
        let whole = seq!['-'] + rest;
        assert(forall|i: int| 0 < i < whole.len() ==> whole[i] == rest[i - 1]);
    }
}

/// Trimming leading dashes keeps a suffix of the input and leaves no
/// leading dash.
proof fn lemma_trim_leading_suffix(s: Seq<char>)
    ensures
        exists|k: int| 0 <= k <= s.len() && trim_leading_dashes(s) =~= s.skip(k),
        trim_leading_dashes(s).len() > 0 ==> trim_leading_dashes(s)[0] != '-',
    decreases s.len(),
{
    if s.len() > 0 && s[0] == '-' {
        lemma_trim_leading_suffix(s.drop_first());
        let k0 = choose|k: int|
            0 <= k <= s.drop_first().len() && trim_leading_dashes(s.drop_first()) =~= s
                .drop_first().skip(k);
        assert(s.drop_first().skip(k0) =~= s.skip(k0 + 1));
        assert(trim_leading_dashes(s) =~= s.skip(k0 + 1));
    } else {
        assert(trim_leading_dashes(s) =~= s.skip(0));
    }
}

/// Trimming trailing dashes keeps a prefix of the input and leaves no
/// trailing dash.
proof fn lemma_trim_trailing_prefix(s: Seq<char>)
    ensures
        exists|k: int| 0 <= k <= s.len() && trim_trailing_dashes(s) =~= s.take(k),
        trim_trailing_dashes(s).len() > 0 ==> trim_trailing_dashes(s)[trim_trailing_dashes(
            s,
        ).len() - 1] != '-',
    decreases s.len(),
{
    if s.len() > 0 && s[s.len() - 1] == '-' {
        lemma_trim_trailing_prefix(s.drop_last());
        let k0 = choose|k: int|
            0 <= k <= s.drop_last().len() && trim_trailing_dashes(s.drop_last()) =~= s
                .drop_last().take(k);
        assert(s.drop_last().take(k0) =~= s.take(k0));
        assert(trim_trailing_dashes(s) =~= s.take(k0));
    } else {
        assert(trim_trailing_dashes(s) =~= s.take(s.len() as int));
    }
}

/// A contiguous slice of a string with alphanumerics and single dashes
/// only still has alphanumerics and single dashes only.
proof fn lemma_shape_subrange(s: Seq<char>, lo: int, hi: int)
    requires
        slug_chars_only(s),
        no_double_dash(s),
        0 <= lo <= hi <= s.len(),
    ensures
        slug_chars_only(s.subrange(lo, hi)),
        no_double_dash(s.subrange(lo, hi)),
{
    let t = s.subrange(lo, hi);
    assert(forall|i: int| 0 <= i < t.len() ==> t[i] == s[lo + i]);
}

/// The canonical slug of any string is made of ASCII alphanumerics and
/// single dashes and has no dash at either end.
pub proof fn lemma_canonicalize_is_slug(s: Seq<char>)
    ensures
        is_canonical_slug(spec_canonicalize(s)),
{
    let core = canon_core(s, false);
    lemma_canon_core_shape(s, false);
    lemma_trim_leading_suffix(core);
    let led = trim_leading_dashes(core);
    let k1 = choose|k: int| 0 <= k <= core.len() && led =~= core.skip(k);
    assert(core.skip(k1) =~= core.subrange(k1, core.len() as int));
    lemma_shape_subrange(core, k1, core.len() as int);
    lemma_trim_trailing_prefix(led);
    let out = trim_trailing_dashes(led);
    let k2 = choose|k: int| 0 <= k <= led.len() && out =~= led.take(k);
    assert(led.take(k2) =~= led.subrange(0, k2));
    lemma_shape_subrange(led, 0, k2);
    if out.len() > 0 {
        assert(out[0] == led[0]);
    }
}

/// On a string whose characters are already alphanumerics or isolated
/// dashes, and which does not start with a dash when `prev_dash` is set,
/// the collapsing pass changes nothing.
proof fn lemma_canon_core_fixpoint(s: Seq<char>, prev_dash: bool)
    requires
        slug_chars_only(s),
        no_double_dash(s),
        prev_dash && s.len() > 0 ==> s[0] != '-',
    ensures
        canon_core(s, prev_dash) == s,
    decreases s.len(),
{
    if s.len() == 0 {
        assert(canon_core(s, prev_dash) =~= s);
    } else {
        let rest = s.drop_first();
        assert(forall|i: int| 0 <= i < rest.len() ==> rest[i] == s[i + 1]);
        if is_slug_char(s[0]) {
            lemma_canon_core_fixpoint(rest, false);
            assert(canon_core(s, prev_dash) =~= s);
        } else {
            assert(s[0] == '-');
            assert(!prev_dash);
            if rest.len() > 0 {
                assert(!(s[0] == '-' && s[1] == '-'));
                assert(rest[0] != '-');
            }
            lemma_canon_core_fixpoint(rest, true);
            assert(canon_core(s, prev_dash) =~= s);
        }
    }
}

/// Canonicalizing is idempotent: a canonical slug canonicalizes to itself.
pub proof fn lemma_canonicalize_idempotent(s: Seq<char>)
    ensures
        spec_canonicalize(spec_canonicalize(s)) == spec_canonicalize(s),
{
    let slug = spec_canonicalize(s);
    lemma_canonicalize_is_slug(s);
    lemma_canon_core_fixpoint(slug, false);
    if slug.len() > 0 {
        assert(trim_leading_dashes(slug) == slug);
        assert(trim_trailing_dashes(slug) == slug);
    } else {
        assert(trim_leading_dashes(slug) == slug);
        assert(trim_trailing_dashes(slug) == slug);
    }
}

} // verus!
