//! A scanner for the XML subset that SVG documents use: tags with quoted
//! attributes, text, CDATA sections, comments and processing
//! instructions. Every token records the half-open character span it was
//! read from, so callers can recover the raw text of any region.
//!
//! Attribute values are entity-decoded as they are read — the five
//! predefined names and numeric character references — and the
//! serializer escapes them again on the way out. Text between tags is
//! carried verbatim.

use vstd::prelude::*;
use crate::chars::{chars_match_at, chars_subrange, chars_to_string, is_xml_ws, char_is_xml_ws,
    matches_at, trim_ws, trim_ws_chars};

verus! {

/// The abstract form of one token.
pub enum TokenView {
    Open { name: Seq<char>, attrs: Seq<(Seq<char>, Seq<char>)> },
    SelfClose { name: Seq<char>, attrs: Seq<(Seq<char>, Seq<char>)> },
    Close { name: Seq<char> },
    Text { body: Seq<char> },
    CData { body: Seq<char> },
    Comment { body: Seq<char> },
    Pi { body: Seq<char> },
}

/// An abstract token with the character span it occupies.
pub struct SpannedView {
    pub tok: TokenView,
    pub start: int,
    pub end: int,
}

/// One concrete token.
pub enum Token {
    Open { name: String, attrs: Vec<(String, String)> },
    SelfClose { name: String, attrs: Vec<(String, String)> },
    Close { name: String },
    Text { body: String },
    CData { body: String },
    Comment { body: String },
    Pi { body: String },
}

/// A concrete token with the character span it occupies.
pub struct Spanned {
    pub tok: Token,
    pub start: usize,
    pub end: usize,
}

/// The abstract form of an attribute list.
pub open spec fn attrs_view(attrs: Seq<(String, String)>) -> Seq<(Seq<char>, Seq<char>)> {
    attrs.map_values(|p: (String, String)| (p.0@, p.1@))
}

impl View for Token {
    type V = TokenView;

    open spec fn view(&self) -> TokenView {
        match self {
            Token::Open { name, attrs } => TokenView::Open { name: name@, attrs: attrs_view(attrs@) },
            Token::SelfClose { name, attrs } => TokenView::SelfClose {
                name: name@,
                attrs: attrs_view(attrs@),
            },
            Token::Close { name } => TokenView::Close { name: name@ },
            Token::Text { body } => TokenView::Text { body: body@ },
            Token::CData { body } => TokenView::CData { body: body@ },
            Token::Comment { body } => TokenView::Comment { body: body@ },
            Token::Pi { body } => TokenView::Pi { body: body@ },
        }
    }
}

impl View for Spanned {
    type V = SpannedView;

    open spec fn view(&self) -> SpannedView {
        SpannedView { tok: self.tok@, start: self.start as int, end: self.end as int }
    }
}

/// The abstract form of a token list.
pub open spec fn token_views(ts: Seq<Spanned>) -> Seq<SpannedView> {
    ts.map_values(|t: Spanned| t@)
}

/// A character that may appear in a tag or attribute name.
pub open spec fn is_name_char(c: char) -> bool {
    !is_xml_ws(c) && c != '>' && c != '/' && c != '=' && c != '<' && c != '"' && c != '\''
}

/// Decides `is_name_char` for one character.
fn char_is_name_char(c: char) -> (r: bool)
    ensures
        r == is_name_char(c),
{
    !char_is_xml_ws(c) && c != '>' && c != '/' && c != '=' && c != '<' && c != '"' && c != '\''
}

/// Index of the first occurrence of `c` at or after `i`, or the length of
/// `s` when there is none.
pub open spec fn find_from(s: Seq<char>, i: int, c: char) -> int
    decreases s.len() - i,
{
    if i >= s.len() {
        s.len() as int
    } else if s[i] == c {
        i
    } else {
        find_from(s, i + 1, c)
    }
}

pub proof fn lemma_find_from(s: Seq<char>, i: int, c: char)
    requires
        0 <= i <= s.len(),
    ensures
        i <= find_from(s, i, c) <= s.len(),
        find_from(s, i, c) < s.len() ==> s[find_from(s, i, c)] == c,
        forall|j: int| i <= j < find_from(s, i, c) ==> s[j] != c,
    decreases s.len() - i,
{
    if i < s.len() && s[i] != c {
        lemma_find_from(s, i + 1, c);
    }
}

/// Index of the first occurrence of the pattern at or after `i`, or the
/// length of `s` when there is none.
pub open spec fn find_sub(s: Seq<char>, i: int, pat: Seq<char>) -> int
    decreases s.len() - i,
{
    if i >= s.len() {
        s.len() as int
    } else if matches_at(s, pat, i) {
        i
    } else {
        find_sub(s, i + 1, pat)
    }
}

pub proof fn lemma_find_sub(s: Seq<char>, i: int, pat: Seq<char>)
    requires
        0 <= i <= s.len(),
    ensures
        i <= find_sub(s, i, pat) <= s.len(),
        find_sub(s, i, pat) < s.len() ==> matches_at(s, pat, find_sub(s, i, pat)),
        forall|j: int| i <= j < find_sub(s, i, pat) ==> !matches_at(s, pat, j),
    decreases s.len() - i,
{
    if i < s.len() && !matches_at(s, pat, i) {
        lemma_find_sub(s, i + 1, pat);
    }
}

/// Index of the first non-whitespace character at or after `i`.
pub open spec fn skip_ws(s: Seq<char>, i: int) -> int
    decreases s.len() - i,
{
    if i >= s.len() {
        s.len() as int
    } else if is_xml_ws(s[i]) {
        skip_ws(s, i + 1)
    } else {
        i
    }
}

pub proof fn lemma_skip_ws(s: Seq<char>, i: int)
    requires
        0 <= i <= s.len(),
    ensures
        i <= skip_ws(s, i) <= s.len(),
        skip_ws(s, i) < s.len() ==> !is_xml_ws(s[skip_ws(s, i)]),
    decreases s.len() - i,
{
    if i < s.len() && is_xml_ws(s[i]) {
        lemma_skip_ws(s, i + 1);
    }
}

/// Index of the first character at or after `i` that cannot be part of a
/// name.
pub open spec fn name_end(s: Seq<char>, i: int) -> int
    decreases s.len() - i,
{
    if i >= s.len() {
        s.len() as int
    } else if is_name_char(s[i]) {
        name_end(s, i + 1)
    } else {
        i
    }
}

pub proof fn lemma_name_end(s: Seq<char>, i: int)
    requires
        0 <= i <= s.len(),
    ensures
        i <= name_end(s, i) <= s.len(),
    decreases s.len() - i,
{
    if i < s.len() && is_name_char(s[i]) {
        lemma_name_end(s, i + 1);
    }
}

/// A decimal digit.
pub open spec fn is_dec_digit(c: char) -> bool {
    48 <= c as u32 <= 57
}

/// A hexadecimal digit.
pub open spec fn is_hex_digit(c: char) -> bool {
    is_dec_digit(c) || (97 <= c as u32 <= 102) || (65 <= c as u32 <= 70)
}

/// The value of one hexadecimal digit.
pub open spec fn hex_digit_val(c: char) -> int {
    if is_dec_digit(c) {
        c as u32 - 48
    } else if 97 <= c as u32 <= 102 {
        c as u32 - 87
    } else {
        c as u32 - 55
    }
}

/// The number the decimal digits spell.
pub open spec fn dec_value(s: Seq<char>) -> int
    decreases s.len(),
{
    if s.len() == 0 {
        0
    } else {
        dec_value(s.drop_last()) * 10 + (s.last() as u32 - 48)
    }
}

/// The number the hexadecimal digits spell.
pub open spec fn hex_value(s: Seq<char>) -> int
    decreases s.len(),
{
    if s.len() == 0 {
        0
    } else {
        hex_value(s.drop_last()) * 16 + hex_digit_val(s.last())
    }
}

/// A non-empty run of decimal digits.
pub open spec fn all_dec(s: Seq<char>) -> bool {
    s.len() > 0 && (forall|i: int| 0 <= i < s.len() ==> is_dec_digit(#[trigger] s[i]))
}

/// A non-empty run of hexadecimal digits.
pub open spec fn all_hex(s: Seq<char>) -> bool {
    s.len() > 0 && (forall|i: int| 0 <= i < s.len() ==> is_hex_digit(#[trigger] s[i]))
}

/// A Unicode scalar value: what a `char` can hold.
pub open spec fn is_scalar_value(u: int) -> bool {
    (0 <= u < 0xD800) || (0xE000 <= u <= 0x10FFFF)
}

/// The character with the given code point.
pub open spec fn char_of_scalar(u: int) -> char {
    choose|c: char| (#[trigger] (c as u32)) as int == u
}

/// Every character is the character of its own code point.
proof fn lemma_char_of_scalar(c: char)
    ensures
        char_of_scalar((c as u32) as int) == c,
{
    let u: int = (c as u32) as int;
    assert(exists|cx: char| (#[trigger] (cx as u32)) as int == u) by {
        assert((c as u32) as int == u);
    }
    let cx = char_of_scalar(u);
    assert((cx as u32) as int == u);
    vstd::utf8::char_u32_cast(cx, cx as u32);
    vstd::utf8::char_u32_cast(c, c as u32);
}

/// Relies on `char::from_u32`: yields the character with that code
/// point exactly when the value is a Unicode scalar (not a surrogate,
/// not above the character maximum), and nothing otherwise.
#[verifier::external_body]
fn char_from_u32(u: u32) -> (r: Option<char>)
    ensures
        r is Some <==> is_scalar_value(u as int),
        r matches Some(c) ==> c as u32 == u,
{
    char::from_u32(u)
}

/// The character a predefined entity name stands for.
pub open spec fn named_entity_char(name: Seq<char>) -> Option<char> {
    if name == seq!['a', 'm', 'p'] {
        Option::Some('&')
    } else if name == seq!['l', 't'] {
        Option::Some('<')
    } else if name == seq!['g', 't'] {
        Option::Some('>')
    } else if name == seq!['q', 'u', 'o', 't'] {
        Option::Some('"')
    } else if name == seq!['a', 'p', 'o', 's'] {
        Option::Some('\'')
    } else {
        Option::None
    }
}

/// The character an entity body between `&` and `;` stands for: one of
/// the five predefined names, a decimal character reference `#...`, or a
/// hexadecimal one `#x...`; anything else decodes to nothing and is left
/// as it stands.
pub open spec fn entity_char(body: Seq<char>) -> Option<char> {
    if named_entity_char(body) is Some {
        named_entity_char(body)
    } else if body.len() >= 3 && body[0] == '#' && body[1] == 'x' {
        let d = body.subrange(2, body.len() as int);
        if all_hex(d) && is_scalar_value(hex_value(d)) {
            Option::Some(char_of_scalar(hex_value(d)))
        } else {
            Option::None
        }
    } else if body.len() >= 2 && body[0] == '#' {
        let d = body.subrange(1, body.len() as int);
        if all_dec(d) && is_scalar_value(dec_value(d)) {
            Option::Some(char_of_scalar(dec_value(d)))
        } else {
            Option::None
        }
    } else {
        Option::None
    }
}

/// Reads a run of digits as a number, in the given base, refusing a run
/// that is not all digits or spells a number above the character
/// maximum.
#[verifier::loop_isolation(false)]
fn parse_scalar_digits(v: &Vec<char>, from: usize, to: usize, hex: bool) -> (r: Option<u32>)
    requires
        from <= to <= v@.len(),
    ensures
        ({
            let d = v@.subrange(from as int, to as int);
            let ok = if hex {
                all_hex(d)
            } else {
                all_dec(d)
            };
            let val = if hex {
                hex_value(d)
            } else {
                dec_value(d)
            };
            match r {
                Option::Some(u) => ok && u as int == val && val <= 0x10FFFF,
                Option::None => !(ok && val <= 0x10FFFF),
            }
        }),
{
    let ghost d = v@.subrange(from as int, to as int);
    proof {
        assert(forall|x: int| 0 <= x < d.len() ==> d[x] == v@[from + x]);
    }
    if to == from {
        return None;
    }
    let mut u: u32 = 0;
    let mut saturated = false;
    let mut j: usize = from;
    proof {
        assert(d.subrange(0, 0) =~= Seq::<char>::empty());
    }
    while j < to
        invariant
            from <= j <= to,
            forall|x: int| 0 <= x < j - from ==> (if hex {
                is_hex_digit(#[trigger] d[x])
            } else {
                is_dec_digit(d[x])
            }),
            !saturated ==> u <= 0x10FFFF && u as int == (if hex {
                hex_value(d.subrange(0, j - from))
            } else {
                dec_value(d.subrange(0, j - from))
            }),
            saturated ==> (if hex {
                hex_value(d.subrange(0, j - from))
            } else {
                dec_value(d.subrange(0, j - from))
            }) > 0x10FFFF,
        decreases to - j,
    {
        let c = v[j];
        let cu = c as u32;
        let dv: u32 = if 48 <= cu && cu <= 57 {
            cu - 48
        } else if hex && 97 <= cu && cu <= 102 {
            cu - 87
        } else if hex && 65 <= cu && cu <= 70 {
            cu - 55
        } else {
            proof {
                assert(d[j - from] == c);
            }
            return None;
        };
        let base: u32 = if hex {
            16
        } else {
            10
        };
        proof {
            assert(d.subrange(0, j + 1 - from).drop_last() =~= d.subrange(0, j - from));
            assert(d.subrange(0, j + 1 - from).last() == c);
        }
        if !saturated {
            let nu = u * base + dv;
            if nu > 0x10FFFF {
                saturated = true;
            } else {
                u = nu;
            }
        }
        j = j + 1;
    }
    proof {
        assert(d.subrange(0, to - from) =~= d);
    }
    if saturated {
        None
    } else {
        Some(u)
    }
}

/// Decodes the body of one entity reference, or reports that it is not a
/// known entity.
fn entity_char_exec(v: &Vec<char>, from: usize, to: usize) -> (r: Option<char>)
    requires
        from <= to <= v@.len(),
    ensures
        ({
            let body = v@.subrange(from as int, to as int);
            match r {
                Option::Some(c) => entity_char(body) == Option::Some(c),
                Option::None => entity_char(body) is None,
            }
        }),
{
    let ghost body = v@.subrange(from as int, to as int);
    proof {
        assert(forall|x: int| 0 <= x < body.len() ==> body[x] == v@[from + x]);
    }
    let len = to - from;
    if len == 3 && v[from] == 'a' && v[from + 1] == 'm' && v[from + 2] == 'p' {
        proof {
            assert(body =~= seq!['a', 'm', 'p']);
        }
        return Some('&');
    }
    if len == 2 && v[from] == 'l' && v[from + 1] == 't' {
        proof {
            assert(body =~= seq!['l', 't']);
        }
        return Some('<');
    }
    if len == 2 && v[from] == 'g' && v[from + 1] == 't' {
        proof {
            assert(body =~= seq!['g', 't']);
        }
        return Some('>');
    }
    if len == 4 && v[from] == 'q' && v[from + 1] == 'u' && v[from + 2] == 'o' && v[from + 3]
        == 't' {
        proof {
            assert(body =~= seq!['q', 'u', 'o', 't']);
        }
        return Some('"');
    }
    if len == 4 && v[from] == 'a' && v[from + 1] == 'p' && v[from + 2] == 'o' && v[from + 3]
        == 's' {
        proof {
            assert(body =~= seq!['a', 'p', 'o', 's']);
        }
        return Some('\'');
    }
    proof {
        if body.len() == 2 {
            assert(body[0] == v@[from as int]);
            assert(body[1] == v@[from + 1]);
        }
        if body.len() == 3 {
            assert(body[0] == v@[from as int]);
            assert(body[1] == v@[from + 1]);
            assert(body[2] == v@[from + 2]);
        }
        if body.len() == 4 {
            assert(body[0] == v@[from as int]);
            assert(body[1] == v@[from + 1]);
            assert(body[2] == v@[from + 2]);
            assert(body[3] == v@[from + 3]);
        }
        assert(named_entity_char(body) is None);
    }
    if len >= 3 && v[from] == '#' && v[from + 1] == 'x' {
        proof {
            assert(body.subrange(2, body.len() as int) =~= v@.subrange(from + 2, to as int));
        }
        match parse_scalar_digits(v, from + 2, to, true) {
            Some(u) => scalar_to_entity_char(u, Ghost(body)),
            None => None,
        }
    } else if len >= 2 && v[from] == '#' {
        proof {
            assert(body.subrange(1, body.len() as int) =~= v@.subrange(from + 1, to as int));
        }
        match parse_scalar_digits(v, from + 1, to, false) {
            Some(u) => scalar_to_entity_char(u, Ghost(body)),
            None => None,
        }
    } else {
        None
    }
}

/// Turns a parsed code point into the character a numeric reference
/// stands for, refusing surrogate values.
fn scalar_to_entity_char(u: u32, Ghost(body): Ghost<Seq<char>>) -> (r: Option<char>)
    requires
        u <= 0x10FFFF,
        entity_char(body) == (if is_scalar_value(u as int) {
            Option::Some(char_of_scalar(u as int))
        } else {
            Option::<char>::None
        }),
    ensures
        ({
            match r {
                Option::Some(c) => entity_char(body) == Option::Some(c),
                Option::None => entity_char(body) is None,
            }
        }),
{
    match char_from_u32(u) {
        Some(c) => {
            proof {
                lemma_char_of_scalar(c);
                assert(char_of_scalar(u as int) == c);
            }
            Some(c)
        },
        None => None,
    }
}

/// A text with its entity references decoded: each `&...;` whose body is
/// a known entity becomes that character; everything else, an unknown or
/// unterminated reference included, is kept as it stands.
pub open spec fn unescape_from(s: Seq<char>, i: int) -> Seq<char>
    decreases s.len() - i,
{
    if i < 0 || i >= s.len() {
        Seq::empty()
    } else if s[i] == '&' {
        let k = find_from(s, i + 1, ';');
        let next = if k + 1 <= i {
            i + 1
        } else {
            k + 1
        };
        if k < s.len() {
            match entity_char(s.subrange(i + 1, k)) {
                Option::Some(c) => seq![c] + unescape_from(s, next),
                Option::None => seq!['&'] + unescape_from(s, i + 1),
            }
        } else {
            seq!['&'] + unescape_from(s, i + 1)
        }
    } else {
        seq![s[i]] + unescape_from(s, i + 1)
    }
}

/// A text with its entity references decoded.
pub open spec fn spec_unescape(s: Seq<char>) -> Seq<char> {
    unescape_from(s, 0)
}

/// Decodes the entity references of a text.
#[verifier::loop_isolation(false)]
pub fn unescape_chars(v: &Vec<char>) -> (out: Vec<char>)
    ensures
        out@ == spec_unescape(v@),
{
    let n = v.len();
    let mut out: Vec<char> = Vec::new();
    let mut i: usize = 0;
    proof {
        assert(out@ + unescape_from(v@, 0) =~= unescape_from(v@, 0));
    }
    while i < n
        invariant
            i <= n,
            spec_unescape(v@) == out@ + unescape_from(v@, i as int),
        decreases n - i,
    {
        let c = v[i];
        if c == '&' {
            let k = find_char_at(v, i + 1, ';');
            proof {
                lemma_find_from(v@, i + 1 as int, ';');
            }
            if k < n {
                match entity_char_exec(v, i + 1, k) {
                    Some(dc) => {
                        out.push(dc);
                        i = k + 1;
                    },
                    None => {
                        out.push('&');
                        i = i + 1;
                    },
                }
            } else {
                out.push('&');
                i = i + 1;
            }
        } else {
            out.push(c);
            i = i + 1;
        }
        proof {
            assert(out@ + unescape_from(v@, i as int) =~= spec_unescape(v@));
        }
    }
    proof {
        assert(unescape_from(v@, n as int) =~= Seq::<char>::empty());
        assert(out@ =~= spec_unescape(v@));
    }
    out
}

/// Reads the attribute list of a tag starting at `i`, up to and including
/// the closing `>` or `/>`. Yields the attributes in document order, a
/// flag for self-closing tags, and the index one past the tag.
pub open spec fn scan_attrs(s: Seq<char>, i: int) -> Option<
    (Seq<(Seq<char>, Seq<char>)>, bool, int),
>
    decreases s.len() - i,
{
    if i >= s.len() {
        Option::None
    } else {
        let j = skip_ws(s, i);
        if j >= s.len() {
            Option::None
        } else if s[j] == '>' {
            Option::Some((Seq::empty(), false, j + 1))
        } else if s[j] == '/' {
            if j + 1 < s.len() && s[j + 1] == '>' {
                Option::Some((Seq::empty(), true, j + 2))
            } else {
                Option::None
            }
        } else {
            let ne = name_end(s, j);
            if ne == j {
                Option::None
            } else {
                let k = skip_ws(s, ne);
                if k >= s.len() || s[k] != '=' {
                    Option::None
                } else {
                    let q = skip_ws(s, k + 1);
                    if q >= s.len() || (s[q] != '"' && s[q] != '\'') {
                        Option::None
                    } else {
                        let v_end = find_from(s, q + 1, s[q]);
                        if v_end >= s.len() {
                            Option::None
                        } else {
                            let next = if v_end + 1 <= i {
                                i + 1
                            } else {
                                v_end + 1
                            };
                            match scan_attrs(s, next) {
                                Option::None => Option::None,
                                Option::Some((rest, sc, end)) => Option::Some(
                                    (
                                        seq![
                                            (
                                                s.subrange(j, ne),
                                                spec_unescape(s.subrange(q + 1, v_end)),
                                            ),
                                        ] + rest,
                                        sc,
                                        end,
                                    ),
                                ),
                            }
                        }
                    }
                }
            }
        }
    }
}

pub proof fn lemma_scan_attrs_end(s: Seq<char>, i: int)
    requires
        0 <= i <= s.len(),
    ensures
        scan_attrs(s, i) matches Option::Some(t) ==> i < t.2 <= s.len(),
    decreases s.len() - i,
{
    if i < s.len() {
        let j = skip_ws(s, i);
        lemma_skip_ws(s, i);
        if j < s.len() && s[j] != '>' && !(s[j] == '/') {
            let ne = name_end(s, j);
            lemma_name_end(s, j);
            if ne != j {
                let k = skip_ws(s, ne);
                lemma_skip_ws(s, ne);
                if !(k >= s.len() || s[k] != '=') {
                    let q = skip_ws(s, k + 1);
                    lemma_skip_ws(s, k + 1);
                    if !(q >= s.len() || (s[q] != '"' && s[q] != '\'')) {
                        let v_end = find_from(s, q + 1, s[q]);
                        lemma_find_from(s, q + 1, s[q]);
                        if v_end < s.len() {
                            let next = if v_end + 1 <= i {
                                i + 1
                            } else {
                                v_end + 1
                            };
                            lemma_scan_attrs_end(s, next);
                        }
                    }
                }
            }
        }
    }
}

/// The opening of a comment, `<!--`.
pub open spec fn comment_open() -> Seq<char> {
    seq!['<', '!', '-', '-']
}

/// The end of a comment, `-->`.
pub open spec fn comment_close() -> Seq<char> {
    seq!['-', '-', '>']
}

/// The opening of a CDATA section, `<![CDATA[`.
pub open spec fn cdata_open() -> Seq<char> {
    seq!['<', '!', '[', 'C', 'D', 'A', 'T', 'A', '[']
}

/// The end of a CDATA section, `]]>`.
pub open spec fn cdata_close() -> Seq<char> {
    seq![']', ']', '>']
}

/// The end of a processing instruction, `?>`.
pub open spec fn pi_close() -> Seq<char> {
    seq!['?', '>']
}

/// Reads one token starting at `i`.
pub open spec fn scan_token(s: Seq<char>, i: int) -> Option<SpannedView> {
    if i < 0 || i >= s.len() {
        Option::None
    } else if s[i] != '<' {
        let e = find_from(s, i + 1, '<');
        Option::Some(
            SpannedView { tok: TokenView::Text { body: s.subrange(i, e) }, start: i, end: e },
        )
    } else if i + 1 >= s.len() {
        Option::None
    } else if s[i + 1] == '/' {
        let k = find_from(s, i + 2, '>');
        if k >= s.len() {
            Option::None
        } else {
            let name = trim_ws(s.subrange(i + 2, k));
            if name.len() == 0 {
                Option::None
            } else {
                Option::Some(
                    SpannedView { tok: TokenView::Close { name }, start: i, end: k + 1 },
                )
            }
        }
    } else if s[i + 1] == '?' {
        let k = find_sub(s, i + 2, pi_close());
        if k >= s.len() {
            Option::None
        } else {
            Option::Some(
                SpannedView {
                    tok: TokenView::Pi { body: s.subrange(i + 2, k) },
                    start: i,
                    end: k + 2,
                },
            )
        }
    } else if s[i + 1] == '!' {
        if matches_at(s, comment_open(), i) {
            let k = find_sub(s, i + 4, comment_close());
            if k >= s.len() {
                Option::None
            } else {
                Option::Some(
                    SpannedView {
                        tok: TokenView::Comment { body: s.subrange(i + 4, k) },
                        start: i,
                        end: k + 3,
                    },
                )
            }
        } else if matches_at(s, cdata_open(), i) {
            let k = find_sub(s, i + 9, cdata_close());
            if k >= s.len() {
                Option::None
            } else {
                Option::Some(
                    SpannedView {
                        tok: TokenView::CData { body: s.subrange(i + 9, k) },
                        start: i,
                        end: k + 3,
                    },
                )
            }
        } else {
            Option::None
        }
    } else {
        let ne = name_end(s, i + 1);
        if ne == i + 1 {
            Option::None
        } else {
            match scan_attrs(s, ne) {
                Option::None => Option::None,
                Option::Some((attrs, sc, end)) => {
                    let name = s.subrange(i + 1, ne);
                    if sc {
                        Option::Some(
                            SpannedView {
                                tok: TokenView::SelfClose { name, attrs },
                                start: i,
                                end,
                            },
                        )
                    } else {
                        Option::Some(
                            SpannedView { tok: TokenView::Open { name, attrs }, start: i, end },
                        )
                    }
                },
            }
        }
    }
}

pub proof fn lemma_scan_token_end(s: Seq<char>, i: int)
    requires
        0 <= i < s.len(),
    ensures
        scan_token(s, i) matches Option::Some(t) ==> t.start == i && i < t.end <= s.len(),
{
    if s[i] != '<' {
        lemma_find_from(s, i + 1, '<');
    } else if i + 1 < s.len() {
        if s[i + 1] == '/' {
            lemma_find_from(s, i + 2, '>');
        } else if s[i + 1] == '?' {
            lemma_find_sub(s, i + 2, pi_close());
        } else if s[i + 1] == '!' {
            if matches_at(s, comment_open(), i) {
                lemma_find_sub(s, i + 4, comment_close());
            } else if matches_at(s, cdata_open(), i) {
                lemma_find_sub(s, i + 9, cdata_close());
            }
        } else {
            lemma_name_end(s, i + 1);
            let ne = name_end(s, i + 1);
            if 0 <= ne <= s.len() {
                lemma_scan_attrs_end(s, ne);
            }
        }
    }
}

/// Scans the whole document into tokens, or nothing when some region is
/// not well-formed.
pub open spec fn spec_lex_from(s: Seq<char>, i: int) -> Option<Seq<SpannedView>>
    decreases s.len() - i,
{
    if i >= s.len() {
        Option::Some(Seq::empty())
    } else {
        match scan_token(s, i) {
            Option::None => Option::None,
            Option::Some(t) => {
                let next = if t.end <= i || t.end > s.len() {
                    i + 1
                } else {
                    t.end
                };
                match spec_lex_from(s, next) {
                    Option::None => Option::None,
                    Option::Some(rest) => Option::Some(seq![t] + rest),
                }
            },
        }
    }
}

/// The token sequence of a document.
pub open spec fn spec_lex(s: Seq<char>) -> Option<Seq<SpannedView>> {
    spec_lex_from(s, 0)
}

/// Spans are contiguous: the first token starts at `i`, each next token
/// starts where the previous one ended, and all spans stay inside `hi`.
pub open spec fn spans_chained(ts: Seq<SpannedView>, i: int, hi: int) -> bool {
    forall|k: int|
        0 <= k < ts.len() ==> (#[trigger] ts[k]).start == (
        if k == 0 {
            i
        } else {
            ts[k - 1].end
        }) && ts[k].start < ts[k].end <= hi
}

pub proof fn lemma_lex_spans(s: Seq<char>, i: int)
    requires
        0 <= i <= s.len(),
    ensures
        spec_lex_from(s, i) matches Option::Some(ts) ==> spans_chained(ts, i, s.len() as int),
    decreases s.len() - i,
{
    if i < s.len() {
        match scan_token(s, i) {
            Option::None => {},
            Option::Some(t) => {
                lemma_scan_token_end(s, i);
                let next = if t.end <= i || t.end > s.len() {
                    i + 1
                } else {
                    t.end
                };
                lemma_lex_spans(s, next);
                match spec_lex_from(s, next) {
                    Option::None => {},
                    Option::Some(rest) => {
                        let ts = seq![t] + rest;
                        assert(ts[0] == t);
                        assert(forall|k: int| 0 < k < ts.len() ==> ts[k] == rest[k - 1]);
                        assert(spans_chained(ts, i, s.len() as int));
                    },
                }
            },
        }
    }
}

/// In a chained token list, an earlier token's span ends before a later
/// token's span starts.
pub proof fn lemma_spans_ordered(ts: Seq<SpannedView>, i: int, hi: int, a: int, b: int)
    requires
        spans_chained(ts, i, hi),
        0 <= a < b < ts.len(),
    ensures
        ts[a].end <= ts[b].start,
    decreases b - a,
{
    if b == a + 1 {
        assert(ts[b].start == ts[a].end);
    } else {
        lemma_spans_ordered(ts, i, hi, a, b - 1);
        assert(ts[b].start == ts[b - 1].end);
    }
}

/// Finds the first occurrence of `c` in `v` at or after `i`, returning
/// the length of `v` when there is none.
pub fn find_char_at(v: &Vec<char>, i: usize, c: char) -> (r: usize)
    requires
        i <= v@.len(),
    ensures
        r as int == find_from(v@, i as int, c),
{
    let n = v.len();
    let mut j: usize = i;
    while j < n
        invariant
            i <= j <= n,
            n == v@.len(),
            find_from(v@, i as int, c) == find_from(v@, j as int, c),
        decreases n - j,
    {
        if v[j] == c {
            return j;
        }
        j = j + 1;
    }
    j
}

/// Finds the first occurrence of the pattern in `v` at or after `i`,
/// returning the length of `v` when there is none.
pub fn find_sub_at(v: &Vec<char>, i: usize, pat: &Vec<char>) -> (r: usize)
    requires
        i <= v@.len(),
    ensures
        r as int == find_sub(v@, i as int, pat@),
{
    let n = v.len();
    let mut j: usize = i;
    while j < n
        invariant
            i <= j <= n,
            n == v@.len(),
            find_sub(v@, i as int, pat@) == find_sub(v@, j as int, pat@),
        decreases n - j,
    {
        if chars_match_at(v, pat, j) {
            return j;
        }
        j = j + 1;
    }
    j
}

/// Finds the first non-whitespace character at or after `i`.
pub(crate) fn skip_ws_at(v: &Vec<char>, i: usize) -> (r: usize)
    requires
        i <= v@.len(),
    ensures
        r as int == skip_ws(v@, i as int),
{
    let n = v.len();
    let mut j: usize = i;
    while j < n
        invariant
            i <= j <= n,
            n == v@.len(),
            skip_ws(v@, i as int) == skip_ws(v@, j as int),
        decreases n - j,
    {
        if !char_is_xml_ws(v[j]) {
            return j;
        }
        j = j + 1;
    }
    j
}

/// Finds the first character at or after `i` that cannot be part of a
/// name.
fn name_end_at(v: &Vec<char>, i: usize) -> (r: usize)
    requires
        i <= v@.len(),
    ensures
        r as int == name_end(v@, i as int),
{
    let n = v.len();
    let mut j: usize = i;
    while j < n
        invariant
            i <= j <= n,
            n == v@.len(),
            name_end(v@, i as int) == name_end(v@, j as int),
        decreases n - j,
    {
        if !char_is_name_char(v[j]) {
            return j;
        }
        j = j + 1;
    }
    j
}

/// Reads the attribute list of a tag starting at `i`.
fn scan_attrs_at(v: &Vec<char>, i: usize) -> (r: Option<(Vec<(String, String)>, bool, usize)>)
    requires
        i <= v@.len(),
    ensures
        match r {
            Option::Some(t) => scan_attrs(v@, i as int) == Option::Some(
                (attrs_view(t.0@), t.1, t.2 as int),
            ) && i < t.2 <= v@.len(),
            Option::None => scan_attrs(v@, i as int) is None,
        },
    decreases v@.len() - i,
{
    let n = v.len();
    if i >= n {
        return None;
    }
    let j = skip_ws_at(v, i);
    proof {
        lemma_skip_ws(v@, i as int);
    }
    if j >= n {
        return None;
    }
    if v[j] == '>' {
        let attrs: Vec<(String, String)> = Vec::new();
        proof {
            assert(attrs_view(attrs@) =~= Seq::<(Seq<char>, Seq<char>)>::empty());
        }
        return Some((attrs, false, j + 1));
    }
    if v[j] == '/' {
        if j + 1 < n && v[j + 1] == '>' {
            let attrs: Vec<(String, String)> = Vec::new();
            proof {
                assert(attrs_view(attrs@) =~= Seq::<(Seq<char>, Seq<char>)>::empty());
            }
            return Some((attrs, true, j + 2));
        }
        return None;
    }
    let ne = name_end_at(v, j);
    proof {
        lemma_name_end(v@, j as int);
    }
    if ne == j {
        return None;
    }
    let k = skip_ws_at(v, ne);
    proof {
        lemma_skip_ws(v@, ne as int);
    }
    if k >= n || v[k] != '=' {
        return None;
    }
    let q = skip_ws_at(v, k + 1);
    proof {
        lemma_skip_ws(v@, k + 1 as int);
    }
    if q >= n || (v[q] != '"' && v[q] != '\'') {
        return None;
    }
    let v_end = find_char_at(v, q + 1, v[q]);
    proof {
        lemma_find_from(v@, q + 1 as int, v@[q as int]);
    }
    if v_end >= n {
        return None;
    }
    let next = v_end + 1;
    match scan_attrs_at(v, next) {
        None => None,
        Some((rest, sc, end)) => {
            let name_chars = chars_subrange(v, j, ne);
            let raw_value = chars_subrange(v, q + 1, v_end);
            let value_chars = unescape_chars(&raw_value);
            let name_s = chars_to_string(&name_chars);
            let value_s = chars_to_string(&value_chars);
            let mut pairs = rest;
            pairs.insert(0, (name_s, value_s));
            proof {
                assert(attrs_view(pairs@) =~= seq![
                    (
                        v@.subrange(j as int, ne as int),
                        spec_unescape(v@.subrange(q + 1 as int, v_end as int)),
                    ),
                ] + attrs_view(pairs@.drop_first()));
            }
            Some((pairs, sc, end))
        },
    }
}

/// Reads one token starting at `i`.
fn scan_token_at(v: &Vec<char>, i: usize) -> (r: Option<Spanned>)
    requires
        i < v@.len(),
    ensures
        match r {
            Option::Some(t) => scan_token(v@, i as int) == Option::Some(t@) && t.start == i && i
                < t.end <= v@.len(),
            Option::None => scan_token(v@, i as int) is None,
        },
{
    let n = v.len();
    proof {
        lemma_scan_token_end(v@, i as int);
    }
    if v[i] != '<' {
        let e = find_char_at(v, i + 1, '<');
        proof {
            lemma_find_from(v@, i + 1 as int, '<');
        }
        let body_chars = chars_subrange(v, i, e);
        let body = chars_to_string(&body_chars);
        return Some(Spanned { tok: Token::Text { body }, start: i, end: e });
    }
    if i + 1 >= n {
        return None;
    }
    if v[i + 1] == '/' {
        let k = find_char_at(v, i + 2, '>');
        proof {
            lemma_find_from(v@, i + 2 as int, '>');
        }
        if k >= n {
            return None;
        }
        let raw = chars_subrange(v, i + 2, k);
        let name_chars = trim_ws_chars(&raw);
        if name_chars.len() == 0 {
            return None;
        }
        let name = chars_to_string(&name_chars);
        return Some(Spanned { tok: Token::Close { name }, start: i, end: k + 1 });
    }
    if v[i + 1] == '?' {
        let mut pat: Vec<char> = Vec::new();
        pat.push('?');
        pat.push('>');
        proof {
            assert(pat@ =~= pi_close());
        }
        let k = find_sub_at(v, i + 2, &pat);
        proof {
            lemma_find_sub(v@, i + 2 as int, pi_close());
        }
        if k >= n {
            return None;
        }
        let body_chars = chars_subrange(v, i + 2, k);
        let body = chars_to_string(&body_chars);
        return Some(Spanned { tok: Token::Pi { body }, start: i, end: k + 2 });
    }
    if v[i + 1] == '!' {
        let mut copen: Vec<char> = Vec::new();
        copen.push('<');
        copen.push('!');
        copen.push('-');
        copen.push('-');
        proof {
            assert(copen@ =~= comment_open());
        }
        if chars_match_at(v, &copen, i) {
            let mut cclose: Vec<char> = Vec::new();
            cclose.push('-');
            cclose.push('-');
            cclose.push('>');
            proof {
                assert(cclose@ =~= comment_close());
            }
            let k = find_sub_at(v, i + 4, &cclose);
            proof {
                lemma_find_sub(v@, i + 4 as int, comment_close());
            }
            if k >= n {
                return None;
            }
            let body_chars = chars_subrange(v, i + 4, k);
            let body = chars_to_string(&body_chars);
            return Some(Spanned { tok: Token::Comment { body }, start: i, end: k + 3 });
        }
        let mut dopen: Vec<char> = Vec::new();
        dopen.push('<');
        dopen.push('!');
        dopen.push('[');
        dopen.push('C');
        dopen.push('D');
        dopen.push('A');
        dopen.push('T');
        dopen.push('A');
        dopen.push('[');
        proof {
            assert(dopen@ =~= cdata_open());
        }
        if chars_match_at(v, &dopen, i) {
            let mut dclose: Vec<char> = Vec::new();
            dclose.push(']');
            dclose.push(']');
            dclose.push('>');
            proof {
                assert(dclose@ =~= cdata_close());
            }
            let k = find_sub_at(v, i + 9, &dclose);
            proof {
                lemma_find_sub(v@, i + 9 as int, cdata_close());
            }
            if k >= n {
                return None;
            }
            let body_chars = chars_subrange(v, i + 9, k);
            let body = chars_to_string(&body_chars);
            return Some(Spanned { tok: Token::CData { body }, start: i, end: k + 3 });
        }
        return None;
    }
    let ne = name_end_at(v, i + 1);
    proof {
        lemma_name_end(v@, i + 1 as int);
    }
    if ne == i + 1 {
        return None;
    }
    match scan_attrs_at(v, ne) {
        None => None,
        Some((attrs, sc, end)) => {
            let name_chars = chars_subrange(v, i + 1, ne);
            let name = chars_to_string(&name_chars);
            if sc {
                Some(Spanned { tok: Token::SelfClose { name, attrs }, start: i, end })
            } else {
                Some(Spanned { tok: Token::Open { name, attrs }, start: i, end })
            }
        },
    }
}

/// Prefixes a token list onto a lexing outcome; failure stays failure.
pub open spec fn opt_prepend(pre: Seq<SpannedView>, o: Option<Seq<SpannedView>>) -> Option<
    Seq<SpannedView>,
> {
    match o {
        Option::Some(r) => Option::Some(pre + r),
        Option::None => Option::None,
    }
}

/// Scans a whole document into its token list, or reports that some
/// region is not well-formed.
pub fn lex_document(v: &Vec<char>) -> (r: Option<Vec<Spanned>>)
    ensures
        match r {
            Option::Some(toks) => spec_lex(v@) == Option::Some(token_views(toks@)),
            Option::None => spec_lex(v@) is None,
        },
{
    let n = v.len();
    let mut toks: Vec<Spanned> = Vec::new();
    let mut i: usize = 0;
    proof {
        assert(token_views(toks@) =~= Seq::<SpannedView>::empty());
        assert(opt_prepend(token_views(toks@), spec_lex_from(v@, 0)) == spec_lex(v@));
    }
    while i < n
        invariant
            i <= n,
            n == v@.len(),
            opt_prepend(token_views(toks@), spec_lex_from(v@, i as int)) == spec_lex(v@),
        decreases n - i,
    {
        match scan_token_at(v, i) {
            None => {
                return None;
            },
            Some(t) => {
                let ghost pre = token_views(toks@);
                let ghost tv = t@;
                let next = t.end;
                toks.push(t);
                proof {
                    assert(token_views(toks@) =~= pre.push(tv));
                    match spec_lex_from(v@, next as int) {
                        Option::None => {},
                        Option::Some(rest) => {
                            assert(pre + (seq![tv] + rest) =~= pre.push(tv) + rest);
                        },
                    }
                }
                i = next;
            },
        }
    }
    proof {
        assert(spec_lex_from(v@, i as int) == Option::Some(Seq::<SpannedView>::empty()));
        assert(token_views(toks@) + Seq::<SpannedView>::empty() =~= token_views(toks@));
    }
    Some(toks)
}

} // verus!
