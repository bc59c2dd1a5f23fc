//! Stream-level operations on one SVG document's text: reading a root
//! attribute, taking the raw text between the root tags, and rewriting
//! every `id` attribute in place. These work span by span on the original
//! text instead of re-serializing a tree.

use vstd::prelude::*;
use crate::chars::{chars_subrange, chars_to_string, str_to_chars, trim_ws, trim_ws_chars};
use crate::xml_lex::{lex_document, lemma_lex_spans, lemma_spans_ordered, spec_lex, spans_chained,
    token_views, Spanned, SpannedView, Token, TokenView};
use crate::xml_model::{attr_pairs_view, attrs_text, get_attr_value, spec_attr_value,
    spec_attrs_text, spec_transform_attrs, transform_attrs};

verus! {

/// The attributes a tag token carries.
pub open spec fn attrs_of(t: TokenView) -> Seq<(Seq<char>, Seq<char>)> {
    match t {
        TokenView::Open { name, attrs } => attrs,
        TokenView::SelfClose { name, attrs } => attrs,
        _ => Seq::empty(),
    }
}

/// The name a tag token carries.
pub open spec fn tag_name_of(t: TokenView) -> Seq<char> {
    match t {
        TokenView::Open { name, attrs } => name,
        TokenView::SelfClose { name, attrs } => name,
        TokenView::Close { name } => name,
        _ => Seq::empty(),
    }
}

/// Index of the first opening or self-closing tag at or after `i`; every
/// other kind of token before it is passed over.
pub open spec fn first_tag(ts: Seq<SpannedView>, i: int) -> Option<int>
    decreases ts.len() - i,
{
    if i < 0 || i >= ts.len() {
        Option::None
    } else if ts[i].tok is Open || ts[i].tok is SelfClose {
        Option::Some(i)
    } else {
        first_tag(ts, i + 1)
    }
}

/// The named attribute of the first tag of the document — the root
/// element's opening tag when the document is well-formed.
pub open spec fn spec_stream_root_attribute(s: Seq<char>, name: Seq<char>) -> Option<Seq<char>> {
    match spec_lex(s) {
        Option::None => Option::None,
        Option::Some(ts) => match first_tag(ts, 0) {
            Option::None => Option::None,
            Option::Some(k) => spec_attr_value(attrs_of(ts[k].tok), name),
        },
    }
}

/// Index of the close tag that matches an open tag, scanning from `i`
/// with `depth` elements currently open; the matching close must carry
/// the root's name.
pub open spec fn find_close(ts: Seq<SpannedView>, i: int, depth: int, name: Seq<char>) -> Option<
    int,
>
    decreases ts.len() - i,
{
    if i < 0 || i >= ts.len() {
        Option::None
    } else {
        match ts[i].tok {
            TokenView::Open { .. } => find_close(ts, i + 1, depth + 1, name),
            TokenView::Close { name: n } => {
                if depth == 1 {
                    if n == name {
                        Option::Some(i)
                    } else {
                        Option::None
                    }
                } else {
                    find_close(ts, i + 1, depth - 1, name)
                }
            },
            _ => find_close(ts, i + 1, depth, name),
        }
    }
}

/// The raw text between the root's opening tag and its matching close,
/// trimmed; a self-closing root has empty content.
pub open spec fn spec_stream_inner_content(s: Seq<char>) -> Option<Seq<char>> {
    match spec_lex(s) {
        Option::None => Option::None,
        Option::Some(ts) => match first_tag(ts, 0) {
            Option::None => Option::None,
            Option::Some(k) => {
                if ts[k].tok is SelfClose {
                    Option::Some(Seq::empty())
                } else {
                    match find_close(ts, k + 1, 1, tag_name_of(ts[k].tok)) {
                        Option::None => Option::None,
                        Option::Some(m) => Option::Some(
                            trim_ws(s.subrange(ts[k].end, ts[m].start)),
                        ),
                    }
                }
            },
        },
    }
}

/// One token written back out: tags are rebuilt with their `id`
/// attribute canonicalized, everything else is copied verbatim from its
/// span.
pub open spec fn rebuild_token(s: Seq<char>, t: SpannedView) -> Seq<char> {
    match t.tok {
        TokenView::Open { name, attrs } => "<"@ + name + spec_attrs_text(
            spec_transform_attrs(attrs),
        ) + ">"@,
        TokenView::SelfClose { name, attrs } => "<"@ + name + spec_attrs_text(
            spec_transform_attrs(attrs),
        ) + "/>"@,
        _ => s.subrange(t.start, t.end),
    }
}

/// All tokens from `i` on, written back out in order.
pub open spec fn rebuild_tokens(s: Seq<char>, ts: Seq<SpannedView>, i: int) -> Seq<char>
    decreases ts.len() - i,
{
    if i < 0 || i >= ts.len() {
        Seq::empty()
    } else {
        rebuild_token(s, ts[i]) + rebuild_tokens(s, ts, i + 1)
    }
}

/// The document with every `id` attribute canonicalized; a document that
/// does not scan is returned unchanged.
pub open spec fn spec_stream_transform(s: Seq<char>) -> Seq<char> {
    match spec_lex(s) {
        Option::None => s,
        Option::Some(ts) => rebuild_tokens(s, ts, 0),
    }
}

/// Finds the first opening or self-closing tag in a token list.
#[verifier::loop_isolation(false)]
fn first_tag_index(toks: &Vec<Spanned>) -> (r: Option<usize>)
    ensures
        match r {
            Option::Some(k) => first_tag(token_views(toks@), 0) == Option::Some(k as int) && k
                < toks@.len() && (token_views(toks@)[k as int].tok is Open || token_views(
                toks@,
            )[k as int].tok is SelfClose),
            Option::None => first_tag(token_views(toks@), 0) is None,
        },
{
    let ghost tsv = token_views(toks@);
    let n = toks.len();
    let mut i: usize = 0;
    while i < n
        invariant
            i <= n,
            first_tag(tsv, 0) == first_tag(tsv, i as int),
        decreases n - i,
    {
        proof {
            assert(tsv[i as int] == toks@[i as int]@);
        }
        let is_tag = match &toks[i].tok {
            Token::Open { .. } => true,
            Token::SelfClose { .. } => true,
            _ => false,
        };
        if is_tag {
            return Some(i);
        }
        i = i + 1;
    }
    None
}

/// Extracts an attribute value from an SVG/XML string's root element.
/// Returns `None` if the attribute is not found or the content is
/// invalid.
pub fn extract_root_attribute(xml_content: &str, attr_name: &str) -> (r: Option<String>)
    ensures
        match r {
            Option::Some(v) => spec_stream_root_attribute(xml_content@, attr_name@)
                == Option::Some(v@),
            Option::None => spec_stream_root_attribute(xml_content@, attr_name@) is None,
        },
{
    let chars = str_to_chars(xml_content);
    let toks = match lex_document(&chars) {
        None => {
            return None;
        },
        Some(toks) => toks,
    };
    let k = match first_tag_index(&toks) {
        None => {
            return None;
        },
        Some(k) => k,
    };
    proof {
        assert(token_views(toks@)[k as int] == toks@[k as int]@);
    }
    match &toks[k].tok {
        Token::Open { name: _, attrs } => {
            proof {
                assert(attrs_of(token_views(toks@)[k as int].tok) =~= attr_pairs_view(attrs@));
            }
            get_attr_value(attrs, attr_name)
        },
        Token::SelfClose { name: _, attrs } => {
            proof {
                assert(attrs_of(token_views(toks@)[k as int].tok) =~= attr_pairs_view(attrs@));
            }
            get_attr_value(attrs, attr_name)
        },
        _ => {
            proof {
                assert(false);
            }
            None
        },
    }
}

/// Extracts the raw inner content of the root element, trimmed. A
/// self-closing root yields the empty string, not `None`.
#[verifier::loop_isolation(false)]
pub fn extract_root_inner_content(xml_content: &str) -> (r: Option<String>)
    ensures
        match r {
            Option::Some(text) => spec_stream_inner_content(xml_content@) == Option::Some(text@),
            Option::None => spec_stream_inner_content(xml_content@) is None,
        },
{
    let chars = str_to_chars(xml_content);
    let toks = match lex_document(&chars) {
        None => {
            return None;
        },
        Some(toks) => toks,
    };
    let ghost tsv = token_views(toks@);
    proof {
        lemma_lex_spans(xml_content@, 0);
    }
    let n = toks.len();
    let k = match first_tag_index(&toks) {
        None => {
            return None;
        },
        Some(k) => k,
    };
    proof {
        assert(tsv[k as int] == toks@[k as int]@);
    }
    let is_self_close = match &toks[k].tok {
        Token::SelfClose { .. } => true,
        _ => false,
    };
    if is_self_close {
        return Some(String::new());
    }
    let root_name = match &toks[k].tok {
        Token::Open { name, .. } => name.clone(),
        _ => {
            proof {
                assert(false);
            }
            return None;
        },
    };
    proof {
        assert(tag_name_of(tsv[k as int].tok) == root_name@);
    }
    let mut j: usize = k + 1;
    let mut depth: usize = 1;
    while j < n
        invariant
            k + 1 <= j <= n,
            1 <= depth <= j,
            find_close(tsv, k + 1 as int, 1, root_name@) == find_close(
                tsv,
                j as int,
                depth as int,
                root_name@,
            ),
        decreases n - j,
    {
        proof {
            assert(tsv[j as int] == toks@[j as int]@);
        }
        let mut done = false;
        match &toks[j].tok {
            Token::Open { .. } => {
                depth = depth + 1;
            },
            Token::Close { name } => {
                if depth == 1 {
                    if crate::chars::str_eq(name.as_str(), root_name.as_str()) {
                        done = true;
                    } else {
                        proof {
                            assert(find_close(tsv, j as int, depth as int, root_name@) is None);
                        }
                        return None;
                    }
                } else {
                    depth = depth - 1;
                }
            },
            _ => {},
        }
        if done {
            proof {
                assert(find_close(tsv, k + 1 as int, 1, root_name@) == Option::Some(j as int));
                lemma_spans_ordered(tsv, 0, xml_content@.len() as int, k as int, j as int);
            }
            let content_start = toks[k].end;
            let content_end = toks[j].start;
            let raw = chars_subrange(&chars, content_start, content_end);
            let trimmed = trim_ws_chars(&raw);
            return Some(chars_to_string(&trimmed));
        }
        j = j + 1;
    }
    proof {
        assert(find_close(tsv, j as int, depth as int, root_name@) is None);
    }
    None
}

/// Rebuilds one tag with its `id` attribute canonicalized.
fn rebuilt_tag(name: &String, attrs: &Vec<(String, String)>, self_close: bool) -> (r: String)
    ensures
        r@ == "<"@ + name@ + spec_attrs_text(spec_transform_attrs(attr_pairs_view(attrs@))) + (
        if self_close {
            "/>"@
        } else {
            ">"@
        }),
{
    let new_attrs = transform_attrs(attrs);
    let at = attrs_text(&new_attrs);
    let mut out = String::new();
    out.append("<");
    out.append(name.as_str());
    out.append(at.as_str());
    if self_close {
        out.append("/>");
    } else {
        out.append(">");
    }
    proof {
        assert(out@ =~= "<"@ + name@ + spec_attrs_text(spec_transform_attrs(attr_pairs_view(
            attrs@,
        ))) + (if self_close {
            "/>"@
        } else {
            ">"@
        }));
    }
    out
}

/// Transforms every `id` attribute value in the document, leaving all
/// other attributes and every other kind of content byte-for-byte as it
/// was. A document that does not scan is returned unchanged.
#[verifier::loop_isolation(false)]
#[verifier::rlimit(100)]
pub fn transform_id_attributes(xml_content: &str) -> (r: String)
    ensures
        r@ == spec_stream_transform(xml_content@),
{
    let chars = str_to_chars(xml_content);
    let toks = match lex_document(&chars) {
        None => {
            return xml_content.to_owned();
        },
        Some(toks) => toks,
    };
    let ghost tsv = token_views(toks@);
    proof {
        lemma_lex_spans(xml_content@, 0);
    }
    let n = toks.len();
    let mut out = String::new();
    let mut i: usize = 0;
    proof {
        assert(out@ + rebuild_tokens(xml_content@, tsv, 0) =~= rebuild_tokens(
            xml_content@,
            tsv,
            0,
        ));
    }
    while i < n
        invariant
            i <= n,
            rebuild_tokens(xml_content@, tsv, 0) == out@ + rebuild_tokens(
                xml_content@,
                tsv,
                i as int,
            ),
        decreases n - i,
    {
        proof {
            assert(tsv[i as int] == toks@[i as int]@);
        }
        let piece: String = match &toks[i].tok {
            Token::Open { name, attrs } => {
                let p = rebuilt_tag(name, attrs, false);
                proof {
                    assert(attrs_of(tsv[i as int].tok) =~= attr_pairs_view(attrs@));
                    assert(p@ =~= rebuild_token(xml_content@, tsv[i as int]));
                }
                p
            },
            Token::SelfClose { name, attrs } => {
                let p = rebuilt_tag(name, attrs, true);
                proof {
                    assert(attrs_of(tsv[i as int].tok) =~= attr_pairs_view(attrs@));
                    assert(p@ =~= rebuild_token(xml_content@, tsv[i as int]));
                }
                p
            },
            _ => {
                let start = toks[i].start;
                let end = toks[i].end;
                let raw = chars_subrange(&chars, start, end);
                let p = chars_to_string(&raw);
                proof {
                    assert(p@ =~= rebuild_token(xml_content@, tsv[i as int]));
                }
                p
            },
        };
        out.append(piece.as_str());
        i = i + 1;
        proof {
            assert(out@ + rebuild_tokens(xml_content@, tsv, i as int) =~= rebuild_tokens(
                xml_content@,
                tsv,
                0,
            ));
        }
    }
    proof {
        assert(rebuild_tokens(xml_content@, tsv, n as int) =~= Seq::<char>::empty());
        assert(out@ =~= rebuild_tokens(xml_content@, tsv, 0));
    }
    out
}

} // verus!
