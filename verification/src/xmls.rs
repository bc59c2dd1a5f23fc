//! Tree-level operations on one SVG document: parse the text into a
//! single root element, read its attributes, take its children, and
//! serialize nodes back to text. Any parse failure is reported as
//! `None`, never a panic.

use vstd::prelude::*;
use crate::chars::{str_to_chars, trim_ws, trim_ws_str};
use crate::xml_lex::{lex_document, spec_lex, token_views, Spanned, SpannedView, TokenView};
use crate::xml_model::{attr_pairs_view, element_view, get_attr_value, lemma_nodes_view_len,
    lemma_nodes_view_push, node_view, nodes_to_string, nodes_view, spec_attr_value,
    spec_nodes_to_text, XmlElement, XmlElementView, XmlNode, XmlNodeView};

verus! {

/// The abstract form of a stack of open elements.
pub open spec fn stack_views(st: Seq<XmlElement>) -> Seq<XmlElementView> {
    st.map_values(|e: XmlElement| element_view(e))
}

/// Attaches a finished node: to the children of the innermost open
/// element, or to the top level when no element is open.
pub open spec fn fold_push_node(
    stack: Seq<XmlElementView>,
    tops: Seq<XmlNodeView>,
    n: XmlNodeView,
) -> (Seq<XmlElementView>, Seq<XmlNodeView>) {
    if stack.len() == 0 {
        (stack, tops.push(n))
    } else {
        let top = stack.last();
        (
            stack.drop_last().push(
                XmlElementView { name: top.name, attrs: top.attrs, children: top.children.push(n) },
            ),
            tops,
        )
    }
}

/// Applies one token to the building state. A close tag must match the
/// innermost open element, else the document is rejected.
pub open spec fn fold_token(
    stack: Seq<XmlElementView>,
    tops: Seq<XmlNodeView>,
    t: TokenView,
) -> Option<(Seq<XmlElementView>, Seq<XmlNodeView>)> {
    match t {
        TokenView::Open { name, attrs } => Option::Some(
            (stack.push(XmlElementView { name, attrs, children: Seq::empty() }), tops),
        ),
        TokenView::SelfClose { name, attrs } => Option::Some(
            fold_push_node(
                stack,
                tops,
                XmlNodeView::Elem(XmlElementView { name, attrs, children: Seq::empty() }),
            ),
        ),
        TokenView::Close { name } => {
            if stack.len() == 0 {
                Option::None
            } else {
                let top = stack.last();
                if top.name == name {
                    Option::Some(fold_push_node(stack.drop_last(), tops, XmlNodeView::Elem(top)))
                } else {
                    Option::None
                }
            }
        },
        TokenView::Text { body } => Option::Some(fold_push_node(stack, tops, XmlNodeView::Text(body))),
        TokenView::CData { body } => Option::Some(
            fold_push_node(stack, tops, XmlNodeView::CData(body)),
        ),
        TokenView::Comment { body } => Option::Some(
            fold_push_node(stack, tops, XmlNodeView::Comment(body)),
        ),
        TokenView::Pi { body } => Option::Some(fold_push_node(stack, tops, XmlNodeView::Pi(body))),
    }
}

/// Folds a token list into a building state.
pub open spec fn fold_tokens(
    ts: Seq<SpannedView>,
    stack: Seq<XmlElementView>,
    tops: Seq<XmlNodeView>,
) -> Option<(Seq<XmlElementView>, Seq<XmlNodeView>)>
    decreases ts.len(),
{
    if ts.len() == 0 {
        Option::Some((stack, tops))
    } else {
        match fold_token(stack, tops, ts[0].tok) {
            Option::None => Option::None,
            Option::Some((s2, t2)) => fold_tokens(ts.drop_first(), s2, t2),
        }
    }
}

/// The top-level nodes of a token list, provided every opened element was
/// closed.
pub open spec fn spec_tree_tops(ts: Seq<SpannedView>) -> Option<Seq<XmlNodeView>> {
    match fold_tokens(ts, Seq::empty(), Seq::empty()) {
        Option::None => Option::None,
        Option::Some((stack, tops)) => {
            if stack.len() == 0 {
                Option::Some(tops)
            } else {
                Option::None
            }
        },
    }
}

/// The top-level nodes of a document.
pub open spec fn spec_parse_tops(s: Seq<char>) -> Option<Seq<XmlNodeView>> {
    match spec_lex(s) {
        Option::None => Option::None,
        Option::Some(ts) => spec_tree_tops(ts),
    }
}

/// What may stand beside the root element at the top level: whitespace,
/// comments and processing instructions.
pub open spec fn acceptable_top_node(n: XmlNodeView) -> bool {
    match n {
        XmlNodeView::Text(t) => trim_ws(t).len() == 0,
        XmlNodeView::Comment(_) => true,
        XmlNodeView::Pi(_) => true,
        XmlNodeView::CData(_) => false,
        XmlNodeView::Elem(_) => true,
    }
}

/// How many of the nodes are elements.
pub open spec fn elem_count(ns: Seq<XmlNodeView>) -> int
    decreases ns.len(),
{
    if ns.len() == 0 {
        0
    } else {
        (if ns[0] is Elem {
            1int
        } else {
            0int
        }) + elem_count(ns.drop_first())
    }
}

/// The element a node holds.
pub open spec fn get_elem(n: XmlNodeView) -> XmlElementView {
    match n {
        XmlNodeView::Elem(e) => e,
        _ => arbitrary(),
    }
}

/// The first element among the nodes.
pub open spec fn first_elem(ns: Seq<XmlNodeView>) -> XmlElementView
    decreases ns.len(),
{
    if ns.len() == 0 {
        arbitrary()
    } else if ns[0] is Elem {
        get_elem(ns[0])
    } else {
        first_elem(ns.drop_first())
    }
}

/// The root element of a document: the single element at the top level,
/// beside nothing but whitespace, comments and processing instructions.
pub open spec fn spec_parse_root(s: Seq<char>) -> Option<XmlElementView> {
    match spec_parse_tops(s) {
        Option::None => Option::None,
        Option::Some(tops) => {
            if elem_count(tops) == 1 && (forall|i: int|
                0 <= i < tops.len() ==> acceptable_top_node(#[trigger] tops[i])) {
                Option::Some(first_elem(tops))
            } else {
                Option::None
            }
        },
    }
}

/// The named attribute of the root element.
pub open spec fn spec_extract_root_attribute(s: Seq<char>, name: Seq<char>) -> Option<Seq<char>> {
    match spec_parse_root(s) {
        Option::None => Option::None,
        Option::Some(root) => spec_attr_value(root.attrs, name),
    }
}

/// The children of the root element.
pub open spec fn spec_extract_root_inner_nodes(s: Seq<char>) -> Option<Seq<XmlNodeView>> {
    match spec_parse_root(s) {
        Option::None => Option::None,
        Option::Some(root) => Option::Some(root.children),
    }
}

/// The serialized children of the root element.
pub open spec fn spec_extract_root_inner_content(s: Seq<char>) -> Option<Seq<char>> {
    match spec_parse_root(s) {
        Option::None => Option::None,
        Option::Some(root) => Option::Some(spec_nodes_to_text(root.children)),
    }
}

proof fn lemma_stack_views_push(st: Seq<XmlElement>, e: XmlElement)
    ensures
        stack_views(st.push(e)) == stack_views(st).push(element_view(e)),
{
    assert(stack_views(st.push(e)) =~= stack_views(st).push(element_view(e)));
}

/// Attaches a finished node to the building state.
fn push_node_exec(stack: &mut Vec<XmlElement>, tops: &mut Vec<XmlNode>, n: XmlNode)
    ensures
        ({
            let folded = fold_push_node(
                stack_views(old(stack)@),
                nodes_view(old(tops)@),
                node_view(n),
            );
            stack_views(final(stack)@) == folded.0 && nodes_view(final(tops)@) == folded.1
        }),
{
    let ghost st0 = stack@;
    let ghost tp0 = tops@;
    match stack.pop() {
        None => {
            tops.push(n);
            proof {
                assert(stack@ =~= st0);
                assert(stack_views(stack@).len() == 0);
                lemma_nodes_view_push(tp0, n);
            }
        },
        Some(top) => {
            let XmlElement { name, attributes, children } = top;
            let ghost ch0 = children@;
            let mut children = children;
            children.push(n);
            let new_top = XmlElement { name, attributes, children };
            stack.push(new_top);
            proof {
                assert(st0.len() > 0);
                assert(stack_views(st0).len() == st0.len());
                assert(stack_views(st0).last() == element_view(st0.last()));
                lemma_nodes_view_push(ch0, n);
                assert(stack@ =~= st0.drop_last().push(new_top));
                lemma_stack_views_push(st0.drop_last(), new_top);
                assert(stack_views(st0.drop_last()) =~= stack_views(st0).drop_last());
                assert(element_view(new_top) == XmlElementView {
                    name: element_view(st0.last()).name,
                    attrs: element_view(st0.last()).attrs,
                    children: element_view(st0.last()).children.push(node_view(n)),
                });
            }
        },
    }
}

/// Builds the top-level node list from a token list, or reports that an
/// element was left open or closed out of order.
#[verifier::loop_isolation(false)]
fn build_tops(toks: Vec<Spanned>) -> (r: Option<Vec<XmlNode>>)
    ensures
        match r {
            Option::Some(tops) => spec_tree_tops(token_views(toks@)) == Option::Some(
                nodes_view(tops@),
            ),
            Option::None => spec_tree_tops(token_views(toks@)) is None,
        },
{
    let ghost full = token_views(toks@);
    let mut toks = toks;
    let mut stack: Vec<XmlElement> = Vec::new();
    let mut tops: Vec<XmlNode> = Vec::new();
    proof {
        assert(stack_views(stack@) =~= Seq::<XmlElementView>::empty());
        assert(nodes_view(tops@) =~= Seq::<XmlNodeView>::empty());
    }
    while toks.len() > 0
        invariant
            fold_tokens(token_views(toks@), stack_views(stack@), nodes_view(tops@))
                == fold_tokens(full, Seq::empty(), Seq::empty()),
        decreases toks@.len(),
    {
        let ghost toks_old = toks@;
        let ghost ts_before = token_views(toks@);
        let ghost sv0 = stack_views(stack@);
        let ghost tv0 = nodes_view(tops@);
        let t = toks.remove(0);
        proof {
            assert(toks@ =~= toks_old.drop_first());
            assert(token_views(toks@) =~= ts_before.drop_first());
            assert(ts_before[0] == toks_old[0]@);
        }
        let Spanned { tok, start: _, end: _ } = t;
        match tok {
            crate::xml_lex::Token::Open { name, attrs } => {
                let ghost stack_before = stack@;
                let e = XmlElement { name, attributes: attrs, children: Vec::new() };
                proof {
                    assert(nodes_view(e.children@) =~= Seq::<XmlNodeView>::empty());
                    assert(attr_pairs_view(e.attributes@) =~= crate::xml_lex::attrs_view(
                        e.attributes@,
                    ));
                }
                stack.push(e);
                proof {
                    lemma_stack_views_push(stack_before, e);
                }
            },
            crate::xml_lex::Token::SelfClose { name, attrs } => {
                let e = XmlElement { name, attributes: attrs, children: Vec::new() };
                proof {
                    assert(nodes_view(e.children@) =~= Seq::<XmlNodeView>::empty());
                    assert(attr_pairs_view(e.attributes@) =~= crate::xml_lex::attrs_view(
                        e.attributes@,
                    ));
                }
                push_node_exec(&mut stack, &mut tops, XmlNode::Element(e));
            },
            crate::xml_lex::Token::Close { name } => {
                match stack.pop() {
                    None => {
                        proof {
                            assert(sv0.len() == 0);
                            assert(ts_before.len() > 0);
                            assert(fold_token(sv0, tv0, ts_before[0].tok) is None);
                            assert(fold_tokens(ts_before, sv0, tv0) is None);
                        }
                        return None;
                    },
                    Some(top) => {
                        proof {
                            assert(sv0.len() == stack@.len() + 1);
                            assert(sv0.last() == element_view(top));
                            assert(stack_views(stack@) =~= sv0.drop_last());
                        }
                        if crate::chars::str_eq(top.name.as_str(), name.as_str()) {
                            push_node_exec(&mut stack, &mut tops, XmlNode::Element(top));
                        } else {
                            proof {
                                assert(sv0.last().name == top.name@);
                                assert(ts_before.len() > 0);
                                assert(fold_token(sv0, tv0, ts_before[0].tok) is None);
                                assert(fold_tokens(ts_before, sv0, tv0) is None);
                            }
                            return None;
                        }
                    },
                }
            },
            crate::xml_lex::Token::Text { body } => {
                push_node_exec(&mut stack, &mut tops, XmlNode::Text(body));
            },
            crate::xml_lex::Token::CData { body } => {
                push_node_exec(&mut stack, &mut tops, XmlNode::CData(body));
            },
            crate::xml_lex::Token::Comment { body } => {
                push_node_exec(&mut stack, &mut tops, XmlNode::Comment(body));
            },
            crate::xml_lex::Token::Pi { body } => {
                push_node_exec(&mut stack, &mut tops, XmlNode::ProcessingInstruction(body));
            },
        }
    }
    proof {
        assert(token_views(toks@) =~= Seq::<SpannedView>::empty());
    }
    if stack.len() > 0 {
        proof {
            assert(stack_views(stack@).len() > 0);
        }
        return None;
    }
    proof {
        assert(stack_views(stack@).len() == 0);
    }
    Some(tops)
}


proof fn lemma_elem_count_nonneg(s: Seq<XmlNodeView>)
    ensures
        elem_count(s) >= 0,
    decreases s.len(),
{
    if s.len() > 0 {
        lemma_elem_count_nonneg(s.drop_first());
    }
}

proof fn lemma_elem_count_take_step(s: Seq<XmlNodeView>, i: int)
    requires
        0 <= i < s.len(),
    ensures
        elem_count(s.take(i + 1)) == elem_count(s.take(i)) + (
        if s[i] is Elem {
            1int
        } else {
            0int
        }),
    decreases i,
{
    if i == 0 {
        assert(s.take(1)[0] == s[0]);
        assert(s.take(1).drop_first() =~= Seq::<XmlNodeView>::empty());
        assert(s.take(0) =~= Seq::<XmlNodeView>::empty());
    } else {
        lemma_elem_count_take_step(s.drop_first(), i - 1);
        assert(s.take(i + 1)[0] == s[0]);
        assert(s.take(i)[0] == s[0]);
        assert(s.take(i + 1).drop_first() =~= s.drop_first().take(i));
        assert(s.take(i).drop_first() =~= s.drop_first().take(i - 1));
        assert(s.drop_first()[i - 1] == s[i]);
    }
}

proof fn lemma_first_elem_at(s: Seq<XmlNodeView>, k: int)
    requires
        0 <= k < s.len(),
        elem_count(s.take(k)) == 0,
        s[k] is Elem,
    ensures
        first_elem(s) == get_elem(s[k]),
    decreases k,
{
    if k > 0 {
        assert(s.take(k)[0] == s[0]);
        assert(s.take(k).drop_first() =~= s.drop_first().take(k - 1));
        lemma_elem_count_nonneg(s.drop_first().take(k - 1));
        assert(!(s[0] is Elem));
        lemma_first_elem_at(s.drop_first(), k - 1);
        assert(s.drop_first()[k - 1] == s[k]);
    }
}

/// Picks the single root element out of the top-level nodes, rejecting a
/// document whose top level holds anything but that element, whitespace,
/// comments and processing instructions.
#[verifier::loop_isolation(false)]
fn select_root(tops: Vec<XmlNode>) -> (r: Option<XmlElement>)
    ensures
        match r {
            Option::Some(e) => elem_count(nodes_view(tops@)) == 1 && (forall|i: int|
                0 <= i < nodes_view(tops@).len() ==> acceptable_top_node(
                    #[trigger] nodes_view(tops@)[i],
                )) && element_view(e) == first_elem(nodes_view(tops@)),
            Option::None => !(elem_count(nodes_view(tops@)) == 1 && (forall|i: int|
                0 <= i < nodes_view(tops@).len() ==> acceptable_top_node(
                    #[trigger] nodes_view(tops@)[i],
                ))),
        },
{
    let ghost tv = nodes_view(tops@);
    proof {
        lemma_nodes_view_len(tops@);
        assert(tv.take(0) =~= Seq::<XmlNodeView>::empty());
    }
    let n = tops.len();
    let mut tops = tops;
    let mut i: usize = 0;
    let mut count: usize = 0;
    let mut idx: usize = 0;
    while i < n
        invariant
            i <= n,
            count as int == elem_count(tv.take(i as int)),
            count <= i,
            forall|j: int| 0 <= j < i ==> acceptable_top_node(#[trigger] tv[j]),
            count >= 1 ==> idx < i && tv[idx as int] is Elem && first_elem(tv) == get_elem(
                tv[idx as int],
            ),
        decreases n - i,
    {
        proof {
            lemma_elem_count_take_step(tv, i as int);
        }
        let mut bad = false;
        match &tops[i] {
            XmlNode::Element(_) => {
                if count == 0 {
                    idx = i;
                    proof {
                        lemma_first_elem_at(tv, i as int);
                    }
                }
                count = count + 1;
            },
            XmlNode::Text(t) => {
                let trimmed = trim_ws_str(t.as_str());
                let tc = str_to_chars(trimmed.as_str());
                if tc.len() > 0 {
                    bad = true;
                }
            },
            XmlNode::CData(_) => {
                bad = true;
            },
            _ => {},
        }
        if bad {
            proof {
                assert(!acceptable_top_node(tv[i as int]));
            }
            return None;
        }
        i = i + 1;
    }
    proof {
        assert(tv.take(n as int) =~= tv);
    }
    if count != 1 {
        return None;
    }
    let root = tops.remove(idx);
    proof {
        assert(node_view(root) == tv[idx as int]);
    }
    match root {
        XmlNode::Element(e) => Some(e),
        _ => {
            proof {
                assert(false);
            }
            None
        },
    }
}

/// Parses a document into its single root element; `None` on any parse
/// or structure failure.
fn parse_root_element(xml_content: &str) -> (r: Option<XmlElement>)
    ensures
        match r {
            Option::Some(e) => spec_parse_root(xml_content@) == Option::Some(element_view(e)),
            Option::None => spec_parse_root(xml_content@) is None,
        },
{
    let chars = str_to_chars(xml_content);
    match lex_document(&chars) {
        None => None,
        Some(toks) => {
            match build_tops(toks) {
                None => None,
                Some(tops) => select_root(tops),
            }
        },
    }
}

/// Extracts an attribute value from an XML string's root element.
/// Returns `None` if the attribute is not found or the content is
/// invalid.
pub fn extract_root_attribute(xml_content: &str, attr_name: &str) -> (r: Option<String>)
    ensures
        match r {
            Option::Some(v) => spec_extract_root_attribute(xml_content@, attr_name@)
                == Option::Some(v@),
            Option::None => spec_extract_root_attribute(xml_content@, attr_name@) is None,
        },
{
    match parse_root_element(xml_content) {
        None => None,
        Some(e) => get_attr_value(&e.attributes, attr_name),
    }
}

/// Extracts the inner content of the root element as a list of nodes.
/// A childless root yields an empty list, not `None`.
pub fn extract_root_inner_nodes(xml_content: &str) -> (r: Option<Vec<XmlNode>>)
    ensures
        match r {
            Option::Some(ns) => spec_extract_root_inner_nodes(xml_content@) == Option::Some(
                nodes_view(ns@),
            ),
            Option::None => spec_extract_root_inner_nodes(xml_content@) is None,
        },
{
    match parse_root_element(xml_content) {
        None => None,
        Some(e) => {
            let XmlElement { name: _, attributes: _, children } = e;
            Some(children)
        },
    }
}

/// Extracts the inner content of the root element as serialized text.
pub fn extract_root_inner_content(xml_content: &str) -> (r: Option<String>)
    ensures
        match r {
            Option::Some(text) => spec_extract_root_inner_content(xml_content@) == Option::Some(
                text@,
            ),
            Option::None => spec_extract_root_inner_content(xml_content@) is None,
        },
{
    match extract_root_inner_nodes(xml_content) {
        None => None,
        Some(ns) => Some(nodes_to_string(&ns)),
    }
}

} // verus!
