//! The document model: one SVG root element holding an attribute map and
//! an ordered sequence of child nodes, together with the two tree
//! operations the pipeline needs — rewriting every `id` attribute and
//! serializing nodes back to text.

use vstd::prelude::*;
use crate::chars::{chars_to_string, trim_ws, trim_ws_str};
use crate::strings::{canonicalize_name, spec_canonicalize};

verus! {

/// The abstract form of an element: name, attributes in document order,
/// children in document order.
pub struct XmlElementView {
    pub name: Seq<char>,
    pub attrs: Seq<(Seq<char>, Seq<char>)>,
    pub children: Seq<XmlNodeView>,
}

/// The abstract form of one node.
pub enum XmlNodeView {
    Elem(XmlElementView),
    Text(Seq<char>),
    CData(Seq<char>),
    Comment(Seq<char>),
    Pi(Seq<char>),
}

/// One element of a parsed document.
pub struct XmlElement {
    pub name: String,
    pub attributes: Vec<(String, String)>,
    pub children: Vec<XmlNode>,
}

/// One node of a parsed document.
pub enum XmlNode {
    Element(XmlElement),
    Text(String),
    CData(String),
    Comment(String),
    ProcessingInstruction(String),
}

/// The abstract form of an attribute list.
pub open spec fn attr_pairs_view(attrs: Seq<(String, String)>) -> Seq<(Seq<char>, Seq<char>)> {
    attrs.map_values(|p: (String, String)| (p.0@, p.1@))
}

/// The abstract form of an element.
pub open spec fn element_view(e: XmlElement) -> XmlElementView
    decreases e,
{
    XmlElementView {
        name: e.name@,
        attrs: attr_pairs_view(e.attributes@),
        children: nodes_view(e.children@),
    }
}

/// The abstract form of a node.
pub open spec fn node_view(n: XmlNode) -> XmlNodeView
    decreases n,
{
    match n {
        XmlNode::Element(e) => XmlNodeView::Elem(element_view(e)),
        XmlNode::Text(t) => XmlNodeView::Text(t@),
        XmlNode::CData(t) => XmlNodeView::CData(t@),
        XmlNode::Comment(t) => XmlNodeView::Comment(t@),
        XmlNode::ProcessingInstruction(t) => XmlNodeView::Pi(t@),
    }
}

/// The abstract form of a node list.
pub open spec fn nodes_view(ns: Seq<XmlNode>) -> Seq<XmlNodeView>
    decreases ns,
{
    if ns.len() == 0 {
        Seq::empty()
    } else {
        seq![node_view(ns[0])] + nodes_view(ns.drop_first())
    }
}

impl View for XmlNode {
    type V = XmlNodeView;

    open spec fn view(&self) -> XmlNodeView {
        node_view(*self)
    }
}

impl View for XmlElement {
    type V = XmlElementView;

    open spec fn view(&self) -> XmlElementView {
        element_view(*self)
    }
}

pub proof fn lemma_nodes_view_push(ns: Seq<XmlNode>, n: XmlNode)
    ensures
        nodes_view(ns.push(n)) == nodes_view(ns).push(node_view(n)),
    decreases ns.len(),
{
    assert(ns.push(n)[ns.len() as int] == n);
    if ns.len() == 0 {
        reveal_with_fuel(nodes_view, 3);
        assert(ns.push(n).drop_first() =~= Seq::<XmlNode>::empty());
        assert(ns.push(n)[0] == n);
        assert(nodes_view(ns.push(n)) =~= nodes_view(ns).push(node_view(n)));
    } else {
        reveal_with_fuel(nodes_view, 3);
        assert(ns.push(n).drop_first() =~= ns.drop_first().push(n));
        assert(ns.push(n)[0] == ns[0]);
        lemma_nodes_view_push(ns.drop_first(), n);
        assert(nodes_view(ns.push(n)) =~= nodes_view(ns).push(node_view(n)));
    }
}

pub proof fn lemma_nodes_view_len(ns: Seq<XmlNode>)
    ensures
        nodes_view(ns).len() == ns.len(),
        forall|i: int| 0 <= i < ns.len() ==> nodes_view(ns)[i] == node_view(ns[i]),
    decreases ns.len(),
{
    if ns.len() > 0 {
        lemma_nodes_view_len(ns.drop_first());
    }
}

/// The value of the first attribute with the given name, if any.
pub open spec fn spec_attr_value(attrs: Seq<(Seq<char>, Seq<char>)>, name: Seq<char>) -> Option<
    Seq<char>,
>
    decreases attrs.len(),
{
    if attrs.len() == 0 {
        Option::None
    } else if attrs[0].0 == name {
        Option::Some(attrs[0].1)
    } else {
        spec_attr_value(attrs.drop_first(), name)
    }
}

/// Looks up an attribute by name, returning the first match.
pub fn get_attr_value(attrs: &Vec<(String, String)>, name: &str) -> (r: Option<String>)
    ensures
        match r {
            Option::Some(v) => spec_attr_value(attr_pairs_view(attrs@), name@) == Option::Some(
                v@,
            ),
            Option::None => spec_attr_value(attr_pairs_view(attrs@), name@) is None,
        },
{
    let n = attrs.len();
    let mut i: usize = 0;
    proof {
        assert(attr_pairs_view(attrs@).skip(0) =~= attr_pairs_view(attrs@));
    }
    while i < n
        invariant
            i <= n,
            n == attrs@.len(),
            attr_pairs_view(attrs@).len() == n,
            spec_attr_value(attr_pairs_view(attrs@), name@) == spec_attr_value(
                attr_pairs_view(attrs@).skip(i as int),
                name@,
            ),
        decreases n - i,
    {
        proof {
            assert(attr_pairs_view(attrs@).skip(i as int)[0] == (attrs@[i as int].0@, attrs@[
                i as int].1@));
            assert(attr_pairs_view(attrs@).skip(i as int).drop_first() =~= attr_pairs_view(
                attrs@,
            ).skip(i as int + 1));
        }
        if crate::chars::str_eq(attrs[i].0.as_str(), name) {
            return Some(attrs[i].1.clone());
        }
        i = i + 1;
    }
    None
}

/// Rewrites the `id` attribute of an attribute list, leaving every other
/// attribute untouched.
pub open spec fn spec_transform_attrs(attrs: Seq<(Seq<char>, Seq<char>)>) -> Seq<
    (Seq<char>, Seq<char>),
> {
    attrs.map_values(
        |p: (Seq<char>, Seq<char>)|
            if p.0 == "id"@ {
                (p.0, spec_canonicalize(p.1))
            } else {
                p
            },
    )
}

/// Rewriting an attribute list touches exactly the `id` attributes:
/// each one's value is canonicalized in place, and every other pair is
/// kept as it was, in the same position.
pub proof fn lemma_transform_attrs_pointwise(attrs: Seq<(Seq<char>, Seq<char>)>)
    ensures
        spec_transform_attrs(attrs).len() == attrs.len(),
        forall|i: int|
            0 <= i < attrs.len() && (#[trigger] attrs[i]).0 == "id"@ ==> spec_transform_attrs(
                attrs,
            )[i] == (attrs[i].0, spec_canonicalize(attrs[i].1)),
        forall|i: int|
            0 <= i < attrs.len() && (#[trigger] attrs[i]).0 != "id"@ ==> spec_transform_attrs(
                attrs,
            )[i] == attrs[i],
{
}

/// Canonicalizes every `id` attribute in a node and all its descendants.
pub open spec fn spec_transform_node(n: XmlNodeView) -> XmlNodeView
    decreases n,
{
    match n {
        XmlNodeView::Elem(e) => XmlNodeView::Elem(spec_transform_element(e)),
        other => other,
    }
}

/// Canonicalizes every `id` attribute in an element and its descendants.
pub open spec fn spec_transform_element(e: XmlElementView) -> XmlElementView
    decreases e,
{
    XmlElementView {
        name: e.name,
        attrs: spec_transform_attrs(e.attrs),
        children: spec_transform_nodes(e.children),
    }
}

/// Canonicalizes every `id` attribute below each node of a list.
pub open spec fn spec_transform_nodes(ns: Seq<XmlNodeView>) -> Seq<XmlNodeView>
    decreases ns,
{
    if ns.len() == 0 {
        Seq::empty()
    } else {
        seq![spec_transform_node(ns[0])] + spec_transform_nodes(ns.drop_first())
    }
}

pub proof fn lemma_transform_nodes_push(ns: Seq<XmlNodeView>, n: XmlNodeView)
    ensures
        spec_transform_nodes(ns.push(n)) == spec_transform_nodes(ns).push(spec_transform_node(n)),
    decreases ns.len(),
{
    if ns.len() == 0 {
        reveal_with_fuel(spec_transform_nodes, 3);
        assert(ns.push(n).drop_first() =~= Seq::<XmlNodeView>::empty());
        assert(ns.push(n)[0] == n);
        assert(spec_transform_nodes(ns.push(n)) =~= spec_transform_nodes(ns).push(
            spec_transform_node(n),
        ));
    } else {
        reveal_with_fuel(spec_transform_nodes, 3);
        assert(ns.push(n).drop_first() =~= ns.drop_first().push(n));
        assert(ns.push(n)[0] == ns[0]);
        lemma_transform_nodes_push(ns.drop_first(), n);
        assert(spec_transform_nodes(ns.push(n)) =~= spec_transform_nodes(ns).push(
            spec_transform_node(n),
        ));
    }
}

/// Rewrites the `id` attribute of one element's own attribute list.
pub(crate) fn transform_attrs(attrs: &Vec<(String, String)>) -> (r: Vec<(String, String)>)
    ensures
        attr_pairs_view(r@) == spec_transform_attrs(attr_pairs_view(attrs@)),
{
    let n = attrs.len();
    let mut out: Vec<(String, String)> = Vec::new();
    let mut i: usize = 0;
    while i < n
        invariant
            i <= n,
            n == attrs@.len(),
            out@.len() == i,
            forall|j: int|
                0 <= j < i ==> #[trigger] attr_pairs_view(out@)[j] == spec_transform_attrs(
                    attr_pairs_view(attrs@),
                )[j],
        decreases n - i,
    {
        let key = attrs[i].0.clone();
        let is_id = crate::chars::str_eq(key.as_str(), "id");
        let ghost out_before = out@;
        if is_id {
            let new_val = canonicalize_name(attrs[i].1.as_str());
            out.push((key, new_val));
        } else {
            out.push((key, attrs[i].1.clone()));
        }
        proof {
            assert(forall|j: int|
                0 <= j < i ==> #[trigger] attr_pairs_view(out@)[j] == attr_pairs_view(
                    out_before,
                )[j]);
            assert(attr_pairs_view(attrs@)[i as int] == (attrs@[i as int].0@, attrs@[
                i as int].1@));
            assert(attr_pairs_view(out@)[i as int] == (out@[i as int].0@, out@[i as int].1@));
        }
        i = i + 1;
    }
    proof {
        assert(attr_pairs_view(out@) =~= spec_transform_attrs(attr_pairs_view(attrs@)));
    }
    out
}

/// Canonicalizes every `id` attribute in a node and all its descendants.
pub fn transform_node_ids(n: XmlNode) -> (r: XmlNode)
    ensures
        node_view(r) == spec_transform_node(node_view(n)),
    decreases n,
{
    match n {
        XmlNode::Element(e) => XmlNode::Element(transform_element_ids(e)),
        other => other,
    }
}

/// Canonicalizes every `id` attribute in an element and its descendants.
pub fn transform_element_ids(e: XmlElement) -> (r: XmlElement)
    ensures
        element_view(r) == spec_transform_element(element_view(e)),
    decreases e,
{
    let ghost e0 = e;
    let XmlElement { name, attributes, children } = e;
    let new_attrs = transform_attrs(&attributes);
    proof {
        assert(decreases_to!(e0 => e0.children));
        assert(decreases_to!(e0.children => e0.children@));
    }
    let new_children = transform_nodes_id_attributes(children);
    XmlElement { name, attributes: new_attrs, children: new_children }
}

/// Canonicalizes every `id` attribute at any nesting depth in a list of
/// nodes, leaving all other attributes, text, comments and processing
/// instructions untouched.
pub fn transform_nodes_id_attributes(nodes: Vec<XmlNode>) -> (r: Vec<XmlNode>)
    ensures
        nodes_view(r@) == spec_transform_nodes(nodes_view(nodes@)),
    decreases nodes@,
{
    let ghost full = nodes@;
    let mut nodes = nodes;
    match nodes.pop() {
        None => {
            proof {
                assert(nodes_view(nodes@) =~= Seq::<XmlNodeView>::empty());
                assert(spec_transform_nodes(nodes_view(nodes@)) =~= Seq::<XmlNodeView>::empty());
            }
            nodes
        },
        Some(last) => {
            proof {
                assert(decreases_to!(full => full[full.len() - 1]));
                assert(nodes@ =~= full.subrange(0, full.len() - 1));
                assert(decreases_to!(full => full.subrange(0, full.len() - 1)));
            }
            let t = transform_node_ids(last);
            let mut rest = transform_nodes_id_attributes(nodes);
            let ghost rest_nodes = full.subrange(0, full.len() - 1);
            let ghost rest_before = rest@;
            rest.push(t);
            proof {
                lemma_nodes_view_push(rest_before, t);
                lemma_nodes_view_push(rest_nodes, last);
                assert(rest_nodes.push(last) =~= full);
                lemma_transform_nodes_push(nodes_view(rest_nodes), node_view(last));
                assert(nodes_view(rest@) =~= spec_transform_nodes(nodes_view(full)));
            }
            rest
        },
    }
}

/// A run of `n` spaces.
pub open spec fn spaces(n: nat) -> Seq<char>
    decreases n,
{
    if n == 0 {
        Seq::empty()
    } else {
        spaces((n - 1) as nat) + seq![' ']
    }
}

/// The serialized form of one attribute-value character: what XML cannot
/// hold raw inside a double-quoted value becomes an entity reference.
pub open spec fn escape_char(c: char) -> Seq<char> {
    if c == '&' {
        "&amp;"@
    } else if c == '<' {
        "&lt;"@
    } else if c == '>' {
        "&gt;"@
    } else if c == '"' {
        "&quot;"@
    } else {
        seq![c]
    }
}

/// An attribute value written back out, entity references restored.
pub open spec fn spec_escape_attr(s: Seq<char>) -> Seq<char>
    decreases s.len(),
{
    if s.len() == 0 {
        Seq::empty()
    } else {
        escape_char(s[0]) + spec_escape_attr(s.drop_first())
    }
}

/// Escapes an attribute value for emission.
#[verifier::loop_isolation(false)]
fn escape_attr(value: &str) -> (r: String)
    ensures
        r@ == spec_escape_attr(value@),
{
    let v = crate::chars::str_to_chars(value);
    let n = v.len();
    let mut out = String::new();
    let mut i: usize = 0;
    proof {
        assert(v@.skip(0) =~= v@);
        assert(out@ + spec_escape_attr(v@) =~= spec_escape_attr(v@));
    }
    while i < n
        invariant
            i <= n,
            n == v@.len(),
            v@ == value@,
            spec_escape_attr(value@) == out@ + spec_escape_attr(value@.skip(i as int)),
        decreases n - i,
    {
        proof {
            assert(value@.skip(i as int)[0] == value@[i as int]);
            assert(value@.skip(i as int).drop_first() =~= value@.skip(i as int + 1));
        }
        let c = v[i];
        if c == '&' {
            out.append("&amp;");
        } else if c == '<' {
            out.append("&lt;");
        } else if c == '>' {
            out.append("&gt;");
        } else if c == '"' {
            out.append("&quot;");
        } else {
            let mut one: Vec<char> = Vec::new();
            one.push(c);
            proof {
                assert(one@ =~= seq![c]);
            }
            let one_s = chars_to_string(&one);
            out.append(one_s.as_str());
        }
        i = i + 1;
        proof {
            assert(out@ + spec_escape_attr(value@.skip(i as int)) =~= spec_escape_attr(value@));
        }
    }
    proof {
        assert(spec_escape_attr(value@.skip(n as int)) =~= Seq::<char>::empty());
        assert(out@ =~= spec_escape_attr(value@));
    }
    out
}

/// Serialized form of an attribute list: ` key="value"` for each pair, in
/// document order, with the value escaped.
pub open spec fn spec_attrs_text(attrs: Seq<(Seq<char>, Seq<char>)>) -> Seq<char>
    decreases attrs.len(),
{
    if attrs.len() == 0 {
        Seq::empty()
    } else {
        " "@ + attrs[0].0 + "=\""@ + spec_escape_attr(attrs[0].1) + "\""@ + spec_attrs_text(
            attrs.drop_first(),
        )
    }
}

/// The indentation of a nested level: two more spaces, saturating at the
/// machine limit.
pub open spec fn next_indent(indent: nat) -> nat {
    if indent + 2 <= usize::MAX {
        (indent + 2) as nat
    } else {
        indent
    }
}

/// The text payload of a text node.
pub open spec fn text_of(n: XmlNodeView) -> Seq<char> {
    match n {
        XmlNodeView::Text(t) => t,
        _ => Seq::empty(),
    }
}

/// Serialized form of one node at the given indentation.
pub open spec fn spec_node_text(n: XmlNodeView, indent: nat) -> Seq<char>
    decreases n,
{
    match n {
        XmlNodeView::Elem(e) => spec_element_text(e, indent),
        XmlNodeView::Text(t) => t,
        XmlNodeView::CData(t) => "<![CDATA["@ + t + "]]>"@,
        XmlNodeView::Comment(t) => "<!--"@ + t + "-->"@,
        XmlNodeView::Pi(t) => "<?"@ + t + "?>"@,
    }
}

/// Serialized form of one element: self-closing when childless, inline
/// when its only child is text, otherwise one child per line, indented by
/// two more spaces.
pub open spec fn spec_element_text(e: XmlElementView, indent: nat) -> Seq<char>
    decreases e,
{
    let head = spaces(indent) + "<"@ + e.name + spec_attrs_text(e.attrs);
    if e.children.len() == 0 {
        head + "/>"@
    } else if e.children.len() == 1 && (e.children[0] is Text) {
        head + ">"@ + text_of(e.children[0]) + "</"@ + e.name + ">"@
    } else {
        head + ">"@ + "\n"@ + spec_children_text(e.children, next_indent(indent)) + "\n"@
            + spaces(indent) + "</"@ + e.name + ">"@
    }
}

/// Serialized form of a block of children, one per line. Whitespace-only
/// text is dropped, other text is trimmed and indented.
pub open spec fn spec_children_text(ns: Seq<XmlNodeView>, indent: nat) -> Seq<char>
    decreases ns,
{
    if ns.len() == 0 {
        Seq::empty()
    } else {
        let rest = spec_children_text(ns.drop_first(), indent);
        let line = match ns[0] {
            XmlNodeView::Text(t) => if trim_ws(t).len() == 0 {
                Seq::<char>::empty()
            } else {
                spaces(indent) + trim_ws(t)
            },
            other => spec_node_text(other, indent),
        };
        if line.len() == 0 {
            rest
        } else if rest.len() == 0 {
            line
        } else {
            line + "\n"@ + rest
        }
    }
}

/// Serialized form of a top-level node list: parts joined by one newline,
/// blank parts separated from nothing, the whole trimmed.
pub open spec fn spec_join_nodes(ns: Seq<XmlNodeView>, acc: Seq<char>) -> Seq<char>
    decreases ns,
{
    if ns.len() == 0 {
        acc
    } else {
        let part = spec_node_text(ns[0], 0);
        let acc2 = if acc.len() > 0 && trim_ws(part).len() > 0 {
            acc + "\n"@ + part
        } else {
            acc + part
        };
        spec_join_nodes(ns.drop_first(), acc2)
    }
}

/// The text of a node list, as `nodes_to_string` returns it.
pub open spec fn spec_nodes_to_text(ns: Seq<XmlNodeView>) -> Seq<char> {
    trim_ws(spec_join_nodes(ns, Seq::empty()))
}

/// Builds a run of `n` spaces.
pub(crate) fn spaces_string(n: usize) -> (r: String)
    ensures
        r@ == spaces(n as nat),
{
    let mut out: Vec<char> = Vec::new();
    let mut j: usize = 0;
    proof {
        assert(out@ =~= spaces(0));
    }
    while j < n
        invariant
            j <= n,
            out@ == spaces(j as nat),
        decreases n - j,
    {
        out.push(' ');
        j = j + 1;
    }
    chars_to_string(&out)
}

/// Serializes an attribute list.
pub(crate) fn attrs_text(attrs: &Vec<(String, String)>) -> (r: String)
    ensures
        r@ == spec_attrs_text(attr_pairs_view(attrs@)),
{
    let ghost full = attr_pairs_view(attrs@);
    let n = attrs.len();
    let mut acc = String::new();
    let mut i: usize = 0;
    proof {
        assert(full.skip(0) =~= full);
        assert(acc@ + spec_attrs_text(full) =~= spec_attrs_text(full));
    }
    while i < n
        invariant
            i <= n,
            n == attrs@.len(),
            full == attr_pairs_view(attrs@),
            full.len() == n,
            spec_attrs_text(full) == acc@ + spec_attrs_text(full.skip(i as int)),
        decreases n - i,
    {
        proof {
            assert(full.skip(i as int)[0] == (attrs@[i as int].0@, attrs@[i as int].1@));
            assert(full.skip(i as int).drop_first() =~= full.skip(i as int + 1));
        }
        acc.append(" ");
        acc.append(attrs[i].0.as_str());
        acc.append("=\"");
        let escaped = escape_attr(attrs[i].1.as_str());
        acc.append(escaped.as_str());
        acc.append("\"");
        i = i + 1;
        proof {
            assert(spec_attrs_text(full) =~= acc@ + spec_attrs_text(full.skip(i as int)));
        }
    }
    proof {
        assert(full.skip(n as int) =~= Seq::<(Seq<char>, Seq<char>)>::empty());
        assert(acc@ + spec_attrs_text(full.skip(n as int)) =~= acc@);
    }
    acc
}

/// Serializes one node at the given indentation.
fn node_to_text(n: &XmlNode, indent: usize) -> (r: String)
    ensures
        r@ == spec_node_text(node_view(*n), indent as nat),
    decreases *n,
{
    match n {
        XmlNode::Element(e) => element_to_text(e, indent),
        XmlNode::Text(t) => t.clone(),
        XmlNode::CData(t) => {
            let mut out = String::new();
            out.append("<![CDATA[");
            out.append(t.as_str());
            out.append("]]>");
            out
        },
        XmlNode::Comment(t) => {
            let mut out = String::new();
            out.append("<!--");
            out.append(t.as_str());
            out.append("-->");
            out
        },
        XmlNode::ProcessingInstruction(t) => {
            let mut out = String::new();
            out.append("<?");
            out.append(t.as_str());
            out.append("?>");
            out
        },
    }
}

/// Serializes one element at the given indentation.
fn element_to_text(e: &XmlElement, indent: usize) -> (r: String)
    ensures
        r@ == spec_element_text(element_view(*e), indent as nat),
    decreases *e,
{
    let mut out = spaces_string(indent);
    out.append("<");
    out.append(e.name.as_str());
    let at = attrs_text(&e.attributes);
    out.append(at.as_str());
    proof {
        lemma_nodes_view_len(e.children@);
    }
    if e.children.len() == 0 {
        out.append("/>");
        proof {
            assert(nodes_view(e.children@).len() == 0);
            assert(out@ =~= spec_element_text(element_view(*e), indent as nat));
        }
        out
    } else {
        let mut only_text: Option<&String> = None;
        if e.children.len() == 1 {
            match &e.children[0] {
                XmlNode::Text(t) => {
                    only_text = Some(t);
                },
                _ => {},
            }
        }
        match only_text {
            Some(t) => {
                out.append(">");
                out.append(t.as_str());
                out.append("</");
                out.append(e.name.as_str());
                out.append(">");
                proof {
                    assert(nodes_view(e.children@)[0] == node_view(e.children@[0]));
                    assert(text_of(nodes_view(e.children@)[0]) == t@);
                    assert(out@ =~= spec_element_text(element_view(*e), indent as nat));
                }
                out
            },
            None => {
                out.append(">");
                out.append("\n");
                let ni = if indent <= usize::MAX - 2 {
                    indent + 2
                } else {
                    indent
                };
                proof {
                    assert(decreases_to!(*e => e.children));
                    assert(decreases_to!(e.children => e.children@));
                }
                let body = children_to_text(&e.children, 0, ni);
                out.append(body.as_str());
                out.append("\n");
                let tail_sp = spaces_string(indent);
                out.append(tail_sp.as_str());
                out.append("</");
                out.append(e.name.as_str());
                out.append(">");
                proof {
                    if nodes_view(e.children@).len() == 1 {
                        assert(nodes_view(e.children@)[0] == node_view(e.children@[0]));
                        assert(!(nodes_view(e.children@)[0] is Text));
                    }
                    assert(nodes_view(e.children@).skip(0) =~= nodes_view(e.children@));
                    assert(out@ =~= spec_element_text(element_view(*e), indent as nat));
                }
                out
            },
        }
    }
}

/// Serializes the children of an element from index `i` on, one line per
/// rendered child.
fn children_to_text(ns: &Vec<XmlNode>, i: usize, indent: usize) -> (r: String)
    requires
        i <= ns@.len(),
    ensures
        r@ == spec_children_text(nodes_view(ns@).skip(i as int), indent as nat),
    decreases ns@, ns@.len() - i,
{
    proof {
        lemma_nodes_view_len(ns@);
    }
    if i >= ns.len() {
        proof {
            assert(nodes_view(ns@).skip(i as int) =~= Seq::<XmlNodeView>::empty());
        }
        return String::new();
    }
    proof {
        assert(nodes_view(ns@).skip(i as int)[0] == node_view(ns@[i as int]));
        assert(nodes_view(ns@).skip(i as int).drop_first() =~= nodes_view(ns@).skip(i as int + 1));
    }
    let line: String = match &ns[i] {
        XmlNode::Text(t) => {
            let trimmed = trim_ws_str(t.as_str());
            let tv = crate::chars::str_to_chars(trimmed.as_str());
            if tv.len() == 0 {
                String::new()
            } else {
                let mut l = spaces_string(indent);
                l.append(trimmed.as_str());
                l
            }
        },
        other => {
            proof {
                assert(decreases_to!(ns@ => ns@[i as int]));
            }
            node_to_text(other, indent)
        },
    };
    let rest = children_to_text(ns, i + 1, indent);
    let line_chars = crate::chars::str_to_chars(line.as_str());
    let rest_chars = crate::chars::str_to_chars(rest.as_str());
    if line_chars.len() == 0 {
        rest
    } else if rest_chars.len() == 0 {
        line
    } else {
        let mut out = line;
        out.append("\n");
        out.append(rest.as_str());
        out
    }
}

/// Converts a list of nodes to text: each top-level node is rendered and
/// the parts are joined with single newlines, blank parts adding nothing;
/// the result is trimmed.
pub fn nodes_to_string(nodes: &Vec<XmlNode>) -> (r: String)
    ensures
        r@ == spec_nodes_to_text(nodes_view(nodes@)),
{
    let ghost full = nodes_view(nodes@);
    proof {
        lemma_nodes_view_len(nodes@);
    }
    let n = nodes.len();
    let mut acc = String::new();
    let mut i: usize = 0;
    proof {
        assert(full.skip(0) =~= full);
    }
    while i < n
        invariant
            i <= n,
            n == nodes@.len(),
            full == nodes_view(nodes@),
            full.len() == n,
            forall|j: int| 0 <= j < n ==> full[j] == node_view(nodes@[j]),
            spec_join_nodes(full, Seq::empty()) == spec_join_nodes(
                full.skip(i as int),
                acc@,
            ),
        decreases n - i,
    {
        proof {
            assert(full.skip(i as int)[0] == node_view(nodes@[i as int]));
            assert(full.skip(i as int).drop_first() =~= full.skip(i as int + 1));
        }
        let part = node_to_text(&nodes[i], 0);
        let part_trimmed = trim_ws_str(part.as_str());
        let pt = crate::chars::str_to_chars(part_trimmed.as_str());
        let acc_chars = crate::chars::str_to_chars(acc.as_str());
        if acc_chars.len() > 0 && pt.len() > 0 {
            acc.append("\n");
            acc.append(part.as_str());
        } else {
            acc.append(part.as_str());
        }
        i = i + 1;
    }
    proof {
        assert(full.skip(n as int) =~= Seq::<XmlNodeView>::empty());
    }
    trim_ws_str(acc.as_str())
}

} // verus!
