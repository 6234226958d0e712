//! The in-memory HTML output tree and its serializer.

use vstd::prelude::*;
use crate::escape::{escape_html, escape_seq};
use crate::strutil::str_eq;
use vstd::string::StringExecFns;

verus! {

/// One element of the output tree: a tag, its attributes in insertion
/// order, and its children in order.
pub struct HTMLElement {
    pub tag: String,
    pub attributes: Vec<(String, String)>,
    pub children: Vec<HTMLValue>,
}

/// One node of the output tree.
pub enum HTMLValue {
    Element(HTMLElement),
    Text(String),
    Comment,
}

/// The mathematical value of an output element.
pub struct ElementModel {
    pub tag: Seq<char>,
    pub attributes: Seq<(Seq<char>, Seq<char>)>,
    pub children: Seq<NodeModel>,
}

/// The mathematical value of an output node.
pub enum NodeModel {
    Element(ElementModel),
    Text(Seq<char>),
    Comment,
}

pub open spec fn attrs_model(attrs: Seq<(String, String)>) -> Seq<(Seq<char>, Seq<char>)> {
    attrs.map_values(|p: (String, String)| (p.0@, p.1@))
}

pub open spec fn elem_model(e: HTMLElement) -> ElementModel
    decreases e,
{
    ElementModel {
        tag: e.tag@,
        attributes: attrs_model(e.attributes@),
        children: nodes_model(e.children@),
    }
}

pub open spec fn node_model(n: HTMLValue) -> NodeModel
    decreases n,
{
    match n {
        HTMLValue::Element(e) => NodeModel::Element(elem_model(e)),
        HTMLValue::Text(t) => NodeModel::Text(t@),
        HTMLValue::Comment => NodeModel::Comment,
    }
}

pub open spec fn nodes_model(ns: Seq<HTMLValue>) -> Seq<NodeModel>
    decreases ns,
{
    if ns.len() == 0 {
        seq![]
    } else {
        seq![node_model(ns[0])] + nodes_model(ns.drop_first())
    }
}

impl View for HTMLElement {
    type V = ElementModel;

    open spec fn view(&self) -> ElementModel {
        elem_model(*self)
    }
}

impl View for HTMLValue {
    type V = NodeModel;

    open spec fn view(&self) -> NodeModel {
        node_model(*self)
    }
}

pub proof fn lemma_nodes_model_push(ns: Seq<HTMLValue>, n: HTMLValue)
    ensures
        nodes_model(ns.push(n)) == nodes_model(ns).push(node_model(n)),
    decreases ns.len(),
{
    if ns.len() == 0 {
        assert(ns.push(n) =~= seq![n]);
        assert(seq![n].drop_first() =~= Seq::<HTMLValue>::empty());
        assert(seq![node_model(n)] + nodes_model(Seq::empty()) =~= nodes_model(ns).push(
            node_model(n),
        ));
    } else {
        lemma_nodes_model_push(ns.drop_first(), n);
        assert(ns.push(n).drop_first() =~= ns.drop_first().push(n));
        assert(seq![node_model(ns[0])] + nodes_model(ns.drop_first()).push(node_model(n)) =~= (
        seq![node_model(ns[0])] + nodes_model(ns.drop_first())).push(node_model(n)));
    }
}

pub proof fn lemma_nodes_model_len(ns: Seq<HTMLValue>)
    ensures
        nodes_model(ns).len() == ns.len(),
        forall|i: int| 0 <= i < ns.len() ==> nodes_model(ns)[i] == node_model(ns[i]),
    decreases ns.len(),
{
    if ns.len() > 0 {
        lemma_nodes_model_len(ns.drop_first());
    }
}

/// Every element of the tree, at any depth, has pairwise distinct
/// attribute keys.
pub open spec fn elem_attrs_unique(e: ElementModel) -> bool
    decreases e,
{
    attrs_keys_unique(e.attributes) && nodes_attrs_unique(e.children)
}

pub open spec fn node_attrs_unique(n: NodeModel) -> bool
    decreases n,
{
    match n {
        NodeModel::Element(e) => elem_attrs_unique(e),
        _ => true,
    }
}

pub open spec fn nodes_attrs_unique(ns: Seq<NodeModel>) -> bool
    decreases ns,
{
    if ns.len() == 0 {
        true
    } else {
        node_attrs_unique(ns[0]) && nodes_attrs_unique(ns.drop_first())
    }
}

pub proof fn lemma_nodes_attrs_unique_push(ns: Seq<NodeModel>, n: NodeModel)
    requires
        nodes_attrs_unique(ns),
        node_attrs_unique(n),
    ensures
        nodes_attrs_unique(ns.push(n)),
    decreases ns.len(),
{
    if ns.len() == 0 {
        assert(ns.push(n) =~= seq![n]);
        assert(seq![n].drop_first() =~= Seq::<NodeModel>::empty());
        assert(nodes_attrs_unique(Seq::<NodeModel>::empty()));
        assert(nodes_attrs_unique(seq![n]));
    } else {
        assert(ns.push(n)[0] == ns[0]);
        assert(ns.push(n).drop_first() =~= ns.drop_first().push(n));
        lemma_nodes_attrs_unique_push(ns.drop_first(), n);
        assert(nodes_attrs_unique(ns.push(n)));
    }
}

/// No element of the tree, at any depth, is a void element carrying
/// children.
pub open spec fn elem_void_ok(e: ElementModel) -> bool
    decreases e,
{
    (is_void_tag(e.tag) ==> e.children.len() == 0) && nodes_void_ok(e.children)
}

pub open spec fn node_void_ok(n: NodeModel) -> bool
    decreases n,
{
    match n {
        NodeModel::Element(e) => elem_void_ok(e),
        _ => true,
    }
}

pub open spec fn nodes_void_ok(ns: Seq<NodeModel>) -> bool
    decreases ns,
{
    if ns.len() == 0 {
        true
    } else {
        node_void_ok(ns[0]) && nodes_void_ok(ns.drop_first())
    }
}

pub proof fn lemma_nodes_void_ok_push(ns: Seq<NodeModel>, n: NodeModel)
    requires
        nodes_void_ok(ns),
        node_void_ok(n),
    ensures
        nodes_void_ok(ns.push(n)),
    decreases ns.len(),
{
    if ns.len() == 0 {
        assert(ns.push(n) =~= seq![n]);
        assert(seq![n].drop_first() =~= Seq::<NodeModel>::empty());
        assert(nodes_void_ok(Seq::<NodeModel>::empty()));
        assert(nodes_void_ok(seq![n]));
    } else {
        assert(ns.push(n)[0] == ns[0]);
        assert(ns.push(n).drop_first() =~= ns.drop_first().push(n));
        lemma_nodes_void_ok_push(ns.drop_first(), n);
        assert(nodes_void_ok(ns.push(n)));
    }
}

/// The fixed set of void tags: elements serialized self-closing, without a
/// separate closing tag and without children.
pub open spec fn is_void_tag(tag: Seq<char>) -> bool {
    ||| tag == "area"@
    ||| tag == "base"@
    ||| tag == "br"@
    ||| tag == "col"@
    ||| tag == "embed"@
    ||| tag == "hr"@
    ||| tag == "img"@
    ||| tag == "input"@
    ||| tag == "link"@
    ||| tag == "meta"@
    ||| tag == "param"@
    ||| tag == "source"@
    ||| tag == "track"@
    ||| tag == "wbr"@
}

/// The serialized attribute text: one ` key="escaped-value"` piece for each
/// attribute, in order.
pub open spec fn html_of_attrs(attrs: Seq<(Seq<char>, Seq<char>)>) -> Seq<char>
    decreases attrs.len(),
{
    if attrs.len() == 0 {
        Seq::empty()
    } else {
        " "@ + attrs[0].0 + "=\""@ + escape_seq(attrs[0].1) + "\""@ + html_of_attrs(
            attrs.drop_first(),
        )
    }
}

/// The text of the opening tag up to, but not including, its closing
/// bracket.
pub open spec fn html_open(e: ElementModel) -> Seq<char> {
    "<"@ + e.tag + html_of_attrs(e.attributes)
}

/// The serialized text of one element: a void tag closes with `/>` and never
/// serializes children; any other tag wraps its serialized children.
pub open spec fn html_of_elem(e: ElementModel) -> Seq<char>
    decreases e,
{
    if is_void_tag(e.tag) {
        html_open(e) + "/>"@
    } else {
        html_open(e) + ">"@ + html_of_nodes(e.children) + "</"@ + e.tag + ">"@
    }
}

/// The serialized text of one node.
pub open spec fn html_of_node(n: NodeModel) -> Seq<char>
    decreases n,
{
    match n {
        NodeModel::Element(e) => html_of_elem(e),
        NodeModel::Text(t) => escape_seq(t),
        NodeModel::Comment => "<!-- -->"@,
    }
}

/// The concatenation of the serialized texts of the nodes, in order.
pub open spec fn html_of_nodes(ns: Seq<NodeModel>) -> Seq<char>
    decreases ns,
{
    if ns.len() == 0 {
        Seq::empty()
    } else {
        html_of_node(ns[0]) + html_of_nodes(ns.drop_first())
    }
}

pub proof fn lemma_html_of_attrs_push(attrs: Seq<(Seq<char>, Seq<char>)>, a: (Seq<char>, Seq<char>))
    ensures
        html_of_attrs(attrs.push(a)) == html_of_attrs(attrs) + (" "@ + a.0 + "=\""@ + escape_seq(
            a.1,
        ) + "\""@),
    decreases attrs.len(),
{
    if attrs.len() == 0 {
        assert(attrs.push(a) =~= seq![a]);
        assert(seq![a].drop_first() =~= Seq::<(Seq<char>, Seq<char>)>::empty());
        assert(html_of_attrs(Seq::<(Seq<char>, Seq<char>)>::empty()) == Seq::<char>::empty());
        assert(html_of_attrs(seq![a]) =~= " "@ + a.0 + "=\""@ + escape_seq(a.1) + "\""@);
        assert(html_of_attrs(attrs) + (" "@ + a.0 + "=\""@ + escape_seq(a.1) + "\""@) =~= " "@
            + a.0 + "=\""@ + escape_seq(a.1) + "\""@);
    } else {
        lemma_html_of_attrs_push(attrs.drop_first(), a);
        assert(attrs.push(a).drop_first() =~= attrs.drop_first().push(a));
        assert(attrs.push(a)[0] == attrs[0]);
        assert(" "@ + attrs[0].0 + "=\""@ + escape_seq(attrs[0].1) + "\""@ + (html_of_attrs(
            attrs.drop_first(),
        ) + (" "@ + a.0 + "=\""@ + escape_seq(a.1) + "\""@)) =~= (" "@ + attrs[0].0 + "=\""@
            + escape_seq(attrs[0].1) + "\""@ + html_of_attrs(attrs.drop_first())) + (" "@ + a.0
            + "=\""@ + escape_seq(a.1) + "\""@));
    }
}

pub proof fn lemma_html_of_nodes_push(ns: Seq<NodeModel>, n: NodeModel)
    ensures
        html_of_nodes(ns.push(n)) == html_of_nodes(ns) + html_of_node(n),
    decreases ns.len(),
{
    if ns.len() == 0 {
        assert(ns.push(n) =~= seq![n]);
        assert(seq![n].drop_first() =~= Seq::<NodeModel>::empty());
        assert(html_of_nodes(Seq::<NodeModel>::empty()) == Seq::<char>::empty());
        assert(html_of_nodes(seq![n]) =~= html_of_node(n));
        assert(html_of_nodes(ns) + html_of_node(n) =~= html_of_node(n));
    } else {
        lemma_html_of_nodes_push(ns.drop_first(), n);
        assert(ns.push(n).drop_first() =~= ns.drop_first().push(n));
        assert(ns.push(n)[0] == ns[0]);
        assert(html_of_node(ns[0]) + (html_of_nodes(ns.drop_first()) + html_of_node(n)) =~= (
        html_of_node(ns[0]) + html_of_nodes(ns.drop_first())) + html_of_node(n));
    }
}

/// The first position holding the key, or a negative value when the key is
/// absent.
pub open spec fn attrs_find(attrs: Seq<(Seq<char>, Seq<char>)>, k: Seq<char>) -> int
    decreases attrs.len(),
{
    if attrs.len() == 0 {
        -1
    } else if attrs[0].0 == k {
        0
    } else if attrs_find(attrs.drop_first(), k) < 0 {
        -1
    } else {
        1 + attrs_find(attrs.drop_first(), k)
    }
}

/// Setting an attribute: an existing key keeps its position and takes the
/// new value; a new key is appended. Keys therefore stay unique.
pub open spec fn attrs_set(
    attrs: Seq<(Seq<char>, Seq<char>)>,
    k: Seq<char>,
    v: Seq<char>,
) -> Seq<(Seq<char>, Seq<char>)> {
    if attrs_find(attrs, k) < 0 {
        attrs.push((k, v))
    } else {
        attrs.update(attrs_find(attrs, k), (k, v))
    }
}

/// Attribute keys are pairwise distinct.
pub open spec fn attrs_keys_unique(attrs: Seq<(Seq<char>, Seq<char>)>) -> bool {
    forall|i: int, j: int| 0 <= i < j < attrs.len() ==> attrs[i].0 != attrs[j].0
}

proof fn lemma_attrs_find_props(attrs: Seq<(Seq<char>, Seq<char>)>, k: Seq<char>)
    ensures
        attrs_find(attrs, k) < 0 ==> forall|j: int| 0 <= j < attrs.len() ==> attrs[j].0 != k,
        attrs_find(attrs, k) >= 0 ==> 0 <= attrs_find(attrs, k) < attrs.len() && attrs[attrs_find(
            attrs,
            k,
        )].0 == k,
    decreases attrs.len(),
{
    if attrs.len() > 0 && attrs[0].0 != k {
        lemma_attrs_find_props(attrs.drop_first(), k);
        assert(forall|j: int| 1 <= j < attrs.len() ==> attrs[j] == attrs.drop_first()[j - 1]);
    }
}

/// Setting an attribute keeps the keys unique: an existing key is updated
/// in place, a new key is appended once.
pub proof fn lemma_attrs_set_keys_unique(
    attrs: Seq<(Seq<char>, Seq<char>)>,
    k: Seq<char>,
    v: Seq<char>,
)
    requires
        attrs_keys_unique(attrs),
    ensures
        attrs_keys_unique(attrs_set(attrs, k, v)),
{
    lemma_attrs_find_props(attrs, k);
}

pub proof fn lemma_attrs_find_at(attrs: Seq<(Seq<char>, Seq<char>)>, k: Seq<char>, i: int)
    requires
        0 <= i <= attrs.len(),
        forall|j: int| 0 <= j < i ==> attrs[j].0 != k,
        i == attrs.len() || attrs[i].0 == k,
    ensures
        attrs_find(attrs, k) == if i == attrs.len() {
            -1int
        } else {
            i
        },
    decreases attrs.len(),
{
    if attrs.len() > 0 && attrs[0].0 != k {
        lemma_attrs_find_at(attrs.drop_first(), k, i - 1);
    }
}

impl HTMLElement {
    /// Stores an attribute: replaces the value of an existing key in place,
    /// appends a new key at the end.
    pub fn set_attribute(&mut self, key: String, value: String)
        ensures
            final(self).tag == old(self).tag,
            final(self).children == old(self).children,
            attrs_model(final(self).attributes@) == attrs_set(
                attrs_model(old(self).attributes@),
                key@,
                value@,
            ),
    {
        let ghost attrs = attrs_model(self.attributes@);
        let mut i: usize = 0;
        while i < self.attributes.len()
            invariant
                0 <= i <= self.attributes.len(),
                attrs == attrs_model(self.attributes@),
                attrs.len() == self.attributes.len(),
                forall|j: int|
                    0 <= j < attrs.len() ==> attrs[j] == (
                    self.attributes@[j].0@,
                    self.attributes@[j].1@,
                ),
                forall|j: int| 0 <= j < i ==> attrs[j].0 != key@,
                self == old(self),
            decreases self.attributes.len() - i,
        {
            if str_eq(self.attributes[i].0.as_str(), key.as_str()) {
                proof {
                    lemma_attrs_find_at(attrs, key@, i as int);
                }
                self.attributes.set(i, (key, value));
                proof {
                    assert(attrs_model(self.attributes@) =~= attrs.update(i as int, (key@, value@)));
                }
                return ;
            }
            i += 1;
        }
        proof {
            lemma_attrs_find_at(attrs, key@, attrs.len() as int);
        }
        self.attributes.push((key, value));
        proof {
            assert(attrs_model(self.attributes@) =~= attrs.push((key@, value@)));
        }
    }

    /// Whether this element's tag is in the fixed void set.
    pub(crate) fn is_self_closing(&self) -> (r: bool)
        ensures
            r == is_void_tag(self.tag@),
    {
        let t = self.tag.as_str();
        str_eq(t, "area") || str_eq(t, "base") || str_eq(t, "br") || str_eq(t, "col") || str_eq(
            t,
            "embed",
        ) || str_eq(t, "hr") || str_eq(t, "img") || str_eq(t, "input") || str_eq(t, "link")
            || str_eq(t, "meta") || str_eq(t, "param") || str_eq(t, "source") || str_eq(t, "track")
            || str_eq(t, "wbr")
    }

    /// Serializes this element to HTML text.
    pub fn render(&self) -> (r: String)
        ensures
            r@ == html_of_elem(self@),
        decreases *self,
    {
        let mut out = String::from_str("<");
        out.append(self.tag.as_str());
        let ghost attrs = attrs_model(self.attributes@);
        proof {
            assert(attrs.take(0) =~= Seq::<(Seq<char>, Seq<char>)>::empty());
            assert(out@ =~= "<"@ + self.tag@ + html_of_attrs(attrs.take(0)));
        }
        let mut i: usize = 0;
        while i < self.attributes.len()
            invariant
                0 <= i <= self.attributes.len(),
                attrs == attrs_model(self.attributes@),
                attrs.len() == self.attributes.len(),
                forall|j: int|
                    0 <= j < attrs.len() ==> attrs[j] == (
                    self.attributes@[j].0@,
                    self.attributes@[j].1@,
                ),
                out@ == "<"@ + self.tag@ + html_of_attrs(attrs.take(i as int)),
            decreases self.attributes.len() - i,
        {
            let ghost old_out = out@;
            out.append(" ");
            out.append(self.attributes[i].0.as_str());
            out.append("=\"");
            let escaped = escape_html(self.attributes[i].1.as_str());
            out.append(escaped.as_str());
            out.append("\"");
            proof {
                lemma_html_of_attrs_push(attrs.take(i as int), attrs[i as int]);
                assert(attrs.take(i as int).push(attrs[i as int]) =~= attrs.take(i as int + 1));
                assert(out@ =~= old_out + (" "@ + attrs[i as int].0 + "=\""@ + escape_seq(
                    attrs[i as int].1,
                ) + "\""@));
                assert(out@ =~= "<"@ + self.tag@ + (html_of_attrs(attrs.take(i as int)) + (" "@
                    + attrs[i as int].0 + "=\""@ + escape_seq(attrs[i as int].1) + "\""@)));
            }
            i += 1;
        }
        proof {
            assert(attrs.take(self.attributes.len() as int) =~= attrs);
            assert(out@ == html_open(self@));
        }
        if self.is_self_closing() {
            out.append("/>");
            out
        } else {
            out.append(">");
            let ghost kids = nodes_model(self.children@);
            proof {
                lemma_nodes_model_len(self.children@);
                assert(kids.take(0) =~= Seq::<NodeModel>::empty());
                assert(out@ =~= html_open(self@) + ">"@ + html_of_nodes(kids.take(0)));
            }
            let mut k: usize = 0;
            while k < self.children.len()
                invariant
                    0 <= k <= self.children.len(),
                    kids == nodes_model(self.children@),
                    kids.len() == self.children.len(),
                    forall|j: int| 0 <= j < kids.len() ==> kids[j] == node_model(self.children@[j]),
                    out@ == html_open(self@) + ">"@ + html_of_nodes(kids.take(k as int)),
                    !is_void_tag(self.tag@),
                decreases self.children.len() - k,
            {
                let ghost old_out = out@;
                proof {
                    assert(decreases_to!(*self => self.children));
                    assert(decreases_to!(self.children => self.children@));
                    assert(decreases_to!(self.children@ => self.children@[k as int]));
                }
                let piece = self.children[k].render();
                out.append(piece.as_str());
                proof {
                    lemma_html_of_nodes_push(kids.take(k as int), kids[k as int]);
                    assert(kids.take(k as int).push(kids[k as int]) =~= kids.take(k as int + 1));
                    assert(out@ =~= html_open(self@) + ">"@ + (html_of_nodes(kids.take(k as int))
                        + html_of_node(kids[k as int])));
                }
                k += 1;
            }
            proof {
                assert(kids.take(self.children.len() as int) =~= kids);
            }
            out.append("</");
            out.append(self.tag.as_str());
            out.append(">");
            proof {
                assert(out@ =~= html_open(self@) + ">"@ + html_of_nodes(kids) + "</"@ + self.tag@
                    + ">"@);
            }
            out
        }
    }
}

impl HTMLValue {
    /// Serializes this node to HTML text; text is escaped here, exactly
    /// once.
    pub fn render(&self) -> (r: String)
        ensures
            r@ == html_of_node(self@),
        decreases *self,
    {
        match self {
            HTMLValue::Element(e) => e.render(),
            HTMLValue::Text(t) => escape_html(t.as_str()),
            HTMLValue::Comment => String::from_str("<!-- -->"),
        }
    }
}

} // verus!
