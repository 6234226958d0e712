//! General properties of the renderer, stated and proved once and for all
//! inputs.

use vstd::prelude::*;
use crate::component::Component;
use crate::context::map_of;
use crate::errors::ErrorModel;
use crate::escape::{escape_seq, lemma_escape_seq_concat};
use crate::html::{
    ElementModel, NodeModel, attrs_keys_unique, attrs_set, elem_attrs_unique, elem_void_ok,
    html_of_elem, html_open, is_void_tag, lemma_attrs_set_keys_unique,
    lemma_nodes_attrs_unique_push, lemma_nodes_void_ok_push, nodes_attrs_unique, nodes_void_ok,
};
use crate::css::{css_of_style, style_attr_set};
use crate::jsx::{ChildModel, JsxModel, JsxTypeModel, PropValueModel, PropsModel};
use crate::server::{
    RootModel, spec_build_attrs, spec_render_server_side, spec_resolve, spec_resolve_child,
    spec_resolve_children, spec_resolve_fragment, spec_resolve_intrinsic,
};

verus! {

/// Rendering is a pure function of its input: any two static markups
/// produced for the same root are byte-identical, so re-serializing the
/// same input tree gives the same output.
pub proof fn lemma_static_markup_idempotent<C: Component>(
    root: RootModel<C>,
    a: Result<Seq<char>, ErrorModel>,
    b: Result<Seq<char>, ErrorModel>,
)
    requires
        a == spec_render_server_side(root, true).out,
        b == spec_render_server_side(root, true).out,
    ensures
        a == b,
{
}

/// A void tag's markup ends with the self-closing bracket: no closing tag
/// is ever emitted, and the children play no part in the serialized text.
pub proof fn lemma_void_tag_serialization(e: ElementModel)
    requires
        is_void_tag(e.tag),
    ensures
        html_of_elem(e) == html_open(e) + "/>"@,
        html_of_elem(e) == html_of_elem(ElementModel { children: Seq::empty(), ..e }),
{
}

/// A void host element's children are not even visited: resolving it
/// yields the same outcome whatever children were supplied.
pub proof fn lemma_void_children_not_visited<C: Component>(
    tag: Seq<char>,
    props1: PropsModel<C>,
    props2: PropsModel<C>,
    parent: Option<ElementModel>,
    ctx: Map<Seq<char>, Seq<char>>,
    is_static: bool,
    is_root: bool,
    fuel: nat,
)
    requires
        is_void_tag(tag),
        props1.attrs == props2.attrs,
    ensures
        spec_resolve_intrinsic(tag, props1, parent, ctx, is_static, is_root, fuel)
            == spec_resolve_intrinsic(tag, props2, parent, ctx, is_static, is_root, fuel),
{
}

/// The attribute keys a host element ends up with are unique: building the
/// attribute list from any props keeps every accumulated key set unique,
/// because storing an attribute updates an existing key in place.
pub proof fn lemma_built_attrs_keys_unique(
    attrs: Seq<(Seq<char>, PropValueModel)>,
    acc: Seq<(Seq<char>, Seq<char>)>,
)
    requires
        attrs_keys_unique(acc),
    ensures
        spec_build_attrs(attrs, acc) matches Ok(a) ==> attrs_keys_unique(a),
    decreases attrs.len(),
{
    if attrs.len() > 0 {
        let k = attrs[0].0;
        let v = attrs[0].1;
        if k == "hasOwnProperty"@ || k == "children"@ {
            lemma_built_attrs_keys_unique(attrs.drop_first(), acc);
        } else if k == "style"@ {
            match v {
                PropValueModel::Style(m) => {
                    if css_of_style(m).len() == 0 {
                    } else {
                        lemma_attrs_set_keys_unique(acc, k, css_of_style(m));
                    }
                    lemma_built_attrs_keys_unique(
                        attrs.drop_first(),
                        style_attr_set(acc, k, m),
                    );
                },
                _ => {
                    lemma_built_attrs_keys_unique(attrs.drop_first(), acc);
                },
            }
        } else {
            match v {
                PropValueModel::Str(s) => {
                    lemma_attrs_set_keys_unique(acc, k, s);
                    lemma_built_attrs_keys_unique(attrs.drop_first(), attrs_set(acc, k, s));
                },
                PropValueModel::Num(t) => {
                    lemma_attrs_set_keys_unique(acc, k, t);
                    lemma_built_attrs_keys_unique(attrs.drop_first(), attrs_set(acc, k, t));
                },
                PropValueModel::Obj(s) => {
                    lemma_attrs_set_keys_unique(acc, k, s);
                    lemma_built_attrs_keys_unique(attrs.drop_first(), attrs_set(acc, k, s));
                },
                PropValueModel::Style(m) => {
                    lemma_attrs_set_keys_unique(acc, k, "[object Object]"@);
                    lemma_built_attrs_keys_unique(
                        attrs.drop_first(),
                        attrs_set(acc, k, "[object Object]"@),
                    );
                },
                PropValueModel::Opaque => {},
            }
        }
    }
}

pub open spec fn opt_attrs_unique(p: Option<ElementModel>) -> bool {
    match p {
        Some(e) => elem_attrs_unique(e),
        None => true,
    }
}

/// Resolution keeps attribute keys unique at every depth of the output:
/// whatever virtual element is resolved against an accumulator whose tree
/// already has unique keys, a successful outcome has unique keys again.
pub proof fn lemma_resolve_attrs_unique<C: Component>(
    j: JsxModel<C>,
    parent: Option<ElementModel>,
    ctx: Map<Seq<char>, Seq<char>>,
    is_static: bool,
    is_root: bool,
    fuel: nat,
)
    requires
        opt_attrs_unique(parent),
    ensures
        spec_resolve(j, parent, ctx, is_static, is_root, fuel).out matches Ok(p)
            ==> opt_attrs_unique(p),
    decreases fuel, crate::jsx::jsx_size(j), 3int,
{
    match j.jsx_type {
        JsxTypeModel::Component(c) => {
            if fuel > 0 {
                let merged = if c.spec_has_child_context_types() {
                    ctx.union_prefer_right(map_of(c.spec_child_context()))
                } else {
                    ctx
                };
                match c.spec_render(ctx) {
                    None => {},
                    Some(j2) => {
                        lemma_resolve_attrs_unique(
                            j2,
                            parent,
                            merged,
                            is_static,
                            is_root,
                            (fuel - 1) as nat,
                        );
                    },
                }
            }
        },
        JsxTypeModel::Functional(c) => {
            if fuel > 0 {
                match c.spec_render(ctx) {
                    None => {},
                    Some(j2) => {
                        lemma_resolve_attrs_unique(
                            j2,
                            parent,
                            ctx,
                            is_static,
                            is_root,
                            (fuel - 1) as nat,
                        );
                    },
                }
            }
        },
        JsxTypeModel::Intrinsic(tag) => {
            lemma_intrinsic_attrs_unique(tag, j.props, parent, ctx, is_static, is_root, fuel);
        },
        JsxTypeModel::Fragment => {
            lemma_fragment_attrs_unique(
                j.props.children,
                parent,
                ctx,
                is_static,
                is_root,
                fuel,
            );
        },
        JsxTypeModel::Unknown => {},
    }
}

proof fn lemma_intrinsic_attrs_unique<C: Component>(
    tag: Seq<char>,
    props: PropsModel<C>,
    parent: Option<ElementModel>,
    ctx: Map<Seq<char>, Seq<char>>,
    is_static: bool,
    is_root: bool,
    fuel: nat,
)
    requires
        opt_attrs_unique(parent),
    ensures
        spec_resolve_intrinsic(tag, props, parent, ctx, is_static, is_root, fuel).out matches Ok(p)
            ==> opt_attrs_unique(p),
    decreases fuel, crate::jsx::children_size(props.children), 2int,
{
    let precheck = if crate::server::props_poisoned(props.attrs) {
        None
    } else {
        crate::server::spec_check_style(tag, props.attrs)
    };
    if precheck is None {
        match spec_build_attrs(props.attrs, seq![]) {
            Err(_) => {},
            Ok(a0) => {
                assert(attrs_keys_unique(Seq::<(Seq<char>, Seq<char>)>::empty()));
                lemma_built_attrs_keys_unique(props.attrs, seq![]);
                let a1 = if !is_static && is_root {
                    attrs_set(a0, "data-reactroot"@, Seq::empty())
                } else {
                    a0
                };
                if !is_static && is_root {
                    lemma_attrs_set_keys_unique(a0, "data-reactroot"@, Seq::empty());
                }
                let elem = ElementModel { tag, attributes: a1, children: seq![] };
                assert(nodes_attrs_unique(elem.children));
                assert(elem_attrs_unique(elem));
                if is_void_tag(tag) {
                    lemma_append_attrs_unique(parent, elem);
                } else {
                    lemma_children_attrs_unique(props.children, elem, ctx, is_static, fuel);
                    let r = spec_resolve_children(props.children, elem, ctx, is_static, fuel);
                    match r.out {
                        Err(_) => {},
                        Ok(e2) => {
                            lemma_append_attrs_unique(parent, e2);
                        },
                    }
                }
            },
        }
    }
}

proof fn lemma_append_attrs_unique(parent: Option<ElementModel>, elem: ElementModel)
    requires
        opt_attrs_unique(parent),
        elem_attrs_unique(elem),
    ensures
        opt_attrs_unique(crate::server::spec_append(parent, elem)),
{
    match parent {
        Some(p) => {
            lemma_nodes_attrs_unique_push(p.children, NodeModel::Element(elem));
        },
        None => {},
    }
}

proof fn lemma_children_attrs_unique<C: Component>(
    cs: Seq<ChildModel<C>>,
    e: ElementModel,
    ctx: Map<Seq<char>, Seq<char>>,
    is_static: bool,
    fuel: nat,
)
    requires
        elem_attrs_unique(e),
    ensures
        spec_resolve_children(cs, e, ctx, is_static, fuel).out matches Ok(e2) ==> elem_attrs_unique(
            e2,
        ),
    decreases fuel, crate::jsx::children_size(cs), 1int,
{
    if cs.len() > 0 {
        lemma_child_attrs_unique(cs[0], e, ctx, is_static, fuel);
        let r = spec_resolve_child(cs[0], e, ctx, is_static, fuel);
        match r.out {
            Err(_) => {},
            Ok(e2) => {
                lemma_children_attrs_unique(cs.drop_first(), e2, ctx, is_static, fuel);
            },
        }
    }
}

proof fn lemma_child_attrs_unique<C: Component>(
    c: ChildModel<C>,
    e: ElementModel,
    ctx: Map<Seq<char>, Seq<char>>,
    is_static: bool,
    fuel: nat,
)
    requires
        elem_attrs_unique(e),
    ensures
        spec_resolve_child(c, e, ctx, is_static, fuel).out matches Ok(e2) ==> elem_attrs_unique(e2),
    decreases fuel, crate::jsx::child_size(c), 0int,
{
    match c {
        ChildModel::Text(t) => {
            lemma_render_text_attrs_unique(e, t, is_static);
        },
        ChildModel::Number(t) => {
            lemma_render_text_attrs_unique(e, t, is_static);
        },
        ChildModel::Skipped => {},
        ChildModel::DataObject(_) => {},
        ChildModel::Element(j) => {
            lemma_resolve_attrs_unique(j, Some(e), ctx, is_static, false, fuel);
        },
    }
}

proof fn lemma_render_text_attrs_unique(e: ElementModel, t: Seq<char>, is_static: bool)
    requires
        elem_attrs_unique(e),
    ensures
        elem_attrs_unique(crate::server::spec_render_text(e, t, is_static)),
{
    let sep = !is_static && e.children.len() > 0 && e.children.last() is Text;
    if sep {
        lemma_nodes_attrs_unique_push(e.children, NodeModel::Comment);
        lemma_nodes_attrs_unique_push(e.children.push(NodeModel::Comment), NodeModel::Text(t));
    } else {
        lemma_nodes_attrs_unique_push(e.children, NodeModel::Text(t));
    }
}

proof fn lemma_fragment_attrs_unique<C: Component>(
    cs: Seq<ChildModel<C>>,
    parent: Option<ElementModel>,
    ctx: Map<Seq<char>, Seq<char>>,
    is_static: bool,
    is_root: bool,
    fuel: nat,
)
    requires
        opt_attrs_unique(parent),
    ensures
        spec_resolve_fragment(cs, parent, ctx, is_static, is_root, fuel).out matches Ok(p)
            ==> opt_attrs_unique(p),
    decreases fuel, crate::jsx::children_size(cs), 2int,
{
    match parent {
        Some(e) => {
            lemma_children_attrs_unique(cs, e, ctx, is_static, fuel);
        },
        None => {
            if cs.len() > 0 {
                crate::jsx::lemma_child_size_pos(cs[0]);
                assert(crate::jsx::children_size(cs) == crate::jsx::child_size(cs[0])
                    + crate::jsx::children_size(cs.drop_first()));
                match cs[0] {
                    ChildModel::Element(j) => {
                        assert(crate::jsx::child_size(cs[0]) == 1 + crate::jsx::jsx_size(j));
                        lemma_resolve_attrs_unique(j, None, ctx, is_static, is_root, fuel);
                        let r = spec_resolve(j, None, ctx, is_static, is_root, fuel);
                        match r.out {
                            Err(_) => {},
                            Ok(p2) => {
                                lemma_fragment_attrs_unique(
                                    cs.drop_first(),
                                    p2,
                                    ctx,
                                    is_static,
                                    is_root,
                                    fuel,
                                );
                            },
                        }
                    },
                    ChildModel::DataObject(_) => {},
                    _ => {
                        lemma_fragment_attrs_unique(
                            cs.drop_first(),
                            parent,
                            ctx,
                            is_static,
                            is_root,
                            fuel,
                        );
                    },
                }
            }
        },
    }
}

/// Resolution below a host element never gives a void element children:
/// given a non-void accumulator whose tree is already free of such
/// elements, a successful resolve keeps it so. The builder skips a void
/// element's children outright, so every void element in the output under
/// a host element is childless.
pub proof fn lemma_resolve_void_ok<C: Component>(
    j: JsxModel<C>,
    e0: ElementModel,
    ctx: Map<Seq<char>, Seq<char>>,
    is_static: bool,
    is_root: bool,
    fuel: nat,
)
    requires
        elem_void_ok(e0),
        !is_void_tag(e0.tag),
    ensures
        spec_resolve(j, Some(e0), ctx, is_static, is_root, fuel).out matches Ok(p) ==> (
        p matches Some(e) && elem_void_ok(e) && e.tag == e0.tag),
    decreases fuel, crate::jsx::jsx_size(j), 3int,
{
    match j.jsx_type {
        JsxTypeModel::Component(c) => {
            if fuel > 0 {
                let merged = if c.spec_has_child_context_types() {
                    ctx.union_prefer_right(map_of(c.spec_child_context()))
                } else {
                    ctx
                };
                match c.spec_render(ctx) {
                    None => {},
                    Some(j2) => {
                        lemma_resolve_void_ok(
                            j2,
                            e0,
                            merged,
                            is_static,
                            is_root,
                            (fuel - 1) as nat,
                        );
                    },
                }
            }
        },
        JsxTypeModel::Functional(c) => {
            if fuel > 0 {
                match c.spec_render(ctx) {
                    None => {},
                    Some(j2) => {
                        lemma_resolve_void_ok(j2, e0, ctx, is_static, is_root, (fuel - 1) as nat);
                    },
                }
            }
        },
        JsxTypeModel::Intrinsic(tag) => {
            lemma_intrinsic_void_ok(tag, j.props, e0, ctx, is_static, is_root, fuel);
        },
        JsxTypeModel::Fragment => {
            lemma_children_void_ok(j.props.children, e0, ctx, is_static, fuel);
            let r = spec_resolve_fragment(j.props.children, Some(e0), ctx, is_static, is_root, fuel);
            let rc = spec_resolve_children(j.props.children, e0, ctx, is_static, fuel);
            assert(r.out == (match rc.out {
                Ok(e2) => Ok::<Option<ElementModel>, ErrorModel>(Some(e2)),
                Err(err) => Err(err),
            }));
        },
        JsxTypeModel::Unknown => {},
    }
}

proof fn lemma_intrinsic_void_ok<C: Component>(
    tag: Seq<char>,
    props: PropsModel<C>,
    e0: ElementModel,
    ctx: Map<Seq<char>, Seq<char>>,
    is_static: bool,
    is_root: bool,
    fuel: nat,
)
    requires
        elem_void_ok(e0),
        !is_void_tag(e0.tag),
    ensures
        spec_resolve_intrinsic(tag, props, Some(e0), ctx, is_static, is_root, fuel).out matches Ok(
            p,
        ) ==> (p matches Some(e) && elem_void_ok(e) && e.tag == e0.tag),
    decreases fuel, crate::jsx::children_size(props.children), 2int,
{
    let precheck = if crate::server::props_poisoned(props.attrs) {
        None
    } else {
        crate::server::spec_check_style(tag, props.attrs)
    };
    if precheck is None {
        match spec_build_attrs(props.attrs, seq![]) {
            Err(_) => {},
            Ok(a0) => {
                let a1 = if !is_static && is_root {
                    attrs_set(a0, "data-reactroot"@, Seq::empty())
                } else {
                    a0
                };
                let elem = ElementModel { tag, attributes: a1, children: seq![] };
                assert(nodes_void_ok(elem.children));
                assert(elem_void_ok(elem));
                if is_void_tag(tag) {
                    lemma_nodes_void_ok_push(e0.children, NodeModel::Element(elem));
                } else {
                    lemma_children_void_ok(props.children, elem, ctx, is_static, fuel);
                    let r = spec_resolve_children(props.children, elem, ctx, is_static, fuel);
                    match r.out {
                        Err(_) => {},
                        Ok(e2) => {
                            lemma_nodes_void_ok_push(e0.children, NodeModel::Element(e2));
                        },
                    }
                }
            },
        }
    }
}

proof fn lemma_children_void_ok<C: Component>(
    cs: Seq<ChildModel<C>>,
    e: ElementModel,
    ctx: Map<Seq<char>, Seq<char>>,
    is_static: bool,
    fuel: nat,
)
    requires
        elem_void_ok(e),
        !is_void_tag(e.tag),
    ensures
        spec_resolve_children(cs, e, ctx, is_static, fuel).out matches Ok(e2) ==> (elem_void_ok(e2)
            && e2.tag == e.tag),
    decreases fuel, crate::jsx::children_size(cs), 1int,
{
    if cs.len() > 0 {
        lemma_child_void_ok(cs[0], e, ctx, is_static, fuel);
        let r = spec_resolve_child(cs[0], e, ctx, is_static, fuel);
        match r.out {
            Err(_) => {},
            Ok(e2) => {
                lemma_children_void_ok(cs.drop_first(), e2, ctx, is_static, fuel);
            },
        }
    }
}

proof fn lemma_child_void_ok<C: Component>(
    c: ChildModel<C>,
    e: ElementModel,
    ctx: Map<Seq<char>, Seq<char>>,
    is_static: bool,
    fuel: nat,
)
    requires
        elem_void_ok(e),
        !is_void_tag(e.tag),
    ensures
        spec_resolve_child(c, e, ctx, is_static, fuel).out matches Ok(e2) ==> (elem_void_ok(e2)
            && e2.tag == e.tag),
    decreases fuel, crate::jsx::child_size(c), 0int,
{
    match c {
        ChildModel::Text(t) => {
            lemma_render_text_void_ok(e, t, is_static);
        },
        ChildModel::Number(t) => {
            lemma_render_text_void_ok(e, t, is_static);
        },
        ChildModel::Skipped => {},
        ChildModel::DataObject(_) => {},
        ChildModel::Element(j) => {
            lemma_resolve_void_ok(j, e, ctx, is_static, false, fuel);
        },
    }
}

proof fn lemma_render_text_void_ok(e: ElementModel, t: Seq<char>, is_static: bool)
    requires
        elem_void_ok(e),
        !is_void_tag(e.tag),
    ensures
        elem_void_ok(crate::server::spec_render_text(e, t, is_static)),
        crate::server::spec_render_text(e, t, is_static).tag == e.tag,
{
    let sep = !is_static && e.children.len() > 0 && e.children.last() is Text;
    if sep {
        lemma_nodes_void_ok_push(e.children, NodeModel::Comment);
        lemma_nodes_void_ok_push(e.children.push(NodeModel::Comment), NodeModel::Text(t));
    } else {
        lemma_nodes_void_ok_push(e.children, NodeModel::Text(t));
    }
}

/// Escaping substitutes each character independently, exactly once: the
/// escape of a concatenation is the concatenation of the escapes. In
/// particular, text already holding an entity is escaped around and inside
/// that entity character by character, never re-interpreted.
pub proof fn lemma_escape_applied_once(a: Seq<char>, b: Seq<char>)
    ensures
        escape_seq(a + b) == escape_seq(a) + escape_seq(b),
{
    lemma_escape_seq_concat(a, b);
}

/// A child-context contribution is visible below with precedence over any
/// same-named ancestor value, and every ancestor key outside the
/// contribution is kept: the context never loses a key going down.
pub proof fn lemma_child_context_precedence(
    parent: Map<Seq<char>, Seq<char>>,
    contribs: Map<Seq<char>, Seq<char>>,
)
    ensures
        forall|k: Seq<char>| #[trigger]
            contribs.contains_key(k) ==> parent.union_prefer_right(contribs).contains_key(k)
                && parent.union_prefer_right(contribs)[k] == contribs[k],
        forall|k: Seq<char>| #[trigger]
            parent.contains_key(k) ==> parent.union_prefer_right(contribs).contains_key(k),
        forall|k: Seq<char>|
            parent.contains_key(k) && !contribs.contains_key(k)
                ==> parent.union_prefer_right(contribs)[k] == parent[k],
{
}

/// A class component's subtree is resolved under the parent context merged
/// with the component's own contribution — the declared child context is
/// what every descendant render call receives.
pub proof fn lemma_class_component_context<C: Component>(
    j: JsxModel<C>,
    c: C,
    j2: JsxModel<C>,
    parent: Option<ElementModel>,
    ctx: Map<Seq<char>, Seq<char>>,
    is_static: bool,
    is_root: bool,
    fuel: nat,
)
    requires
        j.jsx_type == JsxTypeModel::Component(c),
        fuel > 0,
        c.spec_render(ctx) == Some(j2),
        c.spec_has_child_context_types(),
    ensures
        spec_resolve(j, parent, ctx, is_static, is_root, fuel) == spec_resolve(
            j2,
            parent,
            ctx.union_prefer_right(map_of(c.spec_child_context())),
            is_static,
            is_root,
            (fuel - 1) as nat,
        ),
{
}

/// Sibling subtrees are independent: resolving a children list splits at
/// any point, the tail picking up exactly where the head left off, and
/// every child is resolved under the same, unchanged context. A sibling's
/// contribution can therefore never leak into another sibling's context.
pub proof fn lemma_children_split<C: Component>(
    cs1: Seq<ChildModel<C>>,
    cs2: Seq<ChildModel<C>>,
    e: ElementModel,
    ctx: Map<Seq<char>, Seq<char>>,
    is_static: bool,
    fuel: nat,
)
    ensures
        ({
            let whole = spec_resolve_children(cs1 + cs2, e, ctx, is_static, fuel);
            let head = spec_resolve_children(cs1, e, ctx, is_static, fuel);
            match head.out {
                Err(err) => whole.out == head.out && whole.diags == head.diags,
                Ok(e2) => {
                    let tail = spec_resolve_children(cs2, e2, ctx, is_static, fuel);
                    whole.out == tail.out && whole.diags == head.diags + tail.diags
                },
            }
        }),
    decreases cs1.len(),
{
    let whole = spec_resolve_children(cs1 + cs2, e, ctx, is_static, fuel);
    let head = spec_resolve_children(cs1, e, ctx, is_static, fuel);
    if cs1.len() == 0 {
        assert(cs1 + cs2 =~= cs2);
        match head.out {
            Ok(e2) => {
                let tail = spec_resolve_children(cs2, e2, ctx, is_static, fuel);
                assert(head.diags + tail.diags =~= tail.diags);
            },
            Err(err) => {},
        }
    } else {
        assert((cs1 + cs2)[0] == cs1[0]);
        assert((cs1 + cs2).drop_first() =~= cs1.drop_first() + cs2);
        let step = spec_resolve_child(cs1[0], e, ctx, is_static, fuel);
        match step.out {
            Err(err) => {},
            Ok(e2) => {
                lemma_children_split(cs1.drop_first(), cs2, e2, ctx, is_static, fuel);
                let head_rest = spec_resolve_children(cs1.drop_first(), e2, ctx, is_static, fuel);
                match head_rest.out {
                    Err(err) => {},
                    Ok(e3) => {
                        let tail = spec_resolve_children(cs2, e3, ctx, is_static, fuel);
                        assert(step.diags + (head_rest.diags + tail.diags) =~= (step.diags
                            + head_rest.diags) + tail.diags);
                    },
                }
            },
        }
    }
}

} // verus!
