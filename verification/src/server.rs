//! The virtual-element resolver and the server-side entry points.
//!
//! The resolver classifies each node, invokes component logic, threads the
//! legacy context down the tree, and builds the output tree; the entry
//! points serialize it. The specification functions here define the whole
//! resolution as a mathematical function of the input tree; the executable
//! functions are proved to compute exactly that.

use vstd::prelude::*;
use crate::component::Component;
use crate::context::map_of;
use crate::css::style_attr_set;
use crate::errors::{
    ErrorModel, RenderErrorKind, invalid_element_msg, invalid_object_msg, invalid_style_msg,
    poisoned_probe_msg, tree_too_deep_msg, unsupported_attr_msg,
};
use crate::html::{
    ElementModel, HTMLElement, HTMLValue, NodeModel, attrs_set, elem_model, html_of_elem,
    is_void_tag, lemma_nodes_model_len, lemma_nodes_model_push,
};
use crate::jsx::{
    Child, ChildModel, Jsx, JsxModel, JsxType, JsxTypeModel, PropValue, PropValueModel, Props,
    PropsModel, child_model, child_size, children_model, children_size, jsx_model, jsx_size,
    keys_model, lemma_children_model_len, prop_attrs_model, prop_value_model, props_model,
};
use crate::css::add_style_to_attributes;
use crate::context::Context;
use crate::errors::RenderError;
use crate::strutil::{join_seqs, lemma_join_seqs_push, str_eq};
use vstd::string::StringExecFns;

verus! {

/// How deep a chain of component expansions may grow before resolution
/// fails rather than exhaust the stack.
pub const RENDER_DEPTH_LIMIT: u32 = 256;

/// The outcome of resolving one virtual element against an optional parent
/// accumulator, together with the diagnostics it emitted.
pub struct ResolveModel {
    pub out: Result<Option<ElementModel>, ErrorModel>,
    pub diags: Seq<Seq<char>>,
}

/// The outcome of resolving one child against a concrete parent element.
pub struct ChildOutModel {
    pub out: Result<ElementModel, ErrorModel>,
    pub diags: Seq<Seq<char>>,
}

/// Appending a text-like child: when the previous sibling in the output is
/// itself a text and the output is not static, an empty comment separates
/// the two, so that they are not merged on re-attachment. The first
/// text-like sibling never gets a comment, nor does one follow an element.
pub open spec fn spec_render_text(e: ElementModel, t: Seq<char>, is_static: bool) -> ElementModel {
    let sep = !is_static && e.children.len() > 0 && e.children.last() is Text;
    let cs = if sep {
        e.children.push(NodeModel::Comment)
    } else {
        e.children
    };
    ElementModel { children: cs.push(NodeModel::Text(t)), ..e }
}

/// Appending a finished element to its parent; with no parent the element
/// itself becomes the return value.
pub open spec fn spec_append(parent: Option<ElementModel>, elem: ElementModel) -> Option<
    ElementModel,
> {
    match parent {
        Some(p) => Some(ElementModel { children: p.children.push(NodeModel::Element(elem)), ..p }),
        None => Some(elem),
    }
}

/// Whether user data shadows the property-existence probe on a props
/// mapping.
pub open spec fn props_poisoned(attrs: Seq<(Seq<char>, PropValueModel)>) -> bool {
    exists|i: int| 0 <= i < attrs.len() && attrs[i].0 == "hasOwnProperty"@
}

/// The value of the first style entry, if any.
pub open spec fn first_style_value(attrs: Seq<(Seq<char>, PropValueModel)>) -> Option<
    PropValueModel,
>
    decreases attrs.len(),
{
    if attrs.len() == 0 {
        None
    } else if attrs[0].0 == "style"@ {
        Some(attrs[0].1)
    } else {
        first_style_value(attrs.drop_first())
    }
}

/// The style pre-check: a present style property whose value is not a
/// mapping is fatal.
pub open spec fn spec_check_style(tag: Seq<char>, attrs: Seq<(Seq<char>, PropValueModel)>) -> Option<
    ErrorModel,
> {
    match first_style_value(attrs) {
        Some(v) => if !(v is Style) {
            Some(
                ErrorModel {
                    kind: RenderErrorKind::InvalidStyleProp,
                    message: invalid_style_msg(tag),
                },
            )
        } else {
            None
        },
        None => None,
    }
}

/// Builds the attribute list of a host element from its props, one entry
/// at a time: reserved keys are skipped, the style mapping is serialized,
/// strings, numbers and objects coerce to text, and any other value kind
/// is fatal.
pub open spec fn spec_build_attrs(
    attrs: Seq<(Seq<char>, PropValueModel)>,
    acc: Seq<(Seq<char>, Seq<char>)>,
) -> Result<Seq<(Seq<char>, Seq<char>)>, ErrorModel>
    decreases attrs.len(),
{
    if attrs.len() == 0 {
        Ok(acc)
    } else {
        let k = attrs[0].0;
        let v = attrs[0].1;
        if k == "hasOwnProperty"@ || k == "children"@ {
            spec_build_attrs(attrs.drop_first(), acc)
        } else if k == "style"@ {
            match v {
                PropValueModel::Style(m) => spec_build_attrs(
                    attrs.drop_first(),
                    style_attr_set(acc, k, m),
                ),
                _ => spec_build_attrs(attrs.drop_first(), acc),
            }
        } else {
            match v {
                PropValueModel::Str(s) => spec_build_attrs(attrs.drop_first(), attrs_set(acc, k, s)),
                PropValueModel::Num(t) => spec_build_attrs(attrs.drop_first(), attrs_set(acc, k, t)),
                PropValueModel::Obj(s) => spec_build_attrs(attrs.drop_first(), attrs_set(acc, k, s)),
                PropValueModel::Style(m) => spec_build_attrs(
                    attrs.drop_first(),
                    attrs_set(acc, k, "[object Object]"@),
                ),
                PropValueModel::Opaque => Err(
                    ErrorModel {
                        kind: RenderErrorKind::UnsupportedAttributeValue,
                        message: unsupported_attr_msg(k),
                    },
                ),
            }
        }
    }
}

/// Resolves one virtual element against an optional parent accumulator.
pub open spec fn spec_resolve<C: Component>(
    j: JsxModel<C>,
    parent: Option<ElementModel>,
    ctx: Map<Seq<char>, Seq<char>>,
    is_static: bool,
    is_root: bool,
    fuel: nat,
) -> ResolveModel
    decreases fuel, jsx_size(j), 3int,
{
    match j.jsx_type {
        JsxTypeModel::Component(c) => {
            if fuel == 0 {
                ResolveModel {
                    out: Err(
                        ErrorModel {
                            kind: RenderErrorKind::TreeTooDeep,
                            message: tree_too_deep_msg(),
                        },
                    ),
                    diags: seq![],
                }
            } else {
                let merged = if c.spec_has_child_context_types() {
                    ctx.union_prefer_right(map_of(c.spec_child_context()))
                } else {
                    ctx
                };
                match c.spec_render(ctx) {
                    None => ResolveModel { out: Ok(parent), diags: seq![] },
                    Some(j2) => spec_resolve(
                        j2,
                        parent,
                        merged,
                        is_static,
                        is_root,
                        (fuel - 1) as nat,
                    ),
                }
            }
        },
        JsxTypeModel::Functional(c) => {
            if fuel == 0 {
                ResolveModel {
                    out: Err(
                        ErrorModel {
                            kind: RenderErrorKind::TreeTooDeep,
                            message: tree_too_deep_msg(),
                        },
                    ),
                    diags: seq![],
                }
            } else {
                match c.spec_render(ctx) {
                    None => ResolveModel { out: Ok(parent), diags: seq![] },
                    Some(j2) => spec_resolve(j2, parent, ctx, is_static, is_root, (fuel - 1) as nat),
                }
            }
        },
        JsxTypeModel::Intrinsic(tag) => spec_resolve_intrinsic(
            tag,
            j.props,
            parent,
            ctx,
            is_static,
            is_root,
            fuel,
        ),
        JsxTypeModel::Fragment => spec_resolve_fragment(
            j.props.children,
            parent,
            ctx,
            is_static,
            is_root,
            fuel,
        ),
        JsxTypeModel::Unknown => ResolveModel {
            out: Err(
                ErrorModel { kind: RenderErrorKind::InvalidElement, message: invalid_element_msg() },
            ),
            diags: seq![],
        },
    }
}

/// Resolves a host element: probe check, style pre-check, attributes, the
/// hydration marker on a non-static root, then the children — except that
/// a void tag's children are never visited.
pub open spec fn spec_resolve_intrinsic<C: Component>(
    tag: Seq<char>,
    props: PropsModel<C>,
    parent: Option<ElementModel>,
    ctx: Map<Seq<char>, Seq<char>>,
    is_static: bool,
    is_root: bool,
    fuel: nat,
) -> ResolveModel
    decreases fuel, children_size(props.children), 2int,
{
    let pdiags: Seq<Seq<char>> = if props_poisoned(props.attrs) {
        seq![poisoned_probe_msg(tag)]
    } else {
        seq![]
    };
    let precheck = if props_poisoned(props.attrs) {
        None
    } else {
        spec_check_style(tag, props.attrs)
    };
    match precheck {
        Some(err) => ResolveModel { out: Err(err), diags: pdiags },
        None => match spec_build_attrs(props.attrs, seq![]) {
            Err(e) => ResolveModel { out: Err(e), diags: pdiags },
            Ok(a0) => {
                let a1 = if !is_static && is_root {
                    attrs_set(a0, "data-reactroot"@, Seq::empty())
                } else {
                    a0
                };
                let elem = ElementModel { tag, attributes: a1, children: seq![] };
                if is_void_tag(tag) {
                    ResolveModel { out: Ok(spec_append(parent, elem)), diags: pdiags }
                } else {
                    let r = spec_resolve_children(props.children, elem, ctx, is_static, fuel);
                    match r.out {
                        Err(e) => ResolveModel { out: Err(e), diags: pdiags + r.diags },
                        Ok(e2) => ResolveModel {
                            out: Ok(spec_append(parent, e2)),
                            diags: pdiags + r.diags,
                        },
                    }
                }
            },
        },
    }
}

/// Resolves a children list, in order, against a concrete parent element.
pub open spec fn spec_resolve_children<C: Component>(
    cs: Seq<ChildModel<C>>,
    e: ElementModel,
    ctx: Map<Seq<char>, Seq<char>>,
    is_static: bool,
    fuel: nat,
) -> ChildOutModel
    decreases fuel, children_size(cs), 1int,
    via spec_resolve_children_decreases::<C>
{
    if cs.len() == 0 {
        ChildOutModel { out: Ok(e), diags: seq![] }
    } else {
        let r = spec_resolve_child(cs[0], e, ctx, is_static, fuel);
        match r.out {
            Err(err) => ChildOutModel { out: Err(err), diags: r.diags },
            Ok(e2) => {
                let rest = spec_resolve_children(cs.drop_first(), e2, ctx, is_static, fuel);
                ChildOutModel { out: rest.out, diags: r.diags + rest.diags }
            },
        }
    }
}

/// Resolves one child against a concrete parent element: text and numbers
/// are appended with the adjacency rule, nested elements recurse, falsy
/// children vanish, and a plain data object is fatal.
pub open spec fn spec_resolve_child<C: Component>(
    c: ChildModel<C>,
    e: ElementModel,
    ctx: Map<Seq<char>, Seq<char>>,
    is_static: bool,
    fuel: nat,
) -> ChildOutModel
    decreases fuel, child_size(c), 0int,
{
    match c {
        ChildModel::Text(t) => ChildOutModel {
            out: Ok(spec_render_text(e, t, is_static)),
            diags: seq![],
        },
        ChildModel::Number(t) => ChildOutModel {
            out: Ok(spec_render_text(e, t, is_static)),
            diags: seq![],
        },
        ChildModel::Skipped => ChildOutModel { out: Ok(e), diags: seq![] },
        ChildModel::DataObject(keys) => ChildOutModel {
            out: Err(
                ErrorModel {
                    kind: RenderErrorKind::InvalidElement,
                    message: invalid_object_msg(keys),
                },
            ),
            diags: seq![],
        },
        ChildModel::Element(j) => {
            let r = spec_resolve(j, Some(e), ctx, is_static, false, fuel);
            ChildOutModel {
                out: match r.out {
                    Ok(Some(e2)) => Ok(e2),
                    Ok(None) => Ok(e),
                    Err(err) => Err(err),
                },
                diags: r.diags,
            }
        },
    }
}

/// Resolves a fragment's children against the same parent accumulator: a
/// fragment contributes no element of its own.
pub open spec fn spec_resolve_fragment<C: Component>(
    cs: Seq<ChildModel<C>>,
    parent: Option<ElementModel>,
    ctx: Map<Seq<char>, Seq<char>>,
    is_static: bool,
    is_root: bool,
    fuel: nat,
) -> ResolveModel
    decreases fuel, children_size(cs), 2int,
    via spec_resolve_fragment_decreases::<C>
{
    match parent {
        Some(e) => {
            let r = spec_resolve_children(cs, e, ctx, is_static, fuel);
            ResolveModel {
                out: match r.out {
                    Ok(e2) => Ok(Some(e2)),
                    Err(err) => Err(err),
                },
                diags: r.diags,
            }
        },
        None => {
            if cs.len() == 0 {
                ResolveModel { out: Ok(None), diags: seq![] }
            } else {
                match cs[0] {
                    ChildModel::Element(j) => {
                        let r = spec_resolve(j, None, ctx, is_static, is_root, fuel);
                        match r.out {
                            Err(err) => ResolveModel { out: Err(err), diags: r.diags },
                            Ok(p2) => {
                                let rest = spec_resolve_fragment(
                                    cs.drop_first(),
                                    p2,
                                    ctx,
                                    is_static,
                                    is_root,
                                    fuel,
                                );
                                ResolveModel { out: rest.out, diags: r.diags + rest.diags }
                            },
                        }
                    },
                    ChildModel::DataObject(keys) => ResolveModel {
                        out: Err(
                            ErrorModel {
                                kind: RenderErrorKind::InvalidElement,
                                message: invalid_object_msg(keys),
                            },
                        ),
                        diags: seq![],
                    },
                    _ => spec_resolve_fragment(
                        cs.drop_first(),
                        parent,
                        ctx,
                        is_static,
                        is_root,
                        fuel,
                    ),
                }
            }
        },
    }
}

#[via_fn]
proof fn spec_resolve_children_decreases<C: Component>(
    cs: Seq<ChildModel<C>>,
    e: ElementModel,
    ctx: Map<Seq<char>, Seq<char>>,
    is_static: bool,
    fuel: nat,
) {
    if cs.len() > 0 {
        crate::jsx::lemma_child_size_pos(cs[0]);
    }
}

#[via_fn]
proof fn spec_resolve_fragment_decreases<C: Component>(
    cs: Seq<ChildModel<C>>,
    parent: Option<ElementModel>,
    ctx: Map<Seq<char>, Seq<char>>,
    is_static: bool,
    is_root: bool,
    fuel: nat,
) {
    if parent is None && cs.len() > 0 {
        crate::jsx::lemma_child_size_pos(cs[0]);
        assert(children_size(cs) == child_size(cs[0]) + children_size(cs.drop_first()));
        match cs[0] {
            ChildModel::Element(j) => {
                assert(child_size(cs[0]) == 1 + jsx_size(j));
            },
            _ => {},
        }
    }
}

proof fn lemma_intrinsic_keeps_parent<C: Component>(
    tag: Seq<char>,
    props: PropsModel<C>,
    parent: Option<ElementModel>,
    ctx: Map<Seq<char>, Seq<char>>,
    is_static: bool,
    is_root: bool,
    fuel: nat,
)
    ensures
        spec_resolve_intrinsic(tag, props, parent, ctx, is_static, is_root, fuel).out matches Ok(p)
            ==> p is Some,
{
    let precheck = if props_poisoned(props.attrs) {
        None
    } else {
        spec_check_style(tag, props.attrs)
    };
    match precheck {
        Some(err) => {},
        None => {
            match spec_build_attrs(props.attrs, seq![]) {
                Err(e) => {},
                Ok(a0) => {},
            }
        },
    }
}

proof fn lemma_fragment_keeps_parent<C: Component>(
    cs: Seq<ChildModel<C>>,
    e: ElementModel,
    ctx: Map<Seq<char>, Seq<char>>,
    is_static: bool,
    is_root: bool,
    fuel: nat,
)
    ensures
        spec_resolve_fragment(cs, Some(e), ctx, is_static, is_root, fuel).out matches Ok(p) ==> p
            is Some,
{
}

/// Resolution with a parent accumulator never loses it: given a parent, a
/// successful resolve returns an element.
pub proof fn lemma_resolve_keeps_parent<C: Component>(
    j: JsxModel<C>,
    e: ElementModel,
    ctx: Map<Seq<char>, Seq<char>>,
    is_static: bool,
    is_root: bool,
    fuel: nat,
)
    ensures
        spec_resolve(j, Some(e), ctx, is_static, is_root, fuel).out matches Ok(p) ==> p is Some,
    decreases fuel, jsx_size(j), 3int,
{
    match j.jsx_type {
        JsxTypeModel::Component(c) => {
            if fuel > 0 {
                let merged = if c.spec_has_child_context_types() {
                    ctx.union_prefer_right(map_of(c.spec_child_context()))
                } else {
                    ctx
                };
                match c.spec_render(ctx) {
                    None => {},
                    Some(j2) => {
                        lemma_resolve_keeps_parent(
                            j2,
                            e,
                            merged,
                            is_static,
                            is_root,
                            (fuel - 1) as nat,
                        );
                        assert(spec_resolve(j, Some(e), ctx, is_static, is_root, fuel)
                            == spec_resolve(j2, Some(e), merged, is_static, is_root, (fuel - 1) as nat));
                    },
                }
            }
        },
        JsxTypeModel::Functional(c) => {
            if fuel > 0 {
                match c.spec_render(ctx) {
                    None => {},
                    Some(j2) => {
                        lemma_resolve_keeps_parent(
                            j2,
                            e,
                            ctx,
                            is_static,
                            is_root,
                            (fuel - 1) as nat,
                        );
                        assert(spec_resolve(j, Some(e), ctx, is_static, is_root, fuel)
                            == spec_resolve(j2, Some(e), ctx, is_static, is_root, (fuel - 1) as nat));
                    },
                }
            }
        },
        JsxTypeModel::Intrinsic(tag) => {
            lemma_intrinsic_keeps_parent(tag, j.props, Some(e), ctx, is_static, is_root, fuel);
        },
        JsxTypeModel::Fragment => {
            lemma_fragment_keeps_parent(j.props.children, e, ctx, is_static, is_root, fuel);
        },
        JsxTypeModel::Unknown => {},
    }
}

pub open spec fn diags_model(v: Seq<String>) -> Seq<Seq<char>> {
    v.map_values(|s: String| s@)
}

pub open spec fn opt_elem_model(p: Option<HTMLElement>) -> Option<ElementModel> {
    match p {
        Some(e) => Some(elem_model(e)),
        None => None,
    }
}

pub open spec fn result_model(r: Result<Option<HTMLElement>, RenderError>) -> Result<
    Option<ElementModel>,
    ErrorModel,
> {
    match r {
        Ok(p) => Ok(opt_elem_model(p)),
        Err(e) => Err(e@),
    }
}

pub open spec fn child_result_model(r: Result<HTMLElement, RenderError>) -> Result<
    ElementModel,
    ErrorModel,
> {
    match r {
        Ok(e) => Ok(elem_model(e)),
        Err(e) => Err(e@),
    }
}

fn too_deep_error() -> (e: RenderError)
    ensures
        e@ == (ErrorModel { kind: RenderErrorKind::TreeTooDeep, message: tree_too_deep_msg() }),
{
    RenderError {
        kind: RenderErrorKind::TreeTooDeep,
        message: String::from_str("the virtual element tree nests components too deeply"),
    }
}

fn invalid_element_error() -> (e: RenderError)
    ensures
        e@ == (ErrorModel { kind: RenderErrorKind::InvalidElement, message: invalid_element_msg() }),
{
    RenderError {
        kind: RenderErrorKind::InvalidElement,
        message: String::from_str("bad jsx value"),
    }
}

/// Builds the invalid-child message that enumerates a plain data object's
/// own property keys.
fn invalid_object_error(keys: &Vec<String>) -> (e: RenderError)
    ensures
        e@ == (ErrorModel {
            kind: RenderErrorKind::InvalidElement,
            message: invalid_object_msg(keys_model(keys@)),
        }),
{
    let mut msg = String::from_str(
        "Objects are not valid as a React child (found: object with keys {",
    );
    let ghost km = keys_model(keys@);
    proof {
        assert(km.take(0) =~= Seq::<Seq<char>>::empty());
    }
    let mut i: usize = 0;
    while i < keys.len()
        invariant
            0 <= i <= keys.len(),
            km == keys_model(keys@),
            km.len() == keys.len(),
            forall|j: int| 0 <= j < km.len() ==> km[j] == keys@[j]@,
            msg@ == "Objects are not valid as a React child (found: object with keys {"@
                + join_seqs(km.take(i as int), ", "@),
        decreases keys.len() - i,
    {
        if i != 0 {
            msg.append(", ");
        }
        msg.append(keys[i].as_str());
        proof {
            lemma_join_seqs_push(km.take(i as int), ", "@, km[i as int]);
            assert(km.take(i as int).push(km[i as int]) =~= km.take(i as int + 1));
            if i == 0 {
                assert(join_seqs(km.take(0), ", "@) =~= Seq::<char>::empty());
            }
        }
        i += 1;
    }
    msg.append("})");
    proof {
        assert(km.take(keys.len() as int) =~= km);
        assert(msg@ =~= invalid_object_msg(km));
    }
    RenderError { kind: RenderErrorKind::InvalidElement, message: msg }
}

fn unsupported_attr_error(key: &str) -> (e: RenderError)
    ensures
        e@ == (ErrorModel {
            kind: RenderErrorKind::UnsupportedAttributeValue,
            message: unsupported_attr_msg(key@),
        }),
{
    let mut msg = String::from_str("The prop `");
    msg.append(key);
    msg.append("` is not a string, a number, or a stringifiable object");
    proof {
        assert(msg@ =~= unsupported_attr_msg(key@));
    }
    RenderError { kind: RenderErrorKind::UnsupportedAttributeValue, message: msg }
}

fn style_prop_error(tag: &str) -> (e: RenderError)
    ensures
        e@ == (ErrorModel {
            kind: RenderErrorKind::InvalidStyleProp,
            message: invalid_style_msg(tag@),
        }),
{
    let mut msg = String::from_str(
        "The `style` prop expects a mapping from style properties to values, not a string. For example, style={{marginRight: spacing + 'em'}} when using JSX.",
    );
    msg.append("\n    in ");
    msg.append(tag);
    msg.append(" (at **)");
    proof {
        assert(msg@ =~= invalid_style_msg(tag@));
    }
    RenderError { kind: RenderErrorKind::InvalidStyleProp, message: msg }
}

/// Emits the non-fatal diagnostic for a props mapping whose
/// property-existence probe is shadowed by user data; processing goes on.
fn handle_poisoned_has_own_property(tag: &str, diags: &mut Vec<String>)
    ensures
        diags_model(final(diags)@) == diags_model(old(diags)@).push(poisoned_probe_msg(tag@)),
{
    let mut msg = String::from_str("React does not recognize the `hasOwnProperty` prop");
    msg.append("\n    in ");
    msg.append(tag);
    msg.append(" (at **)");
    proof {
        assert(msg@ =~= poisoned_probe_msg(tag@));
    }
    diags.push(msg);
    proof {
        assert(diags_model(final(diags)@) =~= diags_model(old(diags)@).push(
            poisoned_probe_msg(tag@),
        ));
    }
}

proof fn lemma_first_style_at(attrs: Seq<(Seq<char>, PropValueModel)>, i: int)
    requires
        0 <= i <= attrs.len(),
        forall|j: int| 0 <= j < i ==> attrs[j].0 != "style"@,
        i == attrs.len() || attrs[i].0 == "style"@,
    ensures
        first_style_value(attrs) == if i == attrs.len() {
            None::<PropValueModel>
        } else {
            Some(attrs[i].1)
        },
    decreases attrs.len(),
{
    if attrs.len() > 0 && attrs[0].0 != "style"@ {
        lemma_first_style_at(attrs.drop_first(), i - 1);
    }
}

/// The style pre-check: when a style property is present its value must be
/// a mapping; anything else is the fatal invalid-style error, carrying the
/// component-stack trail.
fn check_style_prop<C>(tag: &str, props: &Props<C>) -> (r: Result<(), RenderError>)
    ensures
        match spec_check_style(tag@, prop_attrs_model(props.attrs@)) {
            Some(em) => r matches Err(e) && e@ == em,
            None => r is Ok,
        },
{
    let ghost am = prop_attrs_model(props.attrs@);
    let mut i: usize = 0;
    while i < props.attrs.len()
        invariant
            0 <= i <= props.attrs.len(),
            am == prop_attrs_model(props.attrs@),
            am.len() == props.attrs.len(),
            forall|j: int|
                0 <= j < am.len() ==> am[j] == (
                props.attrs@[j].0@,
                prop_value_model(props.attrs@[j].1),
            ),
            forall|j: int| 0 <= j < i ==> am[j].0 != "style"@,
        decreases props.attrs.len() - i,
    {
        if str_eq(props.attrs[i].0.as_str(), "style") {
            proof {
                lemma_first_style_at(am, i as int);
            }
            match &props.attrs[i].1 {
                PropValue::Style(_) => {
                    return Ok(());
                },
                _ => {
                    return Err(style_prop_error(tag));
                },
            }
        }
        i += 1;
    }
    proof {
        lemma_first_style_at(am, am.len() as int);
    }
    Ok(())
}

/// Appends one text-like child: an empty comment first when it directly
/// follows another text-like sibling and the output is not static.
fn render_text(parent: &mut HTMLElement, text: String, is_static: bool)
    ensures
        elem_model(*final(parent)) == spec_render_text(elem_model(*old(parent)), text@, is_static),
{
    let n = parent.children.len();
    proof {
        lemma_nodes_model_len(parent.children@);
    }
    if !is_static && n > 0 {
        let last_is_text = match &parent.children[n - 1] {
            HTMLValue::Text(_) => true,
            _ => false,
        };
        if last_is_text {
            render_empty_comment(parent);
        }
    }
    render_text_component(parent, text);
}

/// Appends an empty comment node.
fn render_empty_comment(parent: &mut HTMLElement)
    ensures
        elem_model(*final(parent)) == (ElementModel {
            children: elem_model(*old(parent)).children.push(NodeModel::Comment),
            ..elem_model(*old(parent))
        }),
{
    proof {
        lemma_nodes_model_push(parent.children@, HTMLValue::Comment);
    }
    parent.children.push(HTMLValue::Comment);
}

/// Appends a text node; the text is kept raw here and escaped only at
/// serialization.
fn render_text_component(parent: &mut HTMLElement, text: String)
    ensures
        elem_model(*final(parent)) == (ElementModel {
            children: elem_model(*old(parent)).children.push(NodeModel::Text(text@)),
            ..elem_model(*old(parent))
        }),
{
    proof {
        lemma_nodes_model_push(parent.children@, HTMLValue::Text(text));
    }
    parent.children.push(HTMLValue::Text(text));
}

/// Resolves one virtual element into the output tree, against an optional
/// parent accumulator, exactly as the resolution model prescribes.
#[verifier::loop_isolation(false)]
#[verifier::rlimit(100)]
fn render_jsx_to_string<C: Component>(
    jsx: Jsx<C>,
    parent: Option<HTMLElement>,
    ctx: &Context,
    is_static: bool,
    is_root: bool,
    fuel: u32,
    diags: &mut Vec<String>,
) -> (r: Result<Option<HTMLElement>, RenderError>)
    ensures
        ({
            let m = spec_resolve(
                jsx_model(jsx),
                opt_elem_model(parent),
                ctx@,
                is_static,
                is_root,
                fuel as nat,
            );
            &&& result_model(r) == m.out
            &&& diags_model(final(diags)@) == diags_model(old(diags)@) + m.diags
        }),
    decreases fuel, jsx_size(jsx_model(jsx)), 3int,
{
    let ghost jm = jsx_model(jsx);
    let ghost pm = opt_elem_model(parent);
    let ghost m = spec_resolve(jm, pm, ctx@, is_static, is_root, fuel as nat);
    let ghost d_entry = diags_model(diags@);
    let Jsx { jsx_type, props } = jsx;
    match jsx_type {
        JsxType::Unknown => {
            proof {
                assert(d_entry + m.diags =~= d_entry);
            }
            Err(invalid_element_error())
        },
        JsxType::Component(c) => {
            if fuel == 0 {
                proof {
                    assert(d_entry + m.diags =~= d_entry);
                }
                return Err(too_deep_error());
            }
            if c.has_component_will_mount() {
                c.component_will_mount();
            } else if c.has_unsafe_component_will_mount() {
                c.unsafe_component_will_mount();
            }
            let declares = c.has_child_context_types();
            let contribs = if declares {
                c.get_child_context()
            } else {
                Vec::new()
            };
            let ghost c0 = c;
            let rendered = c.render(ctx);
            match rendered {
                None => {
                    proof {
                        assert(d_entry + m.diags =~= d_entry);
                    }
                    Ok(parent)
                },
                Some(j2) => {
                    proof {
                        assert(jsx_model(j2) == c0.spec_render(ctx@)->0);
                    }
                    if declares {
                        let merged = ctx.merge(&contribs);
                        proof {
                            assert(merged@ == ctx@.union_prefer_right(
                                map_of(c0.spec_child_context()),
                            ));
                        }
                        render_jsx_to_string(
                            j2,
                            parent,
                            &merged,
                            is_static,
                            is_root,
                            fuel - 1,
                            diags,
                        )
                    } else {
                        render_jsx_to_string(j2, parent, ctx, is_static, is_root, fuel - 1, diags)
                    }
                },
            }
        },
        JsxType::Functional(c) => {
            if fuel == 0 {
                proof {
                    assert(d_entry + m.diags =~= d_entry);
                }
                return Err(too_deep_error());
            }
            let ghost c0 = c;
            let rendered = c.render(ctx);
            match rendered {
                None => {
                    proof {
                        assert(d_entry + m.diags =~= d_entry);
                    }
                    Ok(parent)
                },
                Some(j2) => {
                    proof {
                        assert(jsx_model(j2) == c0.spec_render(ctx@)->0);
                    }
                    render_jsx_to_string(j2, parent, ctx, is_static, is_root, fuel - 1, diags)
                },
            }
        },
        JsxType::Intrinsic(tag) => {
            proof {
                assert(jm.props == props_model(props));
                assert(jsx_size(jm) == 1 + children_size(props_model(props).children));
            }
            render_intrinsic(tag, props, parent, ctx, is_static, is_root, fuel, diags)
        },
        JsxType::Fragment => {
            let ghost cs_all = children_model(props.children@);
            let ghost frag = spec_resolve_fragment(
                cs_all,
                pm,
                ctx@,
                is_static,
                is_root,
                fuel as nat,
            );
            proof {
                assert(jm.props.children == cs_all);
                assert(m == frag);
                assert(jsx_size(jm) == 1 + children_size(cs_all));
            }
            let mut children = props.children;
            let mut parent = parent;
            let ghost mut demitted: Seq<Seq<char>> = Seq::empty();
            proof {
                assert(d_entry + demitted =~= d_entry);
            }
            while children.len() > 0
                invariant
                    children_size(children_model(children@)) <= children_size(cs_all),
                    frag.out == spec_resolve_fragment(
                        children_model(children@),
                        opt_elem_model(parent),
                        ctx@,
                        is_static,
                        is_root,
                        fuel as nat,
                    ).out,
                    frag.diags == demitted + spec_resolve_fragment(
                        children_model(children@),
                        opt_elem_model(parent),
                        ctx@,
                        is_static,
                        is_root,
                        fuel as nat,
                    ).diags,
                    diags_model(diags@) == d_entry + demitted,
                decreases children.len(),
            {
                let ghost cm_cur = children_model(children@);
                let ghost pm_cur = opt_elem_model(parent);
                let ghost frag_cur = spec_resolve_fragment(
                    cm_cur,
                    pm_cur,
                    ctx@,
                    is_static,
                    is_root,
                    fuel as nat,
                );
                proof {
                    lemma_children_model_len(children@);
                }
                let ghost cvec = children@;
                let child = children.remove(0);
                proof {
                    assert(children@ =~= cvec.drop_first());
                    assert(cm_cur[0] == child_model(child));
                    lemma_children_model_len(children@);
                    lemma_children_model_len(cvec.drop_first());
                    assert(children_model(children@) =~= cm_cur.drop_first());
                    assert(children_size(cm_cur) == child_size(cm_cur[0]) + children_size(
                        cm_cur.drop_first(),
                    ));
                    crate::jsx::lemma_child_size_pos(cm_cur[0]);
                }
                match parent {
                    Some(p) => {
                        let ghost em = elem_model(p);
                        let ghost step = spec_resolve_child(
                            child_model(child),
                            em,
                            ctx@,
                            is_static,
                            fuel as nat,
                        );
                        let ghost inner_cur = spec_resolve_children(
                            cm_cur,
                            em,
                            ctx@,
                            is_static,
                            fuel as nat,
                        );
                        proof {
                            assert(child_size(child_model(child)) <= children_size(cs_all));
                            assert(pm_cur == Some(em));
                            assert(frag_cur.out == (match inner_cur.out {
                                Ok(e2) => Ok::<Option<ElementModel>, ErrorModel>(Some(e2)),
                                Err(err) => Err(err),
                            }));
                            assert(frag_cur.diags == inner_cur.diags);
                        }
                        match render_intrinsic_to_string(child, p, ctx, is_static, fuel, diags) {
                            Ok(p2) => {
                                proof {
                                    let inner_next = spec_resolve_children(
                                        children_model(children@),
                                        elem_model(p2),
                                        ctx@,
                                        is_static,
                                        fuel as nat,
                                    );
                                    assert(step.out == Ok::<ElementModel, ErrorModel>(
                                        elem_model(p2),
                                    ));
                                    assert(inner_cur.out == inner_next.out);
                                    assert(inner_cur.diags == step.diags + inner_next.diags);
                                    let frag_next = spec_resolve_fragment(
                                        children_model(children@),
                                        Some(elem_model(p2)),
                                        ctx@,
                                        is_static,
                                        is_root,
                                        fuel as nat,
                                    );
                                    assert(frag_next.out == (match inner_next.out {
                                        Ok(e2) => Ok::<Option<ElementModel>, ErrorModel>(Some(e2)),
                                        Err(err) => Err(err),
                                    }));
                                    assert(frag_next.diags == inner_next.diags);
                                    demitted = demitted + step.diags;
                                    assert(frag.diags == demitted + frag_next.diags) by {
                                        assert((demitted + step.diags) + inner_next.diags
                                            =~= demitted + (step.diags + inner_next.diags));
                                    }
                                    assert(diags_model(diags@) =~= d_entry + demitted);
                                }
                                parent = Some(p2);
                            },
                            Err(e) => {
                                proof {
                                    assert(step.out == Err::<ElementModel, ErrorModel>(e@));
                                    assert(inner_cur.out == Err::<ElementModel, ErrorModel>(e@));
                                    assert(inner_cur.diags == step.diags);
                                    assert(frag_cur.out == Err::<Option<ElementModel>, ErrorModel>(e@));
                                    assert(frag_cur.diags == step.diags);
                                    assert(d_entry + (demitted + step.diags) =~= (d_entry + demitted)
                                        + step.diags);
                                    assert(diags_model(diags@) =~= d_entry + frag.diags);
                                }
                                return Err(e);
                            },
                        }
                    },
                    None => {
                        match child {
                            Child::Element(j) => {
                                let ghost jm2 = jsx_model(j);
                                let ghost step = spec_resolve(
                                    jm2,
                                    None,
                                    ctx@,
                                    is_static,
                                    is_root,
                                    fuel as nat,
                                );
                                proof {
                                    assert(child_size(cm_cur[0]) == 1 + jsx_size(jm2));
                                    assert(jsx_size(jm2) < children_size(cs_all) + 1);
                                }
                                match render_jsx_to_string(
                                    j,
                                    None,
                                    ctx,
                                    is_static,
                                    is_root,
                                    fuel,
                                    diags,
                                ) {
                                    Ok(p2) => {
                                        proof {
                                            assert(step.out == Ok::<
                                                Option<ElementModel>,
                                                ErrorModel,
                                            >(opt_elem_model(p2)));
                                            let frag_next = spec_resolve_fragment(
                                                children_model(children@),
                                                opt_elem_model(p2),
                                                ctx@,
                                                is_static,
                                                is_root,
                                                fuel as nat,
                                            );
                                            assert(frag_cur.out == frag_next.out);
                                            assert(frag_cur.diags == step.diags
                                                + frag_next.diags);
                                            demitted = demitted + step.diags;
                                            assert(frag.diags == demitted + frag_next.diags) by {
                                                assert((demitted + step.diags) + frag_next.diags
                                                    =~= demitted + (step.diags
                                                    + frag_next.diags));
                                            }
                                            assert(diags_model(diags@) =~= d_entry + demitted);
                                        }
                                        parent = p2;
                                    },
                                    Err(e) => {
                                        proof {
                                            assert(step.out == Err::<
                                                Option<ElementModel>,
                                                ErrorModel,
                                            >(e@));
                                            assert(frag_cur.out == Err::<Option<ElementModel>, ErrorModel>(e@));
                                            assert(frag_cur.diags == step.diags);
                                            assert(d_entry + (demitted + step.diags) =~= (d_entry
                                                + demitted) + step.diags);
                                        }
                                        return Err(e);
                                    },
                                }
                            },
                            Child::DataObject(keys) => {
                                proof {
                                    assert(frag_cur.out == Err::<Option<ElementModel>, ErrorModel>(
                                        ErrorModel {
                                            kind: RenderErrorKind::InvalidElement,
                                            message: invalid_object_msg(keys_model(keys@)),
                                        },
                                    ));
                                    assert(frag_cur.diags =~= Seq::<Seq<char>>::empty());
                                    assert(demitted + frag_cur.diags =~= demitted);
                                }
                                return Err(invalid_object_error(&keys));
                            },
                            _ => {
                            },
                        }
                    },
                }
            }
            proof {
                assert(children_model(children@) =~= Seq::<ChildModel<C>>::empty());
                let frag_end = spec_resolve_fragment(
                    Seq::<ChildModel<C>>::empty(),
                    opt_elem_model(parent),
                    ctx@,
                    is_static,
                    is_root,
                    fuel as nat,
                );
                match opt_elem_model(parent) {
                    Some(e) => {
                        let inner_end = spec_resolve_children(
                            Seq::<ChildModel<C>>::empty(),
                            e,
                            ctx@,
                            is_static,
                            fuel as nat,
                        );
                        assert(inner_end.out == Ok::<ElementModel, ErrorModel>(e));
                        assert(inner_end.diags =~= Seq::<Seq<char>>::empty());
                        assert(frag_end.out == Ok::<Option<ElementModel>, ErrorModel>(Some(e)));
                        assert(frag_end.diags =~= Seq::<Seq<char>>::empty());
                    },
                    None => {
                        assert(frag_end.out == Ok::<Option<ElementModel>, ErrorModel>(None));
                        assert(frag_end.diags =~= Seq::<Seq<char>>::empty());
                    },
                }
                assert(demitted + frag_end.diags =~= demitted);
            }
            Ok(parent)
        },
    }
}

/// Resolves a host element: validates and builds its attributes, injects
/// the hydration marker on a non-static root, resolves its children unless
/// the tag is void, and appends the element to its parent.
#[verifier::loop_isolation(false)]
#[verifier::rlimit(100)]
fn render_intrinsic<C: Component>(
    tag: String,
    props: Props<C>,
    parent: Option<HTMLElement>,
    ctx: &Context,
    is_static: bool,
    is_root: bool,
    fuel: u32,
    diags: &mut Vec<String>,
) -> (r: Result<Option<HTMLElement>, RenderError>)
    ensures
        ({
            let m = spec_resolve_intrinsic(
                tag@,
                props_model(props),
                opt_elem_model(parent),
                ctx@,
                is_static,
                is_root,
                fuel as nat,
            );
            &&& result_model(r) == m.out
            &&& diags_model(final(diags)@) == diags_model(old(diags)@) + m.diags
        }),
    decreases fuel, children_size(children_model(props.children@)), 2int,
{
    let ghost tagv = tag@;
    let ghost am = prop_attrs_model(props.attrs@);
    let ghost cs_all = children_model(props.children@);
    let ghost pm = opt_elem_model(parent);
    let ghost m = spec_resolve_intrinsic(
        tagv,
        props_model(props),
        pm,
        ctx@,
        is_static,
        is_root,
        fuel as nat,
    );
    let ghost d_entry = diags_model(diags@);

    let mut poisoned = false;
    let mut i: usize = 0;
    while i < props.attrs.len()
        invariant
            0 <= i <= props.attrs.len(),
            am == prop_attrs_model(props.attrs@),
            am.len() == props.attrs.len(),
            forall|j: int|
                0 <= j < am.len() ==> am[j] == (
                props.attrs@[j].0@,
                prop_value_model(props.attrs@[j].1),
            ),
            poisoned ==> props_poisoned(am),
            !poisoned ==> forall|j: int| 0 <= j < i ==> am[j].0 != "hasOwnProperty"@,
        decreases props.attrs.len() - i,
    {
        if str_eq(props.attrs[i].0.as_str(), "hasOwnProperty") {
            proof {
                assert(am[i as int].0 == "hasOwnProperty"@);
                assert(props_poisoned(am));
            }
            poisoned = true;
        }
        i += 1;
    }
    proof {
        if !poisoned {
            assert(forall|j: int| 0 <= j < am.len() ==> am[j].0 != "hasOwnProperty"@);
        }
        assert(poisoned == props_poisoned(am));
    }
    if poisoned {
        handle_poisoned_has_own_property(tag.as_str(), diags);
        proof {
            assert(diags_model(diags@) =~= d_entry + seq![poisoned_probe_msg(tagv)]);
        }
    } else {
        match check_style_prop(tag.as_str(), &props) {
            Err(e) => {
                proof {
                    assert(d_entry + m.diags =~= d_entry);
                }
                return Err(e);
            },
            Ok(_) => {
            },
        }
    }
    let ghost pdiags: Seq<Seq<char>> = if props_poisoned(am) {
        seq![poisoned_probe_msg(tagv)]
    } else {
        seq![]
    };
    proof {
        assert(diags_model(diags@) =~= d_entry + pdiags);
    }

    let mut element = HTMLElement { tag, attributes: Vec::new(), children: Vec::new() };
    proof {
        assert(am.skip(0) =~= am);
        assert(crate::html::attrs_model(element.attributes@) =~= Seq::<
            (Seq<char>, Seq<char>),
        >::empty());
        assert(element.children@.len() == 0);
    }
    let mut i: usize = 0;
    while i < props.attrs.len()
        invariant
            0 <= i <= props.attrs.len(),
            am == prop_attrs_model(props.attrs@),
            am.len() == props.attrs.len(),
            forall|j: int|
                0 <= j < am.len() ==> am[j] == (
                props.attrs@[j].0@,
                prop_value_model(props.attrs@[j].1),
            ),
            element.tag@ == tagv,
            element.children@.len() == 0,
            spec_build_attrs(am, Seq::empty()) == spec_build_attrs(
                am.skip(i as int),
                crate::html::attrs_model(element.attributes@),
            ),
        decreases props.attrs.len() - i,
    {
        proof {
            assert(am.skip(i as int).len() == am.len() - i);
            assert(am.skip(i as int)[0] == am[i as int]);
            assert(am.skip(i as int).drop_first() =~= am.skip(i as int + 1));
        }
        let skip_key = str_eq(props.attrs[i].0.as_str(), "hasOwnProperty") || str_eq(
            props.attrs[i].0.as_str(),
            "children",
        );
        if skip_key {
        } else if str_eq(props.attrs[i].0.as_str(), "style") {
            match &props.attrs[i].1 {
                PropValue::Style(mstyle) => {
                    add_style_to_attributes(mstyle, props.attrs[i].0.clone(), &mut element);
                },
                _ => {
                },
            }
        } else {
            match &props.attrs[i].1 {
                PropValue::Str(s) => {
                    element.set_attribute(props.attrs[i].0.clone(), s.clone());
                },
                PropValue::Num(n) => {
                    element.set_attribute(props.attrs[i].0.clone(), n.text.clone());
                },
                PropValue::Obj(s) => {
                    element.set_attribute(props.attrs[i].0.clone(), s.clone());
                },
                PropValue::Style(_) => {
                    element.set_attribute(
                        props.attrs[i].0.clone(),
                        String::from_str("[object Object]"),
                    );
                },
                PropValue::Opaque => {
                    proof {
                        assert(spec_build_attrs(am, Seq::empty()) == Err::<
                            Seq<(Seq<char>, Seq<char>)>,
                            ErrorModel,
                        >(
                            ErrorModel {
                                kind: RenderErrorKind::UnsupportedAttributeValue,
                                message: unsupported_attr_msg(am[i as int].0),
                            },
                        ));
                    }
                    return Err(unsupported_attr_error(props.attrs[i].0.as_str()));
                },
            }
        }
        i += 1;
    }
    proof {
        assert(am.skip(props.attrs.len() as int) =~= Seq::<(Seq<char>, PropValueModel)>::empty());
        assert(spec_build_attrs(am, Seq::empty()) == Ok::<_, ErrorModel>(
            crate::html::attrs_model(element.attributes@),
        ));
    }

    if !is_static && is_root {
        element.set_attribute(String::from_str("data-reactroot"), String::new());
    }
    let ghost elem0 = elem_model(element);
    proof {
        assert(elem0.children =~= Seq::<NodeModel>::empty());
    }

    let void = element.is_self_closing();
    if !void {
        let ghost csub = spec_resolve_children(cs_all, elem0, ctx@, is_static, fuel as nat);
        let mut children = props.children;
        let ghost mut demitted: Seq<Seq<char>> = Seq::empty();
        proof {
            assert((d_entry + pdiags) + demitted =~= d_entry + pdiags);
        }
        while children.len() > 0
            invariant
                children_size(children_model(children@)) <= children_size(cs_all),
                csub.out == spec_resolve_children(
                    children_model(children@),
                    elem_model(element),
                    ctx@,
                    is_static,
                    fuel as nat,
                ).out,
                csub.diags == demitted + spec_resolve_children(
                    children_model(children@),
                    elem_model(element),
                    ctx@,
                    is_static,
                    fuel as nat,
                ).diags,
                diags_model(diags@) == (d_entry + pdiags) + demitted,
            decreases children.len(),
        {
            let ghost cm_cur = children_model(children@);
            let ghost em_cur = elem_model(element);
            proof {
                lemma_children_model_len(children@);
            }
            let ghost cvec = children@;
            let child = children.remove(0);
            proof {
                assert(children@ =~= cvec.drop_first());
                assert(cm_cur[0] == child_model(child));
                lemma_children_model_len(children@);
                lemma_children_model_len(cvec.drop_first());
                assert(children_model(children@) =~= cm_cur.drop_first());
                assert(children_size(cm_cur) == child_size(cm_cur[0]) + children_size(
                    cm_cur.drop_first(),
                ));
                crate::jsx::lemma_child_size_pos(cm_cur[0]);
                assert(child_size(child_model(child)) <= children_size(cs_all));
            }
            let ghost step = spec_resolve_child(
                child_model(child),
                em_cur,
                ctx@,
                is_static,
                fuel as nat,
            );
            match render_intrinsic_to_string(child, element, ctx, is_static, fuel, diags) {
                Ok(e2) => {
                    proof {
                        demitted = demitted + step.diags;
                    }
                    element = e2;
                },
                Err(e) => {
                    proof {
                        assert(csub.out == Err::<ElementModel, ErrorModel>(e@));
                        assert(csub.diags == demitted + step.diags);
                        assert((d_entry + pdiags) + (demitted + step.diags) =~= ((d_entry + pdiags)
                            + demitted) + step.diags);
                        assert(d_entry + (pdiags + csub.diags) =~= (d_entry + pdiags) + csub.diags);
                    }
                    return Err(e);
                },
            }
        }
        proof {
            assert(children_model(children@) =~= Seq::<ChildModel<C>>::empty());
            assert(csub.out == Ok::<ElementModel, ErrorModel>(elem_model(element)));
            assert(csub.diags =~= demitted);
            assert(d_entry + (pdiags + csub.diags) =~= (d_entry + pdiags) + csub.diags);
        }
    }
    match parent {
        Some(mut p) => {
            proof {
                lemma_nodes_model_push(p.children@, HTMLValue::Element(element));
            }
            p.children.push(HTMLValue::Element(element));
            Ok(Some(p))
        },
        None => Ok(Some(element)),
    }
}

/// Resolves one child against a concrete parent element: text and numbers
/// are appended under the adjacency rule, elements recurse, falsy children
/// vanish, and a plain data object raises the key-enumerating error.
fn render_intrinsic_to_string<C: Component>(
    child: Child<C>,
    parent: HTMLElement,
    ctx: &Context,
    is_static: bool,
    fuel: u32,
    diags: &mut Vec<String>,
) -> (r: Result<HTMLElement, RenderError>)
    ensures
        ({
            let m = spec_resolve_child(
                child_model(child),
                elem_model(parent),
                ctx@,
                is_static,
                fuel as nat,
            );
            &&& child_result_model(r) == m.out
            &&& diags_model(final(diags)@) == diags_model(old(diags)@) + m.diags
        }),
    decreases fuel, child_size(child_model(child)), 0int,
{
    let ghost cm = child_model(child);
    let ghost em = elem_model(parent);
    let ghost m = spec_resolve_child(cm, em, ctx@, is_static, fuel as nat);
    let ghost d_entry = diags_model(diags@);
    match child {
        Child::Text(t) => {
            let mut parent = parent;
            render_text(&mut parent, t, is_static);
            proof {
                assert(d_entry + m.diags =~= d_entry);
            }
            Ok(parent)
        },
        Child::Number(n) => {
            let mut parent = parent;
            render_text(&mut parent, n.text, is_static);
            proof {
                assert(d_entry + m.diags =~= d_entry);
            }
            Ok(parent)
        },
        Child::Skipped => {
            proof {
                assert(d_entry + m.diags =~= d_entry);
            }
            Ok(parent)
        },
        Child::DataObject(keys) => {
            proof {
                assert(d_entry + m.diags =~= d_entry);
            }
            Err(invalid_object_error(&keys))
        },
        Child::Element(j) => {
            let ghost jm = jsx_model(j);
            proof {
                assert(child_size(cm) == 1 + jsx_size(jm));
            }
            match render_jsx_to_string(j, Some(parent), ctx, is_static, false, fuel, diags) {
                Ok(Some(p)) => Ok(p),
                Ok(None) => {
                    proof {
                        lemma_resolve_keeps_parent(jm, em, ctx@, is_static, false, fuel as nat);
                        assert(false);
                    }
                    Err(too_deep_error())
                },
                Err(e) => Err(e),
            }
        },
    }
}

/// What a render entry point receives: a value recognized as a virtual
/// element, a plain data object carrying its own property keys, or some
/// other value that is no element at all.
pub enum RootValue<C> {
    Element(Jsx<C>),
    PlainObject(Vec<String>),
    Other,
}

/// The mathematical value of a root value.
pub enum RootModel<C> {
    Element(JsxModel<C>),
    PlainObject(Seq<Seq<char>>),
    Other,
}

pub open spec fn root_model<C>(r: RootValue<C>) -> RootModel<C> {
    match r {
        RootValue::Element(j) => RootModel::Element(jsx_model(j)),
        RootValue::PlainObject(keys) => RootModel::PlainObject(keys_model(keys@)),
        RootValue::Other => RootModel::Other,
    }
}

/// A finished render: the markup and the non-fatal diagnostics the
/// resolution emitted on the way.
pub struct Rendered {
    pub html: String,
    pub warnings: Vec<String>,
}

/// The outcome of a whole server-side render.
pub struct RenderOutModel {
    pub out: Result<Seq<char>, ErrorModel>,
    pub diags: Seq<Seq<char>>,
}

/// What a server-side render returns: for a valid element root, the
/// serialized markup of its resolution under the empty context (or empty
/// markup when the root renders nothing); for a plain data object, the
/// error that enumerates its keys; for any other value, the generic
/// invalid-element error.
pub open spec fn spec_render_server_side<C: Component>(
    root: RootModel<C>,
    is_static: bool,
) -> RenderOutModel {
    match root {
        RootModel::Element(j) => {
            let m = spec_resolve(
                j,
                None,
                Map::empty(),
                is_static,
                true,
                RENDER_DEPTH_LIMIT as nat,
            );
            RenderOutModel {
                out: match m.out {
                    Ok(Some(e)) => Ok(html_of_elem(e)),
                    Ok(None) => Ok(Seq::empty()),
                    Err(e) => Err(e),
                },
                diags: m.diags,
            }
        },
        RootModel::PlainObject(keys) => RenderOutModel {
            out: Err(
                ErrorModel {
                    kind: RenderErrorKind::InvalidElement,
                    message: invalid_object_msg(keys),
                },
            ),
            diags: seq![],
        },
        RootModel::Other => RenderOutModel {
            out: Err(
                ErrorModel { kind: RenderErrorKind::InvalidElement, message: invalid_element_msg() },
            ),
            diags: seq![],
        },
    }
}

/// Resolves a root value under the empty context and serializes the
/// result; the hydration marker is injected exactly when the output is not
/// static.
pub fn render_server_side<C: Component>(root: RootValue<C>, is_static: bool) -> (r: Result<
    Rendered,
    RenderError,
>)
    ensures
        ({
            let m = spec_render_server_side(root_model(root), is_static);
            match r {
                Ok(rd) => m.out matches Ok(h) && rd.html@ == h && diags_model(rd.warnings@)
                    == m.diags,
                Err(e) => m.out matches Err(em) && e@ == em,
            }
        }),
{
    match root {
        RootValue::Element(jsx) => {
            let ctx = Context::new();
            let mut warnings: Vec<String> = Vec::new();
            proof {
                assert(diags_model(warnings@) =~= Seq::<Seq<char>>::empty());
            }
            let ghost m = spec_resolve(
                jsx_model(jsx),
                None,
                Map::empty(),
                is_static,
                true,
                RENDER_DEPTH_LIMIT as nat,
            );
            let res = render_jsx_to_string(
                jsx,
                None,
                &ctx,
                is_static,
                true,
                RENDER_DEPTH_LIMIT,
                &mut warnings,
            );
            proof {
                assert(diags_model(warnings@) =~= m.diags);
            }
            match res {
                Ok(Some(e)) => {
                    let html = e.render();
                    Ok(Rendered { html, warnings })
                },
                Ok(None) => Ok(Rendered { html: String::new(), warnings }),
                Err(e) => Err(e),
            }
        },
        RootValue::PlainObject(keys) => Err(invalid_object_error(&keys)),
        RootValue::Other => Err(invalid_element_error()),
    }
}

/// Renders a root value to markup with the hydration marker on the root
/// host element.
pub fn render_to_string<C: Component>(root: RootValue<C>) -> (r: Result<String, RenderError>)
    ensures
        ({
            let m = spec_render_server_side(root_model(root), false);
            match r {
                Ok(s) => m.out matches Ok(h) && s@ == h,
                Err(e) => m.out matches Err(em) && e@ == em,
            }
        }),
{
    match render_server_side(root, false) {
        Ok(rd) => Ok(rd.html),
        Err(e) => Err(e),
    }
}

/// Renders a root value to static markup: no hydration marker and no
/// inter-text comment separators.
pub fn render_to_static_markup<C: Component>(root: RootValue<C>) -> (r: Result<
    String,
    RenderError,
>)
    ensures
        ({
            let m = spec_render_server_side(root_model(root), true);
            match r {
                Ok(s) => m.out matches Ok(h) && s@ == h,
                Err(e) => m.out matches Err(em) && e@ == em,
            }
        }),
{
    match render_server_side(root, true) {
        Ok(rd) => Ok(rd.html),
        Err(e) => Err(e),
    }
}

} // verus!
