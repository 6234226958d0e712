//! The virtual-element data model: what a render call receives.
//!
//! A virtual element is a type tag plus a properties mapping. The type tag
//! names a class component, a function component, a host tag, or the
//! fragment marker; a tag outside this closed set fails classification.

use vstd::prelude::*;
use crate::component::Component;
use crate::css::{StyleValue, StyleValueModel, style_model};
use crate::errors::{RenderError, RenderErrorKind, ErrorModel, invalid_element_msg, stack_entry};
use crate::react::{ReactComponent, ReactComponentModel, react_component_model};
use vstd::string::StringExecFns;

verus! {

/// A numeric value as the renderer reads it: its base-10 textual rendering.
/// Zero renders as `"0"`, which is how the style serializer recognizes it.
pub struct JsNumber {
    pub text: String,
}

impl View for JsNumber {
    type V = Seq<char>;

    open spec fn view(&self) -> Seq<char> {
        self.text@
    }
}

/// A virtual element: its type tag and its properties mapping.
pub struct Jsx<C> {
    pub jsx_type: JsxType<C>,
    pub props: Props<C>,
}

/// The type tag of a virtual element.
pub enum JsxType<C> {
    /// A class component: constructing it yielded an instance with the
    /// component capability set.
    Component(C),
    /// A plain function component.
    Functional(C),
    /// A host element named by a literal tag.
    Intrinsic(String),
    /// The fragment marker.
    Fragment,
    /// A tag that is neither callable, nor a string, nor the fragment
    /// marker; classification fails on it.
    Unknown,
}

/// The properties mapping of a virtual element: its attribute entries in
/// iteration order, and its children.
pub struct Props<C> {
    pub attrs: Vec<(String, PropValue)>,
    pub children: Vec<Child<C>>,
}

/// One attribute value in a properties mapping.
pub enum PropValue {
    Str(String),
    Num(JsNumber),
    /// An object carrying its own textual representation.
    Obj(String),
    /// An object usable as a style mapping.
    Style(Vec<(String, StyleValue)>),
    /// A value of no stringifiable kind; using it as an attribute value is
    /// a fatal error.
    Opaque,
}

/// One child of a virtual element.
pub enum Child<C> {
    Element(Jsx<C>),
    Text(String),
    Number(JsNumber),
    /// A null or otherwise falsy child: rendered as nothing.
    Skipped,
    /// A plain data object where a child was expected, carrying its own
    /// property keys; resolving it is a fatal error.
    DataObject(Vec<String>),
}

/// The mathematical value of a virtual element.
pub struct JsxModel<C> {
    pub jsx_type: JsxTypeModel<C>,
    pub props: PropsModel<C>,
}

pub enum JsxTypeModel<C> {
    Component(C),
    Functional(C),
    Intrinsic(Seq<char>),
    Fragment,
    Unknown,
}

pub struct PropsModel<C> {
    pub attrs: Seq<(Seq<char>, PropValueModel)>,
    pub children: Seq<ChildModel<C>>,
}

pub enum PropValueModel {
    Str(Seq<char>),
    Num(Seq<char>),
    Obj(Seq<char>),
    Style(Seq<(Seq<char>, StyleValueModel)>),
    Opaque,
}

pub enum ChildModel<C> {
    Element(JsxModel<C>),
    Text(Seq<char>),
    Number(Seq<char>),
    Skipped,
    DataObject(Seq<Seq<char>>),
}

pub open spec fn prop_value_model(v: PropValue) -> PropValueModel {
    match v {
        PropValue::Str(s) => PropValueModel::Str(s@),
        PropValue::Num(n) => PropValueModel::Num(n@),
        PropValue::Obj(s) => PropValueModel::Obj(s@),
        PropValue::Style(m) => PropValueModel::Style(style_model(m@)),
        PropValue::Opaque => PropValueModel::Opaque,
    }
}

pub open spec fn prop_attrs_model(attrs: Seq<(String, PropValue)>) -> Seq<
    (Seq<char>, PropValueModel),
> {
    attrs.map_values(|p: (String, PropValue)| (p.0@, prop_value_model(p.1)))
}

pub open spec fn keys_model(keys: Seq<String>) -> Seq<Seq<char>> {
    keys.map_values(|s: String| s@)
}

pub open spec fn jsx_type_model<C>(t: JsxType<C>) -> JsxTypeModel<C> {
    match t {
        JsxType::Component(c) => JsxTypeModel::Component(c),
        JsxType::Functional(c) => JsxTypeModel::Functional(c),
        JsxType::Intrinsic(s) => JsxTypeModel::Intrinsic(s@),
        JsxType::Fragment => JsxTypeModel::Fragment,
        JsxType::Unknown => JsxTypeModel::Unknown,
    }
}

pub open spec fn jsx_model<C>(j: Jsx<C>) -> JsxModel<C>
    decreases j,
{
    JsxModel {
        jsx_type: jsx_type_model(j.jsx_type),
        props: PropsModel {
            attrs: prop_attrs_model(j.props.attrs@),
            children: children_model(j.props.children@),
        },
    }
}

pub open spec fn props_model<C>(p: Props<C>) -> PropsModel<C> {
    PropsModel { attrs: prop_attrs_model(p.attrs@), children: children_model(p.children@) }
}

pub open spec fn child_model<C>(c: Child<C>) -> ChildModel<C>
    decreases c,
{
    match c {
        Child::Element(j) => ChildModel::Element(jsx_model(j)),
        Child::Text(t) => ChildModel::Text(t@),
        Child::Number(n) => ChildModel::Number(n@),
        Child::Skipped => ChildModel::Skipped,
        Child::DataObject(keys) => ChildModel::DataObject(keys_model(keys@)),
    }
}

pub open spec fn children_model<C>(cs: Seq<Child<C>>) -> Seq<ChildModel<C>>
    decreases cs,
{
    if cs.len() == 0 {
        seq![]
    } else {
        seq![child_model(cs[0])] + children_model(cs.drop_first())
    }
}

pub proof fn lemma_children_model_len<C>(cs: Seq<Child<C>>)
    ensures
        children_model(cs).len() == cs.len(),
        forall|i: int| 0 <= i < cs.len() ==> children_model(cs)[i] == child_model(cs[i]),
    decreases cs.len(),
{
    if cs.len() > 0 {
        lemma_children_model_len(cs.drop_first());
    }
}

impl<C> View for Jsx<C> {
    type V = JsxModel<C>;

    open spec fn view(&self) -> JsxModel<C> {
        jsx_model(*self)
    }
}

impl<C> View for Child<C> {
    type V = ChildModel<C>;

    open spec fn view(&self) -> ChildModel<C> {
        child_model(*self)
    }
}

/// The weight of a virtual element: one more than the weight of its
/// children. It bounds the structural recursion of the resolver.
pub open spec fn jsx_size<C>(j: JsxModel<C>) -> nat
    decreases j,
{
    1 + children_size(j.props.children)
}

pub open spec fn child_size<C>(c: ChildModel<C>) -> nat
    decreases c,
{
    match c {
        ChildModel::Element(j) => 1 + jsx_size(j),
        _ => 1,
    }
}

pub open spec fn children_size<C>(cs: Seq<ChildModel<C>>) -> nat
    decreases cs,
{
    if cs.len() == 0 {
        0
    } else {
        child_size(cs[0]) + children_size(cs.drop_first())
    }
}

/// Every child carries positive weight.
pub proof fn lemma_child_size_pos<C>(c: ChildModel<C>)
    ensures
        child_size(c) >= 1,
{
}

/// The classification of a virtual element, as a function of its type tag:
/// only the unrecognized tag fails, with the generic invalid-element error.
pub open spec fn spec_classify<C>(j: JsxModel<C>) -> Result<
    ReactComponentModel<C>,
    ErrorModel,
> {
    match j.jsx_type {
        JsxTypeModel::Component(c) => Ok(ReactComponentModel::Class(c)),
        JsxTypeModel::Functional(c) => Ok(ReactComponentModel::Functional(c)),
        JsxTypeModel::Intrinsic(t) => Ok(ReactComponentModel::Intrinsic(t)),
        JsxTypeModel::Fragment => Ok(ReactComponentModel::Fragment(j.props.children)),
        JsxTypeModel::Unknown => Err(
            ErrorModel { kind: RenderErrorKind::InvalidElement, message: invalid_element_msg() },
        ),
    }
}

pub open spec fn classify_result_model<C>(r: Result<ReactComponent<C>, RenderError>) -> Result<
    ReactComponentModel<C>,
    ErrorModel,
> {
    match r {
        Ok(rc) => Ok(react_component_model(rc)),
        Err(e) => Err(e@),
    }
}

/// The name a virtual element shows in a component-stack trail.
pub open spec fn jsx_display_name<C: Component>(j: JsxModel<C>) -> Seq<char> {
    match j.jsx_type {
        JsxTypeModel::Intrinsic(t) => t,
        JsxTypeModel::Component(c) => c.spec_display_name(),
        JsxTypeModel::Functional(c) => c.spec_display_name(),
        JsxTypeModel::Fragment => "Fragment"@,
        JsxTypeModel::Unknown => "Unknown"@,
    }
}

impl<C> Jsx<C> {
    /// Classifies this virtual element into the closed set of node kinds.
    /// A fragment hands over its children; an unrecognized tag is the
    /// fatal invalid-element error.
    pub fn get_component(self) -> (r: Result<ReactComponent<C>, RenderError>)
        ensures
            classify_result_model(r) == spec_classify(jsx_model(self)),
    {
        match self.jsx_type {
            JsxType::Component(c) => Ok(ReactComponent::Class(c)),
            JsxType::Functional(c) => Ok(ReactComponent::Functional(c)),
            JsxType::Intrinsic(t) => Ok(ReactComponent::Intrinsic(t)),
            JsxType::Fragment => Ok(ReactComponent::Fragment(self.props.children)),
            JsxType::Unknown => Err(
                RenderError {
                    kind: RenderErrorKind::InvalidElement,
                    message: String::from_str("bad jsx value"),
                },
            ),
        }
    }
}

impl<C: Component> Jsx<C> {
    /// Appends one component-stack entry naming this element to a
    /// diagnostic or error message.
    pub fn add_component_stack(&self, err: &mut String)
        ensures
            final(err)@ == old(err)@ + stack_entry(jsx_display_name(jsx_model(*self))),
    {
        err.append("\n    in ");
        match &self.jsx_type {
            JsxType::Intrinsic(t) => err.append(t.as_str()),
            JsxType::Component(c) => {
                let n = c.display_name();
                err.append(n.as_str());
            },
            JsxType::Functional(c) => {
                let n = c.display_name();
                err.append(n.as_str());
            },
            JsxType::Fragment => err.append("Fragment"),
            JsxType::Unknown => err.append("Unknown"),
        }
        err.append(" (at **)");
        proof {
            assert(final(err)@ =~= old(err)@ + stack_entry(jsx_display_name(jsx_model(*self))));
        }
    }
}

} // verus!
