//! The classification of a virtual element: the closed set of node kinds
//! the resolver dispatches on.

use vstd::prelude::*;
use crate::jsx::{Child, ChildModel, children_model};

verus! {

/// A classified virtual element: a class component instance, a plain
/// function component, a host element named by a string tag, or a
/// transparent fragment carrying its children.
pub enum ReactComponent<C> {
    Class(C),
    Functional(C),
    Intrinsic(String),
    Fragment(Vec<Child<C>>),
}

/// The mathematical value of a classified virtual element.
pub enum ReactComponentModel<C> {
    Class(C),
    Functional(C),
    Intrinsic(Seq<char>),
    Fragment(Seq<ChildModel<C>>),
}

pub open spec fn react_component_model<C>(rc: ReactComponent<C>) -> ReactComponentModel<C> {
    match rc {
        ReactComponent::Class(c) => ReactComponentModel::Class(c),
        ReactComponent::Functional(c) => ReactComponentModel::Functional(c),
        ReactComponent::Intrinsic(t) => ReactComponentModel::Intrinsic(t@),
        ReactComponent::Fragment(cs) => ReactComponentModel::Fragment(children_model(cs@)),
    }
}

} // verus!
