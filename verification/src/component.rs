//! The component capability set the resolver consumes, and the library's
//! ready-made component type.

use vstd::prelude::*;
use crate::context::{Context, pairs_model};
use crate::jsx::{
    Child, ChildModel, Jsx, JsxModel, JsxType, JsxTypeModel, Props, PropsModel, children_model,
    jsx_model, prop_attrs_model,
};

verus! {

pub open spec fn opt_jsx_model<C>(r: Option<Jsx<C>>) -> Option<JsxModel<C>> {
    match r {
        Some(j) => Some(jsx_model(j)),
        None => None,
    }
}

/// A component instance, as the resolver sees it: it can render once, it
/// may declare a pre-render lifecycle hook under the modern or the legacy
/// name, and it may declare a child-context contribution.
///
/// Each capability comes with a specification function that its
/// implementation is proved against.
pub trait Component: Sized {
    /// What this instance renders under a given context: a virtual
    /// element, or nothing.
    spec fn spec_render(self, ctx: Map<Seq<char>, Seq<char>>) -> Option<JsxModel<Self>>;

    /// Whether the modern-named pre-render hook is declared.
    spec fn spec_has_component_will_mount(self) -> bool;

    /// Whether the legacy, unsafe-prefixed pre-render hook is declared.
    spec fn spec_has_unsafe_component_will_mount(self) -> bool;

    /// Whether a child-context type descriptor is declared; only then is
    /// the child-context getter consulted.
    spec fn spec_has_child_context_types(self) -> bool;

    /// The child-context contribution, as key/value entries.
    spec fn spec_child_context(self) -> Seq<(Seq<char>, Seq<char>)>;

    /// The display name used in component-stack trails.
    spec fn spec_display_name(self) -> Seq<char>;

    /// Renders this instance. Props were supplied at construction; the
    /// context is handed in here.
    fn render(self, ctx: &Context) -> (r: Option<Jsx<Self>>)
        ensures
            opt_jsx_model(r) == self.spec_render(ctx@),
    ;

    fn has_component_will_mount(&self) -> (b: bool)
        ensures
            b == self.spec_has_component_will_mount(),
    ;

    /// The pre-render hook under its modern name; called at most once, for
    /// its side effects, before render.
    fn component_will_mount(&self);

    fn has_unsafe_component_will_mount(&self) -> (b: bool)
        ensures
            b == self.spec_has_unsafe_component_will_mount(),
    ;

    /// The pre-render hook under its legacy, unsafe-prefixed name.
    fn unsafe_component_will_mount(&self);

    fn has_child_context_types(&self) -> (b: bool)
        ensures
            b == self.spec_has_child_context_types(),
    ;

    fn get_child_context(&self) -> (r: Vec<(String, String)>)
        ensures
            pairs_model(r@) == self.spec_child_context(),
    ;

    fn display_name(&self) -> (r: String)
        ensures
            r@ == self.spec_display_name(),
    ;
}

/// What a template component renders.
pub enum TemplateOutput {
    /// Renders nothing.
    Nothing,
    /// Renders a stored virtual element.
    Node(Box<Jsx<TemplateComponent>>),
    /// Renders a host element of the given tag whose only child is the
    /// context value under the given key (empty text when absent).
    ContextText { tag: String, key: String },
}

/// The library's ready-made component: a class or function component whose
/// behaviour is fixed data. It renders a stored template or echoes one
/// context value, and may declare hooks and a child-context contribution.
pub struct TemplateComponent {
    pub name: String,
    pub mounts: bool,
    pub legacy_mounts: bool,
    pub child_context: Option<Vec<(String, String)>>,
    pub output: TemplateOutput,
}

impl Component for TemplateComponent {
    open spec fn spec_render(self, ctx: Map<Seq<char>, Seq<char>>) -> Option<
        JsxModel<TemplateComponent>,
    > {
        match self.output {
            TemplateOutput::Nothing => None,
            TemplateOutput::Node(b) => Some(jsx_model(*b)),
            TemplateOutput::ContextText { tag, key } => Some(
                JsxModel {
                    jsx_type: JsxTypeModel::Intrinsic(tag@),
                    props: PropsModel {
                        attrs: seq![],
                        children: seq![
                            ChildModel::Text(
                                if ctx.contains_key(key@) {
                                    ctx[key@]
                                } else {
                                    Seq::empty()
                                },
                            ),
                        ],
                    },
                },
            ),
        }
    }

    open spec fn spec_has_component_will_mount(self) -> bool {
        self.mounts
    }

    open spec fn spec_has_unsafe_component_will_mount(self) -> bool {
        self.legacy_mounts
    }

    open spec fn spec_has_child_context_types(self) -> bool {
        self.child_context is Some
    }

    open spec fn spec_child_context(self) -> Seq<(Seq<char>, Seq<char>)> {
        match self.child_context {
            Some(v) => pairs_model(v@),
            None => seq![],
        }
    }

    open spec fn spec_display_name(self) -> Seq<char> {
        self.name@
    }

    fn render(self, ctx: &Context) -> (r: Option<Jsx<TemplateComponent>>)
        ensures
            opt_jsx_model(r) == self.spec_render(ctx@),
    {
        let ghost me = self;
        match self.output {
            TemplateOutput::Nothing => None,
            TemplateOutput::Node(b) => Some(*b),
            TemplateOutput::ContextText { tag, key } => {
                let text = match ctx.get(key.as_str()) {
                    Some(v) => v.clone(),
                    None => String::new(),
                };
                let mut children: Vec<Child<TemplateComponent>> = Vec::new();
                children.push(Child::Text(text));
                let out = Jsx {
                    jsx_type: JsxType::Intrinsic(tag),
                    props: Props { attrs: Vec::new(), children },
                };
                proof {
                    assert(prop_attrs_model(out.props.attrs@) =~= Seq::<
                        (Seq<char>, crate::jsx::PropValueModel),
                    >::empty());
                    assert(out.props.children@ =~= seq![Child::<TemplateComponent>::Text(text)]);
                    assert(seq![Child::<TemplateComponent>::Text(text)].drop_first() =~= Seq::<
                        Child<TemplateComponent>,
                    >::empty());
                    assert(children_model(out.props.children@) =~= seq![
                        ChildModel::<TemplateComponent>::Text(text@),
                    ]);
                    assert(jsx_model(out) == me.spec_render(ctx@)->0);
                }
                Some(out)
            },
        }
    }

    fn has_component_will_mount(&self) -> (b: bool)
        ensures
            b == self.spec_has_component_will_mount(),
    {
        self.mounts
    }

    fn component_will_mount(&self) {
    }

    fn has_unsafe_component_will_mount(&self) -> (b: bool)
        ensures
            b == self.spec_has_unsafe_component_will_mount(),
    {
        self.legacy_mounts
    }

    fn unsafe_component_will_mount(&self) {
    }

    fn has_child_context_types(&self) -> (b: bool)
        ensures
            b == self.spec_has_child_context_types(),
    {
        match &self.child_context {
            Some(_) => true,
            None => false,
        }
    }

    fn get_child_context(&self) -> (r: Vec<(String, String)>)
        ensures
            pairs_model(r@) == self.spec_child_context(),
    {
        match &self.child_context {
            Some(v) => {
                let mut out: Vec<(String, String)> = Vec::new();
                let mut i: usize = 0;
                while i < v.len()
                    invariant
                        0 <= i <= v.len(),
                        out@.len() == i,
                        forall|j: int| 0 <= j < i ==> out@[j] == v@[j],
                    decreases v.len() - i,
                {
                    out.push((v[i].0.clone(), v[i].1.clone()));
                    i += 1;
                }
                proof {
                    assert(out@ =~= v@);
                    assert(pairs_model(out@) =~= pairs_model(v@));
                }
                out
            },
            None => {
                let out: Vec<(String, String)> = Vec::new();
                proof {
                    assert(pairs_model(out@) =~= Seq::<(Seq<char>, Seq<char>)>::empty());
                }
                out
            },
        }
    }

    fn display_name(&self) -> (r: String)
        ensures
            r@ == self.spec_display_name(),
    {
        self.name.clone()
    }
}

} // verus!
