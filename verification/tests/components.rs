use react_ssr::component::{TemplateComponent, TemplateOutput};
use react_ssr::context::Context;
use react_ssr::errors::RenderErrorKind;
use react_ssr::jsx::{Child, Jsx, JsxType, PropValue, Props};
use react_ssr::react::ReactComponent;
use react_ssr::server::{
    render_server_side, render_to_static_markup, render_to_string, RootValue,
};

fn host(
    tag: &str,
    attrs: Vec<(String, PropValue)>,
    children: Vec<Child<TemplateComponent>>,
) -> Jsx<TemplateComponent> {
    Jsx {
        jsx_type: JsxType::Intrinsic(tag.to_string()),
        props: Props { attrs, children },
    }
}

fn plain_component(name: &str, output: TemplateOutput) -> TemplateComponent {
    TemplateComponent {
        name: name.to_string(),
        mounts: false,
        legacy_mounts: false,
        child_context: None,
        output,
    }
}

fn context_reader(tag: &str, key: &str) -> Jsx<TemplateComponent> {
    Jsx {
        jsx_type: JsxType::Functional(plain_component(
            "Reader",
            TemplateOutput::ContextText { tag: tag.to_string(), key: key.to_string() },
        )),
        props: Props { attrs: vec![], children: vec![] },
    }
}

#[test]
fn invalid_root_object_enumerates_keys() {
    let root: RootValue<TemplateComponent> =
        RootValue::PlainObject(vec!["a".to_string(), "b".to_string()]);
    let err = render_to_string(root).unwrap_err();
    assert_eq!(err.kind, RenderErrorKind::InvalidElement);
    assert_eq!(
        err.message,
        "Objects are not valid as a React child (found: object with keys {a, b})"
    );
    assert!(err.message.contains("a"));
    assert!(err.message.contains("b"));
}

#[test]
fn invalid_root_other_is_generic_error() {
    let root: RootValue<TemplateComponent> = RootValue::Other;
    let err = render_to_static_markup(root).unwrap_err();
    assert_eq!(err.kind, RenderErrorKind::InvalidElement);
    assert_eq!(err.message, "bad jsx value");
}

#[test]
fn unknown_tag_fails_classification() {
    let jsx: Jsx<TemplateComponent> = Jsx {
        jsx_type: JsxType::Unknown,
        props: Props { attrs: vec![], children: vec![] },
    };
    let err = render_to_string(RootValue::Element(jsx)).unwrap_err();
    assert_eq!(err.kind, RenderErrorKind::InvalidElement);
    assert_eq!(err.message, "bad jsx value");
}

#[test]
fn invalid_child_object_enumerates_keys() {
    let jsx = host(
        "div",
        vec![],
        vec![Child::DataObject(vec!["x".to_string(), "y".to_string()])],
    );
    let err = render_to_string(RootValue::Element(jsx)).unwrap_err();
    assert_eq!(err.kind, RenderErrorKind::InvalidElement);
    assert_eq!(
        err.message,
        "Objects are not valid as a React child (found: object with keys {x, y})"
    );
}

#[test]
fn invalid_style_prop_is_fatal_with_stack() {
    let jsx = host(
        "div",
        vec![("style".to_string(), PropValue::Str("color:red".to_string()))],
        vec![],
    );
    let err = render_to_static_markup(RootValue::Element(jsx)).unwrap_err();
    assert_eq!(err.kind, RenderErrorKind::InvalidStyleProp);
    assert!(err.message.starts_with(
        "The `style` prop expects a mapping from style properties to values, not a string."
    ));
    assert!(err.message.ends_with("\n    in div (at **)"));
}

#[test]
fn unsupported_attribute_value_names_the_prop() {
    let jsx = host(
        "div",
        vec![("onClick".to_string(), PropValue::Opaque)],
        vec![],
    );
    let err = render_to_static_markup(RootValue::Element(jsx)).unwrap_err();
    assert_eq!(err.kind, RenderErrorKind::UnsupportedAttributeValue);
    assert!(err.message.contains("onClick"));
}

#[test]
fn poisoned_probe_warns_and_skips_style_check() {
    let jsx = host(
        "div",
        vec![
            ("hasOwnProperty".to_string(), PropValue::Str("x".to_string())),
            ("style".to_string(), PropValue::Str("color:red".to_string())),
        ],
        vec![],
    );
    let rendered = render_server_side(RootValue::Element(jsx), true).unwrap();
    assert_eq!(rendered.html, "<div></div>");
    assert_eq!(rendered.warnings.len(), 1);
    assert!(rendered.warnings[0]
        .starts_with("React does not recognize the `hasOwnProperty` prop"));
    assert!(rendered.warnings[0].ends_with("\n    in div (at **)"));
}

#[test]
fn probe_key_is_never_an_attribute() {
    let jsx = host(
        "div",
        vec![("hasOwnProperty".to_string(), PropValue::Str("x".to_string()))],
        vec![],
    );
    let rendered = render_server_side(RootValue::Element(jsx), true).unwrap();
    assert_eq!(rendered.html, "<div></div>");
}

#[test]
fn class_component_renders_stored_tree() {
    let inner = host("span", vec![], vec![Child::Text("hi".to_string())]);
    let jsx = Jsx {
        jsx_type: JsxType::Component(plain_component(
            "Widget",
            TemplateOutput::Node(Box::new(inner)),
        )),
        props: Props { attrs: vec![], children: vec![] },
    };
    let out = render_to_static_markup(RootValue::Element(jsx)).unwrap();
    assert_eq!(out, "<span>hi</span>");
}

#[test]
fn class_component_rendering_nothing_gives_empty_markup() {
    let jsx = Jsx {
        jsx_type: JsxType::Component(plain_component("Empty", TemplateOutput::Nothing)),
        props: Props { attrs: vec![], children: vec![] },
    };
    let out = render_to_string(RootValue::Element(jsx)).unwrap();
    assert_eq!(out, "");
}

#[test]
fn functional_component_keeps_root_marker() {
    let jsx = Jsx {
        jsx_type: JsxType::Functional(plain_component(
            "App",
            TemplateOutput::Node(Box::new(host("div", vec![], vec![]))),
        )),
        props: Props { attrs: vec![], children: vec![] },
    };
    let out = render_to_string(RootValue::Element(jsx)).unwrap();
    assert_eq!(out, "<div data-reactroot=\"\"></div>");
}

#[test]
fn child_context_visible_to_descendants() {
    let tree = host("div", vec![], vec![Child::Element(context_reader("span", "theme"))]);
    let provider = Jsx {
        jsx_type: JsxType::Component(TemplateComponent {
            name: "Provider".to_string(),
            mounts: false,
            legacy_mounts: false,
            child_context: Some(vec![("theme".to_string(), "dark".to_string())]),
            output: TemplateOutput::Node(Box::new(tree)),
        }),
        props: Props { attrs: vec![], children: vec![] },
    };
    let out = render_to_static_markup(RootValue::Element(provider)).unwrap();
    assert_eq!(out, "<div><span>dark</span></div>");
}

#[test]
fn child_context_overrides_ancestor_value() {
    let reader = context_reader("span", "theme");
    let inner_provider = Jsx {
        jsx_type: JsxType::Component(TemplateComponent {
            name: "Inner".to_string(),
            mounts: false,
            legacy_mounts: false,
            child_context: Some(vec![("theme".to_string(), "dark".to_string())]),
            output: TemplateOutput::Node(Box::new(host(
                "div",
                vec![],
                vec![Child::Element(reader)],
            ))),
        }),
        props: Props { attrs: vec![], children: vec![] },
    };
    let outer_provider = Jsx {
        jsx_type: JsxType::Component(TemplateComponent {
            name: "Outer".to_string(),
            mounts: false,
            legacy_mounts: false,
            child_context: Some(vec![("theme".to_string(), "light".to_string())]),
            output: TemplateOutput::Node(Box::new(inner_provider)),
        }),
        props: Props { attrs: vec![], children: vec![] },
    };
    let out = render_to_static_markup(RootValue::Element(outer_provider)).unwrap();
    assert_eq!(out, "<div><span>dark</span></div>");
}

#[test]
fn child_context_does_not_leak_to_siblings() {
    let provider_subtree = Jsx {
        jsx_type: JsxType::Component(TemplateComponent {
            name: "Provider".to_string(),
            mounts: false,
            legacy_mounts: false,
            child_context: Some(vec![("theme".to_string(), "dark".to_string())]),
            output: TemplateOutput::Node(Box::new(context_reader("span", "theme"))),
        }),
        props: Props { attrs: vec![], children: vec![] },
    };
    let sibling_reader = context_reader("em", "theme");
    let tree = host(
        "div",
        vec![],
        vec![Child::Element(provider_subtree), Child::Element(sibling_reader)],
    );
    let out = render_to_static_markup(RootValue::Element(tree)).unwrap();
    assert_eq!(out, "<div><span>dark</span><em></em></div>");
}

#[test]
fn component_chain_beyond_depth_guard_errors() {
    let mut jsx = host("div", vec![], vec![]);
    let mut i = 0;
    while i < 300 {
        jsx = Jsx {
            jsx_type: JsxType::Component(plain_component(
                "Wrapper",
                TemplateOutput::Node(Box::new(jsx)),
            )),
            props: Props { attrs: vec![], children: vec![] },
        };
        i += 1;
    }
    let err = render_to_static_markup(RootValue::Element(jsx)).unwrap_err();
    assert_eq!(err.kind, RenderErrorKind::TreeTooDeep);
}

#[test]
fn get_component_classifies_intrinsic() {
    let jsx = host("div", vec![], vec![]);
    match jsx.get_component().unwrap() {
        ReactComponent::Intrinsic(tag) => assert_eq!(tag, "div"),
        _ => panic!("expected an intrinsic"),
    }
}

#[test]
fn get_component_rejects_unknown() {
    let jsx: Jsx<TemplateComponent> = Jsx {
        jsx_type: JsxType::Unknown,
        props: Props { attrs: vec![], children: vec![] },
    };
    match jsx.get_component() {
        Err(err) => assert_eq!(err.kind, RenderErrorKind::InvalidElement),
        Ok(_) => panic!("expected classification to fail"),
    }
}

#[test]
fn get_component_hands_fragment_children_over() {
    let frag: Jsx<TemplateComponent> = Jsx {
        jsx_type: JsxType::Fragment,
        props: Props {
            attrs: vec![],
            children: vec![Child::Text("x".to_string())],
        },
    };
    match frag.get_component().unwrap() {
        ReactComponent::Fragment(children) => assert_eq!(children.len(), 1),
        _ => panic!("expected a fragment"),
    }
}

#[test]
fn add_component_stack_names_the_element() {
    let jsx = host("section", vec![], vec![]);
    let mut msg = "boom".to_string();
    jsx.add_component_stack(&mut msg);
    assert_eq!(msg, "boom\n    in section (at **)");
}

#[test]
fn class_component_with_modern_hook_renders() {
    let jsx = Jsx {
        jsx_type: JsxType::Component(TemplateComponent {
            name: "Mounter".to_string(),
            mounts: true,
            legacy_mounts: false,
            child_context: None,
            output: TemplateOutput::Node(Box::new(host("div", vec![], vec![]))),
        }),
        props: Props { attrs: vec![], children: vec![] },
    };
    let out = render_to_static_markup(RootValue::Element(jsx)).unwrap();
    assert_eq!(out, "<div></div>");
}

#[test]
fn class_component_with_legacy_hook_renders() {
    let jsx = Jsx {
        jsx_type: JsxType::Component(TemplateComponent {
            name: "LegacyMounter".to_string(),
            mounts: false,
            legacy_mounts: true,
            child_context: None,
            output: TemplateOutput::Node(Box::new(host("div", vec![], vec![]))),
        }),
        props: Props { attrs: vec![], children: vec![] },
    };
    let out = render_to_static_markup(RootValue::Element(jsx)).unwrap();
    assert_eq!(out, "<div></div>");
}

#[test]
fn fragment_root_with_two_elements_nests_the_second() {
    let frag: Jsx<TemplateComponent> = Jsx {
        jsx_type: JsxType::Fragment,
        props: Props {
            attrs: vec![],
            children: vec![
                Child::Element(host("div", vec![], vec![])),
                Child::Element(host("span", vec![], vec![])),
            ],
        },
    };
    let out = render_to_string(RootValue::Element(frag)).unwrap();
    assert_eq!(out, "<div data-reactroot=\"\"><span></span></div>");
}

#[test]
fn context_lookup_takes_latest_entry() {
    let ctx = Context {
        entries: vec![
            ("theme".to_string(), "light".to_string()),
            ("theme".to_string(), "dark".to_string()),
        ],
    };
    assert_eq!(ctx.get("theme").unwrap(), "dark");
    assert!(ctx.get("missing").is_none());
}

#[test]
fn context_merge_prefers_contributions() {
    let ctx = Context {
        entries: vec![
            ("theme".to_string(), "light".to_string()),
            ("lang".to_string(), "en".to_string()),
        ],
    };
    let merged = ctx.merge(&vec![("theme".to_string(), "dark".to_string())]);
    assert_eq!(merged.get("theme").unwrap(), "dark");
    assert_eq!(merged.get("lang").unwrap(), "en");
}
