use react_ssr::component::TemplateComponent;
use react_ssr::html::{HTMLElement, HTMLValue};
use react_ssr::jsx::{Child, Jsx, JsNumber, JsxType, PropValue, Props};
use react_ssr::server::{render_to_static_markup, render_to_string, RootValue};
use react_ssr::escape::escape_html;

fn host(
    tag: &str,
    attrs: Vec<(String, PropValue)>,
    children: Vec<Child<TemplateComponent>>,
) -> Jsx<TemplateComponent> {
    Jsx {
        jsx_type: JsxType::Intrinsic(tag.to_string()),
        props: Props { attrs, children },
    }
}

fn root(jsx: Jsx<TemplateComponent>) -> RootValue<TemplateComponent> {
    RootValue::Element(jsx)
}

#[test]
fn root_marker_to_string() {
    let out = render_to_string(root(host("div", vec![], vec![]))).unwrap();
    assert_eq!(out, "<div data-reactroot=\"\"></div>");
}

#[test]
fn root_marker_static() {
    let out = render_to_static_markup(root(host("div", vec![], vec![]))).unwrap();
    assert_eq!(out, "<div></div>");
}

#[test]
fn adjacent_text_siblings_to_string() {
    let jsx = host(
        "div",
        vec![],
        vec![Child::Text("a".to_string()), Child::Text("b".to_string())],
    );
    let out = render_to_string(root(jsx)).unwrap();
    assert_eq!(out, "<div data-reactroot=\"\">a<!-- -->b</div>");
}

#[test]
fn adjacent_text_siblings_static() {
    let jsx = host(
        "div",
        vec![],
        vec![Child::Text("a".to_string()), Child::Text("b".to_string())],
    );
    let out = render_to_static_markup(root(jsx)).unwrap();
    assert_eq!(out, "<div>ab</div>");
}

#[test]
fn text_after_element_gets_no_comment() {
    let jsx = host(
        "div",
        vec![],
        vec![
            Child::Text("a".to_string()),
            Child::Element(host("span", vec![], vec![])),
            Child::Text("b".to_string()),
        ],
    );
    let out = render_to_string(root(jsx)).unwrap();
    assert_eq!(out, "<div data-reactroot=\"\">a<span></span>b</div>");
}

#[test]
fn self_closing_img_with_attr() {
    let jsx = host(
        "img",
        vec![("src".to_string(), PropValue::Str("x.png".to_string()))],
        vec![],
    );
    let out = render_to_static_markup(root(jsx)).unwrap();
    assert_eq!(out, "<img src=\"x.png\"/>");
}

#[test]
fn self_closing_ignores_children() {
    let jsx = host(
        "img",
        vec![("src".to_string(), PropValue::Str("x.png".to_string()))],
        vec![Child::Text("ignored".to_string())],
    );
    let out = render_to_static_markup(root(jsx)).unwrap();
    assert_eq!(out, "<img src=\"x.png\"/>");
    assert!(!out.contains("</img>"));
    assert!(!out.contains("ignored"));
}

#[test]
fn void_tag_br() {
    let out = render_to_static_markup(root(host("br", vec![], vec![]))).unwrap();
    assert_eq!(out, "<br/>");
}

#[test]
fn static_markup_idempotent() {
    let build = || {
        host(
            "div",
            vec![("id".to_string(), PropValue::Str("x".to_string()))],
            vec![
                Child::Text("a".to_string()),
                Child::Element(host("span", vec![], vec![Child::Text("b".to_string())])),
            ],
        )
    };
    let first = render_to_static_markup(root(build())).unwrap();
    let second = render_to_static_markup(root(build())).unwrap();
    assert_eq!(first, second);
}

#[test]
fn escape_applied_once() {
    assert_eq!(escape_html("&amp;"), "&amp;amp;");
    assert_eq!(escape_html("abc"), "abc");
    assert_eq!(escape_html("&\"'><"), "&amp;&quot;&#x27;&gt;&lt;");
}

#[test]
fn text_child_escaped_once() {
    let jsx = host("div", vec![], vec![Child::Text("&\"'<>".to_string())]);
    let out = render_to_static_markup(root(jsx)).unwrap();
    assert_eq!(out, "<div>&amp;&quot;&#x27;&lt;&gt;</div>");
}

#[test]
fn attribute_value_escaped() {
    let jsx = host(
        "div",
        vec![("title".to_string(), PropValue::Str("a\"b".to_string()))],
        vec![],
    );
    let out = render_to_static_markup(root(jsx)).unwrap();
    assert_eq!(out, "<div title=\"a&quot;b\"></div>");
}

#[test]
fn number_child_rendered_in_base_ten() {
    let jsx = host(
        "div",
        vec![],
        vec![Child::Number(JsNumber { text: "42".to_string() })],
    );
    let out = render_to_static_markup(root(jsx)).unwrap();
    assert_eq!(out, "<div>42</div>");
}

#[test]
fn number_attribute_rendered_in_base_ten() {
    let jsx = host(
        "div",
        vec![("width".to_string(), PropValue::Num(JsNumber { text: "42".to_string() }))],
        vec![],
    );
    let out = render_to_static_markup(root(jsx)).unwrap();
    assert_eq!(out, "<div width=\"42\"></div>");
}

#[test]
fn object_attribute_uses_textual_representation() {
    let jsx = host(
        "div",
        vec![("data-x".to_string(), PropValue::Obj("hello".to_string()))],
        vec![],
    );
    let out = render_to_static_markup(root(jsx)).unwrap();
    assert_eq!(out, "<div data-x=\"hello\"></div>");
}

#[test]
fn duplicate_attribute_keys_keep_position_take_last_value() {
    let jsx = host(
        "div",
        vec![
            ("id".to_string(), PropValue::Str("a".to_string())),
            ("class".to_string(), PropValue::Str("c".to_string())),
            ("id".to_string(), PropValue::Str("b".to_string())),
        ],
        vec![],
    );
    let out = render_to_static_markup(root(jsx)).unwrap();
    assert_eq!(out, "<div id=\"b\" class=\"c\"></div>");
}

#[test]
fn skipped_child_renders_nothing() {
    let jsx = host(
        "div",
        vec![],
        vec![Child::Skipped, Child::Text("x".to_string())],
    );
    let out = render_to_static_markup(root(jsx)).unwrap();
    assert_eq!(out, "<div>x</div>");
}

#[test]
fn skipped_child_keeps_texts_adjacent() {
    let jsx = host(
        "div",
        vec![],
        vec![
            Child::Text("a".to_string()),
            Child::Skipped,
            Child::Text("b".to_string()),
        ],
    );
    let out = render_to_string(root(jsx)).unwrap();
    assert_eq!(out, "<div data-reactroot=\"\">a<!-- -->b</div>");
}

#[test]
fn fragment_child_flattens_into_parent() {
    let frag = Jsx {
        jsx_type: JsxType::Fragment,
        props: Props {
            attrs: vec![],
            children: vec![Child::Text("b".to_string())],
        },
    };
    let jsx = host(
        "div",
        vec![],
        vec![Child::Text("a".to_string()), Child::Element(frag)],
    );
    let out = render_to_string(root(jsx)).unwrap();
    assert_eq!(out, "<div data-reactroot=\"\">a<!-- -->b</div>");
}

#[test]
fn fragment_root_with_single_element() {
    let frag = Jsx {
        jsx_type: JsxType::Fragment,
        props: Props {
            attrs: vec![],
            children: vec![Child::Element(host("div", vec![], vec![]))],
        },
    };
    let out = render_to_string(RootValue::Element(frag)).unwrap();
    assert_eq!(out, "<div data-reactroot=\"\"></div>");
}

#[test]
fn html_element_render_directly() {
    let element = HTMLElement {
        tag: "p".to_string(),
        attributes: vec![("class".to_string(), "x".to_string())],
        children: vec![
            HTMLValue::Text("a<b".to_string()),
            HTMLValue::Comment,
            HTMLValue::Element(HTMLElement {
                tag: "br".to_string(),
                attributes: vec![],
                children: vec![],
            }),
        ],
    };
    assert_eq!(element.render(), "<p class=\"x\">a&lt;b<!-- --><br/></p>");
}

#[test]
fn html_value_render_text() {
    let value = HTMLValue::Text("1 < 2".to_string());
    assert_eq!(value.render(), "1 &lt; 2");
}
