use react_ssr::component::TemplateComponent;
use react_ssr::css::{hyphenate_style_name, is_unitless, map_style_to_css, StyleValue};
use react_ssr::html::HTMLElement;
use react_ssr::css::add_style_to_attributes;
use react_ssr::jsx::{Child, Jsx, JsNumber, JsxType, PropValue, Props};
use react_ssr::server::{render_to_static_markup, RootValue};

fn style_host(style: Vec<(String, StyleValue)>) -> RootValue<TemplateComponent> {
    RootValue::Element(Jsx {
        jsx_type: JsxType::Intrinsic("div".to_string()),
        props: Props {
            attrs: vec![("style".to_string(), PropValue::Style(style))],
            children: Vec::<Child<TemplateComponent>>::new(),
        },
    })
}

fn num(text: &str) -> StyleValue {
    StyleValue::Num(JsNumber { text: text.to_string() })
}

#[test]
fn style_color_and_margin() {
    let out = render_to_static_markup(style_host(vec![
        ("color".to_string(), StyleValue::Str("red".to_string())),
        ("marginTop".to_string(), num("10")),
    ]))
    .unwrap();
    assert_eq!(out, "<div style=\"color:red;margin-top:10px\"></div>");
}

#[test]
fn style_unitless_numbers() {
    let out = render_to_static_markup(style_host(vec![
        ("opacity".to_string(), num("0.5")),
        ("zIndex".to_string(), num("2")),
    ]))
    .unwrap();
    assert_eq!(out, "<div style=\"opacity:0.5;z-index:2\"></div>");
}

#[test]
fn style_custom_property() {
    let out = render_to_static_markup(style_host(vec![(
        "--my-var".to_string(),
        num("5"),
    )]))
    .unwrap();
    assert_eq!(out, "<div style=\"--my-var:5\"></div>");
}

#[test]
fn style_zero_has_no_unit() {
    let out = render_to_static_markup(style_host(vec![(
        "marginTop".to_string(),
        num("0"),
    )]))
    .unwrap();
    assert_eq!(out, "<div style=\"margin-top:0\"></div>");
}

#[test]
fn style_fractional_number_gets_px() {
    let out = render_to_static_markup(style_host(vec![(
        "marginTop".to_string(),
        num("0.5"),
    )]))
    .unwrap();
    assert_eq!(out, "<div style=\"margin-top:0.5px\"></div>");
}

#[test]
fn style_string_value_trimmed() {
    let out = render_to_static_markup(style_host(vec![(
        "color".to_string(),
        StyleValue::Str("  red\t".to_string()),
    )]))
    .unwrap();
    assert_eq!(out, "<div style=\"color:red\"></div>");
}

#[test]
fn style_null_entries_skipped() {
    let out = render_to_static_markup(style_host(vec![
        ("color".to_string(), StyleValue::Null),
        ("margin".to_string(), num("1")),
    ]))
    .unwrap();
    assert_eq!(out, "<div style=\"margin:1px\"></div>");
}

#[test]
fn style_empty_mapping_omits_attribute() {
    let out = render_to_static_markup(style_host(vec![])).unwrap();
    assert_eq!(out, "<div></div>");
}

#[test]
fn style_all_null_omits_attribute() {
    let out = render_to_static_markup(style_host(vec![(
        "color".to_string(),
        StyleValue::Null,
    )]))
    .unwrap();
    assert_eq!(out, "<div></div>");
}

#[test]
fn hyphenate_plain_and_vendor_names() {
    assert_eq!(hyphenate_style_name("marginTop"), "margin-top");
    assert_eq!(hyphenate_style_name("msTransform"), "-ms-transform");
    assert_eq!(hyphenate_style_name("WebkitTransform"), "-webkit-transform");
    assert_eq!(hyphenate_style_name("color"), "color");
}

#[test]
fn unitless_membership() {
    assert!(is_unitless("opacity"));
    assert!(is_unitless("zIndex"));
    assert!(is_unitless("flex"));
    assert!(is_unitless("lineHeight"));
    assert!(is_unitless("fontWeight"));
    assert!(!is_unitless("marginTop"));
    assert!(!is_unitless("z-index"));
}

#[test]
fn map_style_entry_directly() {
    let frag = map_style_to_css("paddingLeft", &num("3"));
    assert_eq!(frag, "padding-left:3px");
    let frag2 = map_style_to_css("color", &StyleValue::Str(" blue ".to_string()));
    assert_eq!(frag2, "color:blue");
}

#[test]
fn add_style_to_attributes_sets_css_text() {
    let mut element = HTMLElement {
        tag: "div".to_string(),
        attributes: vec![],
        children: vec![],
    };
    add_style_to_attributes(
        &vec![
            ("color".to_string(), StyleValue::Str("red".to_string())),
            ("marginTop".to_string(), num("10")),
        ],
        "style".to_string(),
        &mut element,
    );
    assert_eq!(element.attributes.len(), 1);
    assert_eq!(element.attributes[0].0, "style");
    assert_eq!(element.attributes[0].1, "color:red;margin-top:10px");
}

#[test]
fn add_style_to_attributes_empty_leaves_element_alone() {
    let mut element = HTMLElement {
        tag: "div".to_string(),
        attributes: vec![],
        children: vec![],
    };
    add_style_to_attributes(&vec![], "style".to_string(), &mut element);
    assert_eq!(element.attributes.len(), 0);
}

#[test]
fn style_object_on_other_key_stringifies() {
    let jsx: Jsx<TemplateComponent> = Jsx {
        jsx_type: JsxType::Intrinsic("div".to_string()),
        props: Props {
            attrs: vec![(
                "data-conf".to_string(),
                PropValue::Style(vec![("a".to_string(), num("1"))]),
            )],
            children: vec![],
        },
    };
    let out = render_to_static_markup(RootValue::Element(jsx)).unwrap();
    assert_eq!(out, "<div data-conf=\"[object Object]\"></div>");
}
