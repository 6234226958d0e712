//! Inline-style serialization: a mapping from style property names to string
//! or numeric values becomes one CSS declaration text.

use vstd::prelude::*;
use crate::jsx::JsNumber;
use crate::html::{HTMLElement, attrs_model, attrs_set};
use crate::strutil::{join_seqs, lemma_join_seqs_push, push_char, str_eq};
use vstd::string::StrSliceExecFns;
use vstd::string::StringExecFns;

verus! {

/// One value of a style property: a string, a number, or the null value
/// (a null entry is skipped entirely).
pub enum StyleValue {
    Str(String),
    Num(JsNumber),
    Null,
}

/// The mathematical value of a style property value.
pub enum StyleValueModel {
    Str(Seq<char>),
    Num(Seq<char>),
    Null,
}

impl View for StyleValue {
    type V = StyleValueModel;

    open spec fn view(&self) -> StyleValueModel {
        match self {
            StyleValue::Str(s) => StyleValueModel::Str(s@),
            StyleValue::Num(n) => StyleValueModel::Num(n@),
            StyleValue::Null => StyleValueModel::Null,
        }
    }
}

pub open spec fn is_ascii_upper(c: char) -> bool {
    'A' <= c && c <= 'Z'
}

pub open spec fn lower_char(c: char) -> char {
    if is_ascii_upper(c) {
        ((c as u8) + 32) as char
    } else {
        c
    }
}

/// The hyphenation of one character: an uppercase letter becomes a hyphen
/// followed by its lowercase form, any other character stands unchanged.
pub open spec fn hyphen_char(c: char) -> Seq<char> {
    if is_ascii_upper(c) {
        seq!['-', lower_char(c)]
    } else {
        seq![c]
    }
}

pub open spec fn hyphenate_seq(s: Seq<char>) -> Seq<char>
    decreases s.len(),
{
    if s.len() == 0 {
        seq![]
    } else {
        hyphen_char(s[0]) + hyphenate_seq(s.drop_first())
    }
}

/// The vendor-prefix exception: a hyphenated name that begins with `ms-`
/// gains a leading hyphen, so that `ms` is treated as a vendor prefix.
pub open spec fn ms_fix(s: Seq<char>) -> Seq<char> {
    if s.len() >= 3 && s[0] == 'm' && s[1] == 's' && s[2] == '-' {
        seq!['-'] + s
    } else {
        s
    }
}

/// A custom CSS property: the name starts with the two-character `--` prefix
/// and is used verbatim, never case-transformed and never unit-suffixed.
pub open spec fn is_custom_name(s: Seq<char>) -> bool {
    s.len() >= 2 && s[0] == '-' && s[1] == '-'
}

/// The serialized name of a style property.
pub open spec fn css_name_of(s: Seq<char>) -> Seq<char> {
    if is_custom_name(s) {
        s
    } else {
        ms_fix(hyphenate_seq(s))
    }
}

pub proof fn lemma_hyphenate_seq_push(s: Seq<char>, c: char)
    ensures
        hyphenate_seq(s.push(c)) == hyphenate_seq(s) + hyphen_char(c),
    decreases s.len(),
{
    if s.len() == 0 {
        assert(s.push(c) =~= seq![c]);
        assert(seq![c].drop_first() =~= Seq::<char>::empty());
        assert(hyphenate_seq(seq![c]) == hyphen_char(c) + hyphenate_seq(Seq::<char>::empty()));
        assert(hyphen_char(c) + hyphenate_seq(Seq::<char>::empty()) =~= hyphen_char(c));
        assert(hyphenate_seq(s) + hyphen_char(c) =~= hyphen_char(c));
    } else {
        lemma_hyphenate_seq_push(s.drop_first(), c);
        assert(s.push(c).drop_first() =~= s.drop_first().push(c));
        assert(hyphenate_seq(s.push(c)) == hyphen_char(s[0]) + (hyphenate_seq(s.drop_first())
            + hyphen_char(c)));
        assert(hyphen_char(s[0]) + (hyphenate_seq(s.drop_first()) + hyphen_char(c)) =~= (hyphen_char(
            s[0],
        ) + hyphenate_seq(s.drop_first())) + hyphen_char(c));
    }
}

/// Hyphenates a style property name character by character, with the `ms-`
/// vendor-prefix exception applied to the result.
pub fn hyphenate_style_name(name: &str) -> (r: String)
    ensures
        r@ == ms_fix(hyphenate_seq(name@)),
{
    let mut out = String::new();
    for c in it: name.chars()
        invariant
            it.seq() == name@,
            out@ == hyphenate_seq(name@.take(it.index() as int)),
    {
        proof {
            lemma_hyphenate_seq_push(name@.take(it.index() as int), c);
            assert(name@.take(it.index() as int).push(c) =~= name@.take(it.index() + 1));
        }
        let ghost old_out = out;
        if 'A' <= c && c <= 'Z' {
            push_char(&mut out, '-');
            push_char(&mut out, ((c as u8) + 32) as char);
            proof {
                assert(old_out@.push('-').push(lower_char(c)) =~= old_out@ + hyphen_char(c));
            }
        } else {
            push_char(&mut out, c);
            proof {
                assert(old_out@.push(c) =~= old_out@ + hyphen_char(c));
            }
        }
    }
    proof {
        assert(name@.take(name@.len() as int) =~= name@);
    }
    let n = out.as_str().unicode_len();
    if n >= 3 && out.as_str().get_char(0) == 'm' && out.as_str().get_char(1) == 's'
        && out.as_str().get_char(2) == '-' {
        let mut prefixed = String::from_str("-");
        prefixed.append(out.as_str());
        proof {
            reveal_strlit("-");
            assert(prefixed@ =~= ms_fix(hyphenate_seq(name@)));
        }
        prefixed
    } else {
        out
    }
}

/// The fixed set of style properties whose numeric values carry no unit.
pub open spec fn is_unitless_name(s: Seq<char>) -> bool {
    ||| s == "animationIterationCount"@
    ||| s == "borderImageOutset"@
    ||| s == "borderImageSlice"@
    ||| s == "borderImageWidth"@
    ||| s == "boxFlex"@
    ||| s == "boxFlexGroup"@
    ||| s == "boxOrdinalGroup"@
    ||| s == "columnCount"@
    ||| s == "columns"@
    ||| s == "flex"@
    ||| s == "flexGrow"@
    ||| s == "flexPositive"@
    ||| s == "flexShrink"@
    ||| s == "flexNegative"@
    ||| s == "flexOrder"@
    ||| s == "gridArea"@
    ||| s == "gridRow"@
    ||| s == "gridRowEnd"@
    ||| s == "gridRowSpan"@
    ||| s == "gridRowStart"@
    ||| s == "gridColumn"@
    ||| s == "gridColumnEnd"@
    ||| s == "gridColumnSpan"@
    ||| s == "gridColumnStart"@
    ||| s == "fontWeight"@
    ||| s == "lineClamp"@
    ||| s == "lineHeight"@
    ||| s == "opacity"@
    ||| s == "order"@
    ||| s == "orphans"@
    ||| s == "tabSize"@
    ||| s == "widows"@
    ||| s == "zIndex"@
    ||| s == "zoom"@
    ||| s == "fillOpacity"@
    ||| s == "floodOpacity"@
    ||| s == "stopOpacity"@
    ||| s == "strokeDasharray"@
    ||| s == "strokeDashoffset"@
    ||| s == "strokeMiterlimit"@
    ||| s == "strokeOpacity"@
    ||| s == "strokeWidth"@
}

/// Whether a style property is in the fixed unitless set, checked on the
/// property name as given, before hyphenation.
pub fn is_unitless(prop: &str) -> (r: bool)
    ensures
        r == is_unitless_name(prop@),
{
    str_eq(prop, "animationIterationCount") || str_eq(prop, "borderImageOutset") || str_eq(
        prop,
        "borderImageSlice",
    ) || str_eq(prop, "borderImageWidth") || str_eq(prop, "boxFlex") || str_eq(prop, "boxFlexGroup")
        || str_eq(prop, "boxOrdinalGroup") || str_eq(prop, "columnCount") || str_eq(prop, "columns")
        || str_eq(prop, "flex") || str_eq(prop, "flexGrow") || str_eq(prop, "flexPositive")
        || str_eq(prop, "flexShrink") || str_eq(prop, "flexNegative") || str_eq(prop, "flexOrder")
        || str_eq(prop, "gridArea") || str_eq(prop, "gridRow") || str_eq(prop, "gridRowEnd")
        || str_eq(prop, "gridRowSpan") || str_eq(prop, "gridRowStart") || str_eq(prop, "gridColumn")
        || str_eq(prop, "gridColumnEnd") || str_eq(prop, "gridColumnSpan") || str_eq(
        prop,
        "gridColumnStart",
    ) || str_eq(prop, "fontWeight") || str_eq(prop, "lineClamp") || str_eq(prop, "lineHeight")
        || str_eq(prop, "opacity") || str_eq(prop, "order") || str_eq(prop, "orphans") || str_eq(
        prop,
        "tabSize",
    ) || str_eq(prop, "widows") || str_eq(prop, "zIndex") || str_eq(prop, "zoom") || str_eq(
        prop,
        "fillOpacity",
    ) || str_eq(prop, "floodOpacity") || str_eq(prop, "stopOpacity") || str_eq(
        prop,
        "strokeDasharray",
    ) || str_eq(prop, "strokeDashoffset") || str_eq(prop, "strokeMiterlimit") || str_eq(
        prop,
        "strokeOpacity",
    ) || str_eq(prop, "strokeWidth")
}

pub open spec fn is_space(c: char) -> bool {
    c == ' ' || c == '\t' || c == '\n' || c == '\r' || c == '\u{000B}' || c == '\u{000C}'
}

pub open spec fn leading_spaces(s: Seq<char>) -> int
    decreases s.len(),
{
    if s.len() > 0 && is_space(s[0]) {
        1 + leading_spaces(s.drop_first())
    } else {
        0
    }
}

pub open spec fn trailing_spaces(s: Seq<char>) -> int
    decreases s.len(),
{
    if s.len() > 0 && is_space(s.last()) {
        1 + trailing_spaces(s.drop_last())
    } else {
        0
    }
}

/// The text with its surrounding whitespace removed.
pub open spec fn trim_seq(s: Seq<char>) -> Seq<char> {
    if leading_spaces(s) == s.len() {
        Seq::empty()
    } else {
        s.subrange(leading_spaces(s), s.len() - trailing_spaces(s))
    }
}

proof fn lemma_leading_spaces_at(s: Seq<char>, k: int)
    requires
        0 <= k <= s.len(),
        forall|j: int| 0 <= j < k ==> is_space(s[j]),
        k == s.len() || !is_space(s[k]),
    ensures
        leading_spaces(s) == k,
    decreases s.len(),
{
    if s.len() > 0 && is_space(s[0]) {
        assert(k >= 1);
        lemma_leading_spaces_at(s.drop_first(), k - 1);
    }
}

proof fn lemma_trailing_spaces_at(s: Seq<char>, k: int)
    requires
        0 <= k <= s.len(),
        forall|j: int| s.len() - k <= j < s.len() ==> is_space(s[j]),
        k == s.len() || !is_space(s[s.len() - k - 1]),
    ensures
        trailing_spaces(s) == k,
    decreases s.len(),
{
    if s.len() > 0 && is_space(s.last()) {
        assert(k >= 1);
        lemma_trailing_spaces_at(s.drop_last(), k - 1);
    }
}

fn is_space_char(c: char) -> (r: bool)
    ensures
        r == is_space(c),
{
    c == ' ' || c == '\t' || c == '\n' || c == '\r' || c == '\u{000B}' || c == '\u{000C}'
}

/// Removes surrounding whitespace from a style value.
pub fn trim_str(s: &str) -> (r: String)
    ensures
        r@ == trim_seq(s@),
{
    let n = s.unicode_len();
    let mut i: usize = 0;
    while i < n && is_space_char(s.get_char(i))
        invariant
            0 <= i <= n,
            n == s@.len(),
            forall|j: int| 0 <= j < i ==> is_space(s@[j]),
        decreases n - i,
    {
        i += 1;
    }
    if i == n {
        proof {
            lemma_leading_spaces_at(s@, n as int);
        }
        return String::new();
    }
    proof {
        lemma_leading_spaces_at(s@, i as int);
    }
    let mut j: usize = n;
    while j > i && is_space_char(s.get_char(j - 1))
        invariant
            i <= j <= n,
            n == s@.len(),
            i < n,
            !is_space(s@[i as int]),
            forall|k: int| j <= k < n ==> is_space(s@[k]),
        decreases j,
    {
        j -= 1;
    }
    proof {
        if j > i {
            lemma_trailing_spaces_at(s@, n - j);
        } else {
            assert(j == i);
            assert(!is_space(s@[j as int]));
            lemma_trailing_spaces_at(s@, n - j);
        }
    }
    let out = s.substring_char(i, j);
    String::from_str(out)
}

/// The serialized value of a numeric style property: the `px` unit is added
/// unless the value is exactly zero, the property is in the unitless set, or
/// the property is a custom property.
pub open spec fn num_css_value(key: Seq<char>, text: Seq<char>) -> Seq<char> {
    if text == "0"@ || is_unitless_name(key) || is_custom_name(key) {
        text
    } else {
        text + "px"@
    }
}

/// One `name:value` CSS declaration. Only a string or numeric value reaches
/// this point.
pub open spec fn css_entry(key: Seq<char>, v: StyleValueModel) -> Seq<char> {
    match v {
        StyleValueModel::Str(s) => css_name_of(key) + ":"@ + trim_seq(s),
        StyleValueModel::Num(t) => css_name_of(key) + ":"@ + num_css_value(key, t),
        StyleValueModel::Null => Seq::empty(),
    }
}

/// Maps one style entry to its `name:value` fragment.
pub fn map_style_to_css(key: &str, value: &StyleValue) -> (r: String)
    requires
        !(value@ is Null),
    ensures
        r@ == css_entry(key@, value@),
{
    let custom = str_eq_prefix_custom(key);
    let mut name = if custom {
        String::from_str(key)
    } else {
        hyphenate_style_name(key)
    };
    name.append(":");
    proof {
        reveal_strlit(":");
    }
    match value {
        StyleValue::Str(s) => {
            let trimmed = trim_str(s.as_str());
            name.append(trimmed.as_str());
            name
        },
        StyleValue::Num(num) => {
            name.append(num.text.as_str());
            if str_eq(num.text.as_str(), "0") || is_unitless(key) || custom {
                name
            } else {
                name.append("px");
                name
            }
        },
        StyleValue::Null => {
            proof {
                assert(false);
            }
            name
        },
    }
}

/// Whether the property name starts with the custom-property prefix `--`.
fn str_eq_prefix_custom(key: &str) -> (r: bool)
    ensures
        r == is_custom_name(key@),
{
    let n = key.unicode_len();
    n >= 2 && key.get_char(0) == '-' && key.get_char(1) == '-'
}

/// The `name:value` fragments of the non-null entries, in mapping order.
pub open spec fn style_frags(entries: Seq<(Seq<char>, StyleValueModel)>) -> Seq<Seq<char>>
    decreases entries.len(),
{
    if entries.len() == 0 {
        seq![]
    } else if entries[0].1 is Null {
        style_frags(entries.drop_first())
    } else {
        seq![css_entry(entries[0].0, entries[0].1)] + style_frags(entries.drop_first())
    }
}

pub proof fn lemma_style_frags_push(
    entries: Seq<(Seq<char>, StyleValueModel)>,
    e: (Seq<char>, StyleValueModel),
)
    ensures
        style_frags(entries.push(e)) == if e.1 is Null {
            style_frags(entries)
        } else {
            style_frags(entries).push(css_entry(e.0, e.1))
        },
    decreases entries.len(),
{
    if entries.len() == 0 {
        assert(entries.push(e) =~= seq![e]);
        assert(seq![e].drop_first() =~= Seq::<(Seq<char>, StyleValueModel)>::empty());
        if !(e.1 is Null) {
            assert(seq![css_entry(e.0, e.1)] + style_frags(Seq::empty()) =~= style_frags(
                entries,
            ).push(css_entry(e.0, e.1)));
        }
    } else {
        lemma_style_frags_push(entries.drop_first(), e);
        assert(entries.push(e).drop_first() =~= entries.drop_first().push(e));
        if !(e.1 is Null) {
            if entries[0].1 is Null {
            } else {
                assert(seq![css_entry(entries[0].0, entries[0].1)] + style_frags(
                    entries.drop_first(),
                ).push(css_entry(e.0, e.1)) =~= (seq![css_entry(entries[0].0, entries[0].1)]
                    + style_frags(entries.drop_first())).push(css_entry(e.0, e.1)));
            }
        }
    }
}

/// The full CSS declaration text of a style mapping: the fragments of its
/// non-null entries joined with `;` in mapping order.
pub open spec fn css_of_style(entries: Seq<(Seq<char>, StyleValueModel)>) -> Seq<char> {
    join_seqs(style_frags(entries), ";"@)
}

/// The mathematical value of a style mapping.
pub open spec fn style_model(style: Seq<(String, StyleValue)>) -> Seq<(Seq<char>, StyleValueModel)> {
    style.map_values(|e: (String, StyleValue)| (e.0@, e.1@))
}

/// Serializes a whole style mapping to its CSS declaration text.
pub fn style_to_css(style: &Vec<(String, StyleValue)>) -> (r: String)
    ensures
        r@ == css_of_style(style_model(style@)),
{
    let mut out = String::new();
    let mut emitted = false;
    let ghost entries = style_model(style@);
    proof {
        assert(style_frags(entries.take(0)) =~= seq![]);
    }
    let mut idx: usize = 0;
    while idx < style.len()
        invariant
            0 <= idx <= style.len(),
            entries == style_model(style@),
            entries.len() == style.len(),
            forall|j: int| 0 <= j < style.len() ==> entries[j] == (style@[j].0@, style@[j].1@),
            out@ == join_seqs(style_frags(entries.take(idx as int)), ";"@),
            emitted == (style_frags(entries.take(idx as int)).len() != 0),
        decreases style.len() - idx,
    {
        let entry = &style[idx];
        proof {
            lemma_style_frags_push(entries.take(idx as int), entries[idx as int]);
            assert(entries.take(idx as int).push(entries[idx as int]) =~= entries.take(
                idx as int + 1,
            ));
        }
        match &entry.1 {
            StyleValue::Null => {},
            _ => {
                let frag = map_style_to_css(entry.0.as_str(), &entry.1);
                if emitted {
                    out.append(";");
                    proof {
                        reveal_strlit(";");
                    }
                } else {
                    proof {
                        assert(join_seqs(style_frags(entries.take(idx as int)), ";"@) =~= Seq::<
                            char,
                        >::empty());
                    }
                }
                out.append(frag.as_str());
                proof {
                    lemma_join_seqs_push(
                        style_frags(entries.take(idx as int)),
                        ";"@,
                        css_entry(entries[idx as int].0, entries[idx as int].1),
                    );
                }
                emitted = true;
            },
        }
        idx += 1;
    }
    proof {
        assert(entries.take(style.len() as int) =~= entries);
    }
    out
}

/// The attributes after a style mapping is stored: an empty declaration
/// text leaves the attributes alone (the attribute is omitted, not emitted
/// empty); anything else is stored under the style attribute's name.
pub open spec fn style_attr_set(
    attrs: Seq<(Seq<char>, Seq<char>)>,
    name: Seq<char>,
    entries: Seq<(Seq<char>, StyleValueModel)>,
) -> Seq<(Seq<char>, Seq<char>)> {
    if css_of_style(entries).len() == 0 {
        attrs
    } else {
        attrs_set(attrs, name, css_of_style(entries))
    }
}

/// Serializes a style mapping and stores the result on the element, under
/// the given attribute name, unless the declaration text is empty.
pub fn add_style_to_attributes(
    value: &Vec<(String, StyleValue)>,
    attr_name: String,
    element: &mut HTMLElement,
)
    ensures
        final(element).tag == old(element).tag,
        final(element).children == old(element).children,
        attrs_model(final(element).attributes@) == style_attr_set(
            attrs_model(old(element).attributes@),
            attr_name@,
            style_model(value@),
        ),
{
    let css = style_to_css(value);
    if !css.as_str().is_empty() {
        element.set_attribute(attr_name, css);
    }
}

} // verus!
