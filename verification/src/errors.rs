//! The fatal errors a render can raise, with their exact messages.

use vstd::prelude::*;
use crate::strutil::join_seqs;

verus! {

/// The kind of a fatal render error.
#[derive(Clone, Copy, Debug, PartialEq, Eq, Structural)]
pub enum RenderErrorKind {
    /// A root or child value is neither a component reference, a host-tag
    /// string, a fragment, nor a primitive.
    InvalidElement,
    /// The style property's value is not a mapping from style properties to
    /// values.
    InvalidStyleProp,
    /// An attribute value is not a string, a number, or a stringifiable
    /// object.
    UnsupportedAttributeValue,
    /// The virtual element tree nests components beyond the fixed depth
    /// guard.
    TreeTooDeep,
}

/// A fatal render error: its kind and its user-visible message.
#[derive(Debug)]
pub struct RenderError {
    pub kind: RenderErrorKind,
    pub message: String,
}

/// The mathematical value of a render error.
pub struct ErrorModel {
    pub kind: RenderErrorKind,
    pub message: Seq<char>,
}

impl View for RenderError {
    type V = ErrorModel;

    open spec fn view(&self) -> ErrorModel {
        ErrorModel { kind: self.kind, message: self.message@ }
    }
}

impl RenderError {
    /// The user-visible message.
    pub fn message(&self) -> (r: &String)
        ensures
            r@ == self@.message,
    {
        &self.message
    }
}

/// The message raised for a plain data object where an element was needed:
/// it enumerates the object's own property keys.
pub open spec fn invalid_object_msg(keys: Seq<Seq<char>>) -> Seq<char> {
    "Objects are not valid as a React child (found: object with keys {"@ + join_seqs(keys, ", "@)
        + "})"@
}

/// The generic message for a value that no classification fits.
pub open spec fn invalid_element_msg() -> Seq<char> {
    "bad jsx value"@
}

/// One component-stack entry appended to a diagnostic or error message.
pub open spec fn stack_entry(name: Seq<char>) -> Seq<char> {
    "\n    in "@ + name + " (at **)"@
}

/// The fixed sentence raised when the style property is not a mapping.
pub open spec fn invalid_style_msg(name: Seq<char>) -> Seq<char> {
    "The `style` prop expects a mapping from style properties to values, not a string. For example, style={{marginRight: spacing + 'em'}} when using JSX."@
        + stack_entry(name)
}

/// The message raised for an attribute value of an unsupported kind; it
/// names the offending attribute.
pub open spec fn unsupported_attr_msg(name: Seq<char>) -> Seq<char> {
    "The prop `"@ + name + "` is not a string, a number, or a stringifiable object"@
}

/// The diagnostic emitted when user data shadows the property-existence
/// probe on a props mapping.
pub open spec fn poisoned_probe_msg(name: Seq<char>) -> Seq<char> {
    "React does not recognize the `hasOwnProperty` prop"@ + stack_entry(name)
}

/// The message raised when component expansion exceeds the depth guard.
pub open spec fn tree_too_deep_msg() -> Seq<char> {
    "the virtual element tree nests components too deeply"@
}

} // verus!
