//! Server-side rendering of virtual element trees to HTML text.
//!
//! A virtual element describes what to render: a type tag (a component, a
//! host tag name, or a fragment marker) together with a properties mapping.
//! The resolver walks such a tree, invokes component logic, threads a legacy
//! context mapping down the tree, and builds an in-memory HTML tree, which
//! the serializer turns into an escaped HTML string.

pub mod strutil;
pub mod escape;
pub mod jsx;
pub mod css;
pub mod html;
pub mod errors;
pub mod react;
pub mod context;
pub mod component;
pub mod server;
pub mod laws;
