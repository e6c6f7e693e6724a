//! Per-declaration directive resolver.
//!
//! The crate scans the free-text comment lines attached to one program
//! declaration for `cbindgen:` directives, types each directive's value
//! (list, atom or boolean), resolves a "must use" marker and a
//! "deprecated" note from the declaration's structured attributes, and
//! stores the result in an [`AnnotationSet`] with tag-checked lookups
//! and an insert-if-absent default rule.

pub mod deprecated;
pub mod directive;
pub mod laws;
pub mod store;
pub mod text;
pub mod value;

pub use deprecated::{DeclAttrs, DeclAttrsView, LoadError, LoadErrorView};
pub use store::{AnnotationSet, Language, SetView};
pub use value::{AnnotationValue, AtomParseable, ValueView};
