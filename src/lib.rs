//! Marks fields of a record as needing acknowledged access.
//!
//! The [`transform::unsafe_fields`] function rewrites a record declaration,
//! given as a token sequence, so that every field tagged `#[unsafe_field]` is
//! declared with type `::unsafe_fields::UnsafeField<T>` instead of `T`.
//! [`unsafe_field::UnsafeField`] is the wrapper the rewritten fields hold.
pub mod token;
pub mod field;
pub mod grammar;
pub mod laws;
pub mod transform;
pub mod unsafe_field;

pub use field::{Field, Pub, VisRestricted, Visibility};
pub use token::{Delimiter, Group, Ident, Literal, Punct, Spacing, TokenTree};
pub use grammar::TransformError;
pub use transform::unsafe_fields;
pub use unsafe_field::UnsafeField;
