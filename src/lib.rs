//! Derives `AsRef` implementations that borrow a field of a struct as one of
//! the types named by `#[as_ref(target = "Type")]` markers on the field.
pub mod attrs;
pub mod structs;
pub mod expand;
pub mod laws;

pub use attrs::{
    is_ident_str, AttrArgs, AttrPath, Attribute, ErrorKind, Lit, NestedMeta, PathSegment, RawAttribute,
    TargetAttribute,
};
pub use expand::{produce_all_impl_asref, produce_impl_asref};
pub use structs::{AsRefError, DeriveInput, Field, Location, RawData, RawField, RawFields, Struct};
