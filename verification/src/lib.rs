//! A type-directed codec between an in-memory data model and the
//! self-describing, signature-typed GVariant container format.
//!
//! A [`shape::Shape`] describes a concrete data type; [`shape::variant_type`]
//! computes its type-description tree once, and [`serializer::to_variant`]
//! walks a [`value::Value`] together with that tree to produce a
//! [`variant::Variant`] wire value.  The wire value carries its own type, so
//! [`deserializer::from_variant`] rebuilds the logical value from the wire
//! value's own classification and the shape the caller requests.
//!
//! The laws the codec obeys — the encode–decode round trip, signature
//! determinism, newtype transparency, the enum tag-width table, and the
//! equivalence of the packed fast path with the generic one — are stated
//! and proved in [`laws`].

pub mod deserializer;
pub mod enums;
pub mod error;
pub mod flags;
pub mod laws;
pub mod object_path;
pub mod serializer;
pub mod shape;
pub mod signature;
pub mod text;
pub mod ty;
pub mod util;
pub mod value;
pub mod variant;
pub mod variant_type;
