//! Reader for the `.2dm` two-dimensional mesh format: a card per line, a tag
//! in front of each card, whitespace between the fields.
//!
//! [`parse`] and [`Mesh2D::from_str`] read a whole text. The readers of the
//! single cards, the numeric decoder and the text layer below them are
//! public as well.

pub mod decode;
pub mod element;
pub mod error;
pub mod laws;
pub mod mesh;
pub mod node;
pub mod nodestring;
pub mod record;
pub mod text;

pub use crate::decode::{decode_float, decode_unsigned, FloatLiteral};
pub use crate::element::{E2L, E3L, E3T, E4Q, E6T, E8Q, E9Q};
pub use crate::error::{weak_error, Diagnostics, Error, ErrorMode, FloatErrorKind};
pub use crate::mesh::{parse, MaterialCountPerElement, Mesh2D};
pub use crate::node::Node;
pub use crate::nodestring::Nodestring;
