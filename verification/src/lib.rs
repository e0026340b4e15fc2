//! A synchronous `multipart/form-data` body writer.
//!
//! The writer assembles a well-formed multipart body, one part at a time, in
//! an owned byte buffer, and exposes the boundary string together with a
//! matching `Content-Type` header value. [`FormData::new`] is the entry point.

pub mod boundary;
pub mod escape;
pub mod field;
pub mod laws;
pub mod writer;

pub use boundary::{default_boundary_shape, generate_boundary, is_hex_digit};
pub use escape::{escape_bytes, escaped_form, needs_escape};
pub use field::{Field, FieldBuilder, FieldView};
pub use writer::{closing_bytes, part_bytes, FormData};
