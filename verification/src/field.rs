//! One part of a multipart form: a field name, an optional file name, an
//! optional media type, and the payload bytes, together with a builder.

use vstd::prelude::*;
use vstd::string::StringExecFns;

verus! {

/// What one part holds, as mathematical values.
pub struct FieldView {
    pub name: Seq<char>,
    pub filename: Option<Seq<char>>,
    pub content_type: Option<Seq<char>>,
    pub data: Seq<u8>,
}

/// An immutable description of one part: the form field name, an optional
/// suggested file name, an optional media type, and the payload bytes. A
/// caller may construct it directly or through [`FieldBuilder`].
pub struct Field {
    pub name: String,
    pub filename: Option<String>,
    pub content_type: Option<String>,
    pub data: Vec<u8>,
}

impl View for Field {
    type V = FieldView;

    open spec fn view(&self) -> FieldView {
        FieldView {
            name: self.name@,
            filename: match self.filename {
                Some(f) => Some(f@),
                None => None,
            },
            content_type: match self.content_type {
                Some(c) => Some(c@),
                None => None,
            },
            data: self.data@,
        }
    }
}

/// Builder for [`Field`] values. Its view is the field being described, with
/// an empty payload until [`FieldBuilder::build`] supplies one.
pub struct FieldBuilder {
    name: String,
    filename: Option<String>,
    content_type: Option<String>,
}

impl View for FieldBuilder {
    type V = FieldView;

    closed spec fn view(&self) -> FieldView {
        FieldView {
            name: self.name@,
            filename: match self.filename {
                Some(f) => Some(f@),
                None => None,
            },
            content_type: match self.content_type {
                Some(c) => Some(c@),
                None => None,
            },
            data: Seq::empty(),
        }
    }
}

impl FieldBuilder {
    /// Start building a new field.
    pub fn new(name: &str) -> (r: Self)
        ensures
            r@ == (FieldView {
                name: name@,
                filename: None,
                content_type: None,
                data: Seq::empty(),
            }),
    {
        FieldBuilder { name: String::from_str(name), filename: None, content_type: None }
    }

    /// Set the file name for the field.
    pub fn filename(self, filename: &str) -> (r: Self)
        ensures
            r@ == (FieldView { filename: Some(filename@), ..self@ }),
    {
        FieldBuilder {
            name: self.name,
            filename: Some(String::from_str(filename)),
            content_type: self.content_type,
        }
    }

    /// Set the content type for the field.
    pub fn content_type(self, content_type: &str) -> (r: Self)
        ensures
            r@ == (FieldView { content_type: Some(content_type@), ..self@ }),
    {
        FieldBuilder {
            name: self.name,
            filename: self.filename,
            content_type: Some(String::from_str(content_type)),
        }
    }

    /// Provide data for and finish the field.
    pub fn build(self, data: Vec<u8>) -> (r: Field)
        ensures
            r@ == (FieldView { data: data@, ..self@ }),
    {
        Field {
            name: self.name,
            filename: self.filename,
            content_type: self.content_type,
            data,
        }
    }
}

} // verus!
