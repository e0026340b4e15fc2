//! The form writer: byte-exact assembly of boundary delimiters, header
//! lines and payloads into a multipart/form-data body.

use vstd::prelude::*;
use vstd::string::{StrSliceExecFns, StringExecFns};
use vstd::utf8::encode_utf8;
use crate::boundary::{default_boundary_shape, generate_boundary};
use crate::escape::{escape_bytes, escape_into};
use crate::field::{Field, FieldBuilder, FieldView};

verus! {

/// The CRLF line terminator, as bytes.
pub open spec fn crlf() -> Seq<u8> {
    encode_utf8("\r\n"@)
}

/// The bytes of the `filename="…"` parameter, when a file name is present.
pub open spec fn filename_bytes(filename: Option<Seq<char>>) -> Seq<u8> {
    match filename {
        Some(f) => encode_utf8("; filename=\""@) + escape_bytes(encode_utf8(f)) + encode_utf8(
            "\""@,
        ),
        None => Seq::empty(),
    }
}

/// The bytes of the `Content-Type` header line, when a media type is present.
/// The value is inserted unescaped; the writer does not validate it.
pub open spec fn content_type_bytes(content_type: Option<Seq<char>>) -> Seq<u8> {
    match content_type {
        Some(c) => crlf() + encode_utf8("Content-Type: "@) + encode_utf8(c),
        None => Seq::empty(),
    }
}

/// The header text between the opening delimiter line and the blank line:
/// the `Content-Disposition` header with the escaped field name, the
/// optional `filename` parameter and the optional `Content-Type` line.
pub open spec fn header_line_bytes(f: FieldView) -> Seq<u8> {
    encode_utf8("Content-Disposition: form-data; name=\""@) + escape_bytes(encode_utf8(f.name))
        + encode_utf8("\""@) + filename_bytes(f.filename) + content_type_bytes(f.content_type)
}

/// The header block of one part: the opening delimiter line, the header
/// text, and the blank line that terminates the headers.
pub open spec fn header_bytes(boundary: Seq<char>, f: FieldView) -> Seq<u8> {
    encode_utf8("--"@) + encode_utf8(boundary) + crlf() + header_line_bytes(f) + crlf() + crlf()
}

/// The exact bytes `append` emits for one part: the header block, the
/// payload verbatim, and the trailing CRLF that belongs to the next
/// delimiter.
pub open spec fn part_bytes(boundary: Seq<char>, f: FieldView) -> Seq<u8> {
    header_bytes(boundary, f) + f.data + crlf()
}

/// The closing delimiter `end` emits.
pub open spec fn closing_bytes(boundary: Seq<char>) -> Seq<u8> {
    encode_utf8("--"@) + encode_utf8(boundary) + encode_utf8("--"@) + crlf()
}

/// Appends all of `bytes` to `out`.
fn write_slice(out: &mut Vec<u8>, bytes: &[u8])
    ensures
        final(out)@ == old(out)@ + bytes@,
{
    let ghost orig = out@;
    let mut i: usize = 0;
    while i < bytes.len()
        invariant
            i <= bytes@.len(),
            out@ == orig + bytes@.take(i as int),
        decreases bytes@.len() - i,
    {
        out.push(*vstd::slice::slice_index_get(bytes, i));
        proof {
            assert(bytes@.take(i as int + 1) =~= bytes@.take(i as int) + seq![bytes@[i as int]]);
            assert(out@ =~= orig + bytes@.take(i as int + 1));
        }
        i = i + 1;
    }
    proof {
        assert(bytes@.take(bytes@.len() as int) =~= bytes@);
    }
}

/// Appends the UTF-8 bytes of `s` to `out`.
fn write_str(out: &mut Vec<u8>, s: &str)
    ensures
        final(out)@ == old(out)@ + encode_utf8(s@),
{
    write_slice(out, s.as_bytes());
}

/// A multipart/form-data format writer.
///
/// The body is assembled in an owned byte buffer, the sink; [`FormData::end`]
/// writes the closing delimiter and hands the buffer back.
pub struct FormData {
    sink: Vec<u8>,
    boundary: String,
}

impl FormData {
    /// The bytes handed to the sink so far.
    pub closed spec fn written(&self) -> Seq<u8> {
        self.sink@
    }

    /// The boundary chosen at construction. No method changes it.
    pub closed spec fn boundary_view(&self) -> Seq<char> {
        self.boundary@
    }

    /// Create a FormData instance with a freshly generated random boundary.
    pub fn new(sink: Vec<u8>) -> (r: Self)
        ensures
            r.written() == sink@,
            default_boundary_shape(r.boundary_view()),
    {
        let boundary = generate_boundary();
        Self::with_boundary(sink, boundary)
    }

    /// Create a FormData instance with a caller-supplied multipart boundary.
    /// No bytes are written.
    pub fn with_boundary(sink: Vec<u8>, boundary: String) -> (r: Self)
        ensures
            r.written() == sink@,
            r.boundary_view() == boundary@,
    {
        FormData { sink, boundary }
    }

    /// Get the multipart boundary string used by this instance.
    pub fn boundary(&self) -> (r: &str)
        ensures
            r@ == self.boundary_view(),
    {
        self.boundary.as_str()
    }

    /// Get a content type string for the `Content-Type` header of the
    /// request: the literal prefix followed by the boundary, unquoted.
    pub fn content_type(&self) -> (r: String)
        ensures
            r@ == "multipart/form-data; boundary="@ + self.boundary_view(),
    {
        let mut s = String::from_str("multipart/form-data; boundary=");
        s.append(self.boundary.as_str());
        s
    }

    /// Append a field to the multipart form body.
    #[verifier::rlimit(100)]
    pub fn append(&mut self, field: Field)
        ensures
            final(self).boundary_view() == old(self).boundary_view(),
            final(self).written() == old(self).written() + part_bytes(
                old(self).boundary_view(),
                field@,
            ),
    {
        write_str(&mut self.sink, "--");
        write_str(&mut self.sink, self.boundary.as_str());
        write_str(&mut self.sink, "\r\n");
        write_str(&mut self.sink, "Content-Disposition: form-data; name=\"");
        escape_into(&mut self.sink, field.name.as_str().as_bytes());
        write_str(&mut self.sink, "\"");
        let ghost after_name = self.sink@;
        match &field.filename {
            Some(filename) => {
                write_str(&mut self.sink, "; filename=\"");
                escape_into(&mut self.sink, filename.as_str().as_bytes());
                write_str(&mut self.sink, "\"");
                proof {
                    assert(self.sink@ =~= after_name + filename_bytes(field@.filename));
                }
            },
            None => {
                proof {
                    assert(self.sink@ =~= after_name + filename_bytes(field@.filename));
                }
            },
        }
        let ghost after_filename = self.sink@;
        match &field.content_type {
            Some(content_type) => {
                write_str(&mut self.sink, "\r\n");
                write_str(&mut self.sink, "Content-Type: ");
                write_str(&mut self.sink, content_type.as_str());
                proof {
                    assert(self.sink@ =~= after_filename + content_type_bytes(
                        field@.content_type,
                    ));
                }
            },
            None => {
                proof {
                    assert(self.sink@ =~= after_filename + content_type_bytes(
                        field@.content_type,
                    ));
                }
            },
        }
        proof {
            assert(self.sink@ =~= old(self).sink@ + (encode_utf8("--"@) + encode_utf8(
                old(self).boundary@,
            ) + crlf() + header_line_bytes(field@)));
        }
        write_str(&mut self.sink, "\r\n");
        write_str(&mut self.sink, "\r\n");
        proof {
            assert(self.sink@ =~= old(self).sink@ + header_bytes(old(self).boundary@, field@));
        }
        write_slice(&mut self.sink, field.data.as_slice());
        write_str(&mut self.sink, "\r\n");
        proof {
            assert(self.sink@ =~= old(self).sink@ + part_bytes(old(self).boundary@, field@));
        }
    }

    /// Append a text field to the multipart form body. The payload is the
    /// UTF-8 encoding of `data`.
    pub fn append_text(&mut self, name: &str, data: &str)
        ensures
            final(self).boundary_view() == old(self).boundary_view(),
            final(self).written() == old(self).written() + part_bytes(
                old(self).boundary_view(),
                (FieldView {
                    name: name@,
                    filename: None,
                    content_type: None,
                    data: encode_utf8(data@),
                }),
            ),
    {
        let field = FieldBuilder::new(name).build(data.as_bytes_vec());
        self.append(field);
    }

    /// Append a file field to the multipart form body: a field whose
    /// `filename` parameter repeats the name and which carries the given
    /// media type.
    pub fn append_file(&mut self, name: &str, mime_type: &str, data: Vec<u8>)
        ensures
            final(self).boundary_view() == old(self).boundary_view(),
            final(self).written() == old(self).written() + part_bytes(
                old(self).boundary_view(),
                (FieldView {
                    name: name@,
                    filename: Some(name@),
                    content_type: Some(mime_type@),
                    data: data@,
                }),
            ),
    {
        let field = FieldBuilder::new(name).filename(name).content_type(mime_type).build(data);
        self.append(field);
    }

    /// Finish the multipart form body: write the closing delimiter and
    /// return the sink.
    pub fn end(self) -> (r: Vec<u8>)
        ensures
            r@ == self.written() + closing_bytes(self.boundary_view()),
    {
        let mut this = self;
        write_str(&mut this.sink, "--");
        write_str(&mut this.sink, this.boundary.as_str());
        write_str(&mut this.sink, "--");
        write_str(&mut this.sink, "\r\n");
        proof {
            assert(this.sink@ =~= self.sink@ + closing_bytes(self.boundary@));
        }
        this.sink
    }
}

} // verus!
