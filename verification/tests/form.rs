use form_data::{Field, FieldBuilder, FormData};

#[test]
fn random_boundary() {
    let buffer = Vec::new();
    let form_data = FormData::new(buffer);

    let boundary = form_data.boundary().as_bytes();
    let (dashes, hex) = boundary.split_at(26);

    for dash in dashes {
        assert_eq!(*dash, b'-');
    }
    for c in hex {
        assert!(matches!(c, b'0'..=b'9' | b'a'..=b'f'))
    }
}

#[test]
fn empty_form() {
    let form = FormData::with_boundary(Vec::new(), String::from("XBOUND"));
    let body = form.end();
    assert_eq!(body, b"--XBOUND--\r\n");
}

#[test]
fn single_text_field() {
    let mut form = FormData::with_boundary(Vec::new(), String::from("XBOUND"));
    form.append_text("greeting", "hello");
    let body = form.end();
    assert_eq!(
        body,
        b"--XBOUND\r\nContent-Disposition: form-data; name=\"greeting\"\r\n\r\nhello\r\n--XBOUND--\r\n"
    );
}

#[test]
fn file_field() {
    let mut form = FormData::with_boundary(Vec::new(), String::from("XBOUND"));
    form.append_file("photo", "image/png", vec![0x89, b'P', b'N']);
    let body = form.end();
    assert_eq!(
        body,
        b"--XBOUND\r\nContent-Disposition: form-data; name=\"photo\"; filename=\"photo\"\r\nContent-Type: image/png\r\n\r\n\x89PN\r\n--XBOUND--\r\n"
    );
}

#[test]
fn escaping_in_name() {
    let mut form = FormData::with_boundary(Vec::new(), String::from("XBOUND"));
    form.append_text("a\"b\\c", "x");
    let body = form.end();
    assert_eq!(
        body,
        b"--XBOUND\r\nContent-Disposition: form-data; name=\"a\\\"b\\\\c\"\r\n\r\nx\r\n--XBOUND--\r\n"
    );
    // The name= parameter's value is the seven bytes a \ " b \ \ c.
    let needle: &[u8] = b"name=\"a\\\"b\\\\c\"";
    assert!(body.windows(needle.len()).any(|w| w == needle));
}

#[test]
fn two_parts_preserve_order() {
    let mut form = FormData::with_boundary(Vec::new(), String::from("XBOUND"));
    form.append_text("a", "1");
    form.append_text("b", "2");
    let body = form.end();
    assert_eq!(
        body,
        b"--XBOUND\r\nContent-Disposition: form-data; name=\"a\"\r\n\r\n1\r\n--XBOUND\r\nContent-Disposition: form-data; name=\"b\"\r\n\r\n2\r\n--XBOUND--\r\n"
    );
    let pos = |needle: &[u8]| {
        body.windows(needle.len())
            .position(|w| w == needle)
            .expect("needle not found")
    };
    let a = pos(b"name=\"a\"");
    let b = pos(b"name=\"b\"");
    let close = pos(b"--XBOUND--\r\n");
    assert!(a < b && b < close);
}

#[test]
fn cr_escaping_in_name() {
    let mut form = FormData::with_boundary(Vec::new(), String::from("XBOUND"));
    form.append_text("k\ry", "v");
    let body = form.end();
    assert_eq!(
        body,
        b"--XBOUND\r\nContent-Disposition: form-data; name=\"k\\\ry\"\r\n\r\nv\r\n--XBOUND--\r\n"
    );
    // Every CR in the emitted name parameter is preceded by a backslash: the
    // only CR not part of a CRLF pair is the escaped one.
    for (i, w) in body.windows(2).enumerate() {
        if w[1] == b'\r' && body[i + 2..].first() != Some(&b'\n') {
            assert_eq!(w[0], b'\\');
        }
    }
}

#[test]
fn escape_leaves_plain_names_alone() {
    // A name free of the three escaped bytes passes through unchanged, even
    // with other punctuation and LF, which is deliberately not escaped.
    let mut form = FormData::with_boundary(Vec::new(), String::from("XBOUND"));
    form.append_text("a_b-c.d'e", "x");
    let body = form.end();
    let needle: &[u8] = b"name=\"a_b-c.d'e\"";
    assert!(body.windows(needle.len()).any(|w| w == needle));
}

#[test]
fn content_type_shape() {
    let form = FormData::with_boundary(Vec::new(), String::from("XBOUND"));
    let expected = format!("multipart/form-data; boundary={}", form.boundary());
    assert_eq!(form.content_type(), expected);
    assert_eq!(form.content_type(), "multipart/form-data; boundary=XBOUND");
}

#[test]
fn boundary_is_stable() {
    let mut form = FormData::with_boundary(Vec::new(), String::from("XBOUND"));
    let before = String::from(form.boundary());
    form.append_text("a", "1");
    let middle = String::from(form.boundary());
    form.append_text("b", "2");
    let after = String::from(form.boundary());
    assert_eq!(before, "XBOUND");
    assert_eq!(middle, "XBOUND");
    assert_eq!(after, "XBOUND");
}

#[test]
fn delimiter_count() {
    let mut form = FormData::with_boundary(Vec::new(), String::from("XBOUND"));
    form.append_text("a", "1");
    form.append_text("b", "2");
    form.append_text("c", "3");
    let body = form.end();
    let opening: &[u8] = b"--XBOUND\r\n";
    let closing: &[u8] = b"--XBOUND--\r\n";
    let count = |needle: &[u8]| body.windows(needle.len()).filter(|w| *w == needle).count();
    assert_eq!(count(opening), 3);
    assert_eq!(count(closing), 1);
}

#[test]
fn payload_transparency() {
    // A payload free of "--" followed by the boundary comes back verbatim
    // between the header terminator and the next delimiter.
    let payload = b"line one\r\nline two\x00\xff binary".to_vec();
    let mut form = FormData::with_boundary(Vec::new(), String::from("XBOUND"));
    form.append_file("blob", "application/octet-stream", payload.clone());
    let body = form.end();
    let header_end = body
        .windows(4)
        .position(|w| w == b"\r\n\r\n")
        .expect("header terminator not found")
        + 4;
    let trailer = b"\r\n--XBOUND";
    let payload_end = (header_end..body.len())
        .find(|&i| body[i..].starts_with(trailer))
        .expect("trailing delimiter not found");
    assert_eq!(&body[header_end..payload_end], &payload[..]);
}

#[test]
fn builder_sets_every_field() {
    let field = FieldBuilder::new("doc")
        .filename("report.txt")
        .content_type("text/plain")
        .build(b"contents".to_vec());
    let mut form = FormData::with_boundary(Vec::new(), String::from("XBOUND"));
    form.append(field);
    let body = form.end();
    assert_eq!(
        body,
        b"--XBOUND\r\nContent-Disposition: form-data; name=\"doc\"; filename=\"report.txt\"\r\nContent-Type: text/plain\r\n\r\ncontents\r\n--XBOUND--\r\n"
    );
}

#[test]
fn field_constructed_directly() {
    let field = Field {
        name: String::from("raw"),
        filename: None,
        content_type: Some(String::from("text/csv")),
        data: b"1,2".to_vec(),
    };
    let mut form = FormData::with_boundary(Vec::new(), String::from("XBOUND"));
    form.append(field);
    let body = form.end();
    assert_eq!(
        body,
        b"--XBOUND\r\nContent-Disposition: form-data; name=\"raw\"\r\nContent-Type: text/csv\r\n\r\n1,2\r\n--XBOUND--\r\n"
    );
}

#[test]
fn generated_boundary_shape() {
    let boundary = form_data::generate_boundary();
    let bytes = boundary.as_bytes();
    assert!(bytes.len() >= 27 && bytes.len() <= 50);
    for b in &bytes[..26] {
        assert_eq!(*b, b'-');
    }
    for b in &bytes[26..] {
        assert!(matches!(b, b'0'..=b'9' | b'a'..=b'f'));
    }
}

#[test]
fn generated_boundaries_differ() {
    // The generator draws fresh random bytes each time; two boundaries from
    // one process agreeing on all 96 bits would mean the randomness was not
    // used at all.
    let first = form_data::generate_boundary();
    let second = form_data::generate_boundary();
    assert_ne!(first, second);
}

#[test]
fn writer_appends_to_existing_sink() {
    let sink = b"PREFIX".to_vec();
    let form = FormData::with_boundary(sink, String::from("XBOUND"));
    let body = form.end();
    assert_eq!(body, b"PREFIX--XBOUND--\r\n");
}

#[test]
fn empty_payload_and_empty_strings() {
    let mut form = FormData::with_boundary(Vec::new(), String::from("XBOUND"));
    form.append_text("empty", "");
    let body = form.end();
    assert_eq!(
        body,
        b"--XBOUND\r\nContent-Disposition: form-data; name=\"empty\"\r\n\r\n\r\n--XBOUND--\r\n"
    );
}
