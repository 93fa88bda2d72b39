use noir_compare::form::{ActualField, FieldBody, FileBody, FormField, FormFieldSpec};
use noir_compare::model::{Mode, PathSeg};
use noir_compare::model::MismatchKind;
use noir_compare::multipart::{decode_multipart, ParseError};
use noir_compare::json::JsonValue;
use noir_compare::multipart::compare_form_body;
use noir_compare::report::render_report;
use noir_compare::serial::{multipart_body, url_encoded_body};

fn bytes(s: &str) -> Vec<u8> {
    s.as_bytes().to_vec()
}

fn value_field(name: &str, value: &str) -> FormField {
    FormField { name: bytes(name), expectation: FormFieldSpec::Value(bytes(value)) }
}

fn file_field(name: &str, filename: &str, content_type: &str, body: FileBody) -> FormField {
    FormField {
        name: bytes(name),
        expectation: FormFieldSpec::File {
            filename: bytes(filename),
            content_type: bytes(content_type),
            body,
        },
    }
}

fn json_obj(entries: Vec<(&str, &str)>) -> JsonValue {
    JsonValue::Obj(
        entries.into_iter().map(|(k, v)| (bytes(k), JsonValue::Str(bytes(v)))).collect(),
    )
}

#[test]
fn test_with_form_body_url_encoded() {
    let form = vec![
        value_field("field", "someValue"),
        value_field("array[]", "1"),
        value_field("array[]", "2"),
        value_field("array[]", "3"),
        value_field("array[]", "4"),
        value_field("array[]", "5"),
    ];
    let body = url_encoded_body(&form);
    assert_eq!(
        body,
        bytes("field=someValue&array%5B%5D=1&array%5B%5D=2&array%5B%5D=3&array%5B%5D=4&array%5B%5D=5")
    );
}

#[test]
fn test_with_form_body_url_encoded_trailing_comma() {
    let form = vec![
        value_field("field", "someValue"),
        value_field("array[]", "1"),
        value_field("array[]", "2"),
        value_field("array[]", "3"),
        value_field("array[]", "4"),
        value_field("array[]", "5"),
    ];
    let body = url_encoded_body(&form);
    assert_eq!(
        body,
        bytes("field=someValue&array%5B%5D=1&array%5B%5D=2&array%5B%5D=3&array%5B%5D=4&array%5B%5D=5")
    );
}

#[test]
fn test_with_form_body_multipart_vec_file() {
    let form = vec![file_field(
        "vec_file",
        "file.bin",
        "application/octet-stream",
        FileBody::Raw(vec![1, 2, 3, 4, 5, 6, 7, 8]),
    )];
    let body = multipart_body(&form, &bytes("<boundary>"));
    let expected = [
        bytes("\r\n--<boundary>\r\nContent-Disposition: form-data; name=\"vec_file\"; filename=\"file.bin\"\r\nContent-Type: application/octet-stream\r\n\r\n"),
        vec![1, 2, 3, 4, 5, 6, 7, 8],
        bytes("\r\n--<boundary>--\r\n"),
    ]
    .concat();
    assert_eq!(body, expected);
    let mismatches = compare_form_body(&form, &body, &bytes("<boundary>"), Mode::Exact).unwrap();
    assert!(mismatches.is_empty());
}

#[test]
fn test_with_form_body_multipart_str_file() {
    let form = vec![file_field(
        "str_file",
        "readme.md",
        "text/plain",
        FileBody::Text(bytes("Hello World")),
    )];
    let body = multipart_body(&form, &bytes("<boundary>"));
    let expected = bytes(
        "\r\n--<boundary>\r\nContent-Disposition: form-data; name=\"str_file\"; filename=\"readme.md\"\r\nContent-Type: text/plain\r\n\r\nHello World\r\n--<boundary>--\r\n",
    );
    assert_eq!(body, expected);
    let mismatches = compare_form_body(&form, &body, &bytes("<boundary>"), Mode::Exact).unwrap();
    assert!(mismatches.is_empty());
}

#[test]
fn test_with_form_body_multipart_string_file() {
    let form = vec![file_field(
        "string_file",
        "readme.md",
        "text/plain",
        FileBody::Text(bytes(&String::from("Hello World"))),
    )];
    let body = multipart_body(&form, &bytes("<boundary>"));
    let expected = bytes(
        "\r\n--<boundary>\r\nContent-Disposition: form-data; name=\"string_file\"; filename=\"readme.md\"\r\nContent-Type: text/plain\r\n\r\nHello World\r\n--<boundary>--\r\n",
    );
    assert_eq!(body, expected);
    let mismatches = compare_form_body(&form, &body, &bytes("<boundary>"), Mode::Exact).unwrap();
    assert!(mismatches.is_empty());
}

#[test]
fn test_with_form_body_multipart_json_file() {
    let form = vec![file_field(
        "json_file",
        "data.json",
        "application/json",
        FileBody::Json(json_obj(vec![("key", "value")])),
    )];
    let body = multipart_body(&form, &bytes("<boundary>"));
    let expected = bytes(
        "\r\n--<boundary>\r\nContent-Disposition: form-data; name=\"json_file\"; filename=\"data.json\"\r\nContent-Type: application/json\r\n\r\n{\"key\":\"value\"}\r\n--<boundary>--\r\n",
    );
    assert_eq!(body, expected);
    let mismatches = compare_form_body(&form, &body, &bytes("<boundary>"), Mode::Exact).unwrap();
    assert!(mismatches.is_empty());
}

#[test]
fn test_with_form_body_error_missing_disposition_header() {
    let body = [
        bytes("\r\n--boundary\r\nContent-Type: application/octet-stream\r\n\r\n"),
        vec![1, 2, 3, 4, 5, 6, 7, 8],
        bytes("\r\n--boundary--\r\n"),
    ]
    .concat();
    let err = decode_multipart(&body, &bytes("boundary")).unwrap_err();
    assert_eq!(err, ParseError::MissingDispositionHeader);
    assert_eq!(
        err.message(),
        "Content-Disposition header is missing from multi part field."
    );
}

#[test]
fn test_with_form_body_error_broken_headers() {
    let body = [
        bytes("\r\n--boundary\r\nContent-Type\n application/octet-stream\r\n\r\n"),
        vec![1, 2, 3, 4, 5, 6, 7, 8],
        bytes("\r\n--boundary--\r\n"),
    ]
    .concat();
    let err = decode_multipart(&body, &bytes("boundary")).unwrap_err();
    assert_eq!(err, ParseError::InvalidHeaderNameByte);
    assert_eq!(err.message(), "Invalid byte in header name of multi part field.");
}

#[test]
fn test_with_form_body_error_filename_invalid_utf8() {
    let body = [
        bytes("\r\n--boundary\r\nContent-Disposition: form-data; name=\"fs_file\"; filename=\"form_"),
        vec![0, 1],
        bytes("test.md\"\r\nContent-Type: application/octet-stream\r\n\r\n"),
        vec![1, 2, 3, 4, 5, 6, 7, 8],
        bytes("\r\n--boundary--\r\n"),
    ]
    .concat();
    let err = decode_multipart(&body, &bytes("boundary")).unwrap_err();
    assert_eq!(err, ParseError::InvalidHeaderValueByte);
    assert_eq!(err.message(), "Invalid byte in header value of multi part field.");
}

#[test]
fn test_with_form_body_error_too_many_headers() {
    let body = [
        bytes("\r\n--boundary\r\nContent-Disposition: form-data; name=\"fs_file\"; filename=\"form_test.md\"\r\nContent-Type: application/octet-stream\r\nX-Superfluous-Header: Foo\r\n\r\n"),
        vec![1, 2, 3, 4, 5, 6, 7, 8],
        bytes("\r\n--boundary--\r\n"),
    ]
    .concat();
    let err = decode_multipart(&body, &bytes("boundary")).unwrap_err();
    assert_eq!(err, ParseError::UnexpectedFieldHeader);
    assert_eq!(err.message(), "Unexpected headers in multi part field.");
}

#[test]
fn test_with_form_body_multipart_file_raw_mismatch() {
    let expected_form = vec![file_field(
        "vec_file",
        "file.bin",
        "application/octet-stream",
        FileBody::Raw(vec![1, 2, 3]),
    )];
    let actual_form = vec![file_field(
        "vec_file",
        "file.bin",
        "application/octet-stream",
        FileBody::Raw(vec![1, 2, 3, 4, 5, 6, 7, 8]),
    )];
    let body = multipart_body(&actual_form, &bytes("boundary"));
    let mismatches =
        compare_form_body(&expected_form, &body, &bytes("boundary"), Mode::Contains).unwrap();
    assert_eq!(mismatches.len(), 1);
    assert_eq!(mismatches[0].kind, MismatchKind::FileRawMismatch);
    assert_eq!(
        mismatches[0].path,
        vec![PathSeg::Field(bytes("form")), PathSeg::Field(bytes("vec_file"))]
    );
    assert_eq!(mismatches[0].expected, vec![1, 2, 3]);
    assert_eq!(mismatches[0].expected.len(), 3);
    assert_eq!(mismatches[0].actual, vec![1, 2, 3, 4, 5, 6, 7, 8]);
    assert_eq!(mismatches[0].actual.len(), 8);
    let report = render_report(&mismatches);
    assert_eq!(report.lines.len(), 1);
    assert_eq!(report.lines[0].segments[2].text, bytes("3 bytes [0x01, 0x02, 0x03]"));
    assert_eq!(
        report.lines[0].segments[3].text,
        bytes("8 bytes [0x01, 0x02, 0x03, 0x04, 0x05, 0x06, 0x07, 0x08]")
    );
}

#[test]
fn test_with_form_body_multipart_file_text_mismatch() {
    let expected_form = vec![file_field(
        "str_file",
        "readme.md",
        "text/plain",
        FileBody::Text(bytes("World")),
    )];
    let actual_form = vec![file_field(
        "str_file",
        "readme.md",
        "text/plain",
        FileBody::Text(bytes("Hello World")),
    )];
    let body = multipart_body(&actual_form, &bytes("boundary"));
    let mismatches =
        compare_form_body(&expected_form, &body, &bytes("boundary"), Mode::Contains).unwrap();
    assert_eq!(mismatches.len(), 1);
    assert_eq!(mismatches[0].kind, MismatchKind::FileTextMismatch);
    assert_eq!(mismatches[0].expected, bytes("World"));
    assert_eq!(mismatches[0].actual, bytes("Hello World"));
    let words: Vec<(Vec<u8>, noir_compare::model::DiffTag)> =
        mismatches[0].diff.iter().map(|w| (w.word.clone(), w.tag)).collect();
    assert_eq!(
        words,
        vec![
            (bytes("Hello"), noir_compare::model::DiffTag::Added),
            (bytes("World"), noir_compare::model::DiffTag::Same),
        ]
    );
}

#[test]
fn test_with_form_body_multipart_file_json_mismatch() {
    let expected_form = vec![file_field(
        "json_file",
        "data.json",
        "application/json",
        FileBody::Json(json_obj(vec![("key", "valueTwo")])),
    )];
    let actual_form = vec![file_field(
        "json_file",
        "data.json",
        "application/json",
        FileBody::Json(json_obj(vec![("key", "value"), ("additional", "key")])),
    )];
    let body = multipart_body(&actual_form, &bytes("boundary"));
    let mismatches =
        compare_form_body(&expected_form, &body, &bytes("boundary"), Mode::Contains).unwrap();
    assert_eq!(mismatches.len(), 1);
    assert_eq!(mismatches[0].kind, MismatchKind::ValueMismatch);
    assert_eq!(
        mismatches[0].path,
        vec![
            PathSeg::Field(bytes("form")),
            PathSeg::Field(bytes("json_file")),
            PathSeg::Field(bytes("json")),
            PathSeg::Field(bytes("key")),
        ]
    );
    assert_eq!(mismatches[0].expected, bytes("valueTwo"));
    assert_eq!(mismatches[0].actual, bytes("value"));
}

#[test]
fn test_with_form_body_multipart_file_json_mismatch_exact() {
    let expected_form = vec![file_field(
        "json_file",
        "data.json",
        "application/json",
        FileBody::Json(json_obj(vec![("key", "valueTwo")])),
    )];
    let actual_form = vec![file_field(
        "json_file",
        "data.json",
        "application/json",
        FileBody::Json(json_obj(vec![("key", "value"), ("additional", "key")])),
    )];
    let body = multipart_body(&actual_form, &bytes("boundary"));
    let mismatches =
        compare_form_body(&expected_form, &body, &bytes("boundary"), Mode::Exact).unwrap();
    assert_eq!(mismatches.len(), 2);
    assert_eq!(mismatches[0].kind, MismatchKind::ValueMismatch);
    assert_eq!(mismatches[0].expected, bytes("valueTwo"));
    assert_eq!(mismatches[0].actual, bytes("value"));
    assert_eq!(mismatches[1].kind, MismatchKind::ExtraKeys);
    assert_eq!(mismatches[1].names.len(), 1);
    assert_eq!(mismatches[1].names[0], bytes("additional"));
}

#[test]
fn test_multipart_round_trip_with_actual_fields() {
    let form = vec![
        value_field("field", "someValue"),
        file_field("str_file", "readme.md", "text/plain", FileBody::Text(bytes("Hello World"))),
    ];
    let body = multipart_body(&form, &bytes("boundary"));
    let fields = decode_multipart(&body, &bytes("boundary")).unwrap();
    assert_eq!(fields.len(), 2);
    assert_eq!(
        fields[0],
        ActualField {
            name: bytes("field"),
            filename: None,
            content_type: None,
            body: FieldBody::Bytes(bytes("someValue")),
        }
    );
    assert_eq!(
        fields[1],
        ActualField {
            name: bytes("str_file"),
            filename: Some(bytes("readme.md")),
            content_type: Some(bytes("text/plain")),
            body: FieldBody::Bytes(bytes("Hello World")),
        }
    );
}
