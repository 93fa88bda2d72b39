use noir_compare::bytes::{dec_i64, dec_u64};
use noir_compare::form::{actual_fields_of, compare_form, ActualField, FieldBody, FileBody,
    FormField, FormFieldSpec};
use noir_compare::header::{validate_headers, validate_http_request_headers, http_header_into_tuple,
    HeaderExpectation, HttpHeader};
use noir_compare::json::JsonValue;
use noir_compare::jsondiff::diff_json;
use noir_compare::jsontext::{parse_json, render_json};
use noir_compare::model::{DiffTag, Mismatch, MismatchKind, Mode, PathSeg};
use noir_compare::multipart::{compare_form_body, decode_multipart, ParseError};
use noir_compare::report::{raw_text, render_report};
use noir_compare::serial::{multipart_body, url_encoded_body};
use noir_compare::text::word_diff;

fn bv(s: &str) -> Vec<u8> {
    s.as_bytes().to_vec()
}

fn obj(entries: Vec<(&str, JsonValue)>) -> JsonValue {
    JsonValue::Obj(entries.into_iter().map(|(k, v)| (bv(k), v)).collect())
}

fn jstr(s: &str) -> JsonValue {
    JsonValue::Str(bv(s))
}

#[test]
fn test_header_missing_order() {
    let expectation = HeaderExpectation {
        expected: vec![HttpHeader::new("B", "2"), HttpHeader::new("A", "1")],
        absent: vec![],
    };
    let actual: Vec<HttpHeader> = vec![];
    let mismatches = validate_headers(&expectation, &actual);
    assert_eq!(mismatches.len(), 2);
    assert_eq!(mismatches[0].kind, MismatchKind::HeaderMissing);
    assert_eq!(mismatches[0].path, vec![PathSeg::Field(bv("header")), PathSeg::Field(bv("A"))]);
    assert_eq!(mismatches[1].kind, MismatchKind::HeaderMissing);
    assert_eq!(mismatches[1].path, vec![PathSeg::Field(bv("header")), PathSeg::Field(bv("B"))]);
}

#[test]
fn test_header_value_and_absent() {
    let expectation = HeaderExpectation {
        expected: vec![HttpHeader::new("Accept", "text/plain")],
        absent: vec![bv("X-Forbidden")],
    };
    let actual = vec![
        HttpHeader::new("Accept", "application/json"),
        HttpHeader::new("X-Forbidden", "yes"),
    ];
    let mismatches = validate_headers(&expectation, &actual);
    assert_eq!(mismatches.len(), 2);
    assert_eq!(mismatches[0].kind, MismatchKind::HeaderValueMismatch);
    assert_eq!(mismatches[0].expected, bv("text/plain"));
    assert_eq!(mismatches[0].actual, bv("application/json"));
    assert_eq!(mismatches[1].kind, MismatchKind::HeaderUnexpectedPresent);
    assert_eq!(mismatches[1].actual, bv("yes"));
}

#[test]
fn test_header_accumulator_and_tuple() {
    let expectation = HeaderExpectation {
        expected: vec![HttpHeader::new("A", "1")],
        absent: vec![],
    };
    let actual: Vec<HttpHeader> = vec![];
    let mut errors: Vec<Mismatch> = Vec::new();
    validate_http_request_headers(&mut errors, &expectation, &actual);
    assert_eq!(errors.len(), 1);
    let (name, value) = http_header_into_tuple(HttpHeader::new("A", "1"));
    assert_eq!(name, bv("A"));
    assert_eq!(value, bv("1"));
}

#[test]
fn test_json_scalar_path() {
    let expected = obj(vec![("key", jstr("value"))]);
    let actual = obj(vec![("key", jstr("valueTwo"))]);
    let mismatches = diff_json(&expected, &actual, &Vec::new(), Mode::Contains);
    assert_eq!(mismatches.len(), 1);
    assert_eq!(mismatches[0].kind, MismatchKind::ValueMismatch);
    assert_eq!(mismatches[0].path, vec![PathSeg::Field(bv("key"))]);
    assert_eq!(mismatches[0].expected, bv("value"));
    assert_eq!(mismatches[0].actual, bv("valueTwo"));
}

#[test]
fn test_json_exact_extra_keys() {
    let expected = obj(vec![("key", jstr("valueTwo"))]);
    let actual = obj(vec![("key", jstr("value")), ("additional", jstr("key"))]);
    let mismatches = diff_json(&expected, &actual, &Vec::new(), Mode::Exact);
    assert_eq!(mismatches.len(), 2);
    assert_eq!(mismatches[0].kind, MismatchKind::ValueMismatch);
    assert_eq!(mismatches[0].path, vec![PathSeg::Field(bv("key"))]);
    assert_eq!(mismatches[1].kind, MismatchKind::ExtraKeys);
    assert_eq!(mismatches[1].path, Vec::<PathSeg>::new());
    assert_eq!(mismatches[1].names, vec![bv("additional")]);
    assert_eq!(mismatches[1].names.len(), 1);
}

#[test]
fn test_raw_body_byte_mismatch() {
    let expected = vec![FormField {
        name: bv("vec_file"),
        expectation: FormFieldSpec::File {
            filename: bv("file.bin"),
            content_type: bv("application/octet-stream"),
            body: FileBody::Raw(vec![1, 2, 3]),
        },
    }];
    let actual = vec![ActualField {
        name: bv("vec_file"),
        filename: Some(bv("file.bin")),
        content_type: Some(bv("application/octet-stream")),
        body: FieldBody::Bytes(vec![1, 2, 3, 4, 5, 6, 7, 8]),
    }];
    let mismatches = compare_form(&expected, &actual, Mode::Contains);
    assert_eq!(mismatches.len(), 1);
    assert_eq!(mismatches[0].kind, MismatchKind::FileRawMismatch);
    assert_eq!(mismatches[0].expected.len(), 3);
    assert_eq!(mismatches[0].actual.len(), 8);
    assert_eq!(mismatches[0].expected, vec![1, 2, 3]);
    assert_eq!(mismatches[0].actual, vec![1, 2, 3, 4, 5, 6, 7, 8]);
}

#[test]
fn test_parse_failure_precedence() {
    let expected = vec![FormField { name: bv("field"), expectation: FormFieldSpec::Value(bv("value")) }];
    let body = [
        bv("\r\n--boundary\r\nContent-Type: application/octet-stream\r\n\r\npayload"),
        bv("\r\n--boundary--\r\n"),
    ]
    .concat();
    let result = compare_form_body(&expected, &body, &bv("boundary"), Mode::Contains);
    assert_eq!(result.unwrap_err(), ParseError::MissingDispositionHeader);
}

#[test]
fn test_self_comparison_empty() {
    let form = vec![
        FormField { name: bv("field"), expectation: FormFieldSpec::Value(bv("someValue")) },
        FormField {
            name: bv("str_file"),
            expectation: FormFieldSpec::File {
                filename: bv("readme.md"),
                content_type: bv("text/plain"),
                body: FileBody::Text(bv("Hello World")),
            },
        },
        FormField {
            name: bv("json_file"),
            expectation: FormFieldSpec::File {
                filename: bv("data.json"),
                content_type: bv("application/json"),
                body: FileBody::Json(obj(vec![
                    ("key", jstr("value")),
                    ("list", JsonValue::Arr(vec![JsonValue::Int(1), JsonValue::Null])),
                ])),
            },
        },
    ];
    let fields = actual_fields_of(&form);
    assert!(compare_form(&form, &fields, Mode::Contains).is_empty());
    assert!(compare_form(&form, &fields, Mode::Exact).is_empty());

    let value = obj(vec![("key", jstr("value")), ("n", JsonValue::Int(-7))]);
    let copy = obj(vec![("key", jstr("value")), ("n", JsonValue::Int(-7))]);
    assert!(diff_json(&value, &copy, &Vec::new(), Mode::Contains).is_empty());
    assert!(diff_json(&value, &copy, &Vec::new(), Mode::Exact).is_empty());

    let expectation = HeaderExpectation {
        expected: vec![HttpHeader::new("A", "1"), HttpHeader::new("B", "2")],
        absent: vec![bv("C")],
    };
    let actual = vec![HttpHeader::new("A", "1"), HttpHeader::new("B", "2")];
    assert!(validate_headers(&expectation, &actual).is_empty());
}

#[test]
fn test_comparison_deterministic() {
    let expected = obj(vec![("key", jstr("value")), ("other", JsonValue::Bool(true))]);
    let actual = obj(vec![("other", JsonValue::Bool(false))]);
    let first = diff_json(&expected, &actual, &Vec::new(), Mode::Exact);
    let second = diff_json(&expected, &actual, &Vec::new(), Mode::Exact);
    assert_eq!(first, second);

    let expectation = HeaderExpectation {
        expected: vec![HttpHeader::new("B", "2"), HttpHeader::new("A", "1")],
        absent: vec![bv("C")],
    };
    let headers = vec![HttpHeader::new("C", "3")];
    assert_eq!(
        validate_headers(&expectation, &headers),
        validate_headers(&expectation, &headers)
    );
}

#[test]
fn test_mode_monotone_scenario() {
    let expected = obj(vec![("key", jstr("value")), ("gone", JsonValue::Int(1))]);
    let actual = obj(vec![("key", jstr("other")), ("extra", JsonValue::Int(2))]);
    let contains = diff_json(&expected, &actual, &Vec::new(), Mode::Contains);
    let exact = diff_json(&expected, &actual, &Vec::new(), Mode::Exact);
    for m in &contains {
        assert!(exact.contains(m));
    }
    assert!(exact.len() > contains.len());
}

#[test]
fn test_json_round_trip() {
    let value = obj(vec![
        ("s", jstr("text with spaces")),
        ("n", JsonValue::Int(-45)),
        ("t", JsonValue::Bool(true)),
        ("z", JsonValue::Null),
        ("a", JsonValue::Arr(vec![JsonValue::Int(0), jstr("x")])),
        ("o", obj(vec![("inner", jstr("v"))])),
    ]);
    let text = render_json(&value);
    assert_eq!(parse_json(&text), Some(value));

    let parsed = parse_json(&bv("{\"key\":\"value\"}")).unwrap();
    assert_eq!(parsed, obj(vec![("key", jstr("value"))]));
    assert_eq!(render_json(&parsed), bv("{\"key\":\"value\"}"));

    assert_eq!(parse_json(&bv("{\"a\":1.5}")), None);
    assert_eq!(parse_json(&bv("{\"a\":1,\"a\":2}")), None);
    assert_eq!(parse_json(&bv("nope")), None);
    assert_eq!(parse_json(&bv("[1, 2, 3]")), Some(JsonValue::Arr(vec![
        JsonValue::Int(1),
        JsonValue::Int(2),
        JsonValue::Int(3),
    ])));
}

#[test]
fn test_decimal_and_hex_rendering() {
    assert_eq!(dec_u64(0), bv("0"));
    assert_eq!(dec_u64(907), bv("907"));
    assert_eq!(dec_i64(-45), bv("-45"));
    assert_eq!(dec_i64(i64::MIN), bv("-9223372036854775808"));
    assert_eq!(raw_text(&vec![1, 2, 3]), bv("3 bytes [0x01, 0x02, 0x03]"));
    assert_eq!(raw_text(&vec![0xab, 0x00]), bv("2 bytes [0xab, 0x00]"));
}

#[test]
fn test_url_encoding_reserved_bytes() {
    let form = vec![FormField { name: bv("a b"), expectation: FormFieldSpec::Value(bv("c/d")) }];
    assert_eq!(url_encoded_body(&form), bv("a%20b=c%2Fd"));
}

#[test]
fn test_error_messages() {
    assert_eq!(
        ParseError::InvalidFilenameEncoding.message(),
        "Invalid filename encoding of multi part field."
    );
    let garbage = bv("no delimiter here at all");
    assert_eq!(decode_multipart(&garbage, &bv("boundary")).unwrap_err(), ParseError::InvalidFraming);
    assert_eq!(
        ParseError::InvalidFraming.message(),
        "Invalid multi part body framing."
    );

    let expected = vec![FormField {
        name: bv("json_file"),
        expectation: FormFieldSpec::File {
            filename: bv("data.json"),
            content_type: bv("application/json"),
            body: FileBody::Json(obj(vec![("key", jstr("value"))])),
        },
    }];
    let body = bv(
        "\r\n--boundary\r\nContent-Disposition: form-data; name=\"json_file\"; filename=\"data.json\"\r\nContent-Type: application/json\r\n\r\nnot json\r\n--boundary--\r\n",
    );
    let result = compare_form_body(&expected, &body, &bv("boundary"), Mode::Contains);
    assert_eq!(result.unwrap_err(), ParseError::InvalidJson);
    assert_eq!(ParseError::InvalidJson.message(), "Body JSON could not be parsed.");
}

#[test]
fn test_json_type_and_array_mismatches() {
    let mismatches = diff_json(&jstr("x"), &JsonValue::Int(3), &Vec::new(), Mode::Contains);
    assert_eq!(mismatches.len(), 1);
    assert_eq!(mismatches[0].kind, MismatchKind::TypeMismatch);
    assert_eq!(mismatches[0].expected, bv("String"));
    assert_eq!(mismatches[0].actual, bv("Number"));

    let short = JsonValue::Arr(vec![JsonValue::Int(1), JsonValue::Int(2), JsonValue::Int(3)]);
    let long = JsonValue::Arr(vec![
        JsonValue::Int(1),
        JsonValue::Int(2),
        JsonValue::Int(3),
        JsonValue::Int(4),
        JsonValue::Int(5),
    ]);
    let contains = diff_json(&short, &long, &Vec::new(), Mode::Contains);
    assert_eq!(contains.len(), 2);
    assert_eq!(contains[0].kind, MismatchKind::ArrayElementExtra);
    assert_eq!(contains[0].path, vec![PathSeg::Index(3)]);
    assert_eq!(contains[1].path, vec![PathSeg::Index(4)]);
    let exact = diff_json(&short, &long, &Vec::new(), Mode::Exact);
    assert_eq!(exact.len(), 3);
    assert_eq!(exact[2].kind, MismatchKind::ArrayLengthMismatch);
    assert_eq!(exact[2].expected, bv("3"));
    assert_eq!(exact[2].actual, bv("5"));
}

#[test]
fn test_word_diff_alignment() {
    let diff = word_diff(&bv("World"), &bv("Hello World"));
    let words: Vec<(Vec<u8>, DiffTag)> = diff.iter().map(|w| (w.word.clone(), w.tag)).collect();
    assert_eq!(words, vec![(bv("Hello"), DiffTag::Added), (bv("World"), DiffTag::Same)]);

    let diff = word_diff(&bv("value"), &bv("valueTwo"));
    let words: Vec<(Vec<u8>, DiffTag)> = diff.iter().map(|w| (w.word.clone(), w.tag)).collect();
    assert_eq!(words, vec![(bv("value"), DiffTag::Removed), (bv("valueTwo"), DiffTag::Added)]);
}

#[test]
fn test_report_numbering_and_phases() {
    let expectation = HeaderExpectation {
        expected: vec![HttpHeader::new("A", "1")],
        absent: vec![],
    };
    let mut mismatches = validate_headers(&expectation, &Vec::new());
    let expected_form = vec![FormField {
        name: bv("field"),
        expectation: FormFieldSpec::Value(bv("x")),
    }];
    let mut form_mismatches = compare_form(&expected_form, &Vec::new(), Mode::Contains);
    mismatches.append(&mut form_mismatches);
    let report = render_report(&mismatches);
    assert_eq!(report.lines.len(), 2);
    assert_eq!(report.lines[0].number, vec![1, 1]);
    assert_eq!(report.lines[1].number, vec![2, 1]);
    assert_eq!(report.lines[0].segments[0].text, bv("header.A"));
    assert_eq!(report.lines[1].segments[0].text, bv("form.field"));
}

#[test]
fn test_form_missing_and_unexpected_fields() {
    let expected = vec![FormField { name: bv("field"), expectation: FormFieldSpec::Value(bv("v")) }];
    let actual = vec![ActualField {
        name: bv("other"),
        filename: None,
        content_type: None,
        body: FieldBody::Bytes(bv("w")),
    }];
    let contains = compare_form(&expected, &actual, Mode::Contains);
    assert_eq!(contains.len(), 1);
    assert_eq!(contains[0].kind, MismatchKind::FormFieldMissing);
    let exact = compare_form(&expected, &actual, Mode::Exact);
    assert_eq!(exact.len(), 2);
    assert_eq!(exact[0].kind, MismatchKind::FormFieldMissing);
    assert_eq!(exact[1].kind, MismatchKind::FormFieldUnexpected);
    assert_eq!(exact[1].path, vec![PathSeg::Field(bv("form")), PathSeg::Field(bv("other"))]);
}

#[test]
fn test_multipart_serializer_matches_decoder() {
    let form = vec![
        FormField { name: bv("a"), expectation: FormFieldSpec::Value(bv("1")) },
        FormField { name: bv("b"), expectation: FormFieldSpec::Value(bv("2")) },
    ];
    let body = multipart_body(&form, &bv("xyz"));
    let fields = decode_multipart(&body, &bv("xyz")).unwrap();
    assert_eq!(fields.len(), 2);
    assert_eq!(fields[0].name, bv("a"));
    assert_eq!(fields[1].name, bv("b"));
    assert!(compare_form(&form, &fields, Mode::Exact).is_empty());
}
