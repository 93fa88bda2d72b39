//! Form body serialization: the url-encoded wire form of a plain-value form,
//! and the multipart wire form of a form with file fields, under a given
//! boundary token. Both are pinned to spec-level functions byte for byte.

use vstd::prelude::*;

use crate::bytes::{clone_bytes, str_vec, StringSliceAdditionalSpecFns};
use crate::form::{spec_expect_text, FileBody, FileBodyV, FormField, FormFieldSpec, FormFieldSpecV,
    FormFieldV};
use crate::jsontext::{render_json, spec_render_json};

verus! {

broadcast use vstd::seq::group_seq_axioms, crate::bytes::lemma_deep_view_bytes;

/// A byte that url-encoding keeps as it stands: letters, digits, `-`, `_`,
/// `.` and `~`.
pub open spec fn is_unreserved(b: u8) -> bool {
    (0x41 <= b && b <= 0x5a) || (0x61 <= b && b <= 0x7a) || (0x30 <= b && b <= 0x39) || b == 0x2d
        || b == 0x5f || b == 0x2e || b == 0x7e
}

/// One upper-case hexadecimal digit.
pub open spec fn spec_hex_upper(n: u8) -> u8 {
    if n < 10 {
        (0x30 + n) as u8
    } else {
        (0x37 + n) as u8
    }
}

/// The url-encoded form of one byte: itself, or `%XX` with upper-case hex.
pub open spec fn spec_pct_byte(b: u8) -> Seq<u8> {
    if is_unreserved(b) {
        seq![b]
    } else {
        seq![0x25u8, spec_hex_upper(b / 16), spec_hex_upper(b % 16)]
    }
}

pub open spec fn spec_pct(s: Seq<u8>, i: int) -> Seq<u8>
    decreases s.len() - i,
{
    if i < 0 || i >= s.len() {
        Seq::empty()
    } else {
        spec_pct_byte(s[i]) + spec_pct(s, i + 1)
    }
}

/// The url-encoded body of a form: `name=value` pairs joined by `&`, each
/// side percent-encoded; a file field contributes its filename as the value.
pub open spec fn spec_url_encoded(fields: Seq<FormFieldV>, i: int) -> Seq<u8>
    decreases fields.len() - i,
{
    if i < 0 || i >= fields.len() {
        Seq::empty()
    } else {
        (if i > 0 {
            seq![0x26u8]
        } else {
            Seq::empty()
        }) + spec_pct(fields[i].name, 0) + seq![0x3du8] + spec_pct(
            spec_expect_text(fields[i].expectation),
            0,
        ) + spec_url_encoded(fields, i + 1)
    }
}

fn pct_into(out: &mut Vec<u8>, s: &Vec<u8>)
    ensures
        final(out)@ == old(out)@ + spec_pct(s@, 0),
{
    let mut i: usize = 0;
    while i < s.len()
        invariant
            i <= s.len(),
            out@ + spec_pct(s@, i as int) == old(out)@ + spec_pct(s@, 0),
        decreases s.len() - i,
    {
        let b = s[i];
        let unreserved = (0x41 <= b && b <= 0x5a) || (0x61 <= b && b <= 0x7a) || (0x30 <= b && b
            <= 0x39) || b == 0x2d || b == 0x5f || b == 0x2e || b == 0x7e;
        if unreserved {
            out.push(b);
        } else {
            out.push(0x25);
            let hi = b / 16;
            let lo = b % 16;
            out.push(if hi < 10 { 0x30 + hi } else { 0x37 + hi });
            out.push(if lo < 10 { 0x30 + lo } else { 0x37 + lo });
        }
        proof {
            assert(out@ + spec_pct(s@, i + 1) =~= old(out)@ + spec_pct(s@, 0));
        }
        i = i + 1;
    }
}

fn url_encoded_from(fields: &Vec<FormField>, i: usize) -> (r: Vec<u8>)
    requires
        i <= fields.len(),
    ensures
        r@ == spec_url_encoded(fields.deep_view(), i as int),
    decreases fields.len() - i,
{
    let mut out: Vec<u8> = Vec::new();
    if i == fields.len() {
        proof {
            assert(out@ =~= spec_url_encoded(fields.deep_view(), i as int));
        }
        return out;
    }
    if i > 0 {
        out.push(0x26);
    }
    pct_into(&mut out, &fields[i].name);
    out.push(0x3d);
    let value = crate::form::field_value_text(&fields[i].expectation);
    pct_into(&mut out, &value);
    let mut rest = url_encoded_from(fields, i + 1);
    out.append(&mut rest);
    proof {
        assert(out@ =~= spec_url_encoded(fields.deep_view(), i as int));
    }
    out
}

/// Serializes a form to its url-encoded body.
pub fn url_encoded_body(fields: &Vec<FormField>) -> (r: Vec<u8>)
    ensures
        r@ == spec_url_encoded(fields.deep_view(), 0),
{
    url_encoded_from(fields, 0)
}

/// The wire bytes of a declared file body: raw and textual bodies as they
/// stand, a JSON body through its compact rendering.
pub open spec fn spec_file_bytes(b: FileBodyV) -> Seq<u8> {
    match b {
        FileBodyV::Raw(x) => x,
        FileBodyV::Text(t) => t,
        FileBodyV::Json(v) => spec_render_json(v),
    }
}

/// One multipart part: the delimiter line, the part headers, then the body.
pub open spec fn spec_multipart_part(f: FormFieldV, boundary: Seq<u8>) -> Seq<u8> {
    "\r\n--".spec_bytes() + boundary + "\r\nContent-Disposition: form-data; name=\"".spec_bytes()
        + f.name + "\"".spec_bytes() + (match f.expectation {
        FormFieldSpecV::Value(t) => "\r\n\r\n".spec_bytes() + t,
        FormFieldSpecV::File { filename, content_type, body } => "; filename=\"".spec_bytes()
            + filename + "\"\r\nContent-Type: ".spec_bytes() + content_type
            + "\r\n\r\n".spec_bytes() + spec_file_bytes(body),
    })
}

pub open spec fn spec_multipart_parts(fields: Seq<FormFieldV>, boundary: Seq<u8>, i: int) -> Seq<
    u8,
>
    decreases fields.len() - i,
{
    if i < 0 || i >= fields.len() {
        Seq::empty()
    } else {
        spec_multipart_part(fields[i], boundary) + spec_multipart_parts(fields, boundary, i + 1)
    }
}

/// The multipart body of a form under a boundary token: each field as one
/// part, then the closing delimiter.
pub open spec fn spec_multipart_body(fields: Seq<FormFieldV>, boundary: Seq<u8>) -> Seq<u8> {
    spec_multipart_parts(fields, boundary, 0) + "\r\n--".spec_bytes() + boundary
        + "--\r\n".spec_bytes()
}

fn multipart_parts_from(fields: &Vec<FormField>, boundary: &Vec<u8>, i: usize) -> (r: Vec<u8>)
    requires
        i <= fields.len(),
    ensures
        r@ == spec_multipart_parts(fields.deep_view(), boundary@, i as int),
    decreases fields.len() - i,
{
    let mut out: Vec<u8> = Vec::new();
    if i == fields.len() {
        proof {
            assert(out@ =~= spec_multipart_parts(fields.deep_view(), boundary@, i as int));
        }
        return out;
    }
    let mut p = str_vec("\r\n--");
    out.append(&mut p);
    let mut b = clone_bytes(boundary);
    out.append(&mut b);
    let mut p2 = str_vec("\r\nContent-Disposition: form-data; name=\"");
    out.append(&mut p2);
    let mut n = clone_bytes(&fields[i].name);
    out.append(&mut n);
    let mut q = str_vec("\"");
    out.append(&mut q);
    match &fields[i].expectation {
        FormFieldSpec::Value(t) => {
            let mut s = str_vec("\r\n\r\n");
            out.append(&mut s);
            let mut tv = clone_bytes(t);
            out.append(&mut tv);
        },
        FormFieldSpec::File { filename, content_type, body } => {
            let mut s1 = str_vec("; filename=\"");
            out.append(&mut s1);
            let mut fv = clone_bytes(filename);
            out.append(&mut fv);
            let mut s2 = str_vec("\"\r\nContent-Type: ");
            out.append(&mut s2);
            let mut cv = clone_bytes(content_type);
            out.append(&mut cv);
            let mut s3 = str_vec("\r\n\r\n");
            out.append(&mut s3);
            let mut bv = match body {
                FileBody::Raw(x) => clone_bytes(x),
                FileBody::Text(t) => clone_bytes(t),
                FileBody::Json(v) => render_json(v),
            };
            out.append(&mut bv);
        },
    }
    let mut rest = multipart_parts_from(fields, boundary, i + 1);
    out.append(&mut rest);
    proof {
        assert(out@ =~= spec_multipart_parts(fields.deep_view(), boundary@, i as int));
    }
    out
}

/// Serializes a form to its multipart body under a boundary token.
pub fn multipart_body(fields: &Vec<FormField>, boundary: &Vec<u8>) -> (r: Vec<u8>)
    ensures
        r@ == spec_multipart_body(fields.deep_view(), boundary@),
{
    let mut out = multipart_parts_from(fields, boundary, 0);
    let mut p = str_vec("\r\n--");
    out.append(&mut p);
    let mut b = clone_bytes(boundary);
    out.append(&mut b);
    let mut q = str_vec("--\r\n");
    out.append(&mut q);
    proof {
        assert(out@ =~= spec_multipart_body(fields.deep_view(), boundary@));
    }
    out
}

} // verus!
