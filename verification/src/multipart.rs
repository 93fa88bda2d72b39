//! The multipart decoder and the body-comparison pipeline. The decoder is
//! pinned to a spec-level decode function on the body bytes and the boundary
//! token: it splits the body at the delimiter, parses each part's header
//! block (Content-Disposition with its name and optional filename, and an
//! optional Content-Type, nothing else), and surfaces each malformation as
//! its specific terminal failure. A parse failure is terminal for the body:
//! no mismatch list is produced for it.

use vstd::prelude::*;

use crate::bytes::{bytes_eq, check_utf8, clone_bytes, is_utf8, StringSliceAdditionalSpecFns};
use crate::form::{compare_form, opt_bytes_view, spec_compare_form, ActualField, ActualFieldV,
    FieldBody, FieldBodyV, FileBody, FileBodyV, FormField, FormFieldSpec, FormFieldSpecV,
    FormFieldV};
use crate::json::json_wf;
use crate::jsontext::parse_json;
use crate::model::{Mismatch, Mode};

verus! {

broadcast use vstd::seq::group_seq_axioms, crate::bytes::lemma_deep_view_bytes;

/// A terminal parse failure: the body could not be decoded, so it cannot be
/// diffed. Distinct from a mismatch, which never aborts a comparison.
#[derive(Clone, Copy, PartialEq, Eq, Structural, Debug)]
pub enum ParseError {
    MissingDispositionHeader,
    InvalidHeaderNameByte,
    InvalidHeaderValueByte,
    InvalidFilenameEncoding,
    UnexpectedFieldHeader,
    InvalidFraming,
    InvalidJson,
}

impl ParseError {
    /// The human-readable description of this parse failure.
    pub fn message(&self) -> (r: String)
        ensures
            (match self {
                ParseError::MissingDispositionHeader => r@
                    == "Content-Disposition header is missing from multi part field."@,
                ParseError::InvalidHeaderNameByte => r@
                    == "Invalid byte in header name of multi part field."@,
                ParseError::InvalidHeaderValueByte => r@
                    == "Invalid byte in header value of multi part field."@,
                ParseError::InvalidFilenameEncoding => r@
                    == "Invalid filename encoding of multi part field."@,
                ParseError::UnexpectedFieldHeader => r@
                    == "Unexpected headers in multi part field."@,
                ParseError::InvalidFraming => r@ == "Invalid multi part body framing."@,
                ParseError::InvalidJson => r@ == "Body JSON could not be parsed."@,
            }),
    {
        match self {
            ParseError::MissingDispositionHeader => String::from_str(
                "Content-Disposition header is missing from multi part field.",
            ),
            ParseError::InvalidHeaderNameByte => String::from_str(
                "Invalid byte in header name of multi part field.",
            ),
            ParseError::InvalidHeaderValueByte => String::from_str(
                "Invalid byte in header value of multi part field.",
            ),
            ParseError::InvalidFilenameEncoding => String::from_str(
                "Invalid filename encoding of multi part field.",
            ),
            ParseError::UnexpectedFieldHeader => String::from_str(
                "Unexpected headers in multi part field.",
            ),
            ParseError::InvalidFraming => String::from_str("Invalid multi part body framing."),
            ParseError::InvalidJson => String::from_str("Body JSON could not be parsed."),
        }
    }
}

/// `needle` occurs in `hay` at position `j`.
pub open spec fn spec_matches_at(hay: Seq<u8>, needle: Seq<u8>, j: int) -> bool {
    0 <= j && j + needle.len() <= hay.len() && hay.subrange(j, j + needle.len()) == needle
}

/// The first occurrence of a non-empty `needle` in `hay` at position `from`
/// or later, if any.
pub open spec fn spec_find(hay: Seq<u8>, needle: Seq<u8>, from: int) -> Option<int>
    decreases hay.len() - from,
{
    if needle.len() == 0 || from < 0 || from + needle.len() > hay.len() {
        Option::None
    } else if spec_matches_at(hay, needle, from) {
        Option::Some(from)
    } else {
        spec_find(hay, needle, from + 1)
    }
}

pub proof fn lemma_spec_find_bounds(hay: Seq<u8>, needle: Seq<u8>, from: int)
    ensures
        spec_find(hay, needle, from) matches Some(j) ==> from <= j && 0 <= j && j + needle.len()
            <= hay.len() && needle.len() >= 1,
    decreases hay.len() - from,
{
    if !(needle.len() == 0 || from < 0 || from + needle.len() > hay.len()) {
        if !spec_matches_at(hay, needle, from) {
            lemma_spec_find_bounds(hay, needle, from + 1);
        }
    }
}

fn find_sub(hay: &Vec<u8>, needle: &Vec<u8>, from: usize) -> (r: Option<usize>)
    requires
        from <= hay.len(),
    ensures
        (match r {
            Option::Some(j) => from <= j && j + needle.len() <= hay.len() && spec_find(
                hay@,
                needle@,
                from as int,
            ) == Option::Some(j as int),
            Option::None => spec_find(hay@, needle@, from as int) is None,
        }),
{
    if needle.len() == 0 || needle.len() > hay.len() {
        return None;
    }
    let last = hay.len() - needle.len();
    let mut j = from;
    while j <= last
        invariant
            from <= j,
            j <= hay.len(),
            needle.len() >= 1,
            needle.len() <= hay.len(),
            last == hay.len() - needle.len(),
            spec_find(hay@, needle@, from as int) == spec_find(hay@, needle@, j as int),
        decreases hay.len() - j,
    {
        let mut k: usize = 0;
        while k < needle.len() && hay[j + k] == needle[k]
            invariant
                k <= needle.len(),
                j <= last,
                last == hay.len() - needle.len(),
                needle.len() <= hay.len(),
                forall|t: int| 0 <= t < k ==> hay@[j + t] == needle@[t],
            decreases needle.len() - k,
        {
            k = k + 1;
        }
        if k == needle.len() {
            proof {
                assert(hay@.subrange(j as int, j + needle@.len()) =~= needle@);
                assert(spec_matches_at(hay@, needle@, j as int));
            }
            return Some(j);
        }
        proof {
            assert(!spec_matches_at(hay@, needle@, j as int)) by {
                if spec_matches_at(hay@, needle@, j as int) {
                    assert(hay@.subrange(j as int, j + needle@.len())[k as int]
                        == needle@[k as int]);
                    assert(hay@[j + k] == needle@[k as int]);
                }
            }
        }
        j = j + 1;
    }
    proof {
        assert(spec_find(hay@, needle@, j as int) is None);
    }
    None
}

fn subvec(hay: &Vec<u8>, lo: usize, hi: usize) -> (r: Vec<u8>)
    requires
        lo <= hi <= hay.len(),
    ensures
        r@ == hay@.subrange(lo as int, hi as int),
{
    let mut out: Vec<u8> = Vec::new();
    let mut i = lo;
    while i < hi
        invariant
            lo <= i <= hi <= hay.len(),
            out@ == hay@.subrange(lo as int, i as int),
        decreases hi - i,
    {
        out.push(hay[i]);
        proof {
            assert(hay@.subrange(lo as int, i + 1) =~= hay@.subrange(lo as int, i as int)
                + seq![hay@[i as int]]);
        }
        i = i + 1;
    }
    out
}

/// A token byte, as allowed in a part header name.
pub open spec fn spec_is_tchar(b: u8) -> bool {
    (0x41 <= b && b <= 0x5a) || (0x61 <= b && b <= 0x7a) || (0x30 <= b && b <= 0x39) || b == 0x21
        || (0x23 <= b && b <= 0x27) || b == 0x2a || b == 0x2b || b == 0x2d || b == 0x2e || b
        == 0x5e || b == 0x5f || b == 0x60 || b == 0x7c || b == 0x7e
}

fn is_tchar(b: u8) -> (r: bool)
    ensures
        r == spec_is_tchar(b),
{
    (0x41 <= b && b <= 0x5a) || (0x61 <= b && b <= 0x7a) || (0x30 <= b && b <= 0x39) || b == 0x21
        || (0x23 <= b && b <= 0x27) || b == 0x2a || b == 0x2b || b == 0x2d || b == 0x2e || b
        == 0x5e || b == 0x5f || b == 0x60 || b == 0x7c || b == 0x7e
}

/// ASCII lower case of one byte.
pub open spec fn spec_lower(b: u8) -> u8 {
    if 0x41 <= b && b <= 0x5a {
        (b + 0x20) as u8
    } else {
        b
    }
}

/// ASCII-case-insensitive equality of two byte strings.
pub open spec fn spec_eq_ci(a: Seq<u8>, b: Seq<u8>) -> bool {
    a.len() == b.len() && forall|i: int| 0 <= i < a.len() ==> spec_lower(a[i]) == spec_lower(b[i])
}

fn eq_ignore_case(a: &Vec<u8>, b: &Vec<u8>) -> (r: bool)
    ensures
        r == spec_eq_ci(a@, b@),
{
    if a.len() != b.len() {
        return false;
    }
    let mut i: usize = 0;
    while i < a.len()
        invariant
            i <= a.len(),
            a.len() == b.len(),
            forall|j: int| 0 <= j < i ==> spec_lower(a@[j]) == spec_lower(b@[j]),
        decreases a.len() - i,
    {
        let x = if 0x41 <= a[i] && a[i] <= 0x5a {
            a[i] + 0x20
        } else {
            a[i]
        };
        let y = if 0x41 <= b[i] && b[i] <= 0x5a {
            b[i] + 0x20
        } else {
            b[i]
        };
        if x != y {
            proof {
                assert(spec_lower(a@[i as int]) != spec_lower(b@[i as int]));
            }
            return false;
        }
        i = i + 1;
    }
    true
}

/// The value under the first quoted parameter following `marker`, for
/// example the name under `name="` in a Content-Disposition value.
pub open spec fn spec_quoted_param(value: Seq<u8>, marker: Seq<u8>) -> Option<Seq<u8>> {
    match spec_find(value, marker, 0) {
        Option::None => Option::None,
        Option::Some(p) => match spec_find(value, seq![0x22u8], p + marker.len()) {
            Option::None => Option::None,
            Option::Some(e) => Option::Some(value.subrange(p + marker.len(), e)),
        },
    }
}

fn quoted_param(value: &Vec<u8>, marker: &Vec<u8>) -> (r: Option<Vec<u8>>)
    ensures
        (match r {
            Option::Some(v) => spec_quoted_param(value@, marker@) == Option::Some(v@),
            Option::None => spec_quoted_param(value@, marker@) is None,
        }),
{
    let quote = {
        let mut q: Vec<u8> = Vec::new();
        q.push(0x22);
        q
    };
    proof {
        assert(quote@ =~= seq![0x22u8]);
    }
    match find_sub(value, marker, 0) {
        None => None,
        Some(p) => {
            let start = p + marker.len();
            match find_sub(value, &quote, start) {
                None => None,
                Some(e) => Some(subvec(value, start, e)),
            }
        },
    }
}

/// The position of the colon ending a part header name, provided every byte
/// before it is a token byte; `None` is an invalid header name.
pub open spec fn spec_scan_colon(line: Seq<u8>, i: int) -> Option<int>
    decreases line.len() - i,
{
    if i < 0 || i >= line.len() {
        Option::None
    } else if line[i] == 0x3a {
        Option::Some(i)
    } else if !spec_is_tchar(line[i]) {
        Option::None
    } else {
        spec_scan_colon(line, i + 1)
    }
}

pub proof fn lemma_spec_scan_colon_bounds(line: Seq<u8>, i: int)
    ensures
        spec_scan_colon(line, i) matches Some(c) ==> i <= c < line.len(),
    decreases line.len() - i,
{
    if !(i < 0 || i >= line.len()) {
        if line[i] != 0x3a && spec_is_tchar(line[i]) {
            lemma_spec_scan_colon_bounds(line, i + 1);
        }
    }
}

fn scan_colon(line: &Vec<u8>, i: usize) -> (r: Option<usize>)
    requires
        i <= line.len(),
    ensures
        (match r {
            Option::Some(c) => i <= c < line.len() && spec_scan_colon(line@, i as int)
                == Option::Some(c as int),
            Option::None => spec_scan_colon(line@, i as int) is None,
        }),
    decreases line.len() - i,
{
    if i == line.len() {
        return None;
    }
    if line[i] == 0x3a {
        Some(i)
    } else if !is_tchar(line[i]) {
        None
    } else {
        scan_colon(line, i + 1)
    }
}

/// Every byte is allowed in a part header value: no control byte but tab,
/// and no delete byte.
pub open spec fn spec_header_value_ok(v: Seq<u8>) -> bool {
    forall|i: int| 0 <= i < v.len() ==> ((v[i] >= 0x20 || v[i] == 0x09) && v[i] != 0x7f)
}

fn header_value_ok(v: &Vec<u8>) -> (r: bool)
    ensures
        r == spec_header_value_ok(v@),
{
    let mut i: usize = 0;
    while i < v.len()
        invariant
            i <= v.len(),
            forall|j: int| 0 <= j < i ==> ((v@[j] >= 0x20 || v@[j] == 0x09) && v@[j] != 0x7f),
        decreases v.len() - i,
    {
        let b = v[i];
        if (b < 0x20 && b != 0x09) || b == 0x7f {
            proof {
                assert(!((v@[i as int] >= 0x20 || v@[i as int] == 0x09) && v@[i as int] != 0x7f));
            }
            return false;
        }
        i = i + 1;
    }
    true
}

/// One part header line split into its name and value: the name runs to the
/// colon and holds token bytes only, one space after the colon is skipped,
/// and the value holds only allowed value bytes.
pub open spec fn spec_parse_line(line: Seq<u8>) -> Result<(Seq<u8>, Seq<u8>), ParseError> {
    match spec_scan_colon(line, 0) {
        Option::None => Result::Err(ParseError::InvalidHeaderNameByte),
        Option::Some(c) => {
            let vstart = if c + 1 < line.len() && line[c + 1] == 0x20 {
                c + 2
            } else {
                c + 1
            };
            let value = line.subrange(vstart, line.len() as int);
            if !spec_header_value_ok(value) {
                Result::Err(ParseError::InvalidHeaderValueByte)
            } else {
                Result::Ok((line.subrange(0, c), value))
            }
        },
    }
}

fn parse_line(line: &Vec<u8>) -> (r: Result<(Vec<u8>, Vec<u8>), ParseError>)
    ensures
        (match r {
            Result::Ok(nv) => spec_parse_line(line@) == Result::<(Seq<u8>, Seq<u8>),
                ParseError>::Ok((nv.0@, nv.1@)),
            Result::Err(e) => spec_parse_line(line@) == Result::Err::<(Seq<u8>, Seq<u8>),
                ParseError>(e),
        }),
{
    let c = match scan_colon(line, 0) {
        Some(c) => c,
        None => {
            return Err(ParseError::InvalidHeaderNameByte);
        },
    };
    let vstart = if c + 1 < line.len() && line[c + 1] == 0x20 {
        c + 2
    } else {
        c + 1
    };
    let value = subvec(line, vstart, line.len());
    if !header_value_ok(&value) {
        return Err(ParseError::InvalidHeaderValueByte);
    }
    let name = subvec(line, 0, c);
    Ok((name, value))
}

/// Spec-level decoded part headers.
#[verifier::ext_equal]
pub struct PartHeadersV {
    pub name: Seq<u8>,
    pub filename: Option<Seq<u8>>,
    pub content_type: Option<Seq<u8>>,
}

/// The outcome of a finished header block: the decoded headers if a
/// Content-Disposition was seen, else the missing-disposition failure.
pub open spec fn spec_finish_headers(
    dn: Option<Seq<u8>>,
    fnm: Option<Seq<u8>>,
    ct: Option<Seq<u8>>,
) -> Result<PartHeadersV, ParseError> {
    match dn {
        Option::Some(n) => Result::Ok(PartHeadersV { name: n, filename: fnm, content_type: ct }),
        Option::None => Result::Err(ParseError::MissingDispositionHeader),
    }
}

/// Parses a part's header block line by line from position `pos`, carrying
/// the name, filename and content type seen so far. Only Content-Disposition
/// (required, with its `name` parameter and an optional UTF-8 `filename`)
/// and Content-Type are allowed, each at most once.
pub open spec fn spec_parse_headers_at(
    block: Seq<u8>,
    pos: int,
    dn: Option<Seq<u8>>,
    fnm: Option<Seq<u8>>,
    ct: Option<Seq<u8>>,
) -> Result<PartHeadersV, ParseError>
    decreases block.len() - pos,
    via spec_parse_headers_at_dec
{
    if pos < 0 || pos >= block.len() {
        spec_finish_headers(dn, fnm, ct)
    } else {
        let line_end = match spec_find(block, seq![0x0du8, 0x0au8], pos) {
            Option::Some(e) => e,
            Option::None => block.len() as int,
        };
        let line = block.subrange(pos, line_end);
        match spec_parse_line(line) {
            Result::Err(e) => Result::Err(e),
            Result::Ok((hname, value)) => {
                if spec_eq_ci(hname, "Content-Disposition".spec_bytes()) {
                    if dn is Some {
                        Result::Err(ParseError::UnexpectedFieldHeader)
                    } else {
                        match spec_quoted_param(value, "name=\"".spec_bytes()) {
                            Option::None => Result::Err(ParseError::MissingDispositionHeader),
                            Option::Some(n) => match spec_quoted_param(
                                value,
                                "filename=\"".spec_bytes(),
                            ) {
                                Option::Some(f) => if !is_utf8(f) {
                                    Result::Err(ParseError::InvalidFilenameEncoding)
                                } else if line_end >= block.len() {
                                    spec_finish_headers(Option::Some(n), Option::Some(f), ct)
                                } else {
                                    spec_parse_headers_at(
                                        block,
                                        line_end + 2,
                                        Option::Some(n),
                                        Option::Some(f),
                                        ct,
                                    )
                                },
                                Option::None => if line_end >= block.len() {
                                    spec_finish_headers(Option::Some(n), fnm, ct)
                                } else {
                                    spec_parse_headers_at(
                                        block,
                                        line_end + 2,
                                        Option::Some(n),
                                        fnm,
                                        ct,
                                    )
                                },
                            },
                        }
                    }
                } else if spec_eq_ci(hname, "Content-Type".spec_bytes()) {
                    if ct is Some {
                        Result::Err(ParseError::UnexpectedFieldHeader)
                    } else if line_end >= block.len() {
                        spec_finish_headers(dn, fnm, Option::Some(value))
                    } else {
                        spec_parse_headers_at(block, line_end + 2, dn, fnm, Option::Some(value))
                    }
                } else {
                    Result::Err(ParseError::UnexpectedFieldHeader)
                }
            },
        }
    }
}

#[via_fn]
proof fn spec_parse_headers_at_dec(
    block: Seq<u8>,
    pos: int,
    dn: Option<Seq<u8>>,
    fnm: Option<Seq<u8>>,
    ct: Option<Seq<u8>>,
) {
    lemma_spec_find_bounds(block, seq![0x0du8, 0x0au8], pos);
}

/// The decoded headers of a whole part header block.
pub open spec fn spec_parse_part_headers(block: Seq<u8>) -> Result<PartHeadersV, ParseError> {
    spec_parse_headers_at(block, 0, Option::None, Option::None, Option::None)
}

struct PartHeaders {
    name: Vec<u8>,
    filename: Option<Vec<u8>>,
    content_type: Option<Vec<u8>>,
}

fn parse_part_headers(block: &Vec<u8>) -> (r: Result<PartHeaders, ParseError>)
    ensures
        (match r {
            Result::Ok(h) => spec_parse_part_headers(block@) == Result::<PartHeadersV,
                ParseError>::Ok(
                PartHeadersV {
                    name: h.name@,
                    filename: opt_bytes_view(h.filename),
                    content_type: opt_bytes_view(h.content_type),
                },
            ),
            Result::Err(e) => spec_parse_part_headers(block@) == Result::Err::<PartHeadersV,
                ParseError>(e),
        }),
{
    let crlf = {
        let mut v: Vec<u8> = Vec::new();
        v.push(0x0d);
        v.push(0x0a);
        v
    };
    proof {
        assert(crlf@ =~= seq![0x0du8, 0x0au8]);
    }
    let mut disposition_name: Option<Vec<u8>> = None;
    let mut filename: Option<Vec<u8>> = None;
    let mut content_type: Option<Vec<u8>> = None;
    let mut pos: usize = 0;
    while pos < block.len()
        invariant
            pos <= block.len(),
            crlf@ == seq![0x0du8, 0x0au8],
            spec_parse_part_headers(block@) == spec_parse_headers_at(
                block@,
                pos as int,
                opt_bytes_view(disposition_name),
                opt_bytes_view(filename),
                opt_bytes_view(content_type),
            ),
        decreases block.len() - pos,
    {
        let ghost old_pos = pos as int;
        let ghost old_dn = opt_bytes_view(disposition_name);
        let ghost old_fnm = opt_bytes_view(filename);
        let ghost old_ct = opt_bytes_view(content_type);
        let ghost step = spec_parse_headers_at(block@, old_pos, old_dn, old_fnm, old_ct);
        let (line_end, at_end): (usize, bool) = match find_sub(block, &crlf, pos) {
            Some(e) => (e, false),
            None => (block.len(), true),
        };
        proof {
            assert(line_end as int == (match spec_find(block@, seq![0x0du8, 0x0au8], old_pos) {
                Option::Some(e) => e,
                Option::None => block@.len() as int,
            }));
        }
        let line = subvec(block, pos, line_end);
        let (hname, value) = match parse_line(&line) {
            Ok(nv) => nv,
            Err(e) => {
                proof {
                    assert(step == Result::Err::<PartHeadersV, ParseError>(e));
                }
                return Err(e);
            },
        };
        let cd_name = crate::bytes::str_vec("Content-Disposition");
        let ct_name = crate::bytes::str_vec("Content-Type");
        if eq_ignore_case(&hname, &cd_name) {
            if disposition_name.is_some() {
                proof {
                    assert(step == Result::Err::<PartHeadersV, ParseError>(
                        ParseError::UnexpectedFieldHeader,
                    ));
                }
                return Err(ParseError::UnexpectedFieldHeader);
            }
            let name_marker = crate::bytes::str_vec("name=\"");
            let n = match quoted_param(&value, &name_marker) {
                Some(n) => n,
                None => {
                    proof {
                        assert(step == Result::Err::<PartHeadersV, ParseError>(
                            ParseError::MissingDispositionHeader,
                        ));
                    }
                    return Err(ParseError::MissingDispositionHeader);
                },
            };
            let fname_marker = crate::bytes::str_vec("filename=\"");
            match quoted_param(&value, &fname_marker) {
                Some(f) => {
                    if !check_utf8(&f) {
                        proof {
                            assert(step == Result::Err::<PartHeadersV, ParseError>(
                                ParseError::InvalidFilenameEncoding,
                            ));
                        }
                        return Err(ParseError::InvalidFilenameEncoding);
                    }
                    filename = Some(f);
                },
                None => {},
            }
            disposition_name = Some(n);
        } else if eq_ignore_case(&hname, &ct_name) {
            if content_type.is_some() {
                proof {
                    assert(step == Result::Err::<PartHeadersV, ParseError>(
                        ParseError::UnexpectedFieldHeader,
                    ));
                }
                return Err(ParseError::UnexpectedFieldHeader);
            }
            content_type = Some(value);
        } else {
            proof {
                assert(step == Result::Err::<PartHeadersV, ParseError>(
                    ParseError::UnexpectedFieldHeader,
                ));
            }
            return Err(ParseError::UnexpectedFieldHeader);
        }
        if at_end {
            proof {
                assert(step == spec_finish_headers(
                    opt_bytes_view(disposition_name),
                    opt_bytes_view(filename),
                    opt_bytes_view(content_type),
                ));
            }
            pos = block.len();
        } else {
            proof {
                assert(step == spec_parse_headers_at(
                    block@,
                    line_end + 2,
                    opt_bytes_view(disposition_name),
                    opt_bytes_view(filename),
                    opt_bytes_view(content_type),
                ));
            }
            pos = line_end + 2;
        }
    }
    proof {
        assert(spec_parse_part_headers(block@) == spec_finish_headers(
            opt_bytes_view(disposition_name),
            opt_bytes_view(filename),
            opt_bytes_view(content_type),
        ));
    }
    match disposition_name {
        Some(name) => Ok(PartHeaders { name, filename, content_type }),
        None => Err(ParseError::MissingDispositionHeader),
    }
}

/// Decodes the parts of a body from position `cur` (just past a delimiter),
/// appending each decoded field record to `acc`: a terminator (`--`) ends
/// the body, otherwise a CRLF, the part's header block, its data up to the
/// next delimiter.
pub open spec fn spec_decode_loop(
    body: Seq<u8>,
    delim: Seq<u8>,
    cur: int,
    acc: Seq<ActualFieldV>,
) -> Result<Seq<ActualFieldV>, ParseError>
    decreases body.len() - cur,
    via spec_decode_loop_dec
{
    if cur < 0 || cur > body.len() {
        Result::Err(ParseError::InvalidFraming)
    } else if body.len() - cur >= 2 && body[cur] == 0x2d && body[cur + 1] == 0x2d {
        Result::Ok(acc)
    } else if body.len() - cur < 2 || body[cur] != 0x0d || body[cur + 1] != 0x0a {
        Result::Err(ParseError::InvalidFraming)
    } else {
        match spec_find(body, seq![0x0du8, 0x0au8, 0x0du8, 0x0au8], cur + 2) {
            Option::None => Result::Err(ParseError::InvalidFraming),
            Option::Some(hdr_end) => {
                let block = body.subrange(cur + 2, hdr_end);
                match spec_find(body, delim, hdr_end + 4) {
                    Option::None => Result::Err(ParseError::InvalidFraming),
                    Option::Some(next) => {
                        let data = body.subrange(hdr_end + 4, next);
                        match spec_parse_part_headers(block) {
                            Result::Err(e) => Result::Err(e),
                            Result::Ok(h) => spec_decode_loop(
                                body,
                                delim,
                                next + delim.len(),
                                acc + seq![ActualFieldV {
                                    name: h.name,
                                    filename: h.filename,
                                    content_type: h.content_type,
                                    body: FieldBodyV::Bytes(data),
                                }],
                            ),
                        }
                    },
                }
            },
        }
    }
}

#[via_fn]
proof fn spec_decode_loop_dec(body: Seq<u8>, delim: Seq<u8>, cur: int, acc: Seq<ActualFieldV>) {
    lemma_spec_find_bounds(body, seq![0x0du8, 0x0au8, 0x0du8, 0x0au8], cur + 2);
    match spec_find(body, seq![0x0du8, 0x0au8, 0x0du8, 0x0au8], cur + 2) {
        Option::Some(hdr_end) => {
            lemma_spec_find_bounds(body, delim, hdr_end + 4);
        },
        Option::None => {},
    }
}

/// The decoded field records of a multipart body under a boundary token, or
/// its first terminal parse failure. The body before the first delimiter is
/// a preamble and is ignored; a body without any delimiter is broken
/// framing.
pub open spec fn spec_decode_multipart(body: Seq<u8>, boundary: Seq<u8>) -> Result<
    Seq<ActualFieldV>,
    ParseError,
> {
    let delim = seq![0x0du8, 0x0au8, 0x2du8, 0x2du8] + boundary;
    match spec_find(body, delim, 0) {
        Option::None => Result::Err(ParseError::InvalidFraming),
        Option::Some(first) => spec_decode_loop(body, delim, first + delim.len(), Seq::empty()),
    }
}

/// Decodes a multipart body under a boundary token into its field records,
/// exactly as `spec_decode_multipart` says, or fails with the first terminal
/// parse failure: a part without a Content-Disposition header, an invalid
/// byte in a part header name or value, a non-UTF-8 filename, a part header
/// beyond the allowed two, or broken framing.
pub fn decode_multipart(body: &Vec<u8>, boundary: &Vec<u8>) -> (r: Result<
    Vec<ActualField>,
    ParseError,
>)
    ensures
        (match r {
            Result::Ok(fields) => spec_decode_multipart(body@, boundary@) == Result::<
                Seq<ActualFieldV>,
                ParseError,
            >::Ok(fields.deep_view()),
            Result::Err(e) => spec_decode_multipart(body@, boundary@) == Result::Err::<
                Seq<ActualFieldV>,
                ParseError,
            >(e),
        }),
{
    let mut delim: Vec<u8> = Vec::new();
    delim.push(0x0d);
    delim.push(0x0a);
    delim.push(0x2d);
    delim.push(0x2d);
    let mut b = clone_bytes(boundary);
    delim.append(&mut b);
    proof {
        assert(delim@ =~= seq![0x0du8, 0x0au8, 0x2du8, 0x2du8] + boundary@);
    }
    let mut fields: Vec<ActualField> = Vec::new();
    let mut cur: usize;
    match find_sub(body, &delim, 0) {
        None => {
            return Err(ParseError::InvalidFraming);
        },
        Some(first) => {
            cur = first + delim.len();
        },
    }
    proof {
        assert(fields.deep_view() =~= Seq::<ActualFieldV>::empty());
    }
    while cur <= body.len()
        invariant
            cur <= body.len(),
            delim@ == seq![0x0du8, 0x0au8, 0x2du8, 0x2du8] + boundary@,
            spec_decode_multipart(body@, boundary@) == spec_decode_loop(
                body@,
                delim@,
                cur as int,
                fields.deep_view(),
            ),
        decreases body.len() - cur,
    {
        if body.len() - cur >= 2 && body[cur] == 0x2d && body[cur + 1] == 0x2d {
            return Ok(fields);
        }
        if body.len() - cur < 2 || body[cur] != 0x0d || body[cur + 1] != 0x0a {
            return Err(ParseError::InvalidFraming);
        }
        let hdr_start = cur + 2;
        let hdr_sep = {
            let mut v: Vec<u8> = Vec::new();
            v.push(0x0d);
            v.push(0x0a);
            v.push(0x0d);
            v.push(0x0a);
            v
        };
        proof {
            assert(hdr_sep@ =~= seq![0x0du8, 0x0au8, 0x0du8, 0x0au8]);
        }
        let hdr_end = match find_sub(body, &hdr_sep, hdr_start) {
            Some(e) => e,
            None => {
                return Err(ParseError::InvalidFraming);
            },
        };
        let block = subvec(body, hdr_start, hdr_end);
        let data_start = hdr_end + 4;
        let next = match find_sub(body, &delim, data_start) {
            Some(n) => n,
            None => {
                return Err(ParseError::InvalidFraming);
            },
        };
        let data = subvec(body, data_start, next);
        let headers = match parse_part_headers(&block) {
            Ok(h) => h,
            Err(e) => {
                return Err(e);
            },
        };
        let ghost old_fields = fields.deep_view();
        let ghost new_field = ActualFieldV {
            name: headers.name@,
            filename: opt_bytes_view(headers.filename),
            content_type: opt_bytes_view(headers.content_type),
            body: FieldBodyV::Bytes(data@),
        };
        fields.push(
            ActualField {
                name: headers.name,
                filename: headers.filename,
                content_type: headers.content_type,
                body: FieldBody::Bytes(data),
            },
        );
        proof {
            assert(fields.deep_view() =~~= old_fields + seq![new_field]);
        }
        cur = next + delim.len();
    }
    Err(ParseError::InvalidFraming)
}

/// Whether the first expected field of this name declares a JSON file body;
/// those actual bodies are parsed before comparison.
pub open spec fn spec_json_declared(expected: Seq<FormFieldV>, name: Seq<u8>, i: int) -> bool
    decreases expected.len() - i,
{
    if i < 0 || i >= expected.len() {
        false
    } else if expected[i].name == name {
        expected[i].expectation matches FormFieldSpecV::File { body: FileBodyV::Json(_), .. }
    } else {
        spec_json_declared(expected, name, i + 1)
    }
}

fn json_declared(expected: &Vec<FormField>, name: &Vec<u8>, i: usize) -> (r: bool)
    requires
        i <= expected.len(),
    ensures
        r == spec_json_declared(expected.deep_view(), name@, i as int),
    decreases expected.len() - i,
{
    if i == expected.len() {
        return false;
    }
    if bytes_eq(&expected[i].name, name) {
        match &expected[i].expectation {
            FormFieldSpec::File { body, .. } => matches!(body, FileBody::Json(_)),
            _ => false,
        }
    } else {
        json_declared(expected, name, i + 1)
    }
}

/// The typed fields correspond to the decoded ones: same names, filenames
/// and content types; a field whose expected specification declares a JSON
/// body carries the well-formed parse of its bytes, every other field is
/// unchanged.
pub open spec fn spec_fields_correspond(
    expected: Seq<FormFieldV>,
    decoded: Seq<ActualFieldV>,
    typed: Seq<ActualFieldV>,
) -> bool {
    typed.len() == decoded.len() && forall|i: int|
        #![trigger typed[i]]
        0 <= i < decoded.len() ==> {
            &&& typed[i].name == decoded[i].name
            &&& typed[i].filename == decoded[i].filename
            &&& typed[i].content_type == decoded[i].content_type
            &&& if spec_json_declared(expected, decoded[i].name, 0) {
                match decoded[i].body {
                    FieldBodyV::Bytes(_) => match typed[i].body {
                        FieldBodyV::Json(v) => json_wf(v),
                        FieldBodyV::Bytes(_) => false,
                    },
                    FieldBodyV::Json(_) => typed[i].body == decoded[i].body,
                }
            } else {
                typed[i].body == decoded[i].body
            }
        }
}

/// Parses the bodies of the actual fields whose expected specification
/// declares a JSON file body; all other fields pass through unchanged.
/// Invalid JSON text is the only failure, and when no field needs parsing
/// the call succeeds.
pub fn parse_json_fields(expected: &Vec<FormField>, fields: &Vec<ActualField>) -> (r: Result<
    Vec<ActualField>,
    ParseError,
>)
    ensures
        (r matches Err(e) ==> e == ParseError::InvalidJson),
        (r matches Ok(out) ==> spec_fields_correspond(
            expected.deep_view(),
            fields.deep_view(),
            out.deep_view(),
        )),
        (forall|i: int|
            #![trigger fields.deep_view()[i]]
            0 <= i < fields.deep_view().len() ==> !(spec_json_declared(
                expected.deep_view(),
                fields.deep_view()[i].name,
                0,
            ) && fields.deep_view()[i].body is Bytes)) ==> r is Ok,
{
    let mut out: Vec<ActualField> = Vec::new();
    let mut i: usize = 0;
    while i < fields.len()
        invariant
            i <= fields.len(),
            out@.len() == i,
            forall|j: int|
                #![trigger out.deep_view()[j]]
                0 <= j < i ==> {
                    &&& out.deep_view()[j].name == fields.deep_view()[j].name
                    &&& out.deep_view()[j].filename == fields.deep_view()[j].filename
                    &&& out.deep_view()[j].content_type == fields.deep_view()[j].content_type
                    &&& if spec_json_declared(
                        expected.deep_view(),
                        fields.deep_view()[j].name,
                        0,
                    ) {
                        match fields.deep_view()[j].body {
                            FieldBodyV::Bytes(_) => match out.deep_view()[j].body {
                                FieldBodyV::Json(v) => json_wf(v),
                                FieldBodyV::Bytes(_) => false,
                            },
                            FieldBodyV::Json(_) => out.deep_view()[j].body
                                == fields.deep_view()[j].body,
                        }
                    } else {
                        out.deep_view()[j].body == fields.deep_view()[j].body
                    }
                },
        decreases fields.len() - i,
    {
        let af = &fields[i];
        let declared = json_declared(expected, &af.name, 0);
        let body = match &af.body {
            FieldBody::Bytes(b) => {
                if declared {
                    match parse_json(b) {
                        Some(v) => FieldBody::Json(v),
                        None => {
                            proof {
                                assert(fields.deep_view()[i as int] == fields@[i as int]@);
                                assert(fields.deep_view()[i as int].body is Bytes);
                            }
                            return Err(ParseError::InvalidJson);
                        },
                    }
                } else {
                    FieldBody::Bytes(clone_bytes(b))
                }
            },
            FieldBody::Json(v) => FieldBody::Json(crate::json::clone_json(v)),
        };
        let ghost old_vec = out@;
        let ghost old_deep = out.deep_view();
        out.push(
            ActualField {
                name: clone_bytes(&af.name),
                filename: clone_opt_bytes(&af.filename),
                content_type: clone_opt_bytes(&af.content_type),
                body,
            },
        );
        proof {
            let ghost fd = fields.deep_view();
            assert(out.deep_view()[i as int] == out@[i as int]@);
            assert(fd[i as int] == fields@[i as int]@);
            assert(out.deep_view()[i as int].name == fd[i as int].name);
            assert(out.deep_view()[i as int].filename == fd[i as int].filename);
            assert(out.deep_view()[i as int].content_type == fd[i as int].content_type);
            assert(if spec_json_declared(expected.deep_view(), fd[i as int].name, 0) {
                match fd[i as int].body {
                    FieldBodyV::Bytes(_) => match out.deep_view()[i as int].body {
                        FieldBodyV::Json(v) => json_wf(v),
                        FieldBodyV::Bytes(_) => false,
                    },
                    FieldBodyV::Json(_) => out.deep_view()[i as int].body == fd[i as int].body,
                }
            } else {
                out.deep_view()[i as int].body == fd[i as int].body
            });
            assert forall|j: int| 0 <= j < i + 1 implies out.deep_view()[j] == (if j < i {
                old_deep[j]
            } else {
                out.deep_view()[i as int]
            }) by {
                if j < i {
                    assert(out@[j] == old_vec[j]);
                    assert(old_deep[j] == old_vec[j].deep_view());
                }
            }
        }
        i = i + 1;
    }
    proof {
        assert(spec_fields_correspond(
            expected.deep_view(),
            fields.deep_view(),
            out.deep_view(),
        ));
    }
    Ok(out)
}

fn clone_opt_bytes(o: &Option<Vec<u8>>) -> (r: Option<Vec<u8>>)
    ensures
        opt_bytes_view(r) == (match o {
            Option::Some(v) => Option::Some(v@),
            Option::None => Option::<Seq<u8>>::None,
        }),
{
    match o {
        Some(v) => Some(clone_bytes(v)),
        None => None,
    }
}

/// Validates a multipart body end to end: decode the body under the
/// boundary, parse the JSON file bodies the expectation declares, then
/// compare. A decoding failure is terminal and comes back unchanged, so no
/// mismatch list exists for a body that does not decode; invalid JSON in a
/// declared file body is the only other failure. On success the mismatch
/// list is the form comparison of the expectation against typed fields that
/// correspond exactly to the decode of the body.
pub fn compare_form_body(
    expected: &Vec<FormField>,
    body: &Vec<u8>,
    boundary: &Vec<u8>,
    mode: Mode,
) -> (r: Result<Vec<Mismatch>, ParseError>)
    ensures
        (match spec_decode_multipart(body@, boundary@) {
            Result::Err(e) => r matches Err(e2) && e2 == e,
            Result::Ok(decoded) => (r matches Err(e) ==> e == ParseError::InvalidJson) && (
            r matches Ok(ms) ==> exists|typed: Seq<ActualFieldV>|
                #![trigger spec_compare_form(expected.deep_view(), typed, mode)]
                spec_fields_correspond(expected.deep_view(), decoded, typed) && ms.deep_view()
                    == spec_compare_form(expected.deep_view(), typed, mode)),
        }),
{
    let fields = match decode_multipart(body, boundary) {
        Ok(f) => f,
        Err(e) => {
            return Err(e);
        },
    };
    let ghost decoded = fields.deep_view();
    let typed = match parse_json_fields(expected, &fields) {
        Ok(f) => f,
        Err(e) => {
            return Err(e);
        },
    };
    let ghost typed_view = typed.deep_view();
    let ms = compare_form(expected, &typed, mode);
    proof {
        assert(spec_fields_correspond(expected.deep_view(), decoded, typed_view) && ms.deep_view()
            == spec_compare_form(expected.deep_view(), typed_view, mode));
    }
    Ok(ms)
}

} // verus!
