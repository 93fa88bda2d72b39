//! The multipart form comparator: an expected form is an ordered list of
//! field specifications (a plain value, or a file with a name, a content
//! type and a raw, textual or JSON body); the actual side is a list of
//! decoded field records. Fields are matched by first occurrence per name;
//! file JSON bodies are delegated to the JSON structural differ under the
//! form path; in `Exact` mode actual fields outside the expected list are
//! flagged.

use vstd::prelude::*;

use crate::bytes::{bytes_eq, clone_bytes, str_vec, StringSliceAdditionalSpecFns};
use crate::json::{json_equiv, json_wf, JsonV, JsonValue};
use crate::jsondiff::{diff_json, lemma_diff_json_empty_iff_equiv, lemma_diff_json_mode_monotone,
    spec_diff_json};
use crate::jsontext::{render_json, spec_render_json};
use crate::model::{lemma_concat_contains, mismatch, mismatch_diff, spec_mismatch,
    spec_mismatch_diff, Mismatch, MismatchKind, MismatchV, Mode, PathSeg, PathSegV};
use crate::text::{spec_word_diff, word_diff};

verus! {

broadcast use vstd::seq::group_seq_axioms, crate::bytes::lemma_deep_view_bytes;

/// The declared body of an expected file field.
#[derive(Debug, PartialEq, Eq)]
pub enum FileBody {
    Raw(Vec<u8>),
    Text(Vec<u8>),
    Json(JsonValue),
}

/// Spec-level file body.
#[verifier::ext_equal]
pub enum FileBodyV {
    Raw(Seq<u8>),
    Text(Seq<u8>),
    Json(JsonV),
}

impl View for FileBody {
    type V = FileBodyV;

    open spec fn view(&self) -> FileBodyV {
        match self {
            FileBody::Raw(b) => FileBodyV::Raw(b@),
            FileBody::Text(t) => FileBodyV::Text(t@),
            FileBody::Json(v) => FileBodyV::Json(v@),
        }
    }
}

/// What one expected form field must hold: a plain textual value, or a file
/// with its filename, content type and body.
#[derive(Debug, PartialEq, Eq)]
pub enum FormFieldSpec {
    Value(Vec<u8>),
    File { filename: Vec<u8>, content_type: Vec<u8>, body: FileBody },
}

/// Spec-level field specification.
#[verifier::ext_equal]
pub enum FormFieldSpecV {
    Value(Seq<u8>),
    File { filename: Seq<u8>, content_type: Seq<u8>, body: FileBodyV },
}

impl View for FormFieldSpec {
    type V = FormFieldSpecV;

    open spec fn view(&self) -> FormFieldSpecV {
        match self {
            FormFieldSpec::Value(t) => FormFieldSpecV::Value(t@),
            FormFieldSpec::File { filename, content_type, body } => FormFieldSpecV::File {
                filename: filename@,
                content_type: content_type@,
                body: body@,
            },
        }
    }
}

/// One expected form field: a name and its specification. Names need not be
/// unique; the comparator matches by first occurrence per name.
#[derive(Debug, PartialEq, Eq)]
pub struct FormField {
    pub name: Vec<u8>,
    pub expectation: FormFieldSpec,
}

/// Spec-level form field.
#[verifier::ext_equal]
pub struct FormFieldV {
    pub name: Seq<u8>,
    pub expectation: FormFieldSpecV,
}

impl View for FormField {
    type V = FormFieldV;

    open spec fn view(&self) -> FormFieldV {
        FormFieldV { name: self.name@, expectation: self.expectation@ }
    }
}

impl DeepView for FormField {
    type V = FormFieldV;

    open spec fn deep_view(&self) -> FormFieldV {
        self@
    }
}

/// The body of a decoded actual field: raw bytes, or an already-parsed JSON
/// tree where the expected specification declared a JSON file body.
#[derive(Debug, PartialEq, Eq)]
pub enum FieldBody {
    Bytes(Vec<u8>),
    Json(JsonValue),
}

/// Spec-level actual field body.
#[verifier::ext_equal]
pub enum FieldBodyV {
    Bytes(Seq<u8>),
    Json(JsonV),
}

impl View for FieldBody {
    type V = FieldBodyV;

    open spec fn view(&self) -> FieldBodyV {
        match self {
            FieldBody::Bytes(b) => FieldBodyV::Bytes(b@),
            FieldBody::Json(v) => FieldBodyV::Json(v@),
        }
    }
}

/// One decoded actual field record, as the multipart decoder hands it out.
#[derive(Debug, PartialEq, Eq)]
pub struct ActualField {
    pub name: Vec<u8>,
    pub filename: Option<Vec<u8>>,
    pub content_type: Option<Vec<u8>>,
    pub body: FieldBody,
}

/// Spec-level actual field record.
#[verifier::ext_equal]
pub struct ActualFieldV {
    pub name: Seq<u8>,
    pub filename: Option<Seq<u8>>,
    pub content_type: Option<Seq<u8>>,
    pub body: FieldBodyV,
}

pub open spec fn opt_bytes_view(o: Option<Vec<u8>>) -> Option<Seq<u8>> {
    match o {
        Option::Some(v) => Option::Some(v@),
        Option::None => Option::None,
    }
}

impl View for ActualField {
    type V = ActualFieldV;

    open spec fn view(&self) -> ActualFieldV {
        ActualFieldV {
            name: self.name@,
            filename: opt_bytes_view(self.filename),
            content_type: opt_bytes_view(self.content_type),
            body: self.body@,
        }
    }
}

impl DeepView for ActualField {
    type V = ActualFieldV;

    open spec fn deep_view(&self) -> ActualFieldV {
        self@
    }
}

/// The comparable bytes of an actual field body: raw bytes as they stand, a
/// parsed JSON tree through its compact rendering.
pub open spec fn spec_body_bytes(b: FieldBodyV) -> Seq<u8> {
    match b {
        FieldBodyV::Bytes(x) => x,
        FieldBodyV::Json(v) => spec_render_json(v),
    }
}

/// The first actual field named `name` at position `i` or later, if any.
pub open spec fn spec_field_lookup(actual: Seq<ActualFieldV>, name: Seq<u8>, i: int) -> Option<
    ActualFieldV,
>
    decreases actual.len() - i,
{
    if i < 0 || i >= actual.len() {
        Option::None
    } else if actual[i].name == name {
        Option::Some(actual[i])
    } else {
        spec_field_lookup(actual, name, i + 1)
    }
}

/// Whether some expected field at position `i` or later is named `n`.
pub open spec fn spec_form_has_name(expected: Seq<FormFieldV>, n: Seq<u8>, i: int) -> bool
    decreases expected.len() - i,
{
    if i < 0 || i >= expected.len() {
        false
    } else {
        expected[i].name == n || spec_form_has_name(expected, n, i + 1)
    }
}

/// The path of a form field mismatch: `form.<name>`.
pub open spec fn spec_form_path(name: Seq<u8>) -> Seq<PathSegV> {
    seq![PathSegV::Field("form".spec_bytes()), PathSegV::Field(name)]
}

/// The base path of a file JSON body comparison: `form.<name>.json`.
pub open spec fn spec_form_json_path(name: Seq<u8>) -> Seq<PathSegV> {
    spec_form_path(name) + seq![PathSegV::Field("json".spec_bytes())]
}

/// Display text of an expected field for a missing-field mismatch: the value
/// for a plain field, the filename for a file field.
pub open spec fn spec_expect_text(f: FormFieldSpecV) -> Seq<u8> {
    match f {
        FormFieldSpecV::Value(t) => t,
        FormFieldSpecV::File { filename, .. } => filename,
    }
}

/// The mismatches of one matched field pair: value comparison for plain
/// fields; filename, content type and body comparison for file fields, the
/// body dispatched on the declared type.
pub open spec fn spec_field_mismatches(f: FormFieldV, af: ActualFieldV, mode: Mode) -> Seq<
    MismatchV,
> {
    let path = spec_form_path(f.name);
    match f.expectation {
        FormFieldSpecV::Value(t) => {
            let b = spec_body_bytes(af.body);
            if b == t {
                Seq::empty()
            } else {
                seq![spec_mismatch_diff(path, MismatchKind::FormValueMismatch, t, b,
                    spec_word_diff(t, b))]
            }
        },
        FormFieldSpecV::File { filename, content_type, body } => (match af.filename {
            Option::Some(an) => if an == filename {
                Seq::empty()
            } else {
                seq![spec_mismatch(path, MismatchKind::FileNameMismatch, filename, an)]
            },
            Option::None => seq![spec_mismatch(path, MismatchKind::FileNameMismatch, filename,
                Seq::empty())],
        }) + (match af.content_type {
            Option::Some(ac) => if ac == content_type {
                Seq::empty()
            } else {
                seq![spec_mismatch(path, MismatchKind::FileContentTypeMismatch, content_type,
                    ac)]
            },
            Option::None => seq![spec_mismatch(path, MismatchKind::FileContentTypeMismatch,
                content_type, Seq::empty())],
        }) + (match body {
            FileBodyV::Raw(rb) => {
                let ab = spec_body_bytes(af.body);
                if ab == rb {
                    Seq::empty()
                } else {
                    seq![spec_mismatch(path, MismatchKind::FileRawMismatch, rb, ab)]
                }
            },
            FileBodyV::Text(tb) => {
                let ab = spec_body_bytes(af.body);
                if ab == tb {
                    Seq::empty()
                } else {
                    seq![spec_mismatch_diff(path, MismatchKind::FileTextMismatch, tb, ab,
                        spec_word_diff(tb, ab))]
                }
            },
            FileBodyV::Json(jv) => match af.body {
                FieldBodyV::Json(av) => spec_diff_json(jv, av, spec_form_json_path(f.name), mode),
                FieldBodyV::Bytes(b) => seq![spec_mismatch(path, MismatchKind::FileJsonInvalid,
                    spec_render_json(jv), b)],
            },
        }),
    }
}

/// The mismatches of the expected fields from position `i` on, in expected
/// declaration order.
pub open spec fn spec_compare_fields(
    expected: Seq<FormFieldV>,
    actual: Seq<ActualFieldV>,
    mode: Mode,
    i: int,
) -> Seq<MismatchV>
    decreases expected.len() - i,
{
    if i < 0 || i >= expected.len() {
        Seq::empty()
    } else {
        (match spec_field_lookup(actual, expected[i].name, 0) {
            Option::Some(af) => spec_field_mismatches(expected[i], af, mode),
            Option::None => seq![spec_mismatch(spec_form_path(expected[i].name),
                MismatchKind::FormFieldMissing, spec_expect_text(expected[i].expectation),
                Seq::empty())],
        }) + spec_compare_fields(expected, actual, mode, i + 1)
    }
}

/// The unexpected-field mismatches, in actual order: actual fields whose
/// name no expected field carries. Reported in `Exact` mode only.
pub open spec fn spec_unexpected_fields(
    expected: Seq<FormFieldV>,
    actual: Seq<ActualFieldV>,
    i: int,
) -> Seq<MismatchV>
    decreases actual.len() - i,
{
    if i < 0 || i >= actual.len() {
        Seq::empty()
    } else if spec_form_has_name(expected, actual[i].name, 0) {
        spec_unexpected_fields(expected, actual, i + 1)
    } else {
        seq![spec_mismatch(spec_form_path(actual[i].name), MismatchKind::FormFieldUnexpected,
            Seq::empty(), spec_body_bytes(actual[i].body))] + spec_unexpected_fields(
            expected,
            actual,
            i + 1,
        )
    }
}

/// All form mismatches: the expected fields in declaration order, then, in
/// `Exact` mode, the unexpected actual fields in actual order.
pub open spec fn spec_compare_form(
    expected: Seq<FormFieldV>,
    actual: Seq<ActualFieldV>,
    mode: Mode,
) -> Seq<MismatchV> {
    spec_compare_fields(expected, actual, mode, 0) + if mode == Mode::Exact {
        spec_unexpected_fields(expected, actual, 0)
    } else {
        Seq::empty()
    }
}

fn form_path(name: &Vec<u8>) -> (r: Vec<PathSeg>)
    ensures
        r.deep_view() == spec_form_path(name@),
{
    let mut out: Vec<PathSeg> = Vec::new();
    out.push(PathSeg::Field(str_vec("form")));
    out.push(PathSeg::Field(clone_bytes(name)));
    proof {
        assert(out.deep_view() =~~= spec_form_path(name@));
    }
    out
}

fn form_json_path(name: &Vec<u8>) -> (r: Vec<PathSeg>)
    ensures
        r.deep_view() == spec_form_json_path(name@),
{
    let mut out = form_path(name);
    out.push(PathSeg::Field(str_vec("json")));
    proof {
        assert(out.deep_view() =~~= spec_form_json_path(name@));
    }
    out
}

/// The comparable bytes of an actual field body.
pub fn body_bytes(b: &FieldBody) -> (r: Vec<u8>)
    ensures
        r@ == spec_body_bytes(b@),
{
    match b {
        FieldBody::Bytes(x) => clone_bytes(x),
        FieldBody::Json(v) => render_json(v),
    }
}

fn field_lookup<'a>(actual: &'a Vec<ActualField>, name: &Vec<u8>, i: usize) -> (r: Option<
    &'a ActualField,
>)
    requires
        i <= actual.len(),
    ensures
        (match r {
            Option::Some(af) => spec_field_lookup(actual.deep_view(), name@, i as int)
                == Option::Some(af@),
            Option::None => spec_field_lookup(actual.deep_view(), name@, i as int) is None,
        }),
    decreases actual.len() - i,
{
    if i == actual.len() {
        return None;
    }
    if bytes_eq(&actual[i].name, name) {
        Some(&actual[i])
    } else {
        field_lookup(actual, name, i + 1)
    }
}

fn form_has_name(expected: &Vec<FormField>, n: &Vec<u8>, i: usize) -> (r: bool)
    requires
        i <= expected.len(),
    ensures
        r == spec_form_has_name(expected.deep_view(), n@, i as int),
    decreases expected.len() - i,
{
    if i == expected.len() {
        return false;
    }
    if bytes_eq(&expected[i].name, n) {
        true
    } else {
        form_has_name(expected, n, i + 1)
    }
}

/// Display text of an expected field specification: the declared value for
/// a plain field, the filename for a file field.
pub fn field_value_text(f: &FormFieldSpec) -> (r: Vec<u8>)
    ensures
        r@ == spec_expect_text(f@),
{
    match f {
        FormFieldSpec::Value(t) => clone_bytes(t),
        FormFieldSpec::File { filename, .. } => clone_bytes(filename),
    }
}

fn field_mismatches(f: &FormField, af: &ActualField, mode: Mode) -> (r: Vec<Mismatch>)
    ensures
        r.deep_view() == spec_field_mismatches(f@, af@, mode),
{
    let mut out: Vec<Mismatch> = Vec::new();
    match &f.expectation {
        FormFieldSpec::Value(t) => {
            let b = body_bytes(&af.body);
            if !bytes_eq(&b, t) {
                let d = word_diff(t, &b);
                out.push(
                    mismatch_diff(
                        form_path(&f.name),
                        MismatchKind::FormValueMismatch,
                        clone_bytes(t),
                        b,
                        d,
                    ),
                );
            }
            proof {
                assert(out.deep_view() =~~= spec_field_mismatches(f@, af@, mode));
            }
        },
        FormFieldSpec::File { filename, content_type, body } => {
            match &af.filename {
                Some(an) => {
                    if !bytes_eq(an, filename) {
                        out.push(
                            mismatch(
                                form_path(&f.name),
                                MismatchKind::FileNameMismatch,
                                clone_bytes(filename),
                                clone_bytes(an),
                            ),
                        );
                    }
                },
                None => {
                    out.push(
                        mismatch(
                            form_path(&f.name),
                            MismatchKind::FileNameMismatch,
                            clone_bytes(filename),
                            Vec::new(),
                        ),
                    );
                },
            }
            match &af.content_type {
                Some(ac) => {
                    if !bytes_eq(ac, content_type) {
                        out.push(
                            mismatch(
                                form_path(&f.name),
                                MismatchKind::FileContentTypeMismatch,
                                clone_bytes(content_type),
                                clone_bytes(ac),
                            ),
                        );
                    }
                },
                None => {
                    out.push(
                        mismatch(
                            form_path(&f.name),
                            MismatchKind::FileContentTypeMismatch,
                            clone_bytes(content_type),
                            Vec::new(),
                        ),
                    );
                },
            }
            match body {
                FileBody::Raw(rb) => {
                    let ab = body_bytes(&af.body);
                    if !bytes_eq(&ab, rb) {
                        out.push(
                            mismatch(
                                form_path(&f.name),
                                MismatchKind::FileRawMismatch,
                                clone_bytes(rb),
                                ab,
                            ),
                        );
                    }
                },
                FileBody::Text(tb) => {
                    let ab = body_bytes(&af.body);
                    if !bytes_eq(&ab, tb) {
                        let d = word_diff(tb, &ab);
                        out.push(
                            mismatch_diff(
                                form_path(&f.name),
                                MismatchKind::FileTextMismatch,
                                clone_bytes(tb),
                                ab,
                                d,
                            ),
                        );
                    }
                },
                FileBody::Json(jv) => {
                    match &af.body {
                        FieldBody::Json(av) => {
                            let p = form_json_path(&f.name);
                            let mut inner = diff_json(jv, av, &p, mode);
                            out.append(&mut inner);
                        },
                        FieldBody::Bytes(b) => {
                            out.push(
                                mismatch(
                                    form_path(&f.name),
                                    MismatchKind::FileJsonInvalid,
                                    render_json(jv),
                                    clone_bytes(b),
                                ),
                            );
                        },
                    }
                },
            }
            proof {
                assert(out.deep_view() =~~= spec_field_mismatches(f@, af@, mode));
            }
        },
    }
    out
}

fn compare_fields(expected: &Vec<FormField>, actual: &Vec<ActualField>, mode: Mode, i: usize) -> (r:
    Vec<Mismatch>)
    requires
        i <= expected.len(),
    ensures
        r.deep_view() == spec_compare_fields(expected.deep_view(), actual.deep_view(), mode, i as int),
    decreases expected.len() - i,
{
    let mut out: Vec<Mismatch> = Vec::new();
    if i == expected.len() {
        proof {
            assert(out.deep_view() =~= spec_compare_fields(
                expected.deep_view(),
                actual.deep_view(),
                mode,
                i as int,
            ));
        }
        return out;
    }
    match field_lookup(actual, &expected[i].name, 0) {
        Some(af) => {
            out = field_mismatches(&expected[i], af, mode);
        },
        None => {
            out.push(
                mismatch(
                    form_path(&expected[i].name),
                    MismatchKind::FormFieldMissing,
                    field_value_text(&expected[i].expectation),
                    Vec::new(),
                ),
            );
        },
    }
    let mut rest = compare_fields(expected, actual, mode, i + 1);
    out.append(&mut rest);
    proof {
        assert(out.deep_view() =~~= spec_compare_fields(
            expected.deep_view(),
            actual.deep_view(),
            mode,
            i as int,
        ));
    }
    out
}

fn unexpected_fields(expected: &Vec<FormField>, actual: &Vec<ActualField>, i: usize) -> (r: Vec<
    Mismatch,
>)
    requires
        i <= actual.len(),
    ensures
        r.deep_view() == spec_unexpected_fields(expected.deep_view(), actual.deep_view(), i as int),
    decreases actual.len() - i,
{
    let mut out: Vec<Mismatch> = Vec::new();
    if i == actual.len() {
        proof {
            assert(out.deep_view() =~= spec_unexpected_fields(
                expected.deep_view(),
                actual.deep_view(),
                i as int,
            ));
        }
        return out;
    }
    if !form_has_name(expected, &actual[i].name, 0) {
        out.push(
            mismatch(
                form_path(&actual[i].name),
                MismatchKind::FormFieldUnexpected,
                Vec::new(),
                body_bytes(&actual[i].body),
            ),
        );
    }
    let mut rest = unexpected_fields(expected, actual, i + 1);
    out.append(&mut rest);
    proof {
        assert(out.deep_view() =~~= spec_unexpected_fields(
            expected.deep_view(),
            actual.deep_view(),
            i as int,
        ));
    }
    out
}

/// Compares an expected form against the decoded actual fields under a mode
/// and returns every discrepancy, in a deterministic order: the expected
/// fields in declaration order, then, in `Exact` mode, the unexpected actual
/// fields. The list is empty exactly when the form passes.
pub fn compare_form(expected: &Vec<FormField>, actual: &Vec<ActualField>, mode: Mode) -> (r: Vec<
    Mismatch,
>)
    ensures
        r.deep_view() == spec_compare_form(expected.deep_view(), actual.deep_view(), mode),
{
    let mut out = compare_fields(expected, actual, mode, 0);
    if mode == Mode::Exact {
        let mut extra = unexpected_fields(expected, actual, 0);
        out.append(&mut extra);
    }
    proof {
        assert(out.deep_view() =~~= spec_compare_form(
            expected.deep_view(),
            actual.deep_view(),
            mode,
        ));
    }
    out
}

/// One matched field pair holds: the plain value agrees, or all three file
/// facets agree, the JSON body up to structural equivalence under the mode.
pub open spec fn spec_field_ok(f: FormFieldV, af: ActualFieldV, mode: Mode) -> bool {
    match f.expectation {
        FormFieldSpecV::Value(t) => spec_body_bytes(af.body) == t,
        FormFieldSpecV::File { filename, content_type, body } => af.filename == Option::Some(
            filename,
        ) && af.content_type == Option::Some(content_type) && (match body {
            FileBodyV::Raw(rb) => spec_body_bytes(af.body) == rb,
            FileBodyV::Text(tb) => spec_body_bytes(af.body) == tb,
            FileBodyV::Json(jv) => match af.body {
                FieldBodyV::Json(av) => json_equiv(jv, av, mode),
                FieldBodyV::Bytes(_) => false,
            },
        }),
    }
}

/// The form passes: every expected field is matched by an actual field that
/// holds, and in `Exact` mode every actual field's name is expected.
pub open spec fn form_pass(
    expected: Seq<FormFieldV>,
    actual: Seq<ActualFieldV>,
    mode: Mode,
) -> bool {
    (forall|j: int| #![trigger expected[j]]
        0 <= j < expected.len() ==> match spec_field_lookup(actual, expected[j].name, 0) {
            Option::Some(af) => spec_field_ok(expected[j], af, mode),
            Option::None => false,
        }) && (mode == Mode::Exact ==> forall|j: int| #![trigger actual[j]]
        0 <= j < actual.len() ==> spec_form_has_name(expected, actual[j].name, 0))
}

proof fn lemma_field_mismatches_empty(f: FormFieldV, af: ActualFieldV, mode: Mode)
    ensures
        (spec_field_mismatches(f, af, mode).len() == 0) <==> spec_field_ok(f, af, mode),
{
    match f.expectation {
        FormFieldSpecV::Value(_) => {},
        FormFieldSpecV::File { filename, content_type, body } => {
            match body {
                FileBodyV::Json(jv) => {
                    match af.body {
                        FieldBodyV::Json(av) => {
                            lemma_diff_json_empty_iff_equiv(
                                jv,
                                av,
                                spec_form_json_path(f.name),
                                mode,
                            );
                        },
                        FieldBodyV::Bytes(_) => {},
                    }
                },
                _ => {},
            }
        },
    }
}

proof fn lemma_compare_fields_empty(
    expected: Seq<FormFieldV>,
    actual: Seq<ActualFieldV>,
    mode: Mode,
    i: int,
)
    requires
        0 <= i,
    ensures
        (spec_compare_fields(expected, actual, mode, i).len() == 0) <==> (forall|j: int|
            #![trigger expected[j]]
            i <= j < expected.len() ==> match spec_field_lookup(actual, expected[j].name, 0) {
                Option::Some(af) => spec_field_ok(expected[j], af, mode),
                Option::None => false,
            }),
    decreases expected.len() - i,
{
    if i < expected.len() {
        match spec_field_lookup(actual, expected[i].name, 0) {
            Option::Some(af) => {
                lemma_field_mismatches_empty(expected[i], af, mode);
            },
            Option::None => {},
        }
        lemma_compare_fields_empty(expected, actual, mode, i + 1);
    }
}

proof fn lemma_unexpected_empty(expected: Seq<FormFieldV>, actual: Seq<ActualFieldV>, i: int)
    requires
        0 <= i,
    ensures
        (spec_unexpected_fields(expected, actual, i).len() == 0) <==> (forall|j: int|
            #![trigger actual[j]]
            i <= j < actual.len() ==> spec_form_has_name(expected, actual[j].name, 0)),
    decreases actual.len() - i,
{
    if i < actual.len() {
        lemma_unexpected_empty(expected, actual, i + 1);
    }
}

/// The form comparator reports nothing exactly when the form passes under
/// the mode: an empty mismatch list is a pass.
pub proof fn lemma_compare_form_empty_iff_pass(
    expected: Seq<FormFieldV>,
    actual: Seq<ActualFieldV>,
    mode: Mode,
)
    ensures
        (spec_compare_form(expected, actual, mode).len() == 0) <==> form_pass(
            expected,
            actual,
            mode,
        ),
{
    lemma_compare_fields_empty(expected, actual, mode, 0);
    if mode == Mode::Exact {
        lemma_unexpected_empty(expected, actual, 0);
    }
}

proof fn lemma_field_mismatches_monotone(f: FormFieldV, af: ActualFieldV)
    ensures
        forall|m: MismatchV|
            spec_field_mismatches(f, af, Mode::Contains).contains(m) ==> spec_field_mismatches(
                f,
                af,
                Mode::Exact,
            ).contains(m),
{
    match f.expectation {
        FormFieldSpecV::Value(_) => {
            assert(spec_field_mismatches(f, af, Mode::Contains) =~= spec_field_mismatches(
                f,
                af,
                Mode::Exact,
            ));
        },
        FormFieldSpecV::File { filename, content_type, body } => {
            match body {
                FileBodyV::Json(jv) => {
                    match af.body {
                        FieldBodyV::Json(av) => {
                            let p = spec_form_json_path(f.name);
                            lemma_diff_json_mode_monotone(jv, av, p);
                            let meta = (match af.filename {
                                Option::Some(an) => if an == filename {
                                    Seq::<MismatchV>::empty()
                                } else {
                                    seq![spec_mismatch(spec_form_path(f.name),
                                        MismatchKind::FileNameMismatch, filename, an)]
                                },
                                Option::None => seq![spec_mismatch(spec_form_path(f.name),
                                    MismatchKind::FileNameMismatch, filename, Seq::empty())],
                            }) + (match af.content_type {
                                Option::Some(ac) => if ac == content_type {
                                    Seq::<MismatchV>::empty()
                                } else {
                                    seq![spec_mismatch(spec_form_path(f.name),
                                        MismatchKind::FileContentTypeMismatch, content_type, ac)]
                                },
                                Option::None => seq![spec_mismatch(spec_form_path(f.name),
                                    MismatchKind::FileContentTypeMismatch, content_type,
                                    Seq::empty())],
                            });
                            let jc = spec_diff_json(jv, av, p, Mode::Contains);
                            let je = spec_diff_json(jv, av, p, Mode::Exact);
                            assert(spec_field_mismatches(f, af, Mode::Contains) =~= meta + jc);
                            assert(spec_field_mismatches(f, af, Mode::Exact) =~= meta + je);
                            assert forall|m: MismatchV|
                                spec_field_mismatches(f, af, Mode::Contains).contains(
                                    m,
                                ) implies spec_field_mismatches(f, af, Mode::Exact).contains(
                                m,
                            ) by {
                                lemma_concat_contains(meta, jc, m);
                                lemma_concat_contains(meta, je, m);
                            }
                        },
                        FieldBodyV::Bytes(_) => {
                            assert(spec_field_mismatches(f, af, Mode::Contains)
                                =~= spec_field_mismatches(f, af, Mode::Exact));
                        },
                    }
                },
                _ => {
                    assert(spec_field_mismatches(f, af, Mode::Contains) =~= spec_field_mismatches(
                        f,
                        af,
                        Mode::Exact,
                    ));
                },
            }
        },
    }
}

proof fn lemma_compare_fields_monotone(
    expected: Seq<FormFieldV>,
    actual: Seq<ActualFieldV>,
    i: int,
)
    requires
        0 <= i,
    ensures
        forall|m: MismatchV|
            spec_compare_fields(expected, actual, Mode::Contains, i).contains(m)
                ==> spec_compare_fields(expected, actual, Mode::Exact, i).contains(m),
    decreases expected.len() - i,
{
    if i < expected.len() {
        let hc = match spec_field_lookup(actual, expected[i].name, 0) {
            Option::Some(af) => spec_field_mismatches(expected[i], af, Mode::Contains),
            Option::None => seq![spec_mismatch(spec_form_path(expected[i].name),
                MismatchKind::FormFieldMissing, spec_expect_text(expected[i].expectation),
                Seq::empty())],
        };
        let he = match spec_field_lookup(actual, expected[i].name, 0) {
            Option::Some(af) => spec_field_mismatches(expected[i], af, Mode::Exact),
            Option::None => seq![spec_mismatch(spec_form_path(expected[i].name),
                MismatchKind::FormFieldMissing, spec_expect_text(expected[i].expectation),
                Seq::empty())],
        };
        match spec_field_lookup(actual, expected[i].name, 0) {
            Option::Some(af) => {
                lemma_field_mismatches_monotone(expected[i], af);
            },
            Option::None => {},
        }
        lemma_compare_fields_monotone(expected, actual, i + 1);
        let rc = spec_compare_fields(expected, actual, Mode::Contains, i + 1);
        let re = spec_compare_fields(expected, actual, Mode::Exact, i + 1);
        assert forall|m: MismatchV|
            spec_compare_fields(expected, actual, Mode::Contains, i).contains(
                m,
            ) implies spec_compare_fields(expected, actual, Mode::Exact, i).contains(m) by {
            lemma_concat_contains(hc, rc, m);
            lemma_concat_contains(he, re, m);
        }
    }
}

/// Mode monotonicity: every mismatch the form comparator reports in
/// `Contains` mode is also reported in `Exact` mode for the same inputs;
/// `Exact` mode may only add surplus-related mismatches.
pub proof fn lemma_compare_form_mode_monotone(expected: Seq<FormFieldV>, actual: Seq<ActualFieldV>)
    ensures
        forall|m: MismatchV|
            spec_compare_form(expected, actual, Mode::Contains).contains(m) ==> spec_compare_form(
                expected,
                actual,
                Mode::Exact,
            ).contains(m),
{
    lemma_compare_fields_monotone(expected, actual, 0);
    let cc = spec_compare_fields(expected, actual, Mode::Contains, 0);
    let ce = spec_compare_fields(expected, actual, Mode::Exact, 0);
    let ue = spec_unexpected_fields(expected, actual, 0);
    assert forall|m: MismatchV|
        spec_compare_form(expected, actual, Mode::Contains).contains(m) implies spec_compare_form(
        expected,
        actual,
        Mode::Exact,
    ).contains(m) by {
        lemma_concat_contains(cc, Seq::empty(), m);
        lemma_concat_contains(ce, ue, m);
    }
}

proof fn lemma_field_exact_additions(f: FormFieldV, af: ActualFieldV)
    ensures
        forall|m: MismatchV|
            spec_field_mismatches(f, af, Mode::Exact).contains(m) ==> spec_field_mismatches(
                f,
                af,
                Mode::Contains,
            ).contains(m) || m.kind == MismatchKind::ExtraKeys || m.kind
                == MismatchKind::ArrayLengthMismatch,
{
    match f.expectation {
        FormFieldSpecV::Value(_) => {
            assert(spec_field_mismatches(f, af, Mode::Contains) =~= spec_field_mismatches(
                f,
                af,
                Mode::Exact,
            ));
        },
        FormFieldSpecV::File { filename, content_type, body } => {
            match body {
                FileBodyV::Json(jv) => {
                    match af.body {
                        FieldBodyV::Json(av) => {
                            let p = spec_form_json_path(f.name);
                            crate::jsondiff::lemma_diff_json_exact_only_additions(jv, av, p);
                            let meta = (match af.filename {
                                Option::Some(an) => if an == filename {
                                    Seq::<MismatchV>::empty()
                                } else {
                                    seq![spec_mismatch(spec_form_path(f.name),
                                        MismatchKind::FileNameMismatch, filename, an)]
                                },
                                Option::None => seq![spec_mismatch(spec_form_path(f.name),
                                    MismatchKind::FileNameMismatch, filename, Seq::empty())],
                            }) + (match af.content_type {
                                Option::Some(ac) => if ac == content_type {
                                    Seq::<MismatchV>::empty()
                                } else {
                                    seq![spec_mismatch(spec_form_path(f.name),
                                        MismatchKind::FileContentTypeMismatch, content_type, ac)]
                                },
                                Option::None => seq![spec_mismatch(spec_form_path(f.name),
                                    MismatchKind::FileContentTypeMismatch, content_type,
                                    Seq::empty())],
                            });
                            let jc = spec_diff_json(jv, av, p, Mode::Contains);
                            let je = spec_diff_json(jv, av, p, Mode::Exact);
                            assert(spec_field_mismatches(f, af, Mode::Contains) =~= meta + jc);
                            assert(spec_field_mismatches(f, af, Mode::Exact) =~= meta + je);
                            assert forall|m: MismatchV|
                                spec_field_mismatches(f, af, Mode::Exact).contains(
                                    m,
                                ) implies spec_field_mismatches(f, af, Mode::Contains).contains(
                                m,
                            ) || m.kind == MismatchKind::ExtraKeys || m.kind
                                == MismatchKind::ArrayLengthMismatch by {
                                lemma_concat_contains(meta, je, m);
                                lemma_concat_contains(meta, jc, m);
                            }
                        },
                        FieldBodyV::Bytes(_) => {
                            assert(spec_field_mismatches(f, af, Mode::Contains)
                                =~= spec_field_mismatches(f, af, Mode::Exact));
                        },
                    }
                },
                _ => {
                    assert(spec_field_mismatches(f, af, Mode::Contains) =~= spec_field_mismatches(
                        f,
                        af,
                        Mode::Exact,
                    ));
                },
            }
        },
    }
}

proof fn lemma_fields_exact_additions(
    expected: Seq<FormFieldV>,
    actual: Seq<ActualFieldV>,
    i: int,
)
    requires
        0 <= i,
    ensures
        forall|m: MismatchV|
            spec_compare_fields(expected, actual, Mode::Exact, i).contains(m)
                ==> spec_compare_fields(expected, actual, Mode::Contains, i).contains(m) || m.kind
                == MismatchKind::ExtraKeys || m.kind == MismatchKind::ArrayLengthMismatch,
    decreases expected.len() - i,
{
    if i < expected.len() {
        let hc = match spec_field_lookup(actual, expected[i].name, 0) {
            Option::Some(af) => spec_field_mismatches(expected[i], af, Mode::Contains),
            Option::None => seq![spec_mismatch(spec_form_path(expected[i].name),
                MismatchKind::FormFieldMissing, spec_expect_text(expected[i].expectation),
                Seq::empty())],
        };
        let he = match spec_field_lookup(actual, expected[i].name, 0) {
            Option::Some(af) => spec_field_mismatches(expected[i], af, Mode::Exact),
            Option::None => seq![spec_mismatch(spec_form_path(expected[i].name),
                MismatchKind::FormFieldMissing, spec_expect_text(expected[i].expectation),
                Seq::empty())],
        };
        match spec_field_lookup(actual, expected[i].name, 0) {
            Option::Some(af) => {
                lemma_field_exact_additions(expected[i], af);
            },
            Option::None => {},
        }
        lemma_fields_exact_additions(expected, actual, i + 1);
        let rc = spec_compare_fields(expected, actual, Mode::Contains, i + 1);
        let re = spec_compare_fields(expected, actual, Mode::Exact, i + 1);
        assert forall|m: MismatchV|
            spec_compare_fields(expected, actual, Mode::Exact, i).contains(
                m,
            ) implies spec_compare_fields(expected, actual, Mode::Contains, i).contains(m)
            || m.kind == MismatchKind::ExtraKeys || m.kind == MismatchKind::ArrayLengthMismatch by {
            lemma_concat_contains(he, re, m);
            lemma_concat_contains(hc, rc, m);
        }
    }
}

proof fn lemma_unexpected_kinds(expected: Seq<FormFieldV>, actual: Seq<ActualFieldV>, i: int)
    requires
        0 <= i,
    ensures
        forall|m: MismatchV|
            spec_unexpected_fields(expected, actual, i).contains(m) ==> m.kind
                == MismatchKind::FormFieldUnexpected,
    decreases actual.len() - i,
{
    if i < actual.len() {
        lemma_unexpected_kinds(expected, actual, i + 1);
        let rest = spec_unexpected_fields(expected, actual, i + 1);
        if !spec_form_has_name(expected, actual[i].name, 0) {
            let h = seq![spec_mismatch(spec_form_path(actual[i].name),
                MismatchKind::FormFieldUnexpected, Seq::empty(),
                spec_body_bytes(actual[i].body))];
            assert forall|m: MismatchV|
                spec_unexpected_fields(expected, actual, i).contains(m) implies m.kind
                == MismatchKind::FormFieldUnexpected by {
                lemma_concat_contains(h, rest, m);
                assert(rest.contains(m) ==> m.kind == MismatchKind::FormFieldUnexpected);
                if h.contains(m) {
                    let idx = choose|idx: int| 0 <= idx < h.len() && h[idx] == m;
                    assert(m == h[0]);
                }
            }
        } else {
            assert forall|m: MismatchV|
                spec_unexpected_fields(expected, actual, i).contains(m) implies m.kind
                == MismatchKind::FormFieldUnexpected by {
                assert(spec_unexpected_fields(expected, actual, i) == rest);
                assert(rest.contains(m) ==> m.kind == MismatchKind::FormFieldUnexpected);
            }
        }
    }
}

/// The other half of mode monotonicity: what `Exact` mode reports beyond
/// `Contains` mode is confined to the surplus kinds — an unexpected form
/// field, an extra-key summary, or an array length mismatch — which
/// `Contains` mode never reports.
pub proof fn lemma_compare_form_exact_only_additions(
    expected: Seq<FormFieldV>,
    actual: Seq<ActualFieldV>,
)
    ensures
        forall|m: MismatchV|
            spec_compare_form(expected, actual, Mode::Exact).contains(m) ==> spec_compare_form(
                expected,
                actual,
                Mode::Contains,
            ).contains(m) || m.kind == MismatchKind::FormFieldUnexpected || m.kind
                == MismatchKind::ExtraKeys || m.kind == MismatchKind::ArrayLengthMismatch,
{
    lemma_fields_exact_additions(expected, actual, 0);
    lemma_unexpected_kinds(expected, actual, 0);
    let cc = spec_compare_fields(expected, actual, Mode::Contains, 0);
    let ce = spec_compare_fields(expected, actual, Mode::Exact, 0);
    let ue = spec_unexpected_fields(expected, actual, 0);
    assert forall|m: MismatchV|
        spec_compare_form(expected, actual, Mode::Exact).contains(m) implies spec_compare_form(
        expected,
        actual,
        Mode::Contains,
    ).contains(m) || m.kind == MismatchKind::FormFieldUnexpected || m.kind
        == MismatchKind::ExtraKeys || m.kind == MismatchKind::ArrayLengthMismatch by {
        lemma_concat_contains(ce, ue, m);
        lemma_concat_contains(cc, Seq::empty(), m);
    }
}

/// Determinism: the comparator's result is a function of the expected form,
/// the actual field views and the mode alone; two runs on equal inputs agree.
pub proof fn lemma_compare_form_deterministic(
    expected: Seq<FormFieldV>,
    actual: Seq<ActualFieldV>,
    mode: Mode,
    r1: Seq<MismatchV>,
    r2: Seq<MismatchV>,
)
    requires
        r1 == spec_compare_form(expected, actual, mode),
        r2 == spec_compare_form(expected, actual, mode),
    ensures
        r1 == r2,
{
}

/// The canonical actual record that one expected field describes.
pub open spec fn spec_actual_of_field(f: FormFieldV) -> ActualFieldV {
    match f.expectation {
        FormFieldSpecV::Value(t) => ActualFieldV {
            name: f.name,
            filename: Option::None,
            content_type: Option::None,
            body: FieldBodyV::Bytes(t),
        },
        FormFieldSpecV::File { filename, content_type, body } => ActualFieldV {
            name: f.name,
            filename: Option::Some(filename),
            content_type: Option::Some(content_type),
            body: match body {
                FileBodyV::Raw(rb) => FieldBodyV::Bytes(rb),
                FileBodyV::Text(tb) => FieldBodyV::Bytes(tb),
                FileBodyV::Json(jv) => FieldBodyV::Json(jv),
            },
        },
    }
}

/// The canonical actual field list of a whole expected form.
pub open spec fn spec_fields_of(expected: Seq<FormFieldV>) -> Seq<ActualFieldV> {
    Seq::new(expected.len(), |i: int| spec_actual_of_field(expected[i]))
}

/// Well-formedness of an expected form for round-trip idempotence: field
/// names are distinct and declared JSON bodies are well-formed.
pub open spec fn form_expectation_wf(expected: Seq<FormFieldV>) -> bool {
    (forall|i: int, j: int|
        0 <= i < j < expected.len() ==> expected[i].name != expected[j].name) && (forall|i: int|
        #![trigger expected[i]]
        0 <= i < expected.len() ==> match expected[i].expectation {
            FormFieldSpecV::File { body: FileBodyV::Json(jv), .. } => json_wf(jv),
            _ => true,
        })
}

proof fn lemma_fields_lookup_self(expected: Seq<FormFieldV>, i: int, j: int)
    requires
        forall|x: int, y: int|
            0 <= x < y < expected.len() ==> expected[x].name != expected[y].name,
        0 <= j <= i < expected.len(),
    ensures
        spec_field_lookup(spec_fields_of(expected), expected[i].name, j) == Option::Some(
            spec_fields_of(expected)[i],
        ),
    decreases i - j,
{
    if j < i {
        assert(expected[j].name != expected[i].name);
        lemma_fields_lookup_self(expected, i, j + 1);
    }
}

proof fn lemma_form_has_name_self(expected: Seq<FormFieldV>, i: int, j: int)
    requires
        0 <= j <= i < expected.len(),
    ensures
        spec_form_has_name(expected, expected[i].name, j),
    decreases i - j,
{
    if j < i && expected[j].name != expected[i].name {
        lemma_form_has_name_self(expected, i, j + 1);
    }
}

/// Round-trip idempotence: comparing a well-formed expected form against its
/// own canonical actual field list yields no mismatch in either mode.
pub proof fn lemma_compare_form_self_empty(expected: Seq<FormFieldV>, mode: Mode)
    requires
        form_expectation_wf(expected),
    ensures
        spec_compare_form(expected, spec_fields_of(expected), mode).len() == 0,
{
    let actual = spec_fields_of(expected);
    assert forall|j: int| #![trigger expected[j]]
        0 <= j < expected.len() implies match spec_field_lookup(actual, expected[j].name, 0) {
        Option::Some(af) => spec_field_ok(expected[j], af, mode),
        Option::None => false,
    } by {
        lemma_fields_lookup_self(expected, j, 0);
        match expected[j].expectation {
            FormFieldSpecV::File { body: FileBodyV::Json(jv), .. } => {
                crate::json::lemma_json_equiv_refl(jv, mode);
            },
            _ => {},
        }
    }
    if mode == Mode::Exact {
        assert forall|j: int| #![trigger actual[j]]
            0 <= j < actual.len() implies spec_form_has_name(expected, actual[j].name, 0) by {
            lemma_form_has_name_self(expected, j, 0);
        }
    }
    lemma_compare_form_empty_iff_pass(expected, actual, mode);
}

/// Builds the canonical actual field list of an expected form: each field
/// present under its own name, file facets as declared.
pub fn actual_fields_of(expected: &Vec<FormField>) -> (r: Vec<ActualField>)
    ensures
        r.deep_view() == spec_fields_of(expected.deep_view()),
{
    let mut out: Vec<ActualField> = Vec::new();
    let mut i: usize = 0;
    while i < expected.len()
        invariant
            i <= expected.len(),
            out@.len() == i,
            forall|j: int| 0 <= j < i ==> out@[j]@ == spec_actual_of_field(expected@[j]@),
        decreases expected.len() - i,
    {
        let f = &expected[i];
        let af = match &f.expectation {
            FormFieldSpec::Value(t) => ActualField {
                name: clone_bytes(&f.name),
                filename: None,
                content_type: None,
                body: FieldBody::Bytes(clone_bytes(t)),
            },
            FormFieldSpec::File { filename, content_type, body } => ActualField {
                name: clone_bytes(&f.name),
                filename: Some(clone_bytes(filename)),
                content_type: Some(clone_bytes(content_type)),
                body: match body {
                    FileBody::Raw(rb) => FieldBody::Bytes(clone_bytes(rb)),
                    FileBody::Text(tb) => FieldBody::Bytes(clone_bytes(tb)),
                    FileBody::Json(jv) => FieldBody::Json(crate::json::clone_json(jv)),
                },
            },
        };
        out.push(af);
        i = i + 1;
    }
    proof {
        assert(out.deep_view() =~~= spec_fields_of(expected.deep_view()));
    }
    out
}

} // verus!
