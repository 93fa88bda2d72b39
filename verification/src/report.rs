//! The report builder: a deterministic fold over an already-ordered mismatch
//! list into an ordered, numbered report. Lines are grouped by originating
//! phase (headers, then form, then body), each line carries its outline
//! number and a list of text segments tagged with a semantic emphasis class;
//! rendering the tags to terminal styling is a downstream concern.

use vstd::prelude::*;

use crate::bytes::{clone_bytes, dec_u64, spec_dec_nat, spec_hex_byte, push_hex_byte, str_vec,
    StringSliceAdditionalSpecFns};
use crate::model::{render_path, spec_render_path, DiffTag, DiffWordV, Mismatch, MismatchKind,
    MismatchV, PathSeg, PathSegV};

verus! {

broadcast use vstd::seq::group_seq_axioms, crate::bytes::lemma_deep_view_bytes;

/// Semantic emphasis class of one report segment; a downstream renderer maps
/// these to styling.
#[derive(Clone, Copy, PartialEq, Eq, Structural, Debug)]
pub enum Emphasis {
    Label,
    ExpectedValue,
    ActualValue,
    SameWord,
    AddedWord,
    RemovedWord,
}

/// One tagged text segment of a report line.
#[derive(Debug, PartialEq, Eq)]
pub struct Segment {
    pub text: Vec<u8>,
    pub emphasis: Emphasis,
}

/// Spec-level segment.
#[verifier::ext_equal]
pub struct SegmentV {
    pub text: Seq<u8>,
    pub emphasis: Emphasis,
}

impl View for Segment {
    type V = SegmentV;

    open spec fn view(&self) -> SegmentV {
        SegmentV { text: self.text@, emphasis: self.emphasis }
    }
}

impl DeepView for Segment {
    type V = SegmentV;

    open spec fn deep_view(&self) -> SegmentV {
        self@
    }
}

/// One report line: a nested outline number and its segments.
#[derive(Debug, PartialEq, Eq)]
pub struct ReportLine {
    pub number: Vec<usize>,
    pub segments: Vec<Segment>,
}

/// Spec-level report line.
#[verifier::ext_equal]
pub struct ReportLineV {
    pub number: Seq<int>,
    pub segments: Seq<SegmentV>,
}

pub open spec fn nums_view(v: Seq<usize>) -> Seq<int> {
    Seq::new(v.len(), |i: int| v[i] as int)
}

impl View for ReportLine {
    type V = ReportLineV;

    open spec fn view(&self) -> ReportLineV {
        ReportLineV { number: nums_view(self.number@), segments: self.segments.deep_view() }
    }
}

impl DeepView for ReportLine {
    type V = ReportLineV;

    open spec fn deep_view(&self) -> ReportLineV {
        self@
    }
}

/// The rendered report: its ordered lines.
pub struct Report {
    pub lines: Vec<ReportLine>,
}

/// Display message of each mismatch kind.
pub open spec fn spec_kind_message(k: MismatchKind) -> Seq<u8> {
    match k {
        MismatchKind::HeaderMissing => "was expected to be present, but is missing.".spec_bytes(),
        MismatchKind::HeaderValueMismatch => "header value does not match.".spec_bytes(),
        MismatchKind::HeaderUnexpectedPresent => "was expected to be absent, but is present.".spec_bytes(),
        MismatchKind::FormFieldMissing => "is missing from the form.".spec_bytes(),
        MismatchKind::FormValueMismatch => "form value does not match.".spec_bytes(),
        MismatchKind::FormFieldUnexpected => "was not expected to be present in the form.".spec_bytes(),
        MismatchKind::FileNameMismatch => "file name does not match.".spec_bytes(),
        MismatchKind::FileContentTypeMismatch => "file content type does not match.".spec_bytes(),
        MismatchKind::FileRawMismatch => "raw body data does not match.".spec_bytes(),
        MismatchKind::FileTextMismatch => "text body does not match.".spec_bytes(),
        MismatchKind::FileJsonInvalid => "file body is not valid JSON.".spec_bytes(),
        MismatchKind::TypeMismatch => "value type does not match.".spec_bytes(),
        MismatchKind::ValueMismatch => "does not match.".spec_bytes(),
        MismatchKind::KeyMissing => "key is missing.".spec_bytes(),
        MismatchKind::ExtraKeys => "has additional unexpected keys.".spec_bytes(),
        MismatchKind::ArrayLengthMismatch => "array length does not match.".spec_bytes(),
        MismatchKind::ArrayElementMissing => "array element is missing.".spec_bytes(),
        MismatchKind::ArrayElementExtra => "array element was not expected.".spec_bytes(),
    }
}

/// Renders the display message of a mismatch kind.
pub fn kind_message(k: MismatchKind) -> (r: Vec<u8>)
    ensures
        r@ == spec_kind_message(k),
{
    match k {
        MismatchKind::HeaderMissing => str_vec("was expected to be present, but is missing."),
        MismatchKind::HeaderValueMismatch => str_vec("header value does not match."),
        MismatchKind::HeaderUnexpectedPresent => str_vec(
            "was expected to be absent, but is present.",
        ),
        MismatchKind::FormFieldMissing => str_vec("is missing from the form."),
        MismatchKind::FormValueMismatch => str_vec("form value does not match."),
        MismatchKind::FormFieldUnexpected => str_vec(
            "was not expected to be present in the form.",
        ),
        MismatchKind::FileNameMismatch => str_vec("file name does not match."),
        MismatchKind::FileContentTypeMismatch => str_vec("file content type does not match."),
        MismatchKind::FileRawMismatch => str_vec("raw body data does not match."),
        MismatchKind::FileTextMismatch => str_vec("text body does not match."),
        MismatchKind::FileJsonInvalid => str_vec("file body is not valid JSON."),
        MismatchKind::TypeMismatch => str_vec("value type does not match."),
        MismatchKind::ValueMismatch => str_vec("does not match."),
        MismatchKind::KeyMissing => str_vec("key is missing."),
        MismatchKind::ExtraKeys => str_vec("has additional unexpected keys."),
        MismatchKind::ArrayLengthMismatch => str_vec("array length does not match."),
        MismatchKind::ArrayElementMissing => str_vec("array element is missing."),
        MismatchKind::ArrayElementExtra => str_vec("array element was not expected."),
    }
}

/// The hex items of a byte list, comma-separated: `0x01, 0x02`.
pub open spec fn spec_hex_items(s: Seq<u8>, i: int) -> Seq<u8>
    decreases s.len() - i,
{
    if i < 0 || i >= s.len() {
        Seq::empty()
    } else {
        (if i > 0 {
            seq![0x2cu8, 0x20u8]
        } else {
            Seq::empty()
        }) + seq![0x30u8, 0x78u8] + spec_hex_byte(s[i]) + spec_hex_items(s, i + 1)
    }
}

/// A raw byte value as displayed: its length, then every byte in hex, for
/// example `3 bytes [0x01, 0x02, 0x03]`.
pub open spec fn spec_raw_text(s: Seq<u8>) -> Seq<u8> {
    spec_dec_nat(s.len()) + " bytes [".spec_bytes() + spec_hex_items(s, 0) + seq![0x5du8]
}

fn hex_items_into(out: &mut Vec<u8>, s: &Vec<u8>, i: usize)
    requires
        i <= s.len(),
    ensures
        final(out)@ == old(out)@ + spec_hex_items(s@, i as int),
    decreases s.len() - i,
{
    let ghost init = out@;
    if i == s.len() {
        proof {
            assert(init + spec_hex_items(s@, i as int) =~= out@);
        }
        return;
    }
    if i > 0 {
        out.push(0x2c);
        out.push(0x20);
    }
    out.push(0x30);
    out.push(0x78);
    push_hex_byte(out, s[i]);
    hex_items_into(out, s, i + 1);
    proof {
        assert(out@ =~= init + spec_hex_items(s@, i as int));
    }
}

/// Renders a raw byte value for display.
pub fn raw_text(s: &Vec<u8>) -> (r: Vec<u8>)
    ensures
        r@ == spec_raw_text(s@),
{
    let mut out = dec_u64(s.len() as u64);
    let mut label = str_vec(" bytes [");
    out.append(&mut label);
    hex_items_into(&mut out, s, 0);
    out.push(0x5d);
    proof {
        assert(out@ =~= spec_raw_text(s@));
    }
    out
}

/// The names of a summary mismatch, comma-separated.
pub open spec fn spec_join_names(names: Seq<Seq<u8>>, i: int) -> Seq<u8>
    decreases names.len() - i,
{
    if i < 0 || i >= names.len() {
        Seq::empty()
    } else {
        (if i > 0 {
            seq![0x2cu8, 0x20u8]
        } else {
            Seq::empty()
        }) + names[i] + spec_join_names(names, i + 1)
    }
}

/// A key-surplus summary as displayed: the count, then the key names, for
/// example `1 additional unexpected key(s) (additional)`.
pub open spec fn spec_names_text(names: Seq<Seq<u8>>) -> Seq<u8> {
    spec_dec_nat(names.len()) + " additional unexpected key(s) (".spec_bytes() + spec_join_names(
        names,
        0,
    ) + seq![0x29u8]
}

fn join_names_into(out: &mut Vec<u8>, names: &Vec<Vec<u8>>, i: usize)
    requires
        i <= names.len(),
    ensures
        final(out)@ == old(out)@ + spec_join_names(names.deep_view(), i as int),
    decreases names.len() - i,
{
    let ghost init = out@;
    if i == names.len() {
        proof {
            assert(init + spec_join_names(names.deep_view(), i as int) =~= out@);
        }
        return;
    }
    if i > 0 {
        out.push(0x2c);
        out.push(0x20);
    }
    let mut n = clone_bytes(&names[i]);
    out.append(&mut n);
    join_names_into(out, names, i + 1);
    proof {
        assert(out@ =~= init + spec_join_names(names.deep_view(), i as int));
    }
}

/// Renders a key-surplus summary for display.
pub fn names_text(names: &Vec<Vec<u8>>) -> (r: Vec<u8>)
    ensures
        r@ == spec_names_text(names.deep_view()),
{
    let mut out = dec_u64(names.len() as u64);
    let mut label = str_vec(" additional unexpected key(s) (");
    out.append(&mut label);
    join_names_into(&mut out, names, 0);
    out.push(0x29);
    proof {
        assert(out@ =~= spec_names_text(names.deep_view()));
    }
    out
}

/// The displayed expected value of a mismatch.
pub open spec fn spec_expected_text(m: MismatchV) -> Seq<u8> {
    if m.kind == MismatchKind::FileRawMismatch {
        spec_raw_text(m.expected)
    } else {
        m.expected
    }
}

/// The displayed actual value of a mismatch.
pub open spec fn spec_actual_text(m: MismatchV) -> Seq<u8> {
    if m.kind == MismatchKind::FileRawMismatch {
        spec_raw_text(m.actual)
    } else if m.kind == MismatchKind::ExtraKeys {
        spec_names_text(m.names)
    } else {
        m.actual
    }
}

/// The inline difference of a textual mismatch as tagged word segments.
pub open spec fn spec_diff_segments(d: Seq<DiffWordV>, i: int) -> Seq<SegmentV>
    decreases d.len() - i,
{
    if i < 0 || i >= d.len() {
        Seq::empty()
    } else {
        seq![SegmentV {
            text: d[i].word,
            emphasis: match d[i].tag {
                DiffTag::Same => Emphasis::SameWord,
                DiffTag::Added => Emphasis::AddedWord,
                DiffTag::Removed => Emphasis::RemovedWord,
            },
        }] + spec_diff_segments(d, i + 1)
    }
}

/// One report line for one mismatch: its outline number, then the path, the
/// message, the expected and actual values, and any inline word difference.
pub open spec fn spec_line(m: MismatchV, num: int, k: int) -> ReportLineV {
    ReportLineV {
        number: seq![num, k],
        segments: seq![
            SegmentV { text: spec_render_path(m.path), emphasis: Emphasis::Label },
            SegmentV { text: spec_kind_message(m.kind), emphasis: Emphasis::Label },
            SegmentV { text: spec_expected_text(m), emphasis: Emphasis::ExpectedValue },
            SegmentV { text: spec_actual_text(m), emphasis: Emphasis::ActualValue },
        ] + spec_diff_segments(m.diff, 0),
    }
}

/// The originating phase of a mismatch, read off its path: headers, form, or
/// body.
pub open spec fn spec_phase(m: MismatchV) -> int {
    if m.path.len() > 0 && m.path[0] == PathSegV::Field("header".spec_bytes()) {
        0
    } else if m.path.len() > 0 && m.path[0] == PathSegV::Field("form".spec_bytes()) {
        1
    } else {
        2
    }
}

/// The lines of one phase, numbered `num.k` with `k` counting matches from
/// `k0` on.
pub open spec fn spec_phase_lines(ms: Seq<MismatchV>, phase: int, num: int, i: int, k0: int) -> Seq<
    ReportLineV,
>
    decreases ms.len() - i,
{
    if i < 0 || i >= ms.len() {
        Seq::empty()
    } else if spec_phase(ms[i]) == phase {
        seq![spec_line(ms[i], num, k0)] + spec_phase_lines(ms, phase, num, i + 1, k0 + 1)
    } else {
        spec_phase_lines(ms, phase, num, i + 1, k0)
    }
}

/// The whole report: the header-phase lines, then the form-phase lines, then
/// the body-phase lines, in mismatch order within each phase.
pub open spec fn spec_render_report(ms: Seq<MismatchV>) -> Seq<ReportLineV> {
    spec_phase_lines(ms, 0, 1, 0, 1) + spec_phase_lines(ms, 1, 2, 0, 1) + spec_phase_lines(
        ms,
        2,
        3,
        0,
        1,
    )
}

fn phase_of(m: &Mismatch) -> (r: u8)
    ensures
        r as int == spec_phase(m@),
{
    if m.path.len() > 0 {
        match &m.path[0] {
            PathSeg::Field(n) => {
                let header = str_vec("header");
                let form = str_vec("form");
                if crate::bytes::bytes_eq(n, &header) {
                    proof {
                        assert(m@.path[0] == m.path@[0]@);
                    }
                    0
                } else if crate::bytes::bytes_eq(n, &form) {
                    proof {
                        assert(m@.path[0] == m.path@[0]@);
                    }
                    1
                } else {
                    proof {
                        assert(m@.path[0] == m.path@[0]@);
                    }
                    2
                }
            },
            PathSeg::Index(_) => {
                proof {
                    assert(m@.path[0] == m.path@[0]@);
                }
                2
            },
        }
    } else {
        2
    }
}

fn expected_text(m: &Mismatch) -> (r: Vec<u8>)
    ensures
        r@ == spec_expected_text(m@),
{
    if matches!(m.kind, MismatchKind::FileRawMismatch) {
        raw_text(&m.expected)
    } else {
        clone_bytes(&m.expected)
    }
}

fn actual_text(m: &Mismatch) -> (r: Vec<u8>)
    ensures
        r@ == spec_actual_text(m@),
{
    if matches!(m.kind, MismatchKind::FileRawMismatch) {
        raw_text(&m.actual)
    } else if matches!(m.kind, MismatchKind::ExtraKeys) {
        names_text(&m.names)
    } else {
        clone_bytes(&m.actual)
    }
}

fn line_for(m: &Mismatch, num: usize, k: usize) -> (r: ReportLine)
    ensures
        r@ == spec_line(m@, num as int, k as int),
{
    let mut number: Vec<usize> = Vec::new();
    number.push(num);
    number.push(k);
    let mut segments: Vec<Segment> = Vec::new();
    segments.push(Segment { text: render_path(&m.path), emphasis: Emphasis::Label });
    segments.push(Segment { text: kind_message(m.kind), emphasis: Emphasis::Label });
    segments.push(Segment { text: expected_text(m), emphasis: Emphasis::ExpectedValue });
    segments.push(Segment { text: actual_text(m), emphasis: Emphasis::ActualValue });
    proof {
        lemma_diff_segments_len(m@.diff, 0);
    }
    let mut i: usize = 0;
    while i < m.diff.len()
        invariant
            i <= m.diff.len(),
            segments@.len() == 4 + i,
            segments@[0]@ == (SegmentV { text: spec_render_path(m@.path), emphasis: Emphasis::Label }),
            segments@[1]@ == (SegmentV { text: spec_kind_message(m@.kind), emphasis: Emphasis::Label }),
            segments@[2]@ == (SegmentV {
                text: spec_expected_text(m@),
                emphasis: Emphasis::ExpectedValue,
            }),
            segments@[3]@ == (SegmentV {
                text: spec_actual_text(m@),
                emphasis: Emphasis::ActualValue,
            }),
            forall|j: int| 0 <= j < i ==> segments@[4 + j]@ == spec_diff_segments(m@.diff, 0)[j],
            spec_diff_segments(m@.diff, 0).len() == m@.diff.len(),
        decreases m.diff.len() - i,
    {
        let emphasis = match m.diff[i].tag {
            DiffTag::Same => Emphasis::SameWord,
            DiffTag::Added => Emphasis::AddedWord,
            DiffTag::Removed => Emphasis::RemovedWord,
        };
        segments.push(Segment { text: clone_bytes(&m.diff[i].word), emphasis });
        proof {
            lemma_diff_segments_index(m@.diff, i as int);
        }
        i = i + 1;
    }
    proof {
        assert(segments.deep_view() =~~= seq![
            SegmentV { text: spec_render_path(m@.path), emphasis: Emphasis::Label },
            SegmentV { text: spec_kind_message(m@.kind), emphasis: Emphasis::Label },
            SegmentV { text: spec_expected_text(m@), emphasis: Emphasis::ExpectedValue },
            SegmentV { text: spec_actual_text(m@), emphasis: Emphasis::ActualValue },
        ] + spec_diff_segments(m@.diff, 0));
    }
    let r = ReportLine { number, segments };
    proof {
        assert(nums_view(r.number@) =~= seq![num as int, k as int]);
        assert(r@ =~~= spec_line(m@, num as int, k as int));
    }
    r
}

proof fn lemma_diff_segments_len(d: Seq<DiffWordV>, i: int)
    requires
        0 <= i <= d.len(),
    ensures
        spec_diff_segments(d, i).len() == d.len() - i,
    decreases d.len() - i,
{
    if i < d.len() {
        lemma_diff_segments_len(d, i + 1);
    }
}

proof fn lemma_diff_segments_index(d: Seq<DiffWordV>, j: int)
    requires
        0 <= j < d.len(),
    ensures
        spec_diff_segments(d, 0).len() == d.len(),
        spec_diff_segments(d, 0)[j] == (SegmentV {
            text: d[j].word,
            emphasis: match d[j].tag {
                DiffTag::Same => Emphasis::SameWord,
                DiffTag::Added => Emphasis::AddedWord,
                DiffTag::Removed => Emphasis::RemovedWord,
            },
        }),
{
    lemma_diff_segments_len(d, 0);
    lemma_diff_segments_index_from(d, 0, j);
}

proof fn lemma_diff_segments_index_from(d: Seq<DiffWordV>, i: int, j: int)
    requires
        0 <= i <= j < d.len(),
    ensures
        spec_diff_segments(d, i).len() == d.len() - i,
        spec_diff_segments(d, i)[j - i] == (SegmentV {
            text: d[j].word,
            emphasis: match d[j].tag {
                DiffTag::Same => Emphasis::SameWord,
                DiffTag::Added => Emphasis::AddedWord,
                DiffTag::Removed => Emphasis::RemovedWord,
            },
        }),
    decreases d.len() - i,
{
    lemma_diff_segments_len(d, i);
    if i < j {
        lemma_diff_segments_index_from(d, i + 1, j);
    }
}

fn phase_lines(ms: &Vec<Mismatch>, phase: u8, num: usize, i: usize, k0: usize) -> (r: Vec<
    ReportLine,
>)
    requires
        i <= ms.len(),
        k0 <= i + 1,
        ms.len() < usize::MAX,
    ensures
        r.deep_view() == spec_phase_lines(
            ms.deep_view(),
            phase as int,
            num as int,
            i as int,
            k0 as int,
        ),
    decreases ms.len() - i,
{
    let mut out: Vec<ReportLine> = Vec::new();
    if i == ms.len() {
        proof {
            assert(out.deep_view() =~= spec_phase_lines(
                ms.deep_view(),
                phase as int,
                num as int,
                i as int,
                k0 as int,
            ));
        }
        return out;
    }
    if phase_of(&ms[i]) == phase {
        out.push(line_for(&ms[i], num, k0));
        let mut rest = phase_lines(ms, phase, num, i + 1, k0 + 1);
        out.append(&mut rest);
    } else {
        let mut rest = phase_lines(ms, phase, num, i + 1, k0);
        out.append(&mut rest);
    }
    proof {
        assert(out.deep_view() =~~= spec_phase_lines(
            ms.deep_view(),
            phase as int,
            num as int,
            i as int,
            k0 as int,
        ));
    }
    out
}

/// Builds the report of an ordered mismatch list: one numbered line per
/// mismatch, grouped into the header, form and body phases.
pub fn render_report(ms: &Vec<Mismatch>) -> (r: Report)
    requires
        ms.len() < usize::MAX,
    ensures
        r.lines.deep_view() == spec_render_report(ms.deep_view()),
{
    let mut lines = phase_lines(ms, 0, 1, 0, 1);
    let mut form = phase_lines(ms, 1, 2, 0, 1);
    let mut body = phase_lines(ms, 2, 3, 0, 1);
    lines.append(&mut form);
    lines.append(&mut body);
    proof {
        assert(lines.deep_view() =~~= spec_render_report(ms.deep_view()));
    }
    Report { lines }
}

} // verus!
