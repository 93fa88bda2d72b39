//! The mismatch model: comparison modes, paths that address a location in a
//! nested artifact, and the path-addressed mismatch records the comparators
//! collect. Every type has a spec-level view so contracts can pin results.

use vstd::prelude::*;

use crate::bytes::spec_dec_int;

verus! {

broadcast use vstd::seq::group_seq_axioms, crate::bytes::lemma_deep_view_bytes;

/// Comparison mode: in `Contains` mode the actual artifact may carry keys and
/// fields beyond the expected ones; in `Exact` mode any surplus is itself a
/// mismatch.
#[derive(Clone, Copy, PartialEq, Eq, Structural, Debug)]
pub enum Mode {
    Contains,
    Exact,
}

/// One step into a nested artifact: a named field or key, or an array index.
#[derive(Debug, PartialEq, Eq)]
pub enum PathSeg {
    Field(Vec<u8>),
    Index(usize),
}

/// Spec-level path segment.
#[verifier::ext_equal]
pub enum PathSegV {
    Field(Seq<u8>),
    Index(int),
}

impl View for PathSeg {
    type V = PathSegV;

    open spec fn view(&self) -> PathSegV {
        match self {
            PathSeg::Field(n) => PathSegV::Field(n@),
            PathSeg::Index(i) => PathSegV::Index(*i as int),
        }
    }
}

impl DeepView for PathSeg {
    type V = PathSegV;

    open spec fn deep_view(&self) -> PathSegV {
        self@
    }
}

/// The discrepancy taxonomy of the engine. Header kinds come from the header
/// validator, form and file kinds from the form comparator, the remaining
/// kinds from the JSON structural differ.
#[derive(Clone, Copy, PartialEq, Eq, Structural, Debug)]
pub enum MismatchKind {
    HeaderMissing,
    HeaderValueMismatch,
    HeaderUnexpectedPresent,
    FormFieldMissing,
    FormValueMismatch,
    FormFieldUnexpected,
    FileNameMismatch,
    FileContentTypeMismatch,
    FileRawMismatch,
    FileTextMismatch,
    FileJsonInvalid,
    TypeMismatch,
    ValueMismatch,
    KeyMissing,
    ExtraKeys,
    ArrayLengthMismatch,
    ArrayElementMissing,
    ArrayElementExtra,
}

/// Role of one word inside an inline highlighted difference.
#[derive(Clone, Copy, PartialEq, Eq, Structural, Debug)]
pub enum DiffTag {
    Same,
    Added,
    Removed,
}

/// One word of an inline highlighted difference between two texts.
#[derive(Debug, PartialEq, Eq)]
pub struct DiffWord {
    pub word: Vec<u8>,
    pub tag: DiffTag,
}

/// Spec-level diff word.
#[verifier::ext_equal]
pub struct DiffWordV {
    pub word: Seq<u8>,
    pub tag: DiffTag,
}

impl View for DiffWord {
    type V = DiffWordV;

    open spec fn view(&self) -> DiffWordV {
        DiffWordV { word: self.word@, tag: self.tag }
    }
}

impl DeepView for DiffWord {
    type V = DiffWordV;

    open spec fn deep_view(&self) -> DiffWordV {
        self@
    }
}

/// A single path-addressed discrepancy between the expected and the actual
/// artifact. `names` carries the key or field names of a summary mismatch
/// (`ExtraKeys`), `diff` the inline word difference of a textual mismatch.
#[derive(Debug, PartialEq, Eq)]
pub struct Mismatch {
    pub path: Vec<PathSeg>,
    pub kind: MismatchKind,
    pub expected: Vec<u8>,
    pub actual: Vec<u8>,
    pub names: Vec<Vec<u8>>,
    pub diff: Vec<DiffWord>,
}

/// Spec-level mismatch record.
#[verifier::ext_equal]
pub struct MismatchV {
    pub path: Seq<PathSegV>,
    pub kind: MismatchKind,
    pub expected: Seq<u8>,
    pub actual: Seq<u8>,
    pub names: Seq<Seq<u8>>,
    pub diff: Seq<DiffWordV>,
}

impl View for Mismatch {
    type V = MismatchV;

    open spec fn view(&self) -> MismatchV {
        MismatchV {
            path: self.path.deep_view(),
            kind: self.kind,
            expected: self.expected@,
            actual: self.actual@,
            names: self.names.deep_view(),
            diff: self.diff.deep_view(),
        }
    }
}

impl DeepView for Mismatch {
    type V = MismatchV;

    open spec fn deep_view(&self) -> MismatchV {
        self@
    }
}

/// A plain mismatch record without names or diff words.
pub open spec fn spec_mismatch(
    path: Seq<PathSegV>,
    kind: MismatchKind,
    expected: Seq<u8>,
    actual: Seq<u8>,
) -> MismatchV {
    MismatchV { path, kind, expected, actual, names: Seq::empty(), diff: Seq::empty() }
}

/// A mismatch record carrying an inline word difference.
pub open spec fn spec_mismatch_diff(
    path: Seq<PathSegV>,
    kind: MismatchKind,
    expected: Seq<u8>,
    actual: Seq<u8>,
    diff: Seq<DiffWordV>,
) -> MismatchV {
    MismatchV { path, kind, expected, actual, names: Seq::empty(), diff }
}

/// A summary mismatch record carrying the offending names.
pub open spec fn spec_mismatch_names(
    path: Seq<PathSegV>,
    kind: MismatchKind,
    names: Seq<Seq<u8>>,
) -> MismatchV {
    MismatchV {
        path,
        kind,
        expected: Seq::empty(),
        actual: Seq::empty(),
        names,
        diff: Seq::empty(),
    }
}

/// Builds a plain mismatch record.
pub fn mismatch(path: Vec<PathSeg>, kind: MismatchKind, expected: Vec<u8>, actual: Vec<u8>) -> (m:
    Mismatch)
    ensures
        m@ == spec_mismatch(path.deep_view(), kind, expected@, actual@),
{
    let m = Mismatch { path, kind, expected, actual, names: Vec::new(), diff: Vec::new() };
    proof {
        assert(m.names.deep_view() =~= Seq::<Seq<u8>>::empty());
        assert(m.diff.deep_view() =~= Seq::<DiffWordV>::empty());
    }
    m
}

/// Builds a mismatch record with an inline word difference.
pub fn mismatch_diff(
    path: Vec<PathSeg>,
    kind: MismatchKind,
    expected: Vec<u8>,
    actual: Vec<u8>,
    diff: Vec<DiffWord>,
) -> (m: Mismatch)
    ensures
        m@ == spec_mismatch_diff(path.deep_view(), kind, expected@, actual@, diff.deep_view()),
{
    let m = Mismatch { path, kind, expected, actual, names: Vec::new(), diff };
    proof {
        assert(m.names.deep_view() =~= Seq::<Seq<u8>>::empty());
    }
    m
}

/// Builds a summary mismatch record carrying names.
pub fn mismatch_names(path: Vec<PathSeg>, kind: MismatchKind, names: Vec<Vec<u8>>) -> (m: Mismatch)
    ensures
        m@ == spec_mismatch_names(path.deep_view(), kind, names.deep_view()),
{
    let m = Mismatch {
        path,
        kind,
        expected: Vec::new(),
        actual: Vec::new(),
        names,
        diff: Vec::new(),
    };
    proof {
        assert(m.diff.deep_view() =~= Seq::<DiffWordV>::empty());
    }
    m
}

/// Membership in a concatenation splits over its parts.
pub proof fn lemma_concat_contains<T>(a: Seq<T>, b: Seq<T>, m: T)
    ensures
        (a + b).contains(m) <==> a.contains(m) || b.contains(m),
{
    if a.contains(m) {
        let i = choose|i: int| 0 <= i < a.len() && a[i] == m;
        assert((a + b)[i] == m);
    }
    if b.contains(m) {
        let i = choose|i: int| 0 <= i < b.len() && b[i] == m;
        assert((a + b)[a.len() + i] == m);
    }
    if (a + b).contains(m) {
        let i = choose|i: int| 0 <= i < (a + b).len() && (a + b)[i] == m;
        if i < a.len() {
            assert(a[i] == m);
        } else {
            assert(b[i - a.len()] == m);
        }
    }
}

/// Copies one path segment.
pub fn clone_seg(s: &PathSeg) -> (r: PathSeg)
    ensures
        r@ == s@,
{
    match s {
        PathSeg::Field(n) => PathSeg::Field(crate::bytes::clone_bytes(n)),
        PathSeg::Index(i) => PathSeg::Index(*i),
    }
}

/// Copies a path.
pub fn clone_path(p: &Vec<PathSeg>) -> (r: Vec<PathSeg>)
    ensures
        r.deep_view() == p.deep_view(),
{
    let mut out: Vec<PathSeg> = Vec::new();
    let mut i: usize = 0;
    while i < p.len()
        invariant
            i <= p.len(),
            out@.len() == i,
            forall|j: int| 0 <= j < i ==> out@[j]@ == p@[j]@,
        decreases p.len() - i,
    {
        let seg = clone_seg(&p[i]);
        out.push(seg);
        i = i + 1;
    }
    proof {
        assert(out.deep_view() =~~= p.deep_view());
    }
    out
}

/// A copy of `p` with a field segment appended.
pub fn path_push_field(p: &Vec<PathSeg>, name: &Vec<u8>) -> (r: Vec<PathSeg>)
    ensures
        r.deep_view() == p.deep_view() + seq![PathSegV::Field(name@)],
{
    let mut out = clone_path(p);
    out.push(PathSeg::Field(crate::bytes::clone_bytes(name)));
    proof {
        assert(out.deep_view() =~= p.deep_view() + seq![PathSegV::Field(name@)]);
    }
    out
}

/// A copy of `p` with an index segment appended.
pub fn path_push_index(p: &Vec<PathSeg>, ix: usize) -> (r: Vec<PathSeg>)
    ensures
        r.deep_view() == p.deep_view() + seq![PathSegV::Index(ix as int)],
{
    let mut out = clone_path(p);
    out.push(PathSeg::Index(ix));
    proof {
        assert(out.deep_view() =~= p.deep_view() + seq![PathSegV::Index(ix as int)]);
    }
    out
}

/// Rendered text of one path segment; the first segment stands bare, later
/// field segments are joined with a dot, index segments with brackets.
pub open spec fn spec_seg_text(s: PathSegV, first: bool) -> Seq<u8> {
    match s {
        PathSegV::Field(n) => if first {
            n
        } else {
            seq![0x2eu8] + n
        },
        PathSegV::Index(i) => seq![0x5bu8] + spec_dec_int(i) + seq![0x5du8],
    }
}

pub open spec fn spec_render_path_from(p: Seq<PathSegV>, i: int) -> Seq<u8>
    decreases p.len() - i,
{
    if i < 0 || i >= p.len() {
        Seq::empty()
    } else {
        spec_seg_text(p[i], i == 0) + spec_render_path_from(p, i + 1)
    }
}

/// Rendered text of a whole path, for example `form.data[2].key`.
pub open spec fn spec_render_path(p: Seq<PathSegV>) -> Seq<u8> {
    spec_render_path_from(p, 0)
}

fn render_path_from(p: &Vec<PathSeg>, i: usize) -> (r: Vec<u8>)
    requires
        i <= p.len(),
    ensures
        r@ == spec_render_path_from(p.deep_view(), i as int),
    decreases p.len() - i,
{
    let mut out: Vec<u8> = Vec::new();
    if i == p.len() {
        return out;
    }
    match &p[i] {
        PathSeg::Field(n) => {
            if i != 0 {
                out.push(0x2eu8);
            }
            let mut c = crate::bytes::clone_bytes(n);
            out.append(&mut c);
        },
        PathSeg::Index(ix) => {
            out.push(0x5bu8);
            let mut d = crate::bytes::dec_u64(*ix as u64);
            out.append(&mut d);
            out.push(0x5du8);
        },
    }
    let mut rest = render_path_from(p, i + 1);
    out.append(&mut rest);
    proof {
        assert(p.deep_view()[i as int] == p[i as int]@);
    }
    out
}

/// Renders a path to its display text.
pub fn render_path(p: &Vec<PathSeg>) -> (r: Vec<u8>)
    ensures
        r@ == spec_render_path(p.deep_view()),
{
    render_path_from(p, 0)
}

} // verus!
