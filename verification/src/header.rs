//! The header validator: compares an expected header set (pairs that must be
//! present with a given raw value, and names that must be absent) against an
//! actual header collection. Expected names are sorted case-sensitively
//! before checking, so the output order is deterministic whatever order the
//! expectation was built in. Comparison of values is byte-exact.

use vstd::prelude::*;

use crate::bytes::{bytes_eq, bytes_le, clone_bytes, lex_le, str_vec, StringSliceAdditionalSpecFns};
use crate::model::{mismatch, spec_mismatch, Mismatch, MismatchKind, MismatchV, PathSeg, PathSegV};

verus! {

broadcast use vstd::seq::group_seq_axioms, crate::bytes::lemma_deep_view_bytes;

/// One HTTP header: a name and a raw byte value.
#[derive(Debug, PartialEq, Eq)]
pub struct HttpHeader {
    pub name: Vec<u8>,
    pub value: Vec<u8>,
}

/// Spec-level header.
#[verifier::ext_equal]
pub struct HeaderV {
    pub name: Seq<u8>,
    pub value: Seq<u8>,
}

impl View for HttpHeader {
    type V = HeaderV;

    open spec fn view(&self) -> HeaderV {
        HeaderV { name: self.name@, value: self.value@ }
    }
}

impl DeepView for HttpHeader {
    type V = HeaderV;

    open spec fn deep_view(&self) -> HeaderV {
        self@
    }
}

impl HttpHeader {
    /// Builds a header from a name and a textual value.
    pub fn new(name: &str, value: &str) -> (r: HttpHeader)
        ensures
            r@.name == name.spec_bytes(),
            r@.value == value.spec_bytes(),
    {
        HttpHeader { name: str_vec(name), value: str_vec(value) }
    }

    /// Builds a header from a name and a raw byte value.
    pub fn new_raw(name: &str, value: Vec<u8>) -> (r: HttpHeader)
        ensures
            r@.name == name.spec_bytes(),
            r@.value == value@,
    {
        HttpHeader { name: str_vec(name), value }
    }
}

/// Takes a header apart into its name and raw value.
pub fn http_header_into_tuple(header: HttpHeader) -> (r: (Vec<u8>, Vec<u8>))
    ensures
        r.0@ == header@.name,
        r.1@ == header@.value,
{
    (header.name, header.value)
}

fn clone_header(h: &HttpHeader) -> (r: HttpHeader)
    ensures
        r@ == h@,
{
    HttpHeader { name: clone_bytes(&h.name), value: clone_bytes(&h.value) }
}

/// An expectation over an actual header collection: headers that must be
/// present with the given raw value, and names that must be absent. A name
/// must not stand in both sets; that is a caller contract violation.
pub struct HeaderExpectation {
    pub expected: Vec<HttpHeader>,
    pub absent: Vec<Vec<u8>>,
}

/// Spec-level header expectation.
#[verifier::ext_equal]
pub struct HeaderExpectationV {
    pub expected: Seq<HeaderV>,
    pub absent: Seq<Seq<u8>>,
}

impl View for HeaderExpectation {
    type V = HeaderExpectationV;

    open spec fn view(&self) -> HeaderExpectationV {
        HeaderExpectationV {
            expected: self.expected.deep_view(),
            absent: self.absent.deep_view(),
        }
    }
}

/// Well-formedness of an expectation: expected names are distinct, and no
/// name stands in the present set and the absent set at once.
pub open spec fn header_expectation_wf(e: HeaderExpectationV) -> bool {
    (forall|i: int, j: int|
        0 <= i < j < e.expected.len() ==> e.expected[i].name != e.expected[j].name) && (forall|
        i: int,
        j: int,
    |
        0 <= i < e.expected.len() && 0 <= j < e.absent.len() ==> e.expected[i].name
            != e.absent[j])
}

/// Stable insertion of a header into a name-sorted run: the new header goes
/// after any header whose name is not greater.
pub open spec fn spec_insert_header(h: HeaderV, s: Seq<HeaderV>) -> Seq<HeaderV>
    decreases s.len(),
{
    if s.len() == 0 {
        seq![h]
    } else if lex_le(s[0].name, h.name) {
        seq![s[0]] + spec_insert_header(h, s.subrange(1, s.len() as int))
    } else {
        seq![h] + s
    }
}

/// Insertion sort of headers by name, in lexicographic byte order.
pub open spec fn spec_sort_headers(s: Seq<HeaderV>) -> Seq<HeaderV>
    decreases s.len(),
{
    if s.len() == 0 {
        Seq::empty()
    } else {
        spec_insert_header(s[0], spec_sort_headers(s.subrange(1, s.len() as int)))
    }
}

pub open spec fn spec_insert_name(n: Seq<u8>, s: Seq<Seq<u8>>) -> Seq<Seq<u8>>
    decreases s.len(),
{
    if s.len() == 0 {
        seq![n]
    } else if lex_le(s[0], n) {
        seq![s[0]] + spec_insert_name(n, s.subrange(1, s.len() as int))
    } else {
        seq![n] + s
    }
}

/// Insertion sort of header names, in lexicographic byte order.
pub open spec fn spec_sort_names(s: Seq<Seq<u8>>) -> Seq<Seq<u8>>
    decreases s.len(),
{
    if s.len() == 0 {
        Seq::empty()
    } else {
        spec_insert_name(s[0], spec_sort_names(s.subrange(1, s.len() as int)))
    }
}

/// The raw value of the first actual header named `name` at position `i` or
/// later, if any.
pub open spec fn spec_header_lookup(actual: Seq<HeaderV>, name: Seq<u8>, i: int) -> Option<Seq<u8>>
    decreases actual.len() - i,
{
    if i < 0 || i >= actual.len() {
        Option::None
    } else if actual[i].name == name {
        Option::Some(actual[i].value)
    } else {
        spec_header_lookup(actual, name, i + 1)
    }
}

/// The path of a header mismatch: `header.<name>`.
pub open spec fn spec_header_path(name: Seq<u8>) -> Seq<PathSegV> {
    seq![PathSegV::Field("header".spec_bytes()), PathSegV::Field(name)]
}

/// Mismatches of the sorted expected-present headers from position `i` on: a
/// missing header, or a present one whose raw value differs.
pub open spec fn spec_check_present(sorted: Seq<HeaderV>, actual: Seq<HeaderV>, i: int) -> Seq<
    MismatchV,
>
    decreases sorted.len() - i,
{
    if i < 0 || i >= sorted.len() {
        Seq::empty()
    } else {
        (match spec_header_lookup(actual, sorted[i].name, 0) {
            Option::None => seq![spec_mismatch(spec_header_path(sorted[i].name),
                MismatchKind::HeaderMissing, sorted[i].value, Seq::empty())],
            Option::Some(av) => if av == sorted[i].value {
                Seq::empty()
            } else {
                seq![spec_mismatch(spec_header_path(sorted[i].name),
                    MismatchKind::HeaderValueMismatch, sorted[i].value, av)]
            },
        }) + spec_check_present(sorted, actual, i + 1)
    }
}

/// Mismatches of the sorted must-be-absent names from position `i` on: a
/// name that is present after all.
pub open spec fn spec_check_absent(names: Seq<Seq<u8>>, actual: Seq<HeaderV>, i: int) -> Seq<
    MismatchV,
>
    decreases names.len() - i,
{
    if i < 0 || i >= names.len() {
        Seq::empty()
    } else {
        (match spec_header_lookup(actual, names[i], 0) {
            Option::Some(av) => seq![spec_mismatch(spec_header_path(names[i]),
                MismatchKind::HeaderUnexpectedPresent, Seq::empty(), av)],
            Option::None => Seq::empty(),
        }) + spec_check_absent(names, actual, i + 1)
    }
}

/// All header mismatches: the expected-present checks in sorted name order,
/// then the must-be-absent checks in sorted name order.
pub open spec fn spec_validate_headers(e: HeaderExpectationV, actual: Seq<HeaderV>) -> Seq<
    MismatchV,
> {
    spec_check_present(spec_sort_headers(e.expected), actual, 0) + spec_check_absent(
        spec_sort_names(e.absent),
        actual,
        0,
    )
}

fn insert_header(h: HttpHeader, sorted: Vec<HttpHeader>) -> (r: Vec<HttpHeader>)
    ensures
        r.deep_view() == spec_insert_header(h@, sorted.deep_view()),
    decreases sorted.len(),
{
    if sorted.len() == 0 {
        let mut out: Vec<HttpHeader> = Vec::new();
        out.push(h);
        proof {
            assert(out.deep_view() =~~= spec_insert_header(h@, sorted.deep_view()));
        }
        out
    } else if bytes_le(&sorted[0].name, &h.name) {
        let mut rest = sorted;
        let head = rest.remove(0);
        let ghost rest_view = rest.deep_view();
        let tail = insert_header(h, rest);
        let mut out: Vec<HttpHeader> = Vec::new();
        out.push(head);
        let mut t = tail;
        let ghost t_view = t.deep_view();
        out.append(&mut t);
        proof {
            assert(rest_view =~~= sorted.deep_view().subrange(1, sorted.deep_view().len() as int));
            assert(out.deep_view() =~~= spec_insert_header(h@, sorted.deep_view()));
        }
        out
    } else {
        let ghost h_view = h@;
        let ghost sorted_view = sorted.deep_view();
        let mut out: Vec<HttpHeader> = Vec::new();
        out.push(h);
        let mut t = sorted;
        out.append(&mut t);
        proof {
            assert(out.deep_view() =~~= seq![h_view] + sorted_view);
        }
        out
    }
}

fn sort_headers(v: Vec<HttpHeader>) -> (r: Vec<HttpHeader>)
    ensures
        r.deep_view() == spec_sort_headers(v.deep_view()),
    decreases v.len(),
{
    if v.len() == 0 {
        let out: Vec<HttpHeader> = Vec::new();
        proof {
            assert(out.deep_view() =~= spec_sort_headers(v.deep_view()));
        }
        out
    } else {
        let mut rest = v;
        let head = rest.remove(0);
        let ghost rest_view = rest.deep_view();
        let sorted = sort_headers(rest);
        proof {
            assert(rest_view =~~= v.deep_view().subrange(1, v.deep_view().len() as int));
        }
        insert_header(head, sorted)
    }
}

fn insert_name(n: Vec<u8>, sorted: Vec<Vec<u8>>) -> (r: Vec<Vec<u8>>)
    ensures
        r.deep_view() == spec_insert_name(n@, sorted.deep_view()),
    decreases sorted.len(),
{
    if sorted.len() == 0 {
        let mut out: Vec<Vec<u8>> = Vec::new();
        out.push(n);
        proof {
            assert(out.deep_view() =~~= spec_insert_name(n@, sorted.deep_view()));
        }
        out
    } else if bytes_le(&sorted[0], &n) {
        let mut rest = sorted;
        let head = rest.remove(0);
        let ghost rest_view = rest.deep_view();
        let tail = insert_name(n, rest);
        let mut out: Vec<Vec<u8>> = Vec::new();
        out.push(head);
        let mut t = tail;
        out.append(&mut t);
        proof {
            assert(rest_view =~~= sorted.deep_view().subrange(1, sorted.deep_view().len() as int));
            assert(out.deep_view() =~~= spec_insert_name(n@, sorted.deep_view()));
        }
        out
    } else {
        let ghost n_view = n@;
        let ghost sorted_view = sorted.deep_view();
        let mut out: Vec<Vec<u8>> = Vec::new();
        out.push(n);
        let mut t = sorted;
        out.append(&mut t);
        proof {
            assert(out.deep_view() =~~= seq![n_view] + sorted_view);
        }
        out
    }
}

fn sort_names(v: Vec<Vec<u8>>) -> (r: Vec<Vec<u8>>)
    ensures
        r.deep_view() == spec_sort_names(v.deep_view()),
    decreases v.len(),
{
    if v.len() == 0 {
        let out: Vec<Vec<u8>> = Vec::new();
        proof {
            assert(out.deep_view() =~= spec_sort_names(v.deep_view()));
        }
        out
    } else {
        let mut rest = v;
        let head = rest.remove(0);
        let ghost rest_view = rest.deep_view();
        let sorted = sort_names(rest);
        proof {
            assert(rest_view =~~= v.deep_view().subrange(1, v.deep_view().len() as int));
        }
        insert_name(head, sorted)
    }
}

fn header_lookup(actual: &Vec<HttpHeader>, name: &Vec<u8>, i: usize) -> (r: Option<Vec<u8>>)
    requires
        i <= actual.len(),
    ensures
        (match r {
            Option::Some(v) => spec_header_lookup(actual.deep_view(), name@, i as int)
                == Option::Some(v@),
            Option::None => spec_header_lookup(actual.deep_view(), name@, i as int) is None,
        }),
    decreases actual.len() - i,
{
    if i == actual.len() {
        return None;
    }
    if bytes_eq(&actual[i].name, name) {
        Some(clone_bytes(&actual[i].value))
    } else {
        header_lookup(actual, name, i + 1)
    }
}

fn header_path(name: &Vec<u8>) -> (r: Vec<PathSeg>)
    ensures
        r.deep_view() == spec_header_path(name@),
{
    let mut out: Vec<PathSeg> = Vec::new();
    out.push(PathSeg::Field(str_vec("header")));
    out.push(PathSeg::Field(clone_bytes(name)));
    proof {
        assert(out.deep_view() =~~= spec_header_path(name@));
    }
    out
}

fn check_present(sorted: &Vec<HttpHeader>, actual: &Vec<HttpHeader>, i: usize) -> (r: Vec<Mismatch>)
    requires
        i <= sorted.len(),
    ensures
        r.deep_view() == spec_check_present(sorted.deep_view(), actual.deep_view(), i as int),
    decreases sorted.len() - i,
{
    let mut out: Vec<Mismatch> = Vec::new();
    if i == sorted.len() {
        proof {
            assert(out.deep_view() =~= spec_check_present(
                sorted.deep_view(),
                actual.deep_view(),
                i as int,
            ));
        }
        return out;
    }
    match header_lookup(actual, &sorted[i].name, 0) {
        None => {
            out.push(
                mismatch(
                    header_path(&sorted[i].name),
                    MismatchKind::HeaderMissing,
                    clone_bytes(&sorted[i].value),
                    Vec::new(),
                ),
            );
        },
        Some(av) => {
            if !bytes_eq(&av, &sorted[i].value) {
                out.push(
                    mismatch(
                        header_path(&sorted[i].name),
                        MismatchKind::HeaderValueMismatch,
                        clone_bytes(&sorted[i].value),
                        av,
                    ),
                );
            }
        },
    }
    let mut rest = check_present(sorted, actual, i + 1);
    out.append(&mut rest);
    proof {
        assert(out.deep_view() =~~= spec_check_present(
            sorted.deep_view(),
            actual.deep_view(),
            i as int,
        ));
    }
    out
}

fn check_absent(names: &Vec<Vec<u8>>, actual: &Vec<HttpHeader>, i: usize) -> (r: Vec<Mismatch>)
    requires
        i <= names.len(),
    ensures
        r.deep_view() == spec_check_absent(names.deep_view(), actual.deep_view(), i as int),
    decreases names.len() - i,
{
    let mut out: Vec<Mismatch> = Vec::new();
    if i == names.len() {
        proof {
            assert(out.deep_view() =~= spec_check_absent(
                names.deep_view(),
                actual.deep_view(),
                i as int,
            ));
        }
        return out;
    }
    match header_lookup(actual, &names[i], 0) {
        Some(av) => {
            out.push(
                mismatch(
                    header_path(&names[i]),
                    MismatchKind::HeaderUnexpectedPresent,
                    Vec::new(),
                    av,
                ),
            );
        },
        None => {},
    }
    let mut rest = check_absent(names, actual, i + 1);
    out.append(&mut rest);
    proof {
        assert(out.deep_view() =~~= spec_check_absent(
            names.deep_view(),
            actual.deep_view(),
            i as int,
        ));
    }
    out
}

fn clone_headers(v: &Vec<HttpHeader>) -> (r: Vec<HttpHeader>)
    ensures
        r.deep_view() == v.deep_view(),
{
    let mut out: Vec<HttpHeader> = Vec::new();
    let mut i: usize = 0;
    while i < v.len()
        invariant
            i <= v.len(),
            out@.len() == i,
            forall|j: int| 0 <= j < i ==> out@[j]@ == v@[j]@,
        decreases v.len() - i,
    {
        out.push(clone_header(&v[i]));
        i = i + 1;
    }
    proof {
        assert(out.deep_view() =~~= v.deep_view());
    }
    out
}

fn clone_names(v: &Vec<Vec<u8>>) -> (r: Vec<Vec<u8>>)
    ensures
        r.deep_view() == v.deep_view(),
{
    let mut out: Vec<Vec<u8>> = Vec::new();
    let mut i: usize = 0;
    while i < v.len()
        invariant
            i <= v.len(),
            out@.len() == i,
            forall|j: int| 0 <= j < i ==> out@[j]@ == v@[j]@,
        decreases v.len() - i,
    {
        out.push(clone_bytes(&v[i]));
        i = i + 1;
    }
    proof {
        assert(out.deep_view() =~~= v.deep_view());
    }
    out
}

/// Validates an actual header collection against an expectation: expected
/// headers must be present with a byte-exact raw value, must-be-absent names
/// must not occur. Unmentioned actual headers are ignored. The mismatch list
/// is empty exactly when the headers pass, and its order is deterministic:
/// both name sets are checked in sorted order.
pub fn validate_headers(expectation: &HeaderExpectation, actual: &Vec<HttpHeader>) -> (r: Vec<
    Mismatch,
>)
    ensures
        r.deep_view() == spec_validate_headers(expectation@, actual.deep_view()),
{
    let sorted = sort_headers(clone_headers(&expectation.expected));
    let mut out = check_present(&sorted, actual, 0);
    let names = sort_names(clone_names(&expectation.absent));
    let mut absent = check_absent(&names, actual, 0);
    out.append(&mut absent);
    proof {
        assert(out.deep_view() =~~= spec_validate_headers(expectation@, actual.deep_view()));
    }
    out
}

/// One expected header holds of an actual collection: present under its name
/// with a byte-exact value.
pub open spec fn header_ok(actual: Seq<HeaderV>, h: HeaderV) -> bool {
    spec_header_lookup(actual, h.name, 0) == Option::Some(h.value)
}

/// The headers pass: every expected header is present with its value, every
/// must-be-absent name is absent.
pub open spec fn headers_pass(e: HeaderExpectationV, actual: Seq<HeaderV>) -> bool {
    (forall|i: int| 0 <= i < e.expected.len() ==> header_ok(actual, e.expected[i])) && (forall|
        i: int,
    |
        0 <= i < e.absent.len() ==> spec_header_lookup(actual, e.absent[i], 0) is None)
}

proof fn lemma_insert_header_contains(h: HeaderV, s: Seq<HeaderV>)
    ensures
        spec_insert_header(h, s).len() == s.len() + 1,
        forall|x: HeaderV| #![trigger spec_insert_header(h, s).contains(x)]
            spec_insert_header(h, s).contains(x) <==> (x == h || s.contains(x)),
    decreases s.len(),
{
    if s.len() == 0 {
        assert forall|x: HeaderV| #![trigger spec_insert_header(h, s).contains(x)]
            spec_insert_header(h, s).contains(x) <==> (x == h || s.contains(x)) by {
            if x == h {
                assert(spec_insert_header(h, s)[0] == h);
            }
            if spec_insert_header(h, s).contains(x) {
                let i = choose|i: int|
                    0 <= i < spec_insert_header(h, s).len() && spec_insert_header(h, s)[i] == x;
                assert(i == 0);
            }
        }
    } else if lex_le(s[0].name, h.name) {
        let rest = s.subrange(1, s.len() as int);
        lemma_insert_header_contains(h, rest);
        assert(s =~= seq![s[0]] + rest);
        assert forall|x: HeaderV| #![trigger spec_insert_header(h, s).contains(x)]
            spec_insert_header(h, s).contains(x) <==> (x == h || s.contains(x)) by {
            crate::model::lemma_concat_contains(seq![s[0]], spec_insert_header(h, rest), x);
            crate::model::lemma_concat_contains(seq![s[0]], rest, x);
            assert(seq![s[0]].contains(x) <==> x == s[0]) by {
                if seq![s[0]].contains(x) {
                    let i = choose|i: int| 0 <= i < 1 && seq![s[0]][i] == x;
                    assert(i == 0);
                }
                assert(seq![s[0]][0] == s[0]);
            }
        }
    } else {
        assert forall|x: HeaderV| #![trigger spec_insert_header(h, s).contains(x)]
            spec_insert_header(h, s).contains(x) <==> (x == h || s.contains(x)) by {
            crate::model::lemma_concat_contains(seq![h], s, x);
            assert(seq![h].contains(x) <==> x == h) by {
                if seq![h].contains(x) {
                    let i = choose|i: int| 0 <= i < 1 && seq![h][i] == x;
                    assert(i == 0);
                }
                assert(seq![h][0] == h);
            }
        }
    }
}

proof fn lemma_sort_headers_contains(s: Seq<HeaderV>)
    ensures
        forall|x: HeaderV| #![trigger spec_sort_headers(s).contains(x)]
            spec_sort_headers(s).contains(x) <==> s.contains(x),
    decreases s.len(),
{
    if s.len() > 0 {
        let rest = s.subrange(1, s.len() as int);
        lemma_sort_headers_contains(rest);
        lemma_insert_header_contains(s[0], spec_sort_headers(rest));
        assert(s =~= seq![s[0]] + rest);
        assert forall|x: HeaderV| #![trigger spec_sort_headers(s).contains(x)]
            spec_sort_headers(s).contains(x) <==> s.contains(x) by {
            crate::model::lemma_concat_contains(seq![s[0]], rest, x);
            assert(seq![s[0]].contains(x) <==> x == s[0]) by {
                if seq![s[0]].contains(x) {
                    let i = choose|i: int| 0 <= i < 1 && seq![s[0]][i] == x;
                    assert(i == 0);
                }
                assert(seq![s[0]][0] == s[0]);
            }
        }
    }
}

proof fn lemma_insert_name_contains(n: Seq<u8>, s: Seq<Seq<u8>>)
    ensures
        spec_insert_name(n, s).len() == s.len() + 1,
        forall|x: Seq<u8>| #![trigger spec_insert_name(n, s).contains(x)]
            spec_insert_name(n, s).contains(x) <==> (x == n || s.contains(x)),
    decreases s.len(),
{
    if s.len() == 0 {
        assert forall|x: Seq<u8>| #![trigger spec_insert_name(n, s).contains(x)]
            spec_insert_name(n, s).contains(x) <==> (x == n || s.contains(x)) by {
            if x == n {
                assert(spec_insert_name(n, s)[0] == n);
            }
            if spec_insert_name(n, s).contains(x) {
                let i = choose|i: int|
                    0 <= i < spec_insert_name(n, s).len() && spec_insert_name(n, s)[i] == x;
                assert(i == 0);
            }
        }
    } else if lex_le(s[0], n) {
        let rest = s.subrange(1, s.len() as int);
        lemma_insert_name_contains(n, rest);
        assert(s =~= seq![s[0]] + rest);
        assert forall|x: Seq<u8>| #![trigger spec_insert_name(n, s).contains(x)]
            spec_insert_name(n, s).contains(x) <==> (x == n || s.contains(x)) by {
            crate::model::lemma_concat_contains(seq![s[0]], spec_insert_name(n, rest), x);
            crate::model::lemma_concat_contains(seq![s[0]], rest, x);
            assert(seq![s[0]].contains(x) <==> x == s[0]) by {
                if seq![s[0]].contains(x) {
                    let i = choose|i: int| 0 <= i < 1 && seq![s[0]][i] == x;
                    assert(i == 0);
                }
                assert(seq![s[0]][0] == s[0]);
            }
        }
    } else {
        assert forall|x: Seq<u8>| #![trigger spec_insert_name(n, s).contains(x)]
            spec_insert_name(n, s).contains(x) <==> (x == n || s.contains(x)) by {
            crate::model::lemma_concat_contains(seq![n], s, x);
            assert(seq![n].contains(x) <==> x == n) by {
                if seq![n].contains(x) {
                    let i = choose|i: int| 0 <= i < 1 && seq![n][i] == x;
                    assert(i == 0);
                }
                assert(seq![n][0] == n);
            }
        }
    }
}

proof fn lemma_sort_names_contains(s: Seq<Seq<u8>>)
    ensures
        forall|x: Seq<u8>| #![trigger spec_sort_names(s).contains(x)]
            spec_sort_names(s).contains(x) <==> s.contains(x),
    decreases s.len(),
{
    if s.len() > 0 {
        let rest = s.subrange(1, s.len() as int);
        lemma_sort_names_contains(rest);
        lemma_insert_name_contains(s[0], spec_sort_names(rest));
        assert(s =~= seq![s[0]] + rest);
        assert forall|x: Seq<u8>| #![trigger spec_sort_names(s).contains(x)]
            spec_sort_names(s).contains(x) <==> s.contains(x) by {
            crate::model::lemma_concat_contains(seq![s[0]], rest, x);
            assert(seq![s[0]].contains(x) <==> x == s[0]) by {
                if seq![s[0]].contains(x) {
                    let i = choose|i: int| 0 <= i < 1 && seq![s[0]][i] == x;
                    assert(i == 0);
                }
                assert(seq![s[0]][0] == s[0]);
            }
        }
    }
}

proof fn lemma_check_present_empty(sorted: Seq<HeaderV>, actual: Seq<HeaderV>, i: int)
    requires
        0 <= i,
    ensures
        (spec_check_present(sorted, actual, i).len() == 0) <==> (forall|j: int|
            i <= j < sorted.len() ==> header_ok(actual, sorted[j])),
    decreases sorted.len() - i,
{
    if i < sorted.len() {
        lemma_check_present_empty(sorted, actual, i + 1);
    }
}

proof fn lemma_check_absent_empty(names: Seq<Seq<u8>>, actual: Seq<HeaderV>, i: int)
    requires
        0 <= i,
    ensures
        (spec_check_absent(names, actual, i).len() == 0) <==> (forall|j: int|
            i <= j < names.len() ==> spec_header_lookup(actual, names[j], 0) is None),
    decreases names.len() - i,
{
    if i < names.len() {
        lemma_check_absent_empty(names, actual, i + 1);
    }
}

/// The header validator reports nothing exactly when the headers pass: an
/// empty mismatch list is a pass.
pub proof fn lemma_validate_headers_empty_iff_pass(e: HeaderExpectationV, actual: Seq<HeaderV>)
    ensures
        (spec_validate_headers(e, actual).len() == 0) <==> headers_pass(e, actual),
{
    let sh = spec_sort_headers(e.expected);
    let sn = spec_sort_names(e.absent);
    lemma_sort_headers_contains(e.expected);
    lemma_sort_names_contains(e.absent);
    lemma_check_present_empty(sh, actual, 0);
    lemma_check_absent_empty(sn, actual, 0);
    assert((forall|j: int| 0 <= j < sh.len() ==> header_ok(actual, sh[j])) <==> (forall|i: int|
        0 <= i < e.expected.len() ==> header_ok(actual, e.expected[i]))) by {
        if forall|j: int| 0 <= j < sh.len() ==> header_ok(actual, sh[j]) {
            assert forall|i: int|
                0 <= i < e.expected.len() implies header_ok(actual, e.expected[i]) by {
                assert(e.expected.contains(e.expected[i]));
                assert(sh.contains(e.expected[i]));
                let j = choose|j: int| 0 <= j < sh.len() && sh[j] == e.expected[i];
                assert(header_ok(actual, sh[j]));
            }
        }
        if forall|i: int| 0 <= i < e.expected.len() ==> header_ok(actual, e.expected[i]) {
            assert forall|j: int| 0 <= j < sh.len() implies header_ok(actual, sh[j]) by {
                assert(sh.contains(sh[j]));
                assert(e.expected.contains(sh[j]));
                let i = choose|i: int| 0 <= i < e.expected.len() && e.expected[i] == sh[j];
                assert(header_ok(actual, e.expected[i]));
            }
        }
    }
    assert((forall|j: int| 0 <= j < sn.len() ==> spec_header_lookup(actual, sn[j], 0) is None)
        <==> (forall|i: int|
        0 <= i < e.absent.len() ==> spec_header_lookup(actual, e.absent[i], 0) is None)) by {
        if forall|j: int| 0 <= j < sn.len() ==> spec_header_lookup(actual, sn[j], 0) is None {
            assert forall|i: int|
                0 <= i < e.absent.len() implies spec_header_lookup(
                actual,
                e.absent[i],
                0,
            ) is None by {
                assert(e.absent.contains(e.absent[i]));
                assert(sn.contains(e.absent[i]));
                let j = choose|j: int| 0 <= j < sn.len() && sn[j] == e.absent[i];
                assert(spec_header_lookup(actual, sn[j], 0) is None);
            }
        }
        if forall|i: int| 0 <= i < e.absent.len() ==> spec_header_lookup(
            actual,
            e.absent[i],
            0,
        ) is None {
            assert forall|j: int|
                0 <= j < sn.len() implies spec_header_lookup(actual, sn[j], 0) is None by {
                assert(sn.contains(sn[j]));
                assert(e.absent.contains(sn[j]));
                let i = choose|i: int| 0 <= i < e.absent.len() && e.absent[i] == sn[j];
                assert(spec_header_lookup(actual, e.absent[i], 0) is None);
            }
        }
    }
}

proof fn lemma_header_lookup_self(s: Seq<HeaderV>, i: int, j: int)
    requires
        forall|x: int, y: int| 0 <= x < y < s.len() ==> s[x].name != s[y].name,
        0 <= j <= i < s.len(),
    ensures
        spec_header_lookup(s, s[i].name, j) == Option::Some(s[i].value),
    decreases i - j,
{
    if j < i {
        assert(s[j].name != s[i].name);
        lemma_header_lookup_self(s, i, j + 1);
    }
}

proof fn lemma_header_lookup_none(s: Seq<HeaderV>, n: Seq<u8>, j: int)
    requires
        forall|k: int| 0 <= k < s.len() ==> s[k].name != n,
        0 <= j,
    ensures
        spec_header_lookup(s, n, j) is None,
    decreases s.len() - j,
{
    if j < s.len() {
        lemma_header_lookup_none(s, n, j + 1);
    }
}

/// Round-trip idempotence: validating an actual collection that consists of
/// exactly the expected headers of a well-formed expectation yields no
/// mismatch.
pub proof fn lemma_validate_headers_self_empty(e: HeaderExpectationV)
    requires
        header_expectation_wf(e),
    ensures
        spec_validate_headers(e, e.expected).len() == 0,
{
    assert forall|i: int|
        0 <= i < e.expected.len() implies header_ok(e.expected, e.expected[i]) by {
        lemma_header_lookup_self(e.expected, i, 0);
    }
    assert forall|i: int|
        0 <= i < e.absent.len() implies spec_header_lookup(
        e.expected,
        e.absent[i],
        0,
    ) is None by {
        lemma_header_lookup_none(e.expected, e.absent[i], 0);
    }
    lemma_validate_headers_empty_iff_pass(e, e.expected);
}

/// Determinism: the validator's result is a function of the expectation and
/// the actual header views alone; two runs on equal inputs agree.
pub proof fn lemma_validate_headers_deterministic(
    e: HeaderExpectationV,
    actual: Seq<HeaderV>,
    r1: Seq<MismatchV>,
    r2: Seq<MismatchV>,
)
    requires
        r1 == spec_validate_headers(e, actual),
        r2 == spec_validate_headers(e, actual),
    ensures
        r1 == r2,
{
}

/// Validates headers as `validate_headers` does, appending the mismatches to
/// an error list a caller accumulates across validation phases.
pub fn validate_http_request_headers(
    errors: &mut Vec<Mismatch>,
    expectation: &HeaderExpectation,
    actual: &Vec<HttpHeader>,
)
    ensures
        final(errors).deep_view() == old(errors).deep_view() + spec_validate_headers(
            expectation@,
            actual.deep_view(),
        ),
{
    let mut more = validate_headers(expectation, actual);
    let ghost more_view = more.deep_view();
    errors.append(&mut more);
    proof {
        assert(errors.deep_view() =~~= old(errors).deep_view() + more_view);
    }
}

} // verus!
