//! The JSON value model: a recursive tagged value (null, boolean, integer
//! number, string, array, object) with a spec-level deep view, an object-key
//! uniqueness invariant, and mode-aware structural equivalence.

use vstd::prelude::*;

use crate::model::Mode;

verus! {

broadcast use
    vstd::seq::axiom_seq_index_decreases,
    vstd::seq::axiom_seq_subrange_decreases,
    vstd::std_specs::vec::axiom_vec_decreases_to_view,
    vstd::std_specs::vec::axiom_vec_index_decreases;

/// A JSON document tree. Numbers are integral: the engine compares numbers
/// by value and does no approximate matching.
#[derive(Debug, PartialEq, Eq)]
pub enum JsonValue {
    Null,
    Bool(bool),
    Int(i64),
    Str(Vec<u8>),
    Arr(Vec<JsonValue>),
    Obj(Vec<(Vec<u8>, JsonValue)>),
}

/// Spec-level JSON tree.
#[verifier::ext_equal]
pub enum JsonV {
    Null,
    Bool(bool),
    Int(int),
    Str(Seq<u8>),
    Arr(Seq<JsonV>),
    Obj(Seq<(Seq<u8>, JsonV)>),
}

pub open spec fn jview(v: JsonValue) -> JsonV
    decreases v,
{
    match v {
        JsonValue::Null => JsonV::Null,
        JsonValue::Bool(b) => JsonV::Bool(b),
        JsonValue::Int(i) => JsonV::Int(i as int),
        JsonValue::Str(s) => JsonV::Str(s@),
        JsonValue::Arr(items) => JsonV::Arr(jview_seq(items@)),
        JsonValue::Obj(entries) => JsonV::Obj(jview_entries(entries@)),
    }
}

pub open spec fn jview_seq(s: Seq<JsonValue>) -> Seq<JsonV>
    decreases s,
{
    if s.len() == 0 {
        Seq::empty()
    } else {
        seq![jview(s[0])] + jview_seq(s.subrange(1, s.len() as int))
    }
}

pub open spec fn jview_entries(s: Seq<(Vec<u8>, JsonValue)>) -> Seq<(Seq<u8>, JsonV)>
    decreases s,
{
    if s.len() == 0 {
        Seq::empty()
    } else {
        seq![(s[0].0@, jview(s[0].1))] + jview_entries(s.subrange(1, s.len() as int))
    }
}

impl View for JsonValue {
    type V = JsonV;

    open spec fn view(&self) -> JsonV {
        jview(*self)
    }
}

impl DeepView for JsonValue {
    type V = JsonV;

    open spec fn deep_view(&self) -> JsonV {
        jview(*self)
    }
}

/// Index relation of the element views: the view of a value sequence holds
/// the views of its values.
pub proof fn lemma_jview_seq_index(s: Seq<JsonValue>, i: int)
    requires
        0 <= i < s.len(),
    ensures
        jview_seq(s).len() == s.len(),
        jview_seq(s)[i] == jview(s[i]),
    decreases s,
{
    if s.len() > 0 {
        if i > 0 {
            lemma_jview_seq_index(s.subrange(1, s.len() as int), i - 1);
        } else {
            lemma_jview_seq_len(s);
        }
    }
}

pub proof fn lemma_jview_seq_len(s: Seq<JsonValue>)
    ensures
        jview_seq(s).len() == s.len(),
    decreases s,
{
    if s.len() > 0 {
        lemma_jview_seq_len(s.subrange(1, s.len() as int));
    }
}

pub proof fn lemma_jview_entries_len(s: Seq<(Vec<u8>, JsonValue)>)
    ensures
        jview_entries(s).len() == s.len(),
    decreases s,
{
    if s.len() > 0 {
        lemma_jview_entries_len(s.subrange(1, s.len() as int));
    }
}

pub proof fn lemma_jview_entries_index(s: Seq<(Vec<u8>, JsonValue)>, i: int)
    requires
        0 <= i < s.len(),
    ensures
        jview_entries(s).len() == s.len(),
        jview_entries(s)[i] == (s[i].0@, jview(s[i].1)),
    decreases s,
{
    if s.len() > 0 {
        if i > 0 {
            lemma_jview_entries_index(s.subrange(1, s.len() as int), i - 1);
        } else {
            lemma_jview_entries_len(s);
        }
    }
}

/// Copies a JSON tree.
pub fn clone_json(v: &JsonValue) -> (r: JsonValue)
    ensures
        r@ == v@,
    decreases *v, 1int,
{
    match v {
        JsonValue::Null => JsonValue::Null,
        JsonValue::Bool(b) => JsonValue::Bool(*b),
        JsonValue::Int(i) => JsonValue::Int(*i),
        JsonValue::Str(s) => JsonValue::Str(crate::bytes::clone_bytes(s)),
        JsonValue::Arr(items) => JsonValue::Arr(clone_json_arr(items)),
        JsonValue::Obj(entries) => JsonValue::Obj(clone_json_obj(entries)),
    }
}

fn clone_json_arr(items: &Vec<JsonValue>) -> (r: Vec<JsonValue>)
    ensures
        jview_seq(r@) == jview_seq(items@),
    decreases *items, 0int,
{
    let mut out: Vec<JsonValue> = Vec::new();
    let mut i: usize = 0;
    while i < items.len()
        invariant
            i <= items.len(),
            out@.len() == i,
            forall|j: int| 0 <= j < i ==> jview(out@[j]) == jview(items@[j]),
        decreases items.len() - i,
    {
        out.push(clone_json(&items[i]));
        i = i + 1;
    }
    proof {
        lemma_jview_seq_len(out@);
        lemma_jview_seq_len(items@);
        assert forall|j: int| 0 <= j < items@.len() implies jview_seq(out@)[j] == jview_seq(
            items@,
        )[j] by {
            lemma_jview_seq_index(out@, j);
            lemma_jview_seq_index(items@, j);
        }
        assert(jview_seq(out@) =~= jview_seq(items@));
    }
    out
}

fn clone_json_obj(entries: &Vec<(Vec<u8>, JsonValue)>) -> (r: Vec<(Vec<u8>, JsonValue)>)
    ensures
        jview_entries(r@) == jview_entries(entries@),
    decreases *entries, 0int,
{
    let mut out: Vec<(Vec<u8>, JsonValue)> = Vec::new();
    let mut i: usize = 0;
    while i < entries.len()
        invariant
            i <= entries.len(),
            out@.len() == i,
            forall|j: int|
                0 <= j < i ==> out@[j].0@ == entries@[j].0@ && jview(out@[j].1) == jview(
                    entries@[j].1,
                ),
        decreases entries.len() - i,
    {
        out.push((crate::bytes::clone_bytes(&entries[i].0), clone_json(&entries[i].1)));
        i = i + 1;
    }
    proof {
        lemma_jview_entries_len(out@);
        lemma_jview_entries_len(entries@);
        assert forall|j: int|
            0 <= j < entries@.len() implies jview_entries(out@)[j] == jview_entries(
            entries@,
        )[j] by {
            lemma_jview_entries_index(out@, j);
            lemma_jview_entries_index(entries@, j);
        }
        assert(jview_entries(out@) =~= jview_entries(entries@));
    }
    out
}

/// Object keys are unique at this level.
pub open spec fn keys_unique(entries: Seq<(Seq<u8>, JsonV)>) -> bool {
    forall|i: int, j: int|
        0 <= i < j < entries.len() ==> entries[i].0 != entries[j].0
}

/// Well-formedness of a JSON tree: every object's keys are unique.
pub open spec fn json_wf(v: JsonV) -> bool
    decreases v,
{
    match v {
        JsonV::Arr(items) => json_wf_seq(items, 0),
        JsonV::Obj(entries) => keys_unique(entries) && json_wf_entries(entries, 0),
        _ => true,
    }
}

pub open spec fn json_wf_seq(items: Seq<JsonV>, i: int) -> bool
    decreases items, items.len() - i,
{
    if i < 0 || i >= items.len() {
        true
    } else {
        json_wf(items[i]) && json_wf_seq(items, i + 1)
    }
}

pub open spec fn json_wf_entries(entries: Seq<(Seq<u8>, JsonV)>, i: int) -> bool
    decreases entries, entries.len() - i,
{
    if i < 0 || i >= entries.len() {
        true
    } else {
        json_wf(entries[i].1) && json_wf_entries(entries, i + 1)
    }
}

/// Element-wise well-formedness of array items gives the sequence form.
pub proof fn lemma_json_wf_seq_from_elems(items: Seq<JsonV>, i: int)
    requires
        0 <= i,
        forall|j: int| 0 <= j < items.len() ==> json_wf(#[trigger] items[j]),
    ensures
        json_wf_seq(items, i),
    decreases items.len() - i,
{
    if i < items.len() {
        lemma_json_wf_seq_from_elems(items, i + 1);
    }
}

/// Element-wise well-formedness of object values gives the entries form.
pub proof fn lemma_json_wf_entries_from_elems(entries: Seq<(Seq<u8>, JsonV)>, i: int)
    requires
        0 <= i,
        forall|j: int| 0 <= j < entries.len() ==> json_wf(#[trigger] entries[j].1),
    ensures
        json_wf_entries(entries, i),
    decreases entries.len() - i,
{
    if i < entries.len() {
        lemma_json_wf_entries_from_elems(entries, i + 1);
    }
}

/// The value under the first entry named `k` at position `i` or later.
pub open spec fn spec_lookup_from(entries: Seq<(Seq<u8>, JsonV)>, k: Seq<u8>, i: int) -> Option<
    JsonV,
>
    decreases entries.len() - i,
{
    if i < 0 || i >= entries.len() {
        Option::None
    } else if entries[i].0 == k {
        Option::Some(entries[i].1)
    } else {
        spec_lookup_from(entries, k, i + 1)
    }
}

/// The value under the first entry named `k`, if any.
pub open spec fn spec_lookup(entries: Seq<(Seq<u8>, JsonV)>, k: Seq<u8>) -> Option<JsonV> {
    spec_lookup_from(entries, k, 0)
}

/// Whether some entry is named `k`.
pub open spec fn spec_has_key(entries: Seq<(Seq<u8>, JsonV)>, k: Seq<u8>) -> bool {
    spec_lookup(entries, k) is Some
}

/// The names of actual entries, from position `i` on, that the expected
/// entries do not carry, in actual order.
pub open spec fn spec_extra_names(
    expected: Seq<(Seq<u8>, JsonV)>,
    actual: Seq<(Seq<u8>, JsonV)>,
    i: int,
) -> Seq<Seq<u8>>
    decreases actual.len() - i,
{
    if i < 0 || i >= actual.len() {
        Seq::empty()
    } else if spec_has_key(expected, actual[i].0) {
        spec_extra_names(expected, actual, i + 1)
    } else {
        seq![actual[i].0] + spec_extra_names(expected, actual, i + 1)
    }
}

/// Structural equivalence of an actual JSON tree with an expected one under
/// a mode: scalars agree by value, arrays agree element by element at equal
/// length, every expected object key is present with an equivalent value,
/// and in `Exact` mode the actual object carries no key beyond the expected
/// ones.
pub open spec fn json_equiv(e: JsonV, a: JsonV, mode: Mode) -> bool
    decreases e, 1int,
{
    match (e, a) {
        (JsonV::Null, JsonV::Null) => true,
        (JsonV::Bool(x), JsonV::Bool(y)) => x == y,
        (JsonV::Int(x), JsonV::Int(y)) => x == y,
        (JsonV::Str(x), JsonV::Str(y)) => x == y,
        (JsonV::Arr(es), JsonV::Arr(an)) => es.len() == an.len() && json_equiv_seq(
            es,
            an,
            mode,
            0,
        ),
        (JsonV::Obj(eo), JsonV::Obj(ao)) => json_equiv_entries(eo, ao, mode, 0) && (mode
            == Mode::Exact ==> spec_extra_names(eo, ao, 0).len() == 0),
        _ => false,
    }
}

pub open spec fn json_equiv_seq(es: Seq<JsonV>, an: Seq<JsonV>, mode: Mode, i: int) -> bool
    decreases es, es.len() - i,
{
    if i < 0 || i >= es.len() || i >= an.len() {
        true
    } else {
        json_equiv(es[i], an[i], mode) && json_equiv_seq(es, an, mode, i + 1)
    }
}

pub open spec fn json_equiv_entries(
    eo: Seq<(Seq<u8>, JsonV)>,
    ao: Seq<(Seq<u8>, JsonV)>,
    mode: Mode,
    i: int,
) -> bool
    decreases eo, eo.len() - i,
{
    if i < 0 || i >= eo.len() {
        true
    } else {
        (match spec_lookup(ao, eo[i].0) {
            Option::Some(av) => json_equiv(eo[i].1, av, mode),
            Option::None => false,
        }) && json_equiv_entries(eo, ao, mode, i + 1)
    }
}

proof fn lemma_lookup_unique_from(entries: Seq<(Seq<u8>, JsonV)>, i: int, j: int)
    requires
        keys_unique(entries),
        0 <= j <= i < entries.len(),
    ensures
        spec_lookup_from(entries, entries[i].0, j) == Option::Some(entries[i].1),
    decreases i - j,
{
    if j < i {
        assert(entries[j].0 != entries[i].0);
        lemma_lookup_unique_from(entries, i, j + 1);
    }
}

proof fn lemma_lookup_unique(entries: Seq<(Seq<u8>, JsonV)>, i: int)
    requires
        keys_unique(entries),
        0 <= i < entries.len(),
    ensures
        spec_lookup(entries, entries[i].0) == Option::Some(entries[i].1),
{
    lemma_lookup_unique_from(entries, i, 0);
}

proof fn lemma_no_extras_self(entries: Seq<(Seq<u8>, JsonV)>, i: int)
    requires
        0 <= i,
    ensures
        spec_extra_names(entries, entries, i).len() == 0,
    decreases entries.len() - i,
{
    if i < entries.len() {
        if i < entries.len() {
            lemma_lookup_has(entries, i);
        }
        lemma_no_extras_self(entries, i + 1);
    }
}

proof fn lemma_lookup_has_from(entries: Seq<(Seq<u8>, JsonV)>, i: int, j: int)
    requires
        0 <= j <= i < entries.len(),
    ensures
        spec_lookup_from(entries, entries[i].0, j) is Some,
    decreases i - j,
{
    if j < i && entries[j].0 != entries[i].0 {
        lemma_lookup_has_from(entries, i, j + 1);
    }
}

proof fn lemma_lookup_has(entries: Seq<(Seq<u8>, JsonV)>, i: int)
    requires
        0 <= i < entries.len(),
    ensures
        spec_has_key(entries, entries[i].0),
{
    lemma_lookup_has_from(entries, i, 0);
}

/// A well-formed JSON tree is equivalent to itself in either mode.
pub proof fn lemma_json_equiv_refl(v: JsonV, mode: Mode)
    requires
        json_wf(v),
    ensures
        json_equiv(v, v, mode),
    decreases v, 1int,
{
    match v {
        JsonV::Arr(items) => {
            lemma_json_equiv_seq_refl(items, mode, 0);
        },
        JsonV::Obj(entries) => {
            lemma_json_equiv_entries_refl(entries, mode, 0);
            lemma_no_extras_self(entries, 0);
        },
        _ => {},
    }
}

proof fn lemma_json_equiv_seq_refl(items: Seq<JsonV>, mode: Mode, i: int)
    requires
        json_wf_seq(items, i),
        0 <= i,
    ensures
        json_equiv_seq(items, items, mode, i),
    decreases items, items.len() - i,
{
    if i < items.len() {
        lemma_json_equiv_refl(items[i], mode);
        lemma_json_equiv_seq_refl(items, mode, i + 1);
    }
}

proof fn lemma_json_equiv_entries_refl(entries: Seq<(Seq<u8>, JsonV)>, mode: Mode, i: int)
    requires
        keys_unique(entries),
        json_wf_entries(entries, i),
        0 <= i,
    ensures
        json_equiv_entries(entries, entries, mode, i),
    decreases entries, entries.len() - i,
{
    if i < entries.len() {
        lemma_lookup_unique(entries, i);
        lemma_json_equiv_refl(entries[i].1, mode);
        lemma_json_equiv_entries_refl(entries, mode, i + 1);
    }
}

} // verus!
