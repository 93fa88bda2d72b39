//! The JSON structural differ: walks an expected and an actual JSON tree side
//! by side and collects every discrepancy as a path-addressed mismatch, in a
//! deterministic order. Recursion stops at a node whose types differ; object
//! key surplus is reported as one summary mismatch in `Exact` mode and never
//! in `Contains` mode.

use vstd::prelude::*;

use crate::bytes::{clone_bytes, dec_u64, dec_i64, spec_dec_int, str_vec,
    StringSliceAdditionalSpecFns};
use crate::json::{jview_entries, jview_seq, lemma_jview_entries_index, lemma_jview_entries_len,
    lemma_jview_seq_index, lemma_jview_seq_len, spec_extra_names, spec_has_key, spec_lookup_from,
    JsonV, JsonValue};
use crate::jsontext::{render_json, spec_render_json};
use crate::model::{clone_path, lemma_concat_contains, mismatch, mismatch_diff, mismatch_names, path_push_field,
    path_push_index, spec_mismatch, spec_mismatch_diff, spec_mismatch_names, Mismatch,
    MismatchKind, MismatchV, Mode, PathSeg, PathSegV};
use crate::text::{spec_word_diff, word_diff};

verus! {

broadcast use
    vstd::seq::axiom_seq_index_decreases,
    vstd::seq::axiom_seq_subrange_decreases,
    vstd::std_specs::vec::axiom_vec_decreases_to_view,
    vstd::std_specs::vec::axiom_vec_index_decreases,
    vstd::seq::group_seq_axioms,
    crate::bytes::lemma_deep_view_bytes;

/// Display name of a JSON value's type, for type mismatches.
pub open spec fn spec_type_label(v: JsonV) -> Seq<u8> {
    match v {
        JsonV::Null => "Null".spec_bytes(),
        JsonV::Bool(_) => "Boolean".spec_bytes(),
        JsonV::Int(_) => "Number".spec_bytes(),
        JsonV::Str(_) => "String".spec_bytes(),
        JsonV::Arr(_) => "Array".spec_bytes(),
        JsonV::Obj(_) => "Object".spec_bytes(),
    }
}

/// Display text of a scalar JSON value; composite values render empty here,
/// their discrepancies are reported structurally.
pub open spec fn spec_scalar_text(v: JsonV) -> Seq<u8> {
    match v {
        JsonV::Null => seq![0x6eu8, 0x75u8, 0x6cu8, 0x6cu8],
        JsonV::Bool(b) => if b {
            seq![0x74u8, 0x72u8, 0x75u8, 0x65u8]
        } else {
            seq![0x66u8, 0x61u8, 0x6cu8, 0x73u8, 0x65u8]
        },
        JsonV::Int(i) => spec_dec_int(i),
        JsonV::Str(s) => s,
        JsonV::Arr(_) => Seq::empty(),
        JsonV::Obj(_) => Seq::empty(),
    }
}

/// The mismatches between an expected and an actual JSON tree under a mode,
/// addressed relative to `path`.
pub open spec fn spec_diff_json(e: JsonV, a: JsonV, path: Seq<PathSegV>, mode: Mode) -> Seq<
    MismatchV,
>
    decreases e, 1int,
{
    match (e, a) {
        (JsonV::Null, JsonV::Null) => Seq::empty(),
        (JsonV::Bool(x), JsonV::Bool(y)) => if x == y {
            Seq::empty()
        } else {
            seq![spec_mismatch(path, MismatchKind::ValueMismatch, spec_scalar_text(e),
                spec_scalar_text(a))]
        },
        (JsonV::Int(x), JsonV::Int(y)) => if x == y {
            Seq::empty()
        } else {
            seq![spec_mismatch(path, MismatchKind::ValueMismatch, spec_scalar_text(e),
                spec_scalar_text(a))]
        },
        (JsonV::Str(x), JsonV::Str(y)) => if x == y {
            Seq::empty()
        } else {
            seq![spec_mismatch_diff(path, MismatchKind::ValueMismatch, x, y,
                spec_word_diff(x, y))]
        },
        (JsonV::Arr(es), JsonV::Arr(an)) => spec_arr_diff(es, an, path, mode, 0) + spec_arr_tail(
            es,
            an,
            path,
            if es.len() <= an.len() {
                es.len() as int
            } else {
                an.len() as int
            },
        ) + if mode == Mode::Exact && es.len() != an.len() {
            seq![spec_mismatch(path, MismatchKind::ArrayLengthMismatch,
                spec_dec_int(es.len() as int), spec_dec_int(an.len() as int))]
        } else {
            Seq::empty()
        },
        (JsonV::Obj(eo), JsonV::Obj(ao)) => spec_obj_diff(eo, ao, path, mode, 0) + if mode
            == Mode::Exact && spec_extra_names(eo, ao, 0).len() > 0 {
            seq![spec_mismatch_names(path, MismatchKind::ExtraKeys, spec_extra_names(eo, ao, 0))]
        } else {
            Seq::empty()
        },
        _ => seq![spec_mismatch(path, MismatchKind::TypeMismatch, spec_type_label(e),
            spec_type_label(a))],
    }
}

/// Element-wise mismatches of two arrays over their shared indices.
pub open spec fn spec_arr_diff(
    es: Seq<JsonV>,
    an: Seq<JsonV>,
    path: Seq<PathSegV>,
    mode: Mode,
    i: int,
) -> Seq<MismatchV>
    decreases es, es.len() - i,
{
    if i < 0 || i >= es.len() || i >= an.len() {
        Seq::empty()
    } else {
        spec_diff_json(es[i], an[i], path + seq![PathSegV::Index(i)], mode) + spec_arr_diff(
            es,
            an,
            path,
            mode,
            i + 1,
        )
    }
}

/// Per-index mismatches for the indices beyond the shorter array: missing
/// elements when the expected array is longer, extra elements when the actual
/// one is.
pub open spec fn spec_arr_tail(es: Seq<JsonV>, an: Seq<JsonV>, path: Seq<PathSegV>, i: int) -> Seq<
    MismatchV,
>
    decreases es.len() + an.len() - i,
{
    if i < 0 || (i >= es.len() && i >= an.len()) {
        Seq::empty()
    } else if i >= an.len() {
        seq![spec_mismatch(path + seq![PathSegV::Index(i)], MismatchKind::ArrayElementMissing,
            spec_render_json(es[i]), Seq::empty())] + spec_arr_tail(es, an, path, i + 1)
    } else if i >= es.len() {
        seq![spec_mismatch(path + seq![PathSegV::Index(i)], MismatchKind::ArrayElementExtra,
            Seq::empty(), spec_render_json(an[i]))] + spec_arr_tail(es, an, path, i + 1)
    } else {
        spec_arr_tail(es, an, path, i + 1)
    }
}

/// Per-key mismatches of two objects over the expected keys: a missing key is
/// one mismatch, a present key is compared recursively under `path.key`.
pub open spec fn spec_obj_diff(
    eo: Seq<(Seq<u8>, JsonV)>,
    ao: Seq<(Seq<u8>, JsonV)>,
    path: Seq<PathSegV>,
    mode: Mode,
    i: int,
) -> Seq<MismatchV>
    decreases eo, eo.len() - i,
{
    if i < 0 || i >= eo.len() {
        Seq::empty()
    } else {
        (match spec_lookup_from(ao, eo[i].0, 0) {
            Option::Some(av) => spec_diff_json(
                eo[i].1,
                av,
                path + seq![PathSegV::Field(eo[i].0)],
                mode,
            ),
            Option::None => seq![spec_mismatch(path + seq![PathSegV::Field(eo[i].0)],
                MismatchKind::KeyMissing, spec_render_json(eo[i].1), Seq::empty())],
        }) + spec_obj_diff(eo, ao, path, mode, i + 1)
    }
}

proof fn lemma_arr_tail_empty(es: Seq<JsonV>, an: Seq<JsonV>, path: Seq<PathSegV>, i: int)
    requires
        0 <= i,
        i >= es.len() || i >= an.len(),
    ensures
        (spec_arr_tail(es, an, path, i).len() == 0) <==> (i >= es.len() && i >= an.len()),
    decreases es.len() + an.len() - i,
{
    if !(i >= es.len() && i >= an.len()) {
        lemma_arr_tail_empty(es, an, path, i + 1);
    }
}

proof fn lemma_arr_diff_empty(es: Seq<JsonV>, an: Seq<JsonV>, path: Seq<PathSegV>, mode: Mode, i: int)
    requires
        0 <= i,
    ensures
        (spec_arr_diff(es, an, path, mode, i).len() == 0) <==> crate::json::json_equiv_seq(
            es,
            an,
            mode,
            i,
        ),
    decreases es, es.len() - i,
{
    if !(i >= es.len() || i >= an.len()) {
        lemma_diff_empty(es[i], an[i], path + seq![PathSegV::Index(i)], mode);
        lemma_arr_diff_empty(es, an, path, mode, i + 1);
    }
}

proof fn lemma_obj_diff_empty(
    eo: Seq<(Seq<u8>, JsonV)>,
    ao: Seq<(Seq<u8>, JsonV)>,
    path: Seq<PathSegV>,
    mode: Mode,
    i: int,
)
    requires
        0 <= i,
    ensures
        (spec_obj_diff(eo, ao, path, mode, i).len() == 0) <==> crate::json::json_equiv_entries(
            eo,
            ao,
            mode,
            i,
        ),
    decreases eo, eo.len() - i,
{
    if i < eo.len() {
        match spec_lookup_from(ao, eo[i].0, 0) {
            Option::Some(av) => {
                lemma_diff_empty(eo[i].1, av, path + seq![PathSegV::Field(eo[i].0)], mode);
            },
            Option::None => {},
        }
        lemma_obj_diff_empty(eo, ao, path, mode, i + 1);
    }
}

proof fn lemma_diff_empty(e: JsonV, a: JsonV, path: Seq<PathSegV>, mode: Mode)
    ensures
        (spec_diff_json(e, a, path, mode).len() == 0) <==> crate::json::json_equiv(e, a, mode),
    decreases e, 1int,
{
    match (e, a) {
        (JsonV::Arr(es), JsonV::Arr(an)) => {
            let m = if es.len() <= an.len() {
                es.len() as int
            } else {
                an.len() as int
            };
            lemma_arr_diff_empty(es, an, path, mode, 0);
            lemma_arr_tail_empty(es, an, path, m);
        },
        (JsonV::Obj(eo), JsonV::Obj(ao)) => {
            lemma_obj_diff_empty(eo, ao, path, mode, 0);
        },
        _ => {},
    }
}

/// The JSON differ reports nothing exactly when the two trees are
/// structurally equivalent under the mode: an empty mismatch list is a pass.
pub proof fn lemma_diff_json_empty_iff_equiv(e: JsonV, a: JsonV, path: Seq<PathSegV>, mode: Mode)
    ensures
        (spec_diff_json(e, a, path, mode).len() == 0) <==> crate::json::json_equiv(e, a, mode),
{
    lemma_diff_empty(e, a, path, mode);
}

proof fn lemma_arr_monotone(es: Seq<JsonV>, an: Seq<JsonV>, path: Seq<PathSegV>, i: int)
    requires
        0 <= i,
    ensures
        forall|m: MismatchV|
            spec_arr_diff(es, an, path, Mode::Contains, i).contains(m) ==> spec_arr_diff(
                es,
                an,
                path,
                Mode::Exact,
                i,
            ).contains(m),
    decreases es, es.len() - i,
{
    if !(i >= es.len() || i >= an.len()) {
        let p2 = path + seq![PathSegV::Index(i)];
        lemma_diff_json_mode_monotone(es[i], an[i], p2);
        lemma_arr_monotone(es, an, path, i + 1);
        let hc = spec_diff_json(es[i], an[i], p2, Mode::Contains);
        let he = spec_diff_json(es[i], an[i], p2, Mode::Exact);
        let rc = spec_arr_diff(es, an, path, Mode::Contains, i + 1);
        let re = spec_arr_diff(es, an, path, Mode::Exact, i + 1);
        assert forall|m: MismatchV|
            spec_arr_diff(es, an, path, Mode::Contains, i).contains(m) implies spec_arr_diff(
            es,
            an,
            path,
            Mode::Exact,
            i,
        ).contains(m) by {
            lemma_concat_contains(hc, rc, m);
            lemma_concat_contains(he, re, m);
        }
    }
}

proof fn lemma_obj_monotone(
    eo: Seq<(Seq<u8>, JsonV)>,
    ao: Seq<(Seq<u8>, JsonV)>,
    path: Seq<PathSegV>,
    i: int,
)
    requires
        0 <= i,
    ensures
        forall|m: MismatchV|
            spec_obj_diff(eo, ao, path, Mode::Contains, i).contains(m) ==> spec_obj_diff(
                eo,
                ao,
                path,
                Mode::Exact,
                i,
            ).contains(m),
    decreases eo, eo.len() - i,
{
    if i < eo.len() {
        let p2 = path + seq![PathSegV::Field(eo[i].0)];
        let hc = match spec_lookup_from(ao, eo[i].0, 0) {
            Option::Some(av) => spec_diff_json(eo[i].1, av, p2, Mode::Contains),
            Option::None => seq![spec_mismatch(p2, MismatchKind::KeyMissing,
                spec_render_json(eo[i].1), Seq::empty())],
        };
        let he = match spec_lookup_from(ao, eo[i].0, 0) {
            Option::Some(av) => spec_diff_json(eo[i].1, av, p2, Mode::Exact),
            Option::None => seq![spec_mismatch(p2, MismatchKind::KeyMissing,
                spec_render_json(eo[i].1), Seq::empty())],
        };
        match spec_lookup_from(ao, eo[i].0, 0) {
            Option::Some(av) => {
                lemma_diff_json_mode_monotone(eo[i].1, av, p2);
            },
            Option::None => {},
        }
        lemma_obj_monotone(eo, ao, path, i + 1);
        let rc = spec_obj_diff(eo, ao, path, Mode::Contains, i + 1);
        let re = spec_obj_diff(eo, ao, path, Mode::Exact, i + 1);
        assert forall|m: MismatchV|
            spec_obj_diff(eo, ao, path, Mode::Contains, i).contains(m) implies spec_obj_diff(
            eo,
            ao,
            path,
            Mode::Exact,
            i,
        ).contains(m) by {
            lemma_concat_contains(hc, rc, m);
            lemma_concat_contains(he, re, m);
        }
    }
}

/// Mode monotonicity: every mismatch the JSON differ reports in `Contains`
/// mode is also reported in `Exact` mode for the same inputs; `Exact` mode
/// may only add surplus-related mismatches.
pub proof fn lemma_diff_json_mode_monotone(e: JsonV, a: JsonV, path: Seq<PathSegV>)
    ensures
        forall|m: MismatchV|
            spec_diff_json(e, a, path, Mode::Contains).contains(m) ==> spec_diff_json(
                e,
                a,
                path,
                Mode::Exact,
            ).contains(m),
    decreases e, 1int,
{
    match (e, a) {
        (JsonV::Arr(es), JsonV::Arr(an)) => {
            let mi = if es.len() <= an.len() {
                es.len() as int
            } else {
                an.len() as int
            };
            lemma_arr_monotone(es, an, path, 0);
            let ac = spec_arr_diff(es, an, path, Mode::Contains, 0);
            let ae = spec_arr_diff(es, an, path, Mode::Exact, 0);
            let t = spec_arr_tail(es, an, path, mi);
            let lc: Seq<MismatchV> = Seq::empty();
            let le: Seq<MismatchV> = if es.len() != an.len() {
                seq![spec_mismatch(path, MismatchKind::ArrayLengthMismatch,
                    spec_dec_int(es.len() as int), spec_dec_int(an.len() as int))]
            } else {
                Seq::empty()
            };
            assert forall|m: MismatchV|
                spec_diff_json(e, a, path, Mode::Contains).contains(m) implies spec_diff_json(
                e,
                a,
                path,
                Mode::Exact,
            ).contains(m) by {
                lemma_concat_contains(ac + t, lc, m);
                lemma_concat_contains(ac, t, m);
                lemma_concat_contains(ae, t, m);
                lemma_concat_contains(ae + t, le, m);
            }
        },
        (JsonV::Obj(eo), JsonV::Obj(ao)) => {
            lemma_obj_monotone(eo, ao, path, 0);
            let oc = spec_obj_diff(eo, ao, path, Mode::Contains, 0);
            let oe = spec_obj_diff(eo, ao, path, Mode::Exact, 0);
            let xc: Seq<MismatchV> = Seq::empty();
            let xe: Seq<MismatchV> = if spec_extra_names(eo, ao, 0).len() > 0 {
                seq![spec_mismatch_names(path, MismatchKind::ExtraKeys,
                    spec_extra_names(eo, ao, 0))]
            } else {
                Seq::empty()
            };
            assert forall|m: MismatchV|
                spec_diff_json(e, a, path, Mode::Contains).contains(m) implies spec_diff_json(
                e,
                a,
                path,
                Mode::Exact,
            ).contains(m) by {
                lemma_concat_contains(oc, xc, m);
                lemma_concat_contains(oe, xe, m);
            }
        },
        _ => {
            assert(spec_diff_json(e, a, path, Mode::Contains) =~= spec_diff_json(
                e,
                a,
                path,
                Mode::Exact,
            ));
        },
    }
}

/// Determinism: the differ's result is a function of the two trees, the
/// base path and the mode alone; two runs on equal inputs agree, whatever
/// order any underlying map was iterated in to build the trees.
pub proof fn lemma_diff_json_deterministic(
    e: JsonV,
    a: JsonV,
    path: Seq<PathSegV>,
    mode: Mode,
    r1: Seq<MismatchV>,
    r2: Seq<MismatchV>,
)
    requires
        r1 == spec_diff_json(e, a, path, mode),
        r2 == spec_diff_json(e, a, path, mode),
    ensures
        r1 == r2,
{
}

proof fn lemma_arr_exact_additions(es: Seq<JsonV>, an: Seq<JsonV>, path: Seq<PathSegV>, i: int)
    requires
        0 <= i,
    ensures
        forall|m: MismatchV|
            spec_arr_diff(es, an, path, Mode::Exact, i).contains(m) ==> spec_arr_diff(
                es,
                an,
                path,
                Mode::Contains,
                i,
            ).contains(m) || m.kind == MismatchKind::ExtraKeys || m.kind
                == MismatchKind::ArrayLengthMismatch,
    decreases es, es.len() - i,
{
    if !(i >= es.len() || i >= an.len()) {
        let p2 = path + seq![PathSegV::Index(i)];
        lemma_diff_json_exact_only_additions(es[i], an[i], p2);
        lemma_arr_exact_additions(es, an, path, i + 1);
        let hc = spec_diff_json(es[i], an[i], p2, Mode::Contains);
        let he = spec_diff_json(es[i], an[i], p2, Mode::Exact);
        let rc = spec_arr_diff(es, an, path, Mode::Contains, i + 1);
        let re = spec_arr_diff(es, an, path, Mode::Exact, i + 1);
        assert forall|m: MismatchV|
            spec_arr_diff(es, an, path, Mode::Exact, i).contains(m) implies spec_arr_diff(
            es,
            an,
            path,
            Mode::Contains,
            i,
        ).contains(m) || m.kind == MismatchKind::ExtraKeys || m.kind
            == MismatchKind::ArrayLengthMismatch by {
            lemma_concat_contains(he, re, m);
            lemma_concat_contains(hc, rc, m);
        }
    }
}

proof fn lemma_obj_exact_additions(
    eo: Seq<(Seq<u8>, JsonV)>,
    ao: Seq<(Seq<u8>, JsonV)>,
    path: Seq<PathSegV>,
    i: int,
)
    requires
        0 <= i,
    ensures
        forall|m: MismatchV|
            spec_obj_diff(eo, ao, path, Mode::Exact, i).contains(m) ==> spec_obj_diff(
                eo,
                ao,
                path,
                Mode::Contains,
                i,
            ).contains(m) || m.kind == MismatchKind::ExtraKeys || m.kind
                == MismatchKind::ArrayLengthMismatch,
    decreases eo, eo.len() - i,
{
    if i < eo.len() {
        let p2 = path + seq![PathSegV::Field(eo[i].0)];
        let hc = match spec_lookup_from(ao, eo[i].0, 0) {
            Option::Some(av) => spec_diff_json(eo[i].1, av, p2, Mode::Contains),
            Option::None => seq![spec_mismatch(p2, MismatchKind::KeyMissing,
                spec_render_json(eo[i].1), Seq::empty())],
        };
        let he = match spec_lookup_from(ao, eo[i].0, 0) {
            Option::Some(av) => spec_diff_json(eo[i].1, av, p2, Mode::Exact),
            Option::None => seq![spec_mismatch(p2, MismatchKind::KeyMissing,
                spec_render_json(eo[i].1), Seq::empty())],
        };
        match spec_lookup_from(ao, eo[i].0, 0) {
            Option::Some(av) => {
                lemma_diff_json_exact_only_additions(eo[i].1, av, p2);
            },
            Option::None => {},
        }
        lemma_obj_exact_additions(eo, ao, path, i + 1);
        let rc = spec_obj_diff(eo, ao, path, Mode::Contains, i + 1);
        let re = spec_obj_diff(eo, ao, path, Mode::Exact, i + 1);
        assert forall|m: MismatchV|
            spec_obj_diff(eo, ao, path, Mode::Exact, i).contains(m) implies spec_obj_diff(
            eo,
            ao,
            path,
            Mode::Contains,
            i,
        ).contains(m) || m.kind == MismatchKind::ExtraKeys || m.kind
            == MismatchKind::ArrayLengthMismatch by {
            lemma_concat_contains(he, re, m);
            lemma_concat_contains(hc, rc, m);
        }
    }
}

/// The other half of mode monotonicity: what `Exact` mode reports beyond
/// `Contains` mode is confined to the surplus kinds — an extra-key summary
/// or an array length mismatch — which `Contains` mode never reports.
pub proof fn lemma_diff_json_exact_only_additions(e: JsonV, a: JsonV, path: Seq<PathSegV>)
    ensures
        forall|m: MismatchV|
            spec_diff_json(e, a, path, Mode::Exact).contains(m) ==> spec_diff_json(
                e,
                a,
                path,
                Mode::Contains,
            ).contains(m) || m.kind == MismatchKind::ExtraKeys || m.kind
                == MismatchKind::ArrayLengthMismatch,
    decreases e, 1int,
{
    match (e, a) {
        (JsonV::Arr(es), JsonV::Arr(an)) => {
            let mi = if es.len() <= an.len() {
                es.len() as int
            } else {
                an.len() as int
            };
            lemma_arr_exact_additions(es, an, path, 0);
            let ac = spec_arr_diff(es, an, path, Mode::Contains, 0);
            let ae = spec_arr_diff(es, an, path, Mode::Exact, 0);
            let t = spec_arr_tail(es, an, path, mi);
            let lc: Seq<MismatchV> = Seq::empty();
            let le: Seq<MismatchV> = if es.len() != an.len() {
                seq![spec_mismatch(path, MismatchKind::ArrayLengthMismatch,
                    spec_dec_int(es.len() as int), spec_dec_int(an.len() as int))]
            } else {
                Seq::empty()
            };
            assert forall|m: MismatchV|
                spec_diff_json(e, a, path, Mode::Exact).contains(m) implies spec_diff_json(
                e,
                a,
                path,
                Mode::Contains,
            ).contains(m) || m.kind == MismatchKind::ExtraKeys || m.kind
                == MismatchKind::ArrayLengthMismatch by {
                lemma_concat_contains(ae + t, le, m);
                lemma_concat_contains(ae, t, m);
                lemma_concat_contains(ac, t, m);
                lemma_concat_contains(ac + t, lc, m);
                if le.contains(m) {
                    let idx = choose|idx: int| 0 <= idx < le.len() && le[idx] == m;
                    assert(m == le[0]);
                }
            }
        },
        (JsonV::Obj(eo), JsonV::Obj(ao)) => {
            lemma_obj_exact_additions(eo, ao, path, 0);
            let oc = spec_obj_diff(eo, ao, path, Mode::Contains, 0);
            let oe = spec_obj_diff(eo, ao, path, Mode::Exact, 0);
            let xc: Seq<MismatchV> = Seq::empty();
            let xe: Seq<MismatchV> = if spec_extra_names(eo, ao, 0).len() > 0 {
                seq![spec_mismatch_names(path, MismatchKind::ExtraKeys,
                    spec_extra_names(eo, ao, 0))]
            } else {
                Seq::empty()
            };
            assert forall|m: MismatchV|
                spec_diff_json(e, a, path, Mode::Exact).contains(m) implies spec_diff_json(
                e,
                a,
                path,
                Mode::Contains,
            ).contains(m) || m.kind == MismatchKind::ExtraKeys || m.kind
                == MismatchKind::ArrayLengthMismatch by {
                lemma_concat_contains(oe, xe, m);
                lemma_concat_contains(oc, xc, m);
                if xe.contains(m) {
                    let idx = choose|idx: int| 0 <= idx < xe.len() && xe[idx] == m;
                    assert(m == xe[0]);
                }
            }
        },
        _ => {
            assert(spec_diff_json(e, a, path, Mode::Contains) =~= spec_diff_json(
                e,
                a,
                path,
                Mode::Exact,
            ));
        },
    }
}

/// Round-trip idempotence: comparing a well-formed JSON tree against an
/// identical copy of itself yields no mismatch in either mode.
pub proof fn lemma_diff_json_self_empty(v: JsonV, path: Seq<PathSegV>, mode: Mode)
    requires
        crate::json::json_wf(v),
    ensures
        spec_diff_json(v, v, path, mode).len() == 0,
{
    crate::json::lemma_json_equiv_refl(v, mode);
    lemma_diff_empty(v, v, path, mode);
}

fn type_label(v: &JsonValue) -> (r: Vec<u8>)
    ensures
        r@ == spec_type_label(v@),
{
    match v {
        JsonValue::Null => str_vec("Null"),
        JsonValue::Bool(_) => str_vec("Boolean"),
        JsonValue::Int(_) => str_vec("Number"),
        JsonValue::Str(_) => str_vec("String"),
        JsonValue::Arr(_) => str_vec("Array"),
        JsonValue::Obj(_) => str_vec("Object"),
    }
}

fn scalar_text(v: &JsonValue) -> (r: Vec<u8>)
    ensures
        r@ == spec_scalar_text(v@),
{
    match v {
        JsonValue::Null => {
            let mut out: Vec<u8> = Vec::new();
            out.push(0x6e);
            out.push(0x75);
            out.push(0x6c);
            out.push(0x6c);
            proof {
                assert(out@ =~= spec_scalar_text(v@));
            }
            out
        },
        JsonValue::Bool(b) => {
            let mut out: Vec<u8> = Vec::new();
            if *b {
                out.push(0x74);
                out.push(0x72);
                out.push(0x75);
                out.push(0x65);
            } else {
                out.push(0x66);
                out.push(0x61);
                out.push(0x6c);
                out.push(0x73);
                out.push(0x65);
            }
            proof {
                assert(out@ =~= spec_scalar_text(v@));
            }
            out
        },
        JsonValue::Int(i) => dec_i64(*i),
        JsonValue::Str(s) => clone_bytes(s),
        JsonValue::Arr(_) => Vec::new(),
        JsonValue::Obj(_) => Vec::new(),
    }
}

fn lookup_obj<'a>(ao: &'a Vec<(Vec<u8>, JsonValue)>, k: &Vec<u8>, i: usize) -> (r: Option<
    &'a JsonValue,
>)
    requires
        i <= ao.len(),
    ensures
        (match r {
            Option::Some(v) => spec_lookup_from(jview_entries(ao@), k@, i as int)
                == Option::Some(v@),
            Option::None => spec_lookup_from(jview_entries(ao@), k@, i as int) is None,
        }),
    decreases ao.len() - i,
{
    proof {
        lemma_jview_entries_len(ao@);
    }
    if i == ao.len() {
        return None;
    }
    proof {
        lemma_jview_entries_index(ao@, i as int);
    }
    if crate::bytes::bytes_eq(&ao[i].0, k) {
        Some(&ao[i].1)
    } else {
        lookup_obj(ao, k, i + 1)
    }
}

fn has_key(eo: &Vec<(Vec<u8>, JsonValue)>, k: &Vec<u8>) -> (r: bool)
    ensures
        r == spec_has_key(jview_entries(eo@), k@),
{
    match lookup_obj(eo, k, 0) {
        Some(_) => true,
        None => false,
    }
}

fn extra_names(eo: &Vec<(Vec<u8>, JsonValue)>, ao: &Vec<(Vec<u8>, JsonValue)>, i: usize) -> (r:
    Vec<Vec<u8>>)
    requires
        i <= ao.len(),
    ensures
        r.deep_view() == spec_extra_names(jview_entries(eo@), jview_entries(ao@), i as int),
    decreases ao.len() - i,
{
    proof {
        lemma_jview_entries_len(ao@);
    }
    if i == ao.len() {
        let r: Vec<Vec<u8>> = Vec::new();
        proof {
            assert(r.deep_view() =~= spec_extra_names(
                jview_entries(eo@),
                jview_entries(ao@),
                i as int,
            ));
        }
        return r;
    }
    proof {
        lemma_jview_entries_index(ao@, i as int);
    }
    let rest = extra_names(eo, ao, i + 1);
    if has_key(eo, &ao[i].0) {
        rest
    } else {
        let mut out: Vec<Vec<u8>> = Vec::new();
        out.push(clone_bytes(&ao[i].0));
        let mut tail = rest;
        let ghost tail_view = tail.deep_view();
        out.append(&mut tail);
        proof {
            assert(out.deep_view() =~~= seq![ao@[i as int].0@] + tail_view);
        }
        out
    }
}

/// Compares an expected JSON tree with an actual one and returns every
/// discrepancy, addressed relative to `path`, in a deterministic order.
pub fn diff_json(e: &JsonValue, a: &JsonValue, path: &Vec<PathSeg>, mode: Mode) -> (r: Vec<
    Mismatch,
>)
    ensures
        r.deep_view() == spec_diff_json(e@, a@, path.deep_view(), mode),
    decreases *e, 1int,
{
    match (e, a) {
        (JsonValue::Null, JsonValue::Null) => {
            let r: Vec<Mismatch> = Vec::new();
            proof {
                assert(r.deep_view() =~= spec_diff_json(e@, a@, path.deep_view(), mode));
            }
            r
        },
        (JsonValue::Bool(x), JsonValue::Bool(y)) => {
            let mut r: Vec<Mismatch> = Vec::new();
            if x != y {
                r.push(
                    mismatch(
                        clone_path(path),
                        MismatchKind::ValueMismatch,
                        scalar_text(e),
                        scalar_text(a),
                    ),
                );
            }
            proof {
                assert(r.deep_view() =~~= spec_diff_json(e@, a@, path.deep_view(), mode));
            }
            r
        },
        (JsonValue::Int(x), JsonValue::Int(y)) => {
            let mut r: Vec<Mismatch> = Vec::new();
            if x != y {
                r.push(
                    mismatch(
                        clone_path(path),
                        MismatchKind::ValueMismatch,
                        scalar_text(e),
                        scalar_text(a),
                    ),
                );
            }
            proof {
                assert(r.deep_view() =~~= spec_diff_json(e@, a@, path.deep_view(), mode));
            }
            r
        },
        (JsonValue::Str(x), JsonValue::Str(y)) => {
            let mut r: Vec<Mismatch> = Vec::new();
            if !crate::bytes::bytes_eq(x, y) {
                let d = word_diff(x, y);
                r.push(
                    mismatch_diff(
                        clone_path(path),
                        MismatchKind::ValueMismatch,
                        clone_bytes(x),
                        clone_bytes(y),
                        d,
                    ),
                );
            }
            proof {
                assert(r.deep_view() =~~= spec_diff_json(e@, a@, path.deep_view(), mode));
            }
            r
        },
        (JsonValue::Arr(es), JsonValue::Arr(an)) => {
            proof {
                lemma_jview_seq_len(es@);
                lemma_jview_seq_len(an@);
            }
            let mut r = diff_arr(es, an, path, mode, 0);
            let m = if es.len() <= an.len() {
                es.len()
            } else {
                an.len()
            };
            let mut tail = diff_arr_tail(es, an, path, m);
            r.append(&mut tail);
            if mode == Mode::Exact && es.len() != an.len() {
                r.push(
                    mismatch(
                        clone_path(path),
                        MismatchKind::ArrayLengthMismatch,
                        dec_u64(es.len() as u64),
                        dec_u64(an.len() as u64),
                    ),
                );
            }
            proof {
                assert(r.deep_view() =~~= spec_diff_json(e@, a@, path.deep_view(), mode));
            }
            r
        },
        (JsonValue::Obj(eo), JsonValue::Obj(ao)) => {
            proof {
                lemma_jview_entries_len(eo@);
                lemma_jview_entries_len(ao@);
            }
            let mut r = diff_obj(eo, ao, path, mode, 0);
            if mode == Mode::Exact {
                let extras = extra_names(eo, ao, 0);
                if extras.len() > 0 {
                    r.push(mismatch_names(clone_path(path), MismatchKind::ExtraKeys, extras));
                }
            }
            proof {
                assert(r.deep_view() =~~= spec_diff_json(e@, a@, path.deep_view(), mode));
            }
            r
        },
        _ => {
            let mut r: Vec<Mismatch> = Vec::new();
            r.push(mismatch(clone_path(path), MismatchKind::TypeMismatch, type_label(e), type_label(a)));
            proof {
                assert(r.deep_view() =~~= spec_diff_json(e@, a@, path.deep_view(), mode));
            }
            r
        },
    }
}

fn diff_arr(es: &Vec<JsonValue>, an: &Vec<JsonValue>, path: &Vec<PathSeg>, mode: Mode, i: usize) -> (r:
    Vec<Mismatch>)
    ensures
        r.deep_view() == spec_arr_diff(jview_seq(es@), jview_seq(an@), path.deep_view(), mode, i as int),
    decreases *es, es.len() - i,
{
    proof {
        lemma_jview_seq_len(es@);
        lemma_jview_seq_len(an@);
    }
    if i >= es.len() || i >= an.len() {
        let r: Vec<Mismatch> = Vec::new();
        proof {
            assert(r.deep_view() =~= spec_arr_diff(
                jview_seq(es@),
                jview_seq(an@),
                path.deep_view(),
                mode,
                i as int,
            ));
        }
        return r;
    }
    proof {
        lemma_jview_seq_index(es@, i as int);
        lemma_jview_seq_index(an@, i as int);
    }
    let p2 = path_push_index(path, i);
    let mut r = diff_json(&es[i], &an[i], &p2, mode);
    let mut rest = diff_arr(es, an, path, mode, i + 1);
    r.append(&mut rest);
    proof {
        assert(r.deep_view() =~~= spec_arr_diff(
            jview_seq(es@),
            jview_seq(an@),
            path.deep_view(),
            mode,
            i as int,
        ));
    }
    r
}

fn diff_arr_tail(es: &Vec<JsonValue>, an: &Vec<JsonValue>, path: &Vec<PathSeg>, i: usize) -> (r:
    Vec<Mismatch>)
    ensures
        r.deep_view() == spec_arr_tail(jview_seq(es@), jview_seq(an@), path.deep_view(), i as int),
    decreases es.len() + an.len() - i,
{
    proof {
        lemma_jview_seq_len(es@);
        lemma_jview_seq_len(an@);
    }
    if i >= es.len() && i >= an.len() {
        let r: Vec<Mismatch> = Vec::new();
        proof {
            assert(r.deep_view() =~= spec_arr_tail(
                jview_seq(es@),
                jview_seq(an@),
                path.deep_view(),
                i as int,
            ));
        }
        return r;
    }
    if i >= an.len() {
        proof {
            lemma_jview_seq_index(es@, i as int);
        }
        let p2 = path_push_index(path, i);
        let mut r: Vec<Mismatch> = Vec::new();
        r.push(
            mismatch(p2, MismatchKind::ArrayElementMissing, render_json(&es[i]), Vec::new()),
        );
        let mut rest = diff_arr_tail(es, an, path, i + 1);
        r.append(&mut rest);
        proof {
            assert(r.deep_view() =~~= spec_arr_tail(
                jview_seq(es@),
                jview_seq(an@),
                path.deep_view(),
                i as int,
            ));
        }
        r
    } else if i >= es.len() {
        proof {
            lemma_jview_seq_index(an@, i as int);
        }
        let p2 = path_push_index(path, i);
        let mut r: Vec<Mismatch> = Vec::new();
        r.push(mismatch(p2, MismatchKind::ArrayElementExtra, Vec::new(), render_json(&an[i])));
        let mut rest = diff_arr_tail(es, an, path, i + 1);
        r.append(&mut rest);
        proof {
            assert(r.deep_view() =~~= spec_arr_tail(
                jview_seq(es@),
                jview_seq(an@),
                path.deep_view(),
                i as int,
            ));
        }
        r
    } else {
        diff_arr_tail(es, an, path, i + 1)
    }
}

fn diff_obj(
    eo: &Vec<(Vec<u8>, JsonValue)>,
    ao: &Vec<(Vec<u8>, JsonValue)>,
    path: &Vec<PathSeg>,
    mode: Mode,
    i: usize,
) -> (r: Vec<Mismatch>)
    ensures
        r.deep_view() == spec_obj_diff(
            jview_entries(eo@),
            jview_entries(ao@),
            path.deep_view(),
            mode,
            i as int,
        ),
    decreases *eo, eo.len() - i,
{
    proof {
        lemma_jview_entries_len(eo@);
    }
    if i >= eo.len() {
        let r: Vec<Mismatch> = Vec::new();
        proof {
            assert(r.deep_view() =~= spec_obj_diff(
                jview_entries(eo@),
                jview_entries(ao@),
                path.deep_view(),
                mode,
                i as int,
            ));
        }
        return r;
    }
    proof {
        lemma_jview_entries_index(eo@, i as int);
    }
    let p2 = path_push_field(path, &eo[i].0);
    let mut r: Vec<Mismatch>;
    match lookup_obj(ao, &eo[i].0, 0) {
        Some(av) => {
            r = diff_json(&eo[i].1, av, &p2, mode);
        },
        None => {
            r = Vec::new();
            r.push(mismatch(p2, MismatchKind::KeyMissing, render_json(&eo[i].1), Vec::new()));
        },
    }
    let mut rest = diff_obj(eo, ao, path, mode, i + 1);
    r.append(&mut rest);
    proof {
        assert(r.deep_view() =~~= spec_obj_diff(
            jview_entries(eo@),
            jview_entries(ao@),
            path.deep_view(),
            mode,
            i as int,
        ));
    }
    r
}

} // verus!
