//! JSON text: rendering a JSON tree to its compact textual form, and parsing
//! JSON text into a tree. Rendering is pinned to a spec-level function. The
//! parser's failures are terminal parse failures, not mismatches; it rejects
//! duplicate object keys (so every parsed tree is well formed), non-integral
//! or out-of-range numbers, and unsupported escapes.

use vstd::prelude::*;

use crate::json::{jview, jview_entries, jview_seq, lemma_jview_entries_index, lemma_jview_seq_index,
    JsonV, JsonValue};
use crate::bytes::{spec_dec_int, dec_i64};

verus! {

broadcast use
    vstd::seq::axiom_seq_index_decreases,
    vstd::seq::axiom_seq_subrange_decreases,
    vstd::std_specs::vec::axiom_vec_decreases_to_view,
    vstd::std_specs::vec::axiom_vec_index_decreases;

/// The escaped form of one string byte inside JSON text.
pub open spec fn spec_escape_byte(b: u8) -> Seq<u8> {
    if b == 0x22 {
        seq![0x5cu8, 0x22u8]
    } else if b == 0x5c {
        seq![0x5cu8, 0x5cu8]
    } else if b == 0x0a {
        seq![0x5cu8, 0x6eu8]
    } else if b == 0x0d {
        seq![0x5cu8, 0x72u8]
    } else if b == 0x09 {
        seq![0x5cu8, 0x74u8]
    } else {
        seq![b]
    }
}

pub open spec fn spec_escape(s: Seq<u8>, i: int) -> Seq<u8>
    decreases s.len() - i,
{
    if i < 0 || i >= s.len() {
        Seq::empty()
    } else {
        spec_escape_byte(s[i]) + spec_escape(s, i + 1)
    }
}

/// The compact textual form of a JSON tree.
pub open spec fn spec_render_json(v: JsonV) -> Seq<u8>
    decreases v, 1int,
{
    match v {
        JsonV::Null => seq![0x6eu8, 0x75u8, 0x6cu8, 0x6cu8],
        JsonV::Bool(b) => if b {
            seq![0x74u8, 0x72u8, 0x75u8, 0x65u8]
        } else {
            seq![0x66u8, 0x61u8, 0x6cu8, 0x73u8, 0x65u8]
        },
        JsonV::Int(i) => spec_dec_int(i),
        JsonV::Str(s) => seq![0x22u8] + spec_escape(s, 0) + seq![0x22u8],
        JsonV::Arr(items) => seq![0x5bu8] + spec_render_items(items, 0) + seq![0x5du8],
        JsonV::Obj(entries) => seq![0x7bu8] + spec_render_entries(entries, 0) + seq![0x7du8],
    }
}

pub open spec fn spec_render_items(items: Seq<JsonV>, i: int) -> Seq<u8>
    decreases items, items.len() - i,
{
    if i < 0 || i >= items.len() {
        Seq::empty()
    } else {
        (if i > 0 {
            seq![0x2cu8]
        } else {
            Seq::empty()
        }) + spec_render_json(items[i]) + spec_render_items(items, i + 1)
    }
}

pub open spec fn spec_render_entries(entries: Seq<(Seq<u8>, JsonV)>, i: int) -> Seq<u8>
    decreases entries, entries.len() - i,
{
    if i < 0 || i >= entries.len() {
        Seq::empty()
    } else {
        (if i > 0 {
            seq![0x2cu8]
        } else {
            Seq::empty()
        }) + seq![0x22u8] + spec_escape(entries[i].0, 0) + seq![0x22u8, 0x3au8]
            + spec_render_json(entries[i].1) + spec_render_entries(entries, i + 1)
    }
}

fn escape_into(out: &mut Vec<u8>, s: &Vec<u8>)
    ensures
        final(out)@ == old(out)@ + spec_escape(s@, 0),
{
    let mut i: usize = 0;
    while i < s.len()
        invariant
            i <= s.len(),
            out@ + spec_escape(s@, i as int) == old(out)@ + spec_escape(s@, 0),
        decreases s.len() - i,
    {
        let b = s[i];
        if b == 0x22 || b == 0x5c {
            out.push(0x5c);
            out.push(b);
        } else if b == 0x0a {
            out.push(0x5c);
            out.push(0x6e);
        } else if b == 0x0d {
            out.push(0x5c);
            out.push(0x72);
        } else if b == 0x09 {
            out.push(0x5c);
            out.push(0x74);
        } else {
            out.push(b);
        }
        proof {
            assert(out@ + spec_escape(s@, i + 1) =~= old(out)@ + spec_escape(s@, 0));
        }
        i = i + 1;
    }
}

/// Renders a JSON tree to its compact textual form.
pub fn render_json(v: &JsonValue) -> (r: Vec<u8>)
    ensures
        r@ == spec_render_json(v@),
    decreases *v, 1int,
{
    let mut out: Vec<u8> = Vec::new();
    match v {
        JsonValue::Null => {
            out.push(0x6e);
            out.push(0x75);
            out.push(0x6c);
            out.push(0x6c);
            proof {
                assert(out@ =~= spec_render_json(v@));
            }
        },
        JsonValue::Bool(b) => {
            if *b {
                out.push(0x74);
                out.push(0x72);
                out.push(0x75);
                out.push(0x65);
            } else {
                out.push(0x66);
                out.push(0x61);
                out.push(0x6c);
                out.push(0x73);
                out.push(0x65);
            }
            proof {
                assert(out@ =~= spec_render_json(v@));
            }
        },
        JsonValue::Int(i) => {
            out = dec_i64(*i);
        },
        JsonValue::Str(s) => {
            out.push(0x22);
            escape_into(&mut out, s);
            out.push(0x22);
            proof {
                assert(out@ =~= spec_render_json(v@));
            }
        },
        JsonValue::Arr(items) => {
            out.push(0x5b);
            render_items_into(&mut out, items, 0);
            out.push(0x5d);
            proof {
                assert(out@ =~= spec_render_json(v@));
            }
        },
        JsonValue::Obj(entries) => {
            out.push(0x7b);
            render_entries_into(&mut out, entries, 0);
            out.push(0x7d);
            proof {
                assert(out@ =~= spec_render_json(v@));
            }
        },
    }
    out
}

fn render_items_into(out: &mut Vec<u8>, items: &Vec<JsonValue>, i: usize)
    requires
        i <= items.len(),
    ensures
        final(out)@ == old(out)@ + spec_render_items(jview_seq(items@), i as int),
    decreases *items, items.len() - i,
{
    let ghost init = out@;
    proof {
        crate::json::lemma_jview_seq_len(items@);
    }
    if i == items.len() {
        proof {
            assert(init + spec_render_items(jview_seq(items@), i as int) =~= out@);
        }
        return;
    }
    proof {
        lemma_jview_seq_index(items@, i as int);
    }
    if i > 0 {
        out.push(0x2c);
    }
    let mut part = render_json(&items[i]);
    out.append(&mut part);
    render_items_into(out, items, i + 1);
    proof {
        assert(out@ =~= init + spec_render_items(jview_seq(items@), i as int));
    }
}

fn render_entries_into(out: &mut Vec<u8>, entries: &Vec<(Vec<u8>, JsonValue)>, i: usize)
    requires
        i <= entries.len(),
    ensures
        final(out)@ == old(out)@ + spec_render_entries(jview_entries(entries@), i as int),
    decreases *entries, entries.len() - i,
{
    let ghost init = out@;
    proof {
        crate::json::lemma_jview_entries_len(entries@);
    }
    if i == entries.len() {
        proof {
            assert(init + spec_render_entries(jview_entries(entries@), i as int) =~= out@);
        }
        return;
    }
    proof {
        lemma_jview_entries_index(entries@, i as int);
    }
    if i > 0 {
        out.push(0x2c);
    }
    out.push(0x22);
    escape_into(out, &entries[i].0);
    out.push(0x22);
    out.push(0x3a);
    let mut part = render_json(&entries[i].1);
    out.append(&mut part);
    render_entries_into(out, entries, i + 1);
    proof {
        assert(out@ =~= init + spec_render_entries(jview_entries(entries@), i as int));
    }
}

fn is_ws(b: u8) -> (r: bool)
    ensures
        r == (b == 0x20 || b == 0x09 || b == 0x0a || b == 0x0d),
{
    b == 0x20 || b == 0x09 || b == 0x0a || b == 0x0d
}

fn skip_ws(s: &Vec<u8>, pos: usize) -> (r: usize)
    requires
        pos <= s.len(),
    ensures
        pos <= r <= s.len(),
{
    let mut i = pos;
    while i < s.len() && is_ws(s[i])
        invariant
            pos <= i <= s.len(),
        decreases s.len() - i,
    {
        i = i + 1;
    }
    i
}

fn parse_string(s: &Vec<u8>, pos: usize) -> (r: Option<(Vec<u8>, usize)>)
    requires
        pos < s.len(),
    ensures
        r matches Some(p) ==> pos < p.1 <= s.len(),
{
    if s[pos] != 0x22 {
        return None;
    }
    let mut out: Vec<u8> = Vec::new();
    let mut i = pos + 1;
    while i < s.len()
        invariant
            pos < i <= s.len(),
        decreases s.len() - i,
    {
        let b = s[i];
        if b == 0x22 {
            return Some((out, i + 1));
        } else if b == 0x5c {
            if i + 1 >= s.len() {
                return None;
            }
            let e = s[i + 1];
            if e == 0x22 {
                out.push(0x22);
            } else if e == 0x5c {
                out.push(0x5c);
            } else if e == 0x2f {
                out.push(0x2f);
            } else if e == 0x6e {
                out.push(0x0a);
            } else if e == 0x72 {
                out.push(0x0d);
            } else if e == 0x74 {
                out.push(0x09);
            } else if e == 0x62 {
                out.push(0x08);
            } else if e == 0x66 {
                out.push(0x0c);
            } else {
                return None;
            }
            i = i + 2;
        } else if b < 0x20 {
            return None;
        } else {
            out.push(b);
            i = i + 1;
        }
    }
    None
}

fn parse_number(s: &Vec<u8>, pos: usize) -> (r: Option<(i64, usize)>)
    requires
        pos < s.len(),
    ensures
        r matches Some(p) ==> pos < p.1 <= s.len(),
{
    let mut i = pos;
    let neg = s[i] == 0x2d;
    if neg {
        i = i + 1;
    }
    if i >= s.len() || s[i] < 0x30 || s[i] > 0x39 {
        return None;
    }
    let mut acc: u64 = (s[i] - 0x30) as u64;
    i = i + 1;
    while i < s.len() && 0x30 <= s[i] && s[i] <= 0x39
        invariant
            pos < i <= s.len(),
        decreases s.len() - i,
    {
        if acc > 1844674407370955160u64 {
            return None;
        }
        let d = (s[i] - 0x30) as u64;
        acc = acc * 10;
        if acc > 18446744073709551615u64 - d {
            return None;
        }
        acc = acc + d;
        i = i + 1;
    }
    if i < s.len() && (s[i] == 0x2e || s[i] == 0x65 || s[i] == 0x45) {
        return None;
    }
    if neg {
        if acc > 9223372036854775808u64 {
            return None;
        }
        if acc == 9223372036854775808u64 {
            return Some((i64::MIN, i));
        }
        Some((-(acc as i64), i))
    } else {
        if acc > 9223372036854775807u64 {
            return None;
        }
        Some((acc as i64, i))
    }
}

fn obj_has_key(entries: &Vec<(Vec<u8>, JsonValue)>, k: &Vec<u8>) -> (r: bool)
    ensures
        r == (exists|j: int| 0 <= j < entries@.len() && (#[trigger] entries@[j]).0@ == k@),
{
    let mut i: usize = 0;
    while i < entries.len()
        invariant
            i <= entries.len(),
            forall|j: int| 0 <= j < i ==> (#[trigger] entries@[j]).0@ != k@,
        decreases entries.len() - i,
    {
        if crate::bytes::bytes_eq(&entries[i].0, k) {
            proof {
                assert((entries@[i as int]).0@ == k@);
            }
            return true;
        }
        i = i + 1;
    }
    false
}

fn parse_value(s: &Vec<u8>, pos: usize) -> (r: Option<(JsonValue, usize)>)
    requires
        pos < s.len(),
    ensures
        r matches Some(p) ==> pos < p.1 <= s.len(),
        r matches Some(p) ==> crate::json::json_wf(p.0@),
    decreases s.len() - pos,
{
    let b = s[pos];
    if b == 0x6e {
        // null
        if s.len() - pos >= 4 && s[pos + 1] == 0x75 && s[pos + 2] == 0x6c && s[pos + 3] == 0x6c {
            Some((JsonValue::Null, pos + 4))
        } else {
            None
        }
    } else if b == 0x74 {
        // true
        if s.len() - pos >= 4 && s[pos + 1] == 0x72 && s[pos + 2] == 0x75 && s[pos + 3] == 0x65 {
            Some((JsonValue::Bool(true), pos + 4))
        } else {
            None
        }
    } else if b == 0x66 {
        // false
        if s.len() - pos >= 5 && s[pos + 1] == 0x61 && s[pos + 2] == 0x6c && s[pos + 3] == 0x73
            && s[pos + 4] == 0x65 {
            Some((JsonValue::Bool(false), pos + 5))
        } else {
            None
        }
    } else if b == 0x22 {
        match parse_string(s, pos) {
            Some((txt, p)) => Some((JsonValue::Str(txt), p)),
            None => None,
        }
    } else if b == 0x2d || (0x30 <= b && b <= 0x39) {
        match parse_number(s, pos) {
            Some((n, p)) => Some((JsonValue::Int(n), p)),
            None => None,
        }
    } else if b == 0x5b {
        let mut items: Vec<JsonValue> = Vec::new();
        let mut i = skip_ws(s, pos + 1);
        if i < s.len() && s[i] == 0x5d {
            proof {
                lemma_arr_value_wf(items@);
            }
            return Some((JsonValue::Arr(items), i + 1));
        }
        while i < s.len()
            invariant
                pos < i <= s.len(),
                forall|j: int| 0 <= j < items@.len() ==> crate::json::json_wf(jview(#[trigger] items@[j])),
            decreases s.len() - i,
        {
            let (v, p) = match parse_value(s, i) {
                Some(x) => x,
                None => {
                    return None;
                },
            };
            items.push(v);
            let j = skip_ws(s, p);
            if j < s.len() && s[j] == 0x5d {
                proof {
                    lemma_arr_value_wf(items@);
                }
                return Some((JsonValue::Arr(items), j + 1));
            }
            if j < s.len() && s[j] == 0x2c {
                let k = skip_ws(s, j + 1);
                if k <= i || k >= s.len() {
                    return None;
                }
                i = k;
            } else {
                return None;
            }
        }
        None
    } else if b == 0x7b {
        let mut entries: Vec<(Vec<u8>, JsonValue)> = Vec::new();
        let mut i = skip_ws(s, pos + 1);
        if i < s.len() && s[i] == 0x7d {
            proof {
                lemma_obj_value_wf(entries@);
            }
            return Some((JsonValue::Obj(entries), i + 1));
        }
        while i < s.len()
            invariant
                pos < i <= s.len(),
                forall|j1: int, j2: int|
                    0 <= j1 < j2 < entries@.len() ==> (#[trigger] entries@[j1]).0@ != (
                    #[trigger] entries@[j2]).0@,
                forall|j: int|
                    0 <= j < entries@.len() ==> crate::json::json_wf(jview(
                        (#[trigger] entries@[j]).1,
                    )),
            decreases s.len() - i,
        {
            let (key, p) = match parse_string(s, i) {
                Some(x) => x,
                None => {
                    return None;
                },
            };
            if obj_has_key(&entries, &key) {
                return None;
            }
            let q = skip_ws(s, p);
            if q >= s.len() || s[q] != 0x3a {
                return None;
            }
            let w = skip_ws(s, q + 1);
            if w >= s.len() {
                return None;
            }
            let (v, p2) = match parse_value(s, w) {
                Some(x) => x,
                None => {
                    return None;
                },
            };
            entries.push((key, v));
            let j = skip_ws(s, p2);
            if j < s.len() && s[j] == 0x7d {
                proof {
                    lemma_obj_value_wf(entries@);
                }
                return Some((JsonValue::Obj(entries), j + 1));
            }
            if j < s.len() && s[j] == 0x2c {
                let k = skip_ws(s, j + 1);
                if k <= i || k >= s.len() {
                    return None;
                }
                i = k;
            } else {
                return None;
            }
        }
        None
    } else {
        None
    }
}

proof fn lemma_arr_value_wf(items: Seq<JsonValue>)
    requires
        forall|j: int| 0 <= j < items.len() ==> crate::json::json_wf(jview(#[trigger] items[j])),
    ensures
        crate::json::json_wf_seq(jview_seq(items), 0),
{
    crate::json::lemma_jview_seq_len(items);
    assert forall|j: int|
        0 <= j < jview_seq(items).len() implies crate::json::json_wf(
        #[trigger] jview_seq(items)[j],
    ) by {
        lemma_jview_seq_index(items, j);
    }
    crate::json::lemma_json_wf_seq_from_elems(jview_seq(items), 0);
}

proof fn lemma_obj_value_wf(entries: Seq<(Vec<u8>, JsonValue)>)
    requires
        forall|j1: int, j2: int|
            0 <= j1 < j2 < entries.len() ==> (#[trigger] entries[j1]).0@ != (
            #[trigger] entries[j2]).0@,
        forall|j: int|
            0 <= j < entries.len() ==> crate::json::json_wf(jview((#[trigger] entries[j]).1)),
    ensures
        crate::json::keys_unique(jview_entries(entries)),
        crate::json::json_wf_entries(jview_entries(entries), 0),
{
    crate::json::lemma_jview_entries_len(entries);
    assert forall|j1: int, j2: int|
        0 <= j1 < j2 < jview_entries(entries).len() implies (#[trigger] jview_entries(
        entries,
    )[j1]).0 != (#[trigger] jview_entries(entries)[j2]).0 by {
        lemma_jview_entries_index(entries, j1);
        lemma_jview_entries_index(entries, j2);
    }
    assert forall|j: int|
        0 <= j < jview_entries(entries).len() implies crate::json::json_wf(
        (#[trigger] jview_entries(entries)[j]).1,
    ) by {
        lemma_jview_entries_index(entries, j);
    }
    crate::json::lemma_json_wf_entries_from_elems(jview_entries(entries), 0);
}

/// Parses JSON text into a tree; `None` marks invalid JSON syntax, which is
/// a terminal parse failure for the body that carried the text. A parsed
/// tree is well formed: the parser rejects duplicate object keys.
pub fn parse_json(s: &Vec<u8>) -> (r: Option<JsonValue>)
    ensures
        r matches Some(v) ==> crate::json::json_wf(v@),
{
    if s.len() == 0 {
        return None;
    }
    let i = skip_ws(s, 0);
    if i >= s.len() {
        return None;
    }
    match parse_value(s, i) {
        Some((v, p)) => {
            let q = skip_ws(s, p);
            if q == s.len() {
                Some(v)
            } else {
                None
            }
        },
        None => None,
    }
}

} // verus!
