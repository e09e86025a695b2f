//! Laws of the merge engine: what the policy resolvers guarantee, stated and
//! proved over the mathematical model.

use vstd::prelude::*;

use crate::MergeError;
use crate::append::{map_append_from, seq_concat_from, set_append_from};
use crate::update::seq_update_from;
use crate::record::merge_named_from;
use crate::schema::{FieldV, Kind, Policy, ScalarKind, TyV, field_find_from, kind_of, recurse_policy};
use crate::seed::merge_spec;
use crate::source::SourceV;
use crate::update::map_update_from;
use crate::value::{
    ScalarV, ValueV, elems_distinct, keys_distinct, set_find_from, table_contains,
    table_find_from, table_lookup,
};
use crate::replace::{decode_scalar_spec, decode_spec};

verus! {

/// Law: a scalar or string field merged under replacement always takes the
/// freshly decoded layer value; the prior value never shows in the result.
pub proof fn law_replace_takes_new_value(v1: ValueV, v2: ValueV, t: TyV, s: SourceV)
    requires
        kind_of(t) == Kind::Scalar || kind_of(t) == Kind::Text,
    ensures
        merge_spec(v1, t, Policy::Replace, s) == decode_spec(t, s),
        merge_spec(v1, t, Policy::Replace, s) == merge_spec(v2, t, Policy::Replace, s),
        merge_spec(v1, t, Policy::Default, s) == decode_spec(t, s),
{
}

/// Law: appending layer text onto a string yields exactly the old text
/// followed by the new, with nothing inserted between.
pub proof fn law_string_append(s1: Seq<char>, s2: Seq<char>)
    ensures
        merge_spec(ValueV::Text(s1), TyV::Text, Policy::Append, SourceV::Text(s2)) == Ok::<
            ValueV,
            MergeError,
        >(ValueV::Text(s1 + s2)),
{
    assert(merge_spec(ValueV::Text(s1), TyV::Text, Policy::Append, SourceV::Text(s2))
        == crate::append::append_spec(ValueV::Text(s1), TyV::Text, SourceV::Text(s2)));
    assert(crate::append::append_spec(ValueV::Text(s1), TyV::Text, SourceV::Text(s2)) == Ok::<
        ValueV,
        MergeError,
    >(ValueV::Text(s1 + s2)));
}

/// Law: an optional field merged under append or update is never cleared by
/// an absent layer value: absence keeps the current value, present or not.
pub proof fn law_optional_keeps_value_on_absence(v: ValueV, t: TyV)
    ensures
        merge_spec(v, TyV::Optional(Box::new(t)), Policy::Append, SourceV::Absent) == Ok::<
            ValueV,
            MergeError,
        >(v),
        merge_spec(v, TyV::Optional(Box::new(t)), Policy::Update, SourceV::Absent) == Ok::<
            ValueV,
            MergeError,
        >(v),
        merge_spec(v, TyV::Optional(Box::new(t)), Policy::Default, SourceV::Absent) == Ok::<
            ValueV,
            MergeError,
        >(v),
{
    let ot = TyV::Optional(Box::new(t));
    assert(merge_spec(v, ot, Policy::Append, SourceV::Absent) == crate::append::append_spec(
        v,
        ot,
        SourceV::Absent,
    ));
    assert(crate::append::append_spec(v, ot, SourceV::Absent) == Ok::<ValueV, MergeError>(v));
    assert(merge_spec(v, ot, Policy::Update, SourceV::Absent) == crate::update::update_spec(
        v,
        ot,
        SourceV::Absent,
    ));
    assert(crate::update::update_spec(v, ot, SourceV::Absent) == Ok::<ValueV, MergeError>(v));
    assert(merge_spec(v, ot, Policy::Default, SourceV::Absent) == merge_spec(
        v,
        ot,
        Policy::Update,
        SourceV::Absent,
    ));
}

/// What the concatenating sequence-append fold guarantees from position `i`
/// on: the elements already in place stay, and every remaining layer element
/// is decoded fresh and pushed at the end, in order.
pub proof fn seq_concat_from_props(vs: Seq<ValueV>, et: TyV, es: Seq<SourceV>, i: int)
    requires
        0 <= i,
    ensures
        ({
            let m = seq_concat_from(vs, et, es, i);
            m is Ok ==> {
                let r = m->Ok_0;
                &&& r.len() == vs.len() + (if i <= es.len() {
                    es.len() - i
                } else {
                    0
                })
                &&& (forall|j: int| 0 <= j < vs.len() ==> r[j] == vs[j])
                &&& (forall|j: int|
                    i <= j < es.len() ==> decode_spec(et, #[trigger] es[j]) is Ok && r[vs.len() + j
                        - i] == decode_spec(et, es[j])->Ok_0)
            }
        }),
    decreases es.len() - i,
{
    if i < es.len() {
        if decode_spec(et, es[i]) is Ok {
            let nv = decode_spec(et, es[i])->Ok_0;
            seq_concat_from_props(vs.push(nv), et, es, i + 1);
        }
    }
}

/// Law: appending a layer of length `m` onto a sequence of length `n` keeps
/// the old elements and their order intact and pushes each pulled element,
/// freshly decoded, at the end: the result has length `n + m`.
pub proof fn law_sequence_append(vs: Seq<ValueV>, et: TyV, es: Seq<SourceV>)
    ensures
        merge_spec(
            ValueV::List(vs),
            TyV::Sequence(Box::new(et)),
            Policy::Append,
            SourceV::List(es),
        ) == (match seq_concat_from(vs, et, es, 0) {
            Ok(nvs) => Ok::<ValueV, MergeError>(ValueV::List(nvs)),
            Err(e) => Err(e),
        }),
        merge_spec(
            ValueV::List(vs),
            TyV::Sequence(Box::new(et)),
            Policy::Default,
            SourceV::List(es),
        ) == merge_spec(
            ValueV::List(vs),
            TyV::Sequence(Box::new(et)),
            Policy::Append,
            SourceV::List(es),
        ),
        ({
            let m = seq_concat_from(vs, et, es, 0);
            m is Ok ==> {
                let r = m->Ok_0;
                &&& r.len() == vs.len() + es.len()
                &&& (forall|j: int| 0 <= j < vs.len() ==> r[j] == vs[j])
                &&& (forall|j: int|
                    0 <= j < es.len() ==> decode_spec(et, #[trigger] es[j]) is Ok && r[vs.len()
                        + j] == decode_spec(et, es[j])->Ok_0)
            }
        }),
{
    assert(*Box::new(et) == et);
    let st = TyV::Sequence(Box::new(et));
    assert(merge_spec(ValueV::List(vs), st, Policy::Append, SourceV::List(es))
        == crate::append::append_spec(ValueV::List(vs), st, SourceV::List(es)));
    assert(crate::append::append_spec(ValueV::List(vs), st, SourceV::List(es)) == (
    match seq_concat_from(vs, et, es, 0) {
        Ok(nvs) => Ok::<ValueV, MergeError>(ValueV::List(nvs)),
        Err(e) => Err(e),
    }));
    assert(merge_spec(ValueV::List(vs), st, Policy::Default, SourceV::List(es)) == merge_spec(
        ValueV::List(vs),
        st,
        Policy::Append,
        SourceV::List(es),
    ));
    seq_concat_from_props(vs, et, es, 0);
}

/// What the positional sequence-update fold guarantees from position `i` on:
/// the result keeps the longer of both lengths, positions outside the
/// processed range stay, overlapping positions are re-merged, and the
/// overhang is decoded fresh.
pub proof fn seq_update_from_props(vs: Seq<ValueV>, et: TyV, es: Seq<SourceV>, i: int)
    requires
        0 <= i <= vs.len(),
    ensures
        ({
            let m = seq_update_from(vs, et, es, i);
            m is Ok ==> {
                let r = m->Ok_0;
                &&& r.len() == (if vs.len() >= es.len() {
                    vs.len()
                } else {
                    es.len()
                })
                &&& (forall|j: int|
                    0 <= j < vs.len() && !(i <= j < es.len()) ==> r[j] == vs[j])
                &&& (forall|j: int|
                    i <= j < vs.len() && j < es.len() ==> merge_spec(
                        vs[j],
                        et,
                        recurse_policy(et),
                        #[trigger] es[j],
                    ) is Ok && r[j] == merge_spec(vs[j], et, recurse_policy(et), es[j])->Ok_0)
                &&& (forall|j: int|
                    vs.len() <= j < es.len() ==> decode_spec(et, #[trigger] es[j]) is Ok && r[j]
                        == decode_spec(et, es[j])->Ok_0)
            }
        }),
    decreases es.len() - i,
{
    if i < es.len() {
        let step = if i < vs.len() {
            merge_spec(vs[i], et, recurse_policy(et), es[i])
        } else {
            decode_spec(et, es[i])
        };
        if step is Ok {
            let nv = step->Ok_0;
            let vs2 = if i < vs.len() {
                vs.update(i, nv)
            } else {
                vs.push(nv)
            };
            seq_update_from_props(vs2, et, es, i + 1);
        }
    }
}

/// Law: updating a sequence of length `n` with a layer of length `m` merges
/// positionally: the result has length `max(n, m)`, indices below
/// `min(n, m)` are recursively re-merged into place, indices from `n` to `m`
/// are decoded fresh and appended, and with a shorter layer the tail above
/// `m` is untouched.
pub proof fn law_sequence_update(vs: Seq<ValueV>, et: TyV, es: Seq<SourceV>)
    ensures
        merge_spec(
            ValueV::List(vs),
            TyV::Sequence(Box::new(et)),
            Policy::Update,
            SourceV::List(es),
        ) == (match seq_update_from(vs, et, es, 0) {
            Ok(nvs) => Ok::<ValueV, MergeError>(ValueV::List(nvs)),
            Err(e) => Err(e),
        }),
        ({
            let m = seq_update_from(vs, et, es, 0);
            m is Ok ==> {
                let r = m->Ok_0;
                &&& r.len() == (if vs.len() >= es.len() {
                    vs.len()
                } else {
                    es.len()
                })
                &&& (forall|j: int|
                    0 <= j < vs.len() && j < es.len() ==> merge_spec(
                        vs[j],
                        et,
                        recurse_policy(et),
                        #[trigger] es[j],
                    ) is Ok && r[j] == merge_spec(vs[j], et, recurse_policy(et), es[j])->Ok_0)
                &&& (forall|j: int|
                    vs.len() <= j < es.len() ==> decode_spec(et, #[trigger] es[j]) is Ok && r[j]
                        == decode_spec(et, es[j])->Ok_0)
                &&& (forall|j: int| es.len() <= j < vs.len() ==> r[j] == vs[j])
            }
        }),
{
    assert(*Box::new(et) == et);
    let st = TyV::Sequence(Box::new(et));
    assert(merge_spec(ValueV::List(vs), st, Policy::Update, SourceV::List(es))
        == crate::update::update_spec(ValueV::List(vs), st, SourceV::List(es)));
    assert(crate::update::update_spec(ValueV::List(vs), st, SourceV::List(es)) == (
    match seq_update_from(vs, et, es, 0) {
        Ok(nvs) => Ok::<ValueV, MergeError>(ValueV::List(nvs)),
        Err(e) => Err(e),
    }));
    seq_update_from_props(vs, et, es, 0);
}

/// Whether some entry of the layer at or after position `i` carries key `k`.
pub open spec fn layer_has_from(es: Seq<(Seq<char>, SourceV)>, k: Seq<char>, i: int) -> bool {
    exists|j: int| i <= j < es.len() && (#[trigger] es[j].0) == k
}

/// Distinct layer keys at or after position `i`.
pub open spec fn layer_keys_distinct_from(es: Seq<(Seq<char>, SourceV)>, i: int) -> bool {
    forall|a: int, b: int|
        i <= a < b < es.len() ==> (#[trigger] es[a].0) != (#[trigger] es[b].0)
}

/// A table contains a key exactly when searching finds an index for it.
pub proof fn lemma_contains_find(es: Seq<(Seq<char>, ValueV)>, k: Seq<char>)
    ensures
        table_contains(es, k) <==> table_find_from(es, k, 0) >= 0,
{
    crate::value::lemma_table_find_from(es, k, 0);
    if table_find_from(es, k, 0) >= 0 {
        assert(es[table_find_from(es, k, 0)].0 == k);
    }
}

/// Updating the value stored at one position never moves any search result.
pub proof fn lemma_find_update_value(
    es: Seq<(Seq<char>, ValueV)>,
    j: int,
    nv: ValueV,
    k: Seq<char>,
    i: int,
)
    requires
        0 <= j < es.len(),
        0 <= i,
    ensures
        table_find_from(es.update(j, (es[j].0, nv)), k, i) == table_find_from(es, k, i),
    decreases es.len() - i,
{
    if i < es.len() && es[i].0 != k {
        lemma_find_update_value(es, j, nv, k, i + 1);
    }
}

/// Searching a table with one entry appended: an existing result stands, the
/// new entry answers only for its own key.
pub proof fn lemma_find_push(
    es: Seq<(Seq<char>, ValueV)>,
    kv: (Seq<char>, ValueV),
    k: Seq<char>,
    i: int,
)
    requires
        0 <= i,
    ensures
        table_find_from(es.push(kv), k, i) == (if table_find_from(es, k, i) >= 0 {
            table_find_from(es, k, i)
        } else if i <= es.len() && kv.0 == k {
            es.len() as int
        } else {
            -1
        }),
    decreases es.len() + 1 - i,
{
    if i < es.len() && es[i].0 != k {
        lemma_find_push(es, kv, k, i + 1);
    } else if i == es.len() {
        assert(table_find_from(es.push(kv), k, es.len() as int + 1) == -1);
        assert(table_find_from(es, k, i) == -1);
    }
}

/// What the table-update fold guarantees from position `i` on: every stored
/// key survives, a key the layer never names keeps its value, the result's
/// keys are exactly the old ones plus the layer's, and (for a layer without
/// repeated keys) a named key holds the re-merged value if it was stored and
/// the freshly decoded one if not.
pub proof fn map_update_from_props(
    ves: Seq<(Seq<char>, ValueV)>,
    vt: TyV,
    es: Seq<(Seq<char>, SourceV)>,
    i: int,
)
    requires
        keys_distinct(ves),
        0 <= i,
    ensures
        ({
            let m = map_update_from(ves, vt, es, i);
            m is Ok ==> {
                let r = m->Ok_0;
                &&& keys_distinct(r)
                &&& (forall|k: Seq<char>|
                    #![trigger table_contains(r, k)]
                    #![trigger table_contains(ves, k)]
                    table_contains(r, k) <==> (table_contains(ves, k) || layer_has_from(es, k, i)))
                &&& (forall|k: Seq<char>|
                    #![trigger table_lookup(r, k)]
                    table_contains(ves, k) && !layer_has_from(es, k, i) ==> table_lookup(r, k)
                        == table_lookup(ves, k))
                &&& (layer_keys_distinct_from(es, i) ==> (forall|j: int|
                    #![trigger es[j].1]
                    i <= j < es.len() ==> {
                        let k = es[j].0;
                        &&& table_contains(r, k)
                        &&& (table_contains(ves, k) ==> merge_spec(
                            table_lookup(ves, k),
                            vt,
                            recurse_policy(vt),
                            es[j].1,
                        ) is Ok && table_lookup(r, k) == merge_spec(
                            table_lookup(ves, k),
                            vt,
                            recurse_policy(vt),
                            es[j].1,
                        )->Ok_0)
                        &&& (!table_contains(ves, k) ==> decode_spec(vt, es[j].1) is Ok
                            && table_lookup(r, k) == decode_spec(vt, es[j].1)->Ok_0)
                    }))
            }
        }),
    decreases es.len() - i,
{
    if 0 <= i < es.len() {
        let k0 = es[i].0;
        let j0 = table_find_from(ves, k0, 0);
        crate::value::lemma_table_find_from(ves, k0, 0);
        lemma_contains_find(ves, k0);
        if j0 < 0 {
            if decode_spec(vt, es[i].1) is Ok {
                let nv = decode_spec(vt, es[i].1)->Ok_0;
                let ves2 = ves.push((k0, nv));
                assert forall|a: int, b: int| 0 <= a < b < ves2.len() implies (
                #[trigger] ves2[a].0) != (#[trigger] ves2[b].0) by {
                    if b < ves.len() {
                        assert(ves2[a] == ves[a] && ves2[b] == ves[b]);
                    } else {
                        assert(ves2[a] == ves[a] && ves2[b] == (k0, nv));
                    }
                }
                map_update_from_props(ves2, vt, es, i + 1);
                assert(table_contains(ves2, k0)) by {
                    assert(ves2[ves.len() as int].0 == k0);
                }
                assert forall|k: Seq<char>| table_contains(ves, k) implies table_contains(
                    ves2,
                    k,
                ) by {
                    let w = choose|w: int| 0 <= w < ves.len() && ves[w].0 == k;
                    assert(ves2[w].0 == k);
                }
                assert forall|k: Seq<char>| table_contains(ves2, k) implies table_contains(ves, k)
                    || k == k0 by {
                    let w = choose|w: int| 0 <= w < ves2.len() && ves2[w].0 == k;
                    if w < ves.len() {
                        assert(ves[w].0 == k);
                    }
                }
                assert forall|k: Seq<char>|
                    table_contains(ves, k) && k != k0 implies #[trigger] table_lookup(ves2, k)
                    == table_lookup(ves, k) by {
                    lemma_contains_find(ves, k);
                    crate::value::lemma_table_find_from(ves, k, 0);
                    lemma_find_push(ves, (k0, nv), k, 0);
                    assert(ves2[table_find_from(ves, k, 0)] == ves[table_find_from(ves, k, 0)]);
                }
                assert(table_lookup(ves2, k0) == nv) by {
                    lemma_find_push(ves, (k0, nv), k0, 0);
                }
                if layer_keys_distinct_from(es, i) {
                    assert(!layer_has_from(es, k0, i + 1));
                }
            }
        } else {
            let v0 = ves[j0].1;
            assert(table_lookup(ves, k0) == v0);
            if merge_spec(v0, vt, recurse_policy(vt), es[i].1) is Ok {
                let nv = merge_spec(v0, vt, recurse_policy(vt), es[i].1)->Ok_0;
                let ves2 = ves.update(j0, (k0, nv));
                assert(ves2 == ves.update(j0, (ves[j0].0, nv)));
                assert forall|a: int, b: int| 0 <= a < b < ves2.len() implies (
                #[trigger] ves2[a].0) != (#[trigger] ves2[b].0) by {
                    assert(ves2[a].0 == ves[a].0 && ves2[b].0 == ves[b].0);
                }
                map_update_from_props(ves2, vt, es, i + 1);
                assert forall|k: Seq<char>| #[trigger] table_contains(ves2, k) <==> table_contains(
                    ves,
                    k,
                ) by {
                    if table_contains(ves2, k) {
                        let w = choose|w: int| 0 <= w < ves2.len() && ves2[w].0 == k;
                        assert(ves[w].0 == k);
                    }
                    if table_contains(ves, k) {
                        let w = choose|w: int| 0 <= w < ves.len() && ves[w].0 == k;
                        assert(ves2[w].0 == k);
                    }
                }
                assert forall|k: Seq<char>|
                    table_contains(ves, k) && k != k0 implies #[trigger] table_lookup(ves2, k)
                    == table_lookup(ves, k) by {
                    lemma_contains_find(ves, k);
                    crate::value::lemma_table_find_from(ves, k, 0);
                    lemma_find_update_value(ves, j0, nv, k, 0);
                    assert(table_find_from(ves2, k, 0) == table_find_from(ves, k, 0));
                    assert(table_find_from(ves, k, 0) != j0);
                    assert(ves2[table_find_from(ves, k, 0)] == ves[table_find_from(ves, k, 0)]);
                }
                assert(table_lookup(ves2, k0) == nv) by {
                    lemma_find_update_value(ves, j0, nv, k0, 0);
                    assert(table_find_from(ves2, k0, 0) == j0);
                    assert(ves2[j0] == (k0, nv));
                }
                if layer_keys_distinct_from(es, i) {
                    assert(!layer_has_from(es, k0, i + 1));
                }
            }
        }
    }
}

/// Law: merging a layer into a table under update never removes a stored
/// key; a key the layer does not name keeps its exact value; a named key
/// with a stored entry has the layer's value re-merged into it rather than
/// substituted; and a fresh key is inserted with the decoded value as-is.
/// The per-key clauses hold of layers without repeated keys, which keyed
/// text formats guarantee; a repeated key feeds the same entry again.
pub proof fn law_map_update(ves: Seq<(Seq<char>, ValueV)>, vt: TyV, es: Seq<(Seq<char>, SourceV)>)
    requires
        keys_distinct(ves),
    ensures
        merge_spec(
            ValueV::Table(ves),
            TyV::Table(Box::new(vt)),
            Policy::Update,
            SourceV::Table(es),
        ) == (match map_update_from(ves, vt, es, 0) {
            Ok(nves) => Ok::<ValueV, MergeError>(ValueV::Table(nves)),
            Err(e) => Err(e),
        }),
        ({
            let m = map_update_from(ves, vt, es, 0);
            m is Ok ==> {
                let r = m->Ok_0;
                &&& keys_distinct(r)
                &&& (forall|k: Seq<char>|
                    #![trigger table_contains(r, k)]
                    #![trigger table_contains(ves, k)]
                    table_contains(r, k) <==> (table_contains(ves, k) || layer_has_from(es, k, 0)))
                &&& (forall|k: Seq<char>|
                    #![trigger table_lookup(r, k)]
                    table_contains(ves, k) && !layer_has_from(es, k, 0) ==> table_lookup(r, k)
                        == table_lookup(ves, k))
                &&& (layer_keys_distinct_from(es, 0) ==> (forall|j: int|
                    #![trigger es[j].1]
                    0 <= j < es.len() ==> {
                        let k = es[j].0;
                        &&& table_contains(r, k)
                        &&& (table_contains(ves, k) ==> merge_spec(
                            table_lookup(ves, k),
                            vt,
                            recurse_policy(vt),
                            es[j].1,
                        ) is Ok && table_lookup(r, k) == merge_spec(
                            table_lookup(ves, k),
                            vt,
                            recurse_policy(vt),
                            es[j].1,
                        )->Ok_0)
                        &&& (!table_contains(ves, k) ==> decode_spec(vt, es[j].1) is Ok
                            && table_lookup(r, k) == decode_spec(vt, es[j].1)->Ok_0)
                    }))
            }
        }),
{
    assert(*Box::new(vt) == vt);
    let tt = TyV::Table(Box::new(vt));
    assert(merge_spec(ValueV::Table(ves), tt, Policy::Update, SourceV::Table(es))
        == crate::update::update_spec(ValueV::Table(ves), tt, SourceV::Table(es)));
    assert(crate::update::update_spec(ValueV::Table(ves), tt, SourceV::Table(es)) == (
    match map_update_from(ves, vt, es, 0) {
        Ok(nves) => Ok::<ValueV, MergeError>(ValueV::Table(nves)),
        Err(e) => Err(e),
    }));
    map_update_from_props(ves, vt, es, 0);
}

/// What a successful or failed name search says about the schema.
pub proof fn lemma_field_find_from(fs: Seq<FieldV>, k: Seq<char>, i: int)
    requires
        0 <= i,
    ensures
        ({
            let r = field_find_from(fs, k, i);
            if r == -1 {
                forall|j: int| i <= j < fs.len() ==> (#[trigger] fs[j].name) != k
            } else {
                i <= r < fs.len() && fs[r].name == k && (forall|j: int|
                    i <= j < r ==> (#[trigger] fs[j].name) != k)
            }
        }),
    decreases fs.len() - i,
{
    if i < fs.len() && fs[i].name != k {
        lemma_field_find_from(fs, k, i + 1);
    }
}

/// What the named record dispatch guarantees from position `i` on: the field
/// count never changes, and a field whose identifier the remaining entries
/// never carry keeps exactly its value.
pub proof fn merge_named_from_props(
    vals: Seq<ValueV>,
    fs: Seq<FieldV>,
    es: Seq<(Seq<char>, SourceV)>,
    i: int,
)
    requires
        0 <= i,
        vals.len() == fs.len(),
    ensures
        ({
            let m = merge_named_from(vals, fs, es, i);
            m is Ok ==> {
                let r = m->Ok_0;
                &&& r.len() == vals.len()
                &&& (forall|j: int|
                    0 <= j < vals.len() && !layer_has_from(es, (#[trigger] fs[j]).name, i) ==> r[j]
                        == vals[j])
            }
        }),
    decreases es.len() - i,
{
    if 0 <= i < es.len() {
        let j0 = field_find_from(fs, es[i].0, 0);
        if j0 >= 0 {
            lemma_field_find_from(fs, es[i].0, 0);
            if merge_spec(vals[j0], fs[j0].ty, fs[j0].policy, es[i].1) is Ok {
                let nv = merge_spec(vals[j0], fs[j0].ty, fs[j0].policy, es[i].1)->Ok_0;
                let vals2 = vals.update(j0, nv);
                merge_named_from_props(vals2, fs, es, i + 1);
                assert forall|j: int|
                    0 <= j < vals.len() && !layer_has_from(es, (#[trigger] fs[j]).name, i)
                        && merge_named_from(vals2, fs, es, i + 1) is Ok implies merge_named_from(
                    vals2,
                    fs,
                    es,
                    i + 1,
                )->Ok_0[j] == vals[j] by {
                    if j == j0 {
                        assert(fs[j].name == es[i].0);
                        assert(layer_has_from(es, fs[j].name, i));
                    } else {
                        assert(vals2[j] == vals[j]);
                        assert(!layer_has_from(es, fs[j].name, i + 1));
                    }
                }
            }
        }
    }
}

/// Law: named record dispatch leaves every field whose identifier the layer
/// never names exactly unchanged — a layer overriding a subset of keys
/// touches only those.
pub proof fn law_record_update_unnamed_fields(
    vals: Seq<ValueV>,
    fs: Seq<FieldV>,
    es: Seq<(Seq<char>, SourceV)>,
)
    requires
        vals.len() == fs.len(),
    ensures
        merge_spec(
            ValueV::Record(vals),
            TyV::Record(fs),
            Policy::Update,
            SourceV::Table(es),
        ) == (match merge_named_from(vals, fs, es, 0) {
            Ok(nvals) => Ok::<ValueV, MergeError>(ValueV::Record(nvals)),
            Err(e) => Err(e),
        }),
        merge_spec(
            ValueV::Record(vals),
            TyV::Record(fs),
            Policy::Default,
            SourceV::Table(es),
        ) == merge_spec(ValueV::Record(vals), TyV::Record(fs), Policy::Update, SourceV::Table(es)),
        ({
            let m = merge_named_from(vals, fs, es, 0);
            m is Ok ==> {
                let r = m->Ok_0;
                &&& r.len() == vals.len()
                &&& (forall|j: int|
                    0 <= j < vals.len() && !layer_has_from(es, (#[trigger] fs[j]).name, 0) ==> r[j]
                        == vals[j])
            }
        }),
{
    let rt = TyV::Record(fs);
    assert(merge_spec(ValueV::Record(vals), rt, Policy::Update, SourceV::Table(es))
        == crate::update::update_spec(ValueV::Record(vals), rt, SourceV::Table(es)));
    assert(crate::update::update_spec(ValueV::Record(vals), rt, SourceV::Table(es)) == (
    match merge_named_from(vals, fs, es, 0) {
        Ok(nvals) => Ok::<ValueV, MergeError>(ValueV::Record(nvals)),
        Err(e) => Err(e),
    }));
    assert(merge_spec(ValueV::Record(vals), rt, Policy::Default, SourceV::Table(es)) == merge_spec(
        ValueV::Record(vals),
        rt,
        Policy::Update,
        SourceV::Table(es),
    ));
    merge_named_from_props(vals, fs, es, 0);
}

/// What the table-append fold guarantees from position `i` on: every stored
/// key survives, a key the layer never names keeps its value, the result's
/// keys are exactly the old ones plus the layer's, and (for a layer without
/// repeated keys) every named key ends up holding the freshly decoded layer
/// value wholesale, whether it was stored before or not.
pub proof fn map_append_from_props(
    ves: Seq<(Seq<char>, ValueV)>,
    vt: TyV,
    es: Seq<(Seq<char>, SourceV)>,
    i: int,
)
    requires
        keys_distinct(ves),
        0 <= i,
    ensures
        ({
            let m = map_append_from(ves, vt, es, i);
            m is Ok ==> {
                let r = m->Ok_0;
                &&& keys_distinct(r)
                &&& (forall|k: Seq<char>|
                    #![trigger table_contains(r, k)]
                    #![trigger table_contains(ves, k)]
                    table_contains(r, k) <==> (table_contains(ves, k) || layer_has_from(es, k, i)))
                &&& (forall|k: Seq<char>|
                    #![trigger table_lookup(r, k)]
                    table_contains(ves, k) && !layer_has_from(es, k, i) ==> table_lookup(r, k)
                        == table_lookup(ves, k))
                &&& (layer_keys_distinct_from(es, i) ==> (forall|j: int|
                    #![trigger es[j].1]
                    i <= j < es.len() ==> decode_spec(vt, es[j].1) is Ok && table_contains(
                        r,
                        es[j].0,
                    ) && table_lookup(r, es[j].0) == decode_spec(vt, es[j].1)->Ok_0))
            }
        }),
    decreases es.len() - i,
{
    if 0 <= i < es.len() {
        let k0 = es[i].0;
        let j0 = table_find_from(ves, k0, 0);
        crate::value::lemma_table_find_from(ves, k0, 0);
        lemma_contains_find(ves, k0);
        if decode_spec(vt, es[i].1) is Ok {
            let nv = decode_spec(vt, es[i].1)->Ok_0;
            let ves2 = crate::value::table_upsert(ves, k0, nv);
            crate::value::lemma_table_upsert(ves, k0, nv);
            map_append_from_props(ves2, vt, es, i + 1);
            if j0 < 0 {
                assert(ves2 == ves.push((k0, nv)));
                assert(table_contains(ves2, k0)) by {
                    assert(ves2[ves.len() as int].0 == k0);
                }
                assert forall|k: Seq<char>| table_contains(ves, k) implies table_contains(
                    ves2,
                    k,
                ) by {
                    let w = choose|w: int| 0 <= w < ves.len() && ves[w].0 == k;
                    assert(ves2[w].0 == k);
                }
                assert forall|k: Seq<char>| table_contains(ves2, k) implies table_contains(ves, k)
                    || k == k0 by {
                    let w = choose|w: int| 0 <= w < ves2.len() && ves2[w].0 == k;
                    if w < ves.len() {
                        assert(ves[w].0 == k);
                    }
                }
                assert forall|k: Seq<char>|
                    table_contains(ves, k) && k != k0 implies #[trigger] table_lookup(ves2, k)
                    == table_lookup(ves, k) by {
                    lemma_contains_find(ves, k);
                    crate::value::lemma_table_find_from(ves, k, 0);
                    lemma_find_push(ves, (k0, nv), k, 0);
                    assert(ves2[table_find_from(ves, k, 0)] == ves[table_find_from(ves, k, 0)]);
                }
                assert(table_lookup(ves2, k0) == nv) by {
                    lemma_find_push(ves, (k0, nv), k0, 0);
                }
            } else {
                assert(ves2 == ves.update(j0, (k0, nv)));
                assert forall|k: Seq<char>| #[trigger] table_contains(ves2, k) <==> table_contains(
                    ves,
                    k,
                ) by {
                    if table_contains(ves2, k) {
                        let w = choose|w: int| 0 <= w < ves2.len() && ves2[w].0 == k;
                        assert(ves[w].0 == k);
                    }
                    if table_contains(ves, k) {
                        let w = choose|w: int| 0 <= w < ves.len() && ves[w].0 == k;
                        assert(ves2[w].0 == k);
                    }
                }
                assert forall|k: Seq<char>|
                    table_contains(ves, k) && k != k0 implies #[trigger] table_lookup(ves2, k)
                    == table_lookup(ves, k) by {
                    lemma_contains_find(ves, k);
                    crate::value::lemma_table_find_from(ves, k, 0);
                    lemma_find_update_value(ves, j0, nv, k, 0);
                    assert(table_find_from(ves2, k, 0) == table_find_from(ves, k, 0));
                    assert(table_find_from(ves, k, 0) != j0);
                    assert(ves2[table_find_from(ves, k, 0)] == ves[table_find_from(ves, k, 0)]);
                }
                assert(table_lookup(ves2, k0) == nv) by {
                    lemma_find_update_value(ves, j0, nv, k0, 0);
                    assert(table_find_from(ves2, k0, 0) == j0);
                    assert(ves2[j0] == (k0, nv));
                }
            }
            if layer_keys_distinct_from(es, i) {
                assert(!layer_has_from(es, k0, i + 1));
            }
        }
    }
}

/// Law: appending a layer into a table overwrites each matched key with the
/// freshly decoded layer value wholesale, inserts absent keys, and never
/// removes or changes a key the layer does not name.
pub proof fn law_map_append(ves: Seq<(Seq<char>, ValueV)>, vt: TyV, es: Seq<(Seq<char>, SourceV)>)
    requires
        keys_distinct(ves),
    ensures
        merge_spec(
            ValueV::Table(ves),
            TyV::Table(Box::new(vt)),
            Policy::Append,
            SourceV::Table(es),
        ) == (match map_append_from(ves, vt, es, 0) {
            Ok(nves) => Ok::<ValueV, MergeError>(ValueV::Table(nves)),
            Err(e) => Err(e),
        }),
        merge_spec(
            ValueV::Table(ves),
            TyV::Table(Box::new(vt)),
            Policy::Default,
            SourceV::Table(es),
        ) == merge_spec(
            ValueV::Table(ves),
            TyV::Table(Box::new(vt)),
            Policy::Append,
            SourceV::Table(es),
        ),
        ({
            let m = map_append_from(ves, vt, es, 0);
            m is Ok ==> {
                let r = m->Ok_0;
                &&& keys_distinct(r)
                &&& (forall|k: Seq<char>|
                    #![trigger table_contains(r, k)]
                    #![trigger table_contains(ves, k)]
                    table_contains(r, k) <==> (table_contains(ves, k) || layer_has_from(es, k, 0)))
                &&& (forall|k: Seq<char>|
                    #![trigger table_lookup(r, k)]
                    table_contains(ves, k) && !layer_has_from(es, k, 0) ==> table_lookup(r, k)
                        == table_lookup(ves, k))
                &&& (layer_keys_distinct_from(es, 0) ==> (forall|j: int|
                    #![trigger es[j].1]
                    0 <= j < es.len() ==> decode_spec(vt, es[j].1) is Ok && table_contains(
                        r,
                        es[j].0,
                    ) && table_lookup(r, es[j].0) == decode_spec(vt, es[j].1)->Ok_0))
            }
        }),
{
    assert(*Box::new(vt) == vt);
    let tt = TyV::Table(Box::new(vt));
    assert(merge_spec(ValueV::Table(ves), tt, Policy::Append, SourceV::Table(es))
        == crate::append::append_spec(ValueV::Table(ves), tt, SourceV::Table(es)));
    assert(crate::append::append_spec(ValueV::Table(ves), tt, SourceV::Table(es)) == (
    match map_append_from(ves, vt, es, 0) {
        Ok(nves) => Ok::<ValueV, MergeError>(ValueV::Table(nves)),
        Err(e) => Err(e),
    }));
    assert(merge_spec(ValueV::Table(ves), tt, Policy::Default, SourceV::Table(es)) == merge_spec(
        ValueV::Table(ves),
        tt,
        Policy::Append,
        SourceV::Table(es),
    ));
    map_append_from_props(ves, vt, es, 0);
}

/// What the set-insert fold guarantees from position `i` on: the elements
/// already stored stay in place and in order, the elements stay distinct,
/// and every remaining layer element decodes and is a member afterwards.
pub proof fn set_append_from_props(xs: Seq<ScalarV>, k: ScalarKind, es: Seq<SourceV>, i: int)
    requires
        elems_distinct(xs),
        0 <= i,
    ensures
        ({
            let m = set_append_from(xs, k, es, i);
            m is Ok ==> {
                let r = m->Ok_0;
                &&& r.len() >= xs.len()
                &&& (forall|j: int| 0 <= j < xs.len() ==> r[j] == xs[j])
                &&& elems_distinct(r)
                &&& (forall|j: int|
                    i <= j < es.len() ==> decode_scalar_spec(k, #[trigger] es[j]) is Ok
                        && set_find_from(r, decode_scalar_spec(k, es[j])->Ok_0, 0) >= 0)
            }
        }),
    decreases es.len() - i,
{
    if 0 <= i < es.len() {
        if decode_scalar_spec(k, es[i]) is Ok {
            let x = decode_scalar_spec(k, es[i])->Ok_0;
            crate::value::lemma_set_find_from(xs, x, 0);
            let xs2 = if set_find_from(xs, x, 0) >= 0 {
                xs
            } else {
                xs.push(x)
            };
            if set_find_from(xs, x, 0) < 0 {
                assert forall|a: int, b: int| 0 <= a < b < xs2.len() implies (#[trigger] xs2[a])
                    != (#[trigger] xs2[b]) by {
                    if b < xs.len() {
                        assert(xs2[a] == xs[a] && xs2[b] == xs[b]);
                    } else {
                        assert(xs2[a] == xs[a] && xs2[b] == x);
                    }
                }
            }
            set_append_from_props(xs2, k, es, i + 1);
            let m2 = set_append_from(xs2, k, es, i + 1);
            if m2 is Ok {
                let r = m2->Ok_0;
                assert(exists|w: int| 0 <= w < xs2.len() && xs2[w] == x) by {
                    if set_find_from(xs, x, 0) >= 0 {
                        assert(xs2[set_find_from(xs, x, 0)] == x);
                    } else {
                        assert(xs2[xs.len() as int] == x);
                    }
                }
                let w = choose|w: int| 0 <= w < xs2.len() && xs2[w] == x;
                assert(r[w] == x);
                crate::value::lemma_set_find_from(r, x, 0);
                assert(set_find_from(r, x, 0) >= 0);
            }
        }
    }
}

/// Law: appending layer elements into a set inserts each freshly decoded
/// element unless an equal one is already stored; nothing is removed and the
/// stored elements keep their places.
pub proof fn law_set_append(xs: Seq<ScalarV>, k: ScalarKind, es: Seq<SourceV>)
    requires
        elems_distinct(xs),
    ensures
        merge_spec(ValueV::SetOf(xs), TyV::SetOf(k), Policy::Append, SourceV::List(es)) == (
        match set_append_from(xs, k, es, 0) {
            Ok(nxs) => Ok::<ValueV, MergeError>(ValueV::SetOf(nxs)),
            Err(e) => Err(e),
        }),
        merge_spec(ValueV::SetOf(xs), TyV::SetOf(k), Policy::Default, SourceV::List(es))
            == merge_spec(ValueV::SetOf(xs), TyV::SetOf(k), Policy::Append, SourceV::List(es)),
        ({
            let m = set_append_from(xs, k, es, 0);
            m is Ok ==> {
                let r = m->Ok_0;
                &&& r.len() >= xs.len()
                &&& (forall|j: int| 0 <= j < xs.len() ==> r[j] == xs[j])
                &&& elems_distinct(r)
                &&& (forall|j: int|
                    0 <= j < es.len() ==> decode_scalar_spec(k, #[trigger] es[j]) is Ok
                        && set_find_from(r, decode_scalar_spec(k, es[j])->Ok_0, 0) >= 0)
            }
        }),
{
    let st = TyV::SetOf(k);
    assert(merge_spec(ValueV::SetOf(xs), st, Policy::Append, SourceV::List(es))
        == crate::append::append_spec(ValueV::SetOf(xs), st, SourceV::List(es)));
    assert(crate::append::append_spec(ValueV::SetOf(xs), st, SourceV::List(es)) == (
    match set_append_from(xs, k, es, 0) {
        Ok(nxs) => Ok::<ValueV, MergeError>(ValueV::SetOf(nxs)),
        Err(e) => Err(e),
    }));
    assert(merge_spec(ValueV::SetOf(xs), st, Policy::Default, SourceV::List(es)) == merge_spec(
        ValueV::SetOf(xs),
        st,
        Policy::Append,
        SourceV::List(es),
    ));
    set_append_from_props(xs, k, es, 0);
}

} // verus!
