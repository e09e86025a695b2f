//! The `Update` resolver: merge the layer's data into the current value
//! recursively.
//!
//! An optional keeps its value on absence and merges into it on presence; a
//! table merges into matched entries and inserts fresh ones; a sequence
//! merges positionally, element by element, and grows to the longer length;
//! a record dispatches its fields through the record merge protocol.  On a
//! plain scalar or string target, update degenerates to replacement.

use vstd::prelude::*;

use crate::MergeError;
use crate::record::{merge_named_from, merge_pos_from};
use crate::schema::{Policy, Ty, TyV, fields_slots, recurse_policy};
use crate::seed::merge_spec;
use crate::source::{Source, SourceEntry, SourceV};
use crate::value::{MapEntry, Value, ValueV, table_find_from};
use crate::replace::decode_spec;

verus! {

/// What updating value `v` of type `t` with source `s` yields.
pub open spec fn update_spec(v: ValueV, t: TyV, s: SourceV) -> Result<ValueV, MergeError>
    decreases s, 1int, 0int,
{
    match t {
        TyV::Int => decode_spec(t, s),
        TyV::Bool => decode_spec(t, s),
        TyV::Text => decode_spec(t, s),
        TyV::Optional(t1) => match s {
            SourceV::Absent => Ok(v),
            SourceV::Present(bs) => match v {
                ValueV::OptNone => match decode_spec(*t1, *bs) {
                    Ok(nv) => Ok(ValueV::OptSome(Box::new(nv))),
                    Err(e) => Err(e),
                },
                ValueV::OptSome(bv) => match merge_spec(*bv, *t1, recurse_policy(*t1), *bs) {
                    Ok(nv) => Ok(ValueV::OptSome(Box::new(nv))),
                    Err(e) => Err(e),
                },
                _ => Err(MergeError::MalformedToken),
            },
            _ => Err(MergeError::MalformedToken),
        },
        TyV::Sequence(t1) => match (v, s) {
            (ValueV::List(vs), SourceV::List(es)) => match seq_update_from(vs, *t1, es, 0) {
                Ok(nvs) => Ok(ValueV::List(nvs)),
                Err(e) => Err(e),
            },
            _ => Err(MergeError::MalformedToken),
        },
        TyV::Table(t1) => match (v, s) {
            (ValueV::Table(ves), SourceV::Table(es)) => match map_update_from(ves, *t1, es, 0) {
                Ok(nves) => Ok(ValueV::Table(nves)),
                Err(e) => Err(e),
            },
            _ => Err(MergeError::MalformedToken),
        },
        TyV::Record(fs) => match s {
            SourceV::Unit => Ok(v),
            SourceV::Table(es) => match v {
                ValueV::Record(vals) => match merge_named_from(vals, fs, es, 0) {
                    Ok(nvals) => Ok(ValueV::Record(nvals)),
                    Err(e) => Err(e),
                },
                _ => Err(MergeError::MalformedToken),
            },
            SourceV::List(es) => match v {
                ValueV::Record(vals) => if es.len() > fs.len() {
                    Err(MergeError::ArityMismatch)
                } else {
                    match merge_pos_from(vals, fields_slots(fs), es, 0) {
                        Ok(nvals) => Ok(ValueV::Record(nvals)),
                        Err(e) => Err(e),
                    }
                },
                _ => Err(MergeError::MalformedToken),
            },
            _ => Err(MergeError::MalformedToken),
        },
        TyV::Tuple(ss) => match s {
            SourceV::Unit => Ok(v),
            SourceV::List(es) => match v {
                ValueV::Record(vals) => if es.len() != ss.len() {
                    Err(MergeError::ArityMismatch)
                } else {
                    match merge_pos_from(vals, ss, es, 0) {
                        Ok(nvals) => Ok(ValueV::Record(nvals)),
                        Err(e) => Err(e),
                    }
                },
                _ => Err(MergeError::MalformedToken),
            },
            _ => Err(MergeError::MalformedToken),
        },
        TyV::Unit => match s {
            SourceV::Unit => Ok(v),
            _ => Err(MergeError::MalformedToken),
        },
        _ => Err(MergeError::MalformedToken),
    }
}

/// Merging the elements of `es` from position `i` on into the sequence `vs`
/// positionally: an element with a partner in place re-merges into it, one
/// beyond the end is decoded fresh and appended.  The result keeps `max` of
/// both lengths.
pub open spec fn seq_update_from(
    vs: Seq<ValueV>,
    et: TyV,
    es: Seq<SourceV>,
    i: int,
) -> Result<Seq<ValueV>, MergeError>
    decreases es, 0int, es.len() - i,
{
    if i < 0 || i >= es.len() {
        Ok(vs)
    } else {
        let step = if i < vs.len() {
            merge_spec(vs[i], et, recurse_policy(et), es[i])
        } else {
            decode_spec(et, es[i])
        };
        match step {
            Ok(nv) => seq_update_from(
                if i < vs.len() {
                    vs.update(i, nv)
                } else {
                    vs.push(nv)
                },
                et,
                es,
                i + 1,
            ),
            Err(e) => Err(e),
        }
    }
}

/// Merging the entries of `es` from position `i` on into the table `ves`:
/// a matching key re-merges the layer's value into the stored one, a new
/// key gains a freshly decoded entry at the end.
pub open spec fn map_update_from(
    ves: Seq<(Seq<char>, ValueV)>,
    vt: TyV,
    es: Seq<(Seq<char>, SourceV)>,
    i: int,
) -> Result<Seq<(Seq<char>, ValueV)>, MergeError>
    decreases es, 0int, es.len() - i,
{
    if i < 0 || i >= es.len() {
        Ok(ves)
    } else {
        let j = table_find_from(ves, es[i].0, 0);
        if j < 0 {
            match decode_spec(vt, es[i].1) {
                Ok(nv) => map_update_from(ves.push((es[i].0, nv)), vt, es, i + 1),
                Err(e) => Err(e),
            }
        } else {
            match merge_spec(ves[j].1, vt, recurse_policy(vt), es[i].1) {
                Ok(nv) => map_update_from(ves.update(j, (es[i].0, nv)), vt, es, i + 1),
                Err(e) => Err(e),
            }
        }
    }
}

/// One more entry at the end of the layer extends the table merge by one
/// step: re-merge into the matched entry, or decode and push a fresh one.
pub proof fn lemma_map_update_snoc(
    ves: Seq<(Seq<char>, ValueV)>,
    vt: TyV,
    p: Seq<(Seq<char>, SourceV)>,
    x: (Seq<char>, SourceV),
    i: int,
)
    requires
        0 <= i <= p.len(),
    ensures
        map_update_from(ves, vt, p.push(x), i) == (match map_update_from(ves, vt, p, i) {
            Ok(cur) => {
                let j = table_find_from(cur, x.0, 0);
                if j < 0 {
                    match decode_spec(vt, x.1) {
                        Ok(nv) => Ok::<Seq<(Seq<char>, ValueV)>, MergeError>(cur.push((x.0, nv))),
                        Err(e) => Err(e),
                    }
                } else {
                    match merge_spec(cur[j].1, vt, recurse_policy(vt), x.1) {
                        Ok(nv) => Ok(cur.update(j, (x.0, nv))),
                        Err(e) => Err(e),
                    }
                }
            },
            Err(e) => Err(e),
        }),
    decreases p.len() - i,
{
    let q = p.push(x);
    if i == p.len() {
        assert(q[i] == x);
        assert(map_update_from(ves, vt, p, i) == Ok::<Seq<(Seq<char>, ValueV)>, MergeError>(ves));
        let j = table_find_from(ves, x.0, 0);
        if j < 0 {
            match decode_spec(vt, x.1) {
                Ok(nv) => {
                    assert(map_update_from(ves.push((x.0, nv)), vt, q, i + 1) == Ok::<
                        Seq<(Seq<char>, ValueV)>,
                        MergeError,
                    >(ves.push((x.0, nv))));
                },
                Err(_) => {},
            }
        } else {
            match merge_spec(ves[j].1, vt, recurse_policy(vt), x.1) {
                Ok(nv) => {
                    assert(map_update_from(ves.update(j, (x.0, nv)), vt, q, i + 1) == Ok::<
                        Seq<(Seq<char>, ValueV)>,
                        MergeError,
                    >(ves.update(j, (x.0, nv))));
                },
                Err(_) => {},
            }
        }
    } else {
        assert(q[i] == p[i]);
        let j = table_find_from(ves, p[i].0, 0);
        if j < 0 {
            match decode_spec(vt, p[i].1) {
                Ok(nv) => {
                    lemma_map_update_snoc(ves.push((p[i].0, nv)), vt, p, x, i + 1);
                },
                Err(_) => {},
            }
        } else {
            match merge_spec(ves[j].1, vt, recurse_policy(vt), p[i].1) {
                Ok(nv) => {
                    lemma_map_update_snoc(ves.update(j, (p[i].0, nv)), vt, p, x, i + 1);
                },
                Err(_) => {},
            }
        }
    }
}

/// The state an aborted table merge leaves the table in: some prefix of the
/// layer merged cleanly, and the entry after it failed.  On a fresh key whose
/// value would not decode the entries hold exactly the prefix result; when a
/// stored entry's re-merge failed, every other entry holds the prefix result
/// and only the matched entry's value may differ, its key kept.
pub open spec fn table_abort_state(
    ves: Seq<(Seq<char>, ValueV)>,
    vt: TyV,
    es: Seq<(Seq<char>, SourceV)>,
    out: Seq<(Seq<char>, ValueV)>,
) -> bool {
    exists|i: int|
        #![trigger es.subrange(0, i)]
        0 <= i < es.len() && {
            let pre = map_update_from(ves, vt, es.subrange(0, i), 0);
            &&& pre is Ok
            &&& ({
                let cur = pre->Ok_0;
                let j = table_find_from(cur, es[i].0, 0);
                if j < 0 {
                    decode_spec(vt, es[i].1) is Err && out == cur
                } else {
                    &&& merge_spec(cur[j].1, vt, recurse_policy(vt), es[i].1) is Err
                    &&& out.len() == cur.len()
                    &&& (forall|x: int| 0 <= x < cur.len() && x != j ==> out[x] == cur[x])
                    &&& out[j].0 == cur[j].0
                }
            })
        }
}

} // verus!

verus! {

/// The `Update` policy resolver: merge recursively into the current value.
pub struct Update;

impl Update {
    /// Merges the layer's data into the value in place, recursively.
    pub fn apply(slot: &mut Value, ty: &Ty, src: &Source) -> (r: Result<(), MergeError>)
        requires
            crate::value::value_wf(crate::value::view_val(*old(slot)), crate::schema::view_ty(*ty)),
        ensures
            crate::seed::merge_ensures(
                crate::value::view_val(*old(slot)),
                crate::schema::view_ty(*ty),
                Policy::Update,
                crate::source::view_src(*src),
                crate::value::view_val(*final(slot)),
                r,
            ),
    {
        crate::seed::merge_value(slot, ty, Policy::Update, src)
    }
}

/// Updates the owned value `v` of type `ty` with source `src`.
pub(crate) fn update_val(v: Value, ty: &Ty, src: &Source) -> (res: (Value, Result<(), MergeError>))
    requires
        crate::value::value_wf(crate::value::view_val(v), crate::schema::view_ty(*ty)),
    ensures
        ({
            let m = update_spec(
                crate::value::view_val(v),
                crate::schema::view_ty(*ty),
                crate::source::view_src(*src),
            );
            &&& (m is Ok ==> res.1 is Ok && crate::value::view_val(res.0) == m->Ok_0)
            &&& (m is Err ==> res.1 is Err && res.1->Err_0 == m->Err_0)
            &&& crate::value::value_wf(crate::value::view_val(res.0), crate::schema::view_ty(*ty))
        }),
    decreases *src, 1int, 0int,
{
    broadcast use {crate::value::lemma_view_vals, crate::value::lemma_view_entries,
        crate::source::lemma_view_srcs, crate::source::lemma_view_src_entries,
        crate::schema::lemma_view_fields, crate::schema::lemma_view_slots};

    match (v, ty) {
        (v0, Ty::Int) => match crate::replace::decode(ty, src) {
            Ok(nv) => (nv, Ok(())),
            Err(e) => (v0, Err(e)),
        },
        (v0, Ty::Bool) => match crate::replace::decode(ty, src) {
            Ok(nv) => (nv, Ok(())),
            Err(e) => (v0, Err(e)),
        },
        (v0, Ty::Text) => match crate::replace::decode(ty, src) {
            Ok(nv) => (nv, Ok(())),
            Err(e) => (v0, Err(e)),
        },
        (v0, Ty::Optional(t1)) => match src {
            Source::Absent => (v0, Ok(())),
            Source::Present(bs) => match v0 {
                Value::OptNone => match crate::replace::decode(t1, bs) {
                    Ok(nv) => (Value::OptSome(Box::new(nv)), Ok(())),
                    Err(e) => (Value::OptNone, Err(e)),
                },
                Value::OptSome(bv) => {
                    let rp = crate::default::recurse(t1);
                    let (nv, r) = crate::seed::merge_val(*bv, t1, rp, bs);
                    (Value::OptSome(Box::new(nv)), r)
                },
                other => (other, Err(MergeError::MalformedToken)),
            },
            _ => (v0, Err(MergeError::MalformedToken)),
        },
        (Value::List(vs), Ty::Sequence(t1)) => match src {
            Source::List(es) => {
                let (nvs, r) = seq_update(vs, t1, es);
                (Value::List(nvs), r)
            },
            _ => (Value::List(vs), Err(MergeError::MalformedToken)),
        },
        (Value::Table(ves), Ty::Table(t1)) => match src {
            Source::Table(es) => {
                let (nves, r) = map_update(ves, t1, es);
                (Value::Table(nves), r)
            },
            _ => (Value::Table(ves), Err(MergeError::MalformedToken)),
        },
        (Value::Record(vals), Ty::Record(fs)) => match src {
            Source::Unit => (Value::Record(vals), Ok(())),
            Source::Table(es) => {
                proof {
                    assert(crate::value::view_val(v) == crate::value::ValueV::Record(
                        crate::value::view_vals(vals@),
                    ));
                    assert(crate::value::view_vals(vals@).len() == crate::schema::view_fields(
                        fs@,
                    ).len());
                }
                let (nvals, r) = crate::record::rec_named(vals, fs, es);
                (Value::Record(nvals), r)
            },
            Source::List(es) => {
                if es.len() > fs.len() {
                    proof {
                        assert(crate::source::view_srcs(es@).len() > crate::schema::view_fields(
                            fs@,
                        ).len());
                    }
                    (Value::Record(vals), Err(MergeError::ArityMismatch))
                } else {
                    proof {
                        assert(crate::value::view_val(v) == crate::value::ValueV::Record(
                            crate::value::view_vals(vals@),
                        ));
                        assert(crate::value::view_vals(vals@).len() == crate::schema::view_fields(
                            fs@,
                        ).len());
                    }
                    let (nvals, r) = crate::record::rec_pos_fields(vals, fs, es);
                    (Value::Record(nvals), r)
                }
            },
            _ => (Value::Record(vals), Err(MergeError::MalformedToken)),
        },
        (Value::Record(vals), Ty::Tuple(ss)) => match src {
            Source::Unit => (Value::Record(vals), Ok(())),
            Source::List(es) => {
                if es.len() != ss.len() {
                    proof {
                        assert(crate::source::view_srcs(es@).len() != crate::schema::view_slots(
                            ss@,
                        ).len());
                    }
                    (Value::Record(vals), Err(MergeError::ArityMismatch))
                } else {
                    proof {
                        assert(crate::value::view_val(v) == crate::value::ValueV::Record(
                            crate::value::view_vals(vals@),
                        ));
                        assert(crate::value::view_vals(vals@).len() == crate::schema::view_slots(
                            ss@,
                        ).len());
                    }
                    let (nvals, r) = crate::record::rec_pos_slots(vals, ss, es);
                    (Value::Record(nvals), r)
                }
            },
            _ => (Value::Record(vals), Err(MergeError::MalformedToken)),
        },
        (v0, Ty::Unit) => match crate::UnitStructVisitor::visit_unit(src) {
            Ok(()) => (v0, Ok(())),
            Err(e) => (v0, Err(e)),
        },
        (v0, _) => (v0, Err(MergeError::MalformedToken)),
    }
}

/// Merges the elements of a list source into the sequence positionally:
/// overlapping indices re-merge in place, the overhang is decoded fresh and
/// appended.
#[verifier::loop_isolation(false)]
pub(crate) fn seq_update(vs: Vec<Value>, et: &Ty, es: &Vec<Source>) -> (res: (
    Vec<Value>,
    Result<(), MergeError>,
))
    requires
        crate::value::values_wf(
            crate::value::view_vals(vs@),
            crate::schema::view_ty(*et),
        ),
    ensures
        ({
            let m = seq_update_from(
                crate::value::view_vals(vs@),
                crate::schema::view_ty(*et),
                crate::source::view_srcs(es@),
                0,
            );
            &&& (m is Ok ==> res.1 is Ok && crate::value::view_vals(res.0@) == m->Ok_0)
            &&& (m is Err ==> res.1 is Err && res.1->Err_0 == m->Err_0)
            &&& crate::value::values_wf(
                crate::value::view_vals(res.0@),
                crate::schema::view_ty(*et),
            )
        }),
    decreases es@, 0int, 0int,
{
    broadcast use {crate::value::lemma_view_vals, crate::source::lemma_view_srcs,
        crate::value::lemma_view_vals_push, crate::value::lemma_view_vals_update,
        crate::value::lemma_values_wf, crate::value::lemma_remove_insert};

    let ghost etv = crate::schema::view_ty(*et);
    let ghost srcs = crate::source::view_srcs(es@);
    let ghost vs0 = crate::value::view_vals(vs@);
    let mut vs = vs;
    let mut i: usize = 0;
    while i < es.len()
        invariant
            0 <= i <= es@.len(),
            seq_update_from(vs0, etv, srcs, 0) == seq_update_from(
                crate::value::view_vals(vs@),
                etv,
                srcs,
                i as int,
            ),
            forall|j: int|
                0 <= j < vs@.len() ==> crate::value::value_wf(
                    #[trigger] crate::value::view_vals(vs@)[j],
                    etv,
                ),
        decreases es@.len() - i,
    {
        if i < vs.len() {
            let elem = vs.remove(i);
            let rp = crate::default::recurse(et);
            let (elem2, r) = crate::seed::merge_val(elem, et, rp, &es[i]);
            vs.insert(i, elem2);
            if let Err(e) = r {
                return (vs, Err(e));
            }
        } else {
            match crate::replace::decode(et, &es[i]) {
                Ok(nv) => {
                    vs.push(nv);
                },
                Err(e) => {
                    return (vs, Err(e));
                },
            }
        }
        i += 1;
    }
    (vs, Ok(()))
}

/// Merges the entries of a table source into the table: matching keys
/// re-merge into the stored value, new keys gain freshly decoded entries.
/// An abort leaves the table in the abort state: entries merged before the
/// failure stay merged, those after it stay untouched.
#[verifier::loop_isolation(false)]
pub fn map_update(ves: Vec<MapEntry>, vt: &Ty, es: &Vec<SourceEntry>) -> (res: (
    Vec<MapEntry>,
    Result<(), MergeError>,
))
    requires
        crate::value::keys_distinct(crate::value::view_entries(ves@)),
        crate::value::entries_wf(
            crate::value::view_entries(ves@),
            crate::schema::view_ty(*vt),
        ),
    ensures
        ({
            let m = map_update_from(
                crate::value::view_entries(ves@),
                crate::schema::view_ty(*vt),
                crate::source::view_src_entries(es@),
                0,
            );
            &&& (m is Ok ==> res.1 is Ok && crate::value::view_entries(res.0@) == m->Ok_0)
            &&& (m is Err ==> res.1 is Err && res.1->Err_0 == m->Err_0)
            &&& (res.1 is Err ==> table_abort_state(
                crate::value::view_entries(ves@),
                crate::schema::view_ty(*vt),
                crate::source::view_src_entries(es@),
                crate::value::view_entries(res.0@),
            ))
            &&& crate::value::keys_distinct(crate::value::view_entries(res.0@))
            &&& crate::value::entries_wf(
                crate::value::view_entries(res.0@),
                crate::schema::view_ty(*vt),
            )
        }),
    decreases es@, 0int, 0int,
{
    broadcast use {crate::value::lemma_view_entries, crate::source::lemma_view_src_entries,
        crate::value::lemma_view_entries_push, crate::value::lemma_view_entries_update,
        crate::value::lemma_entries_wf, crate::value::lemma_remove_insert};

    let ghost vtv = crate::schema::view_ty(*vt);
    let ghost srcs = crate::source::view_src_entries(es@);
    let ghost ves0 = crate::value::view_entries(ves@);
    let mut ves = ves;
    let mut i: usize = 0;
    proof {
        assert(srcs.subrange(0, 0) =~= Seq::<(Seq<char>, SourceV)>::empty());
    }
    while i < es.len()
        invariant
            0 <= i <= es@.len(),
            map_update_from(ves0, vtv, srcs, 0) == map_update_from(
                crate::value::view_entries(ves@),
                vtv,
                srcs,
                i as int,
            ),
            map_update_from(ves0, vtv, srcs.subrange(0, i as int), 0) == Ok::<
                Seq<(Seq<char>, ValueV)>,
                MergeError,
            >(crate::value::view_entries(ves@)),
            crate::value::keys_distinct(crate::value::view_entries(ves@)),
            forall|j: int|
                0 <= j < ves@.len() ==> crate::value::value_wf(
                    (#[trigger] crate::value::view_entries(ves@)[j]).1,
                    vtv,
                ),
        decreases es@.len() - i,
    {
        let ghost cur = crate::value::view_entries(ves@);
        let ghost key0 = es@[i as int].key@;
        proof {
            crate::value::lemma_table_find_from(cur, key0, 0);
        }
        match crate::value::find_entry(&ves, &es[i].key) {
            Some(j) => {
                let old_entry = ves.remove(j);
                let rp = crate::default::recurse(vt);
                let (nv, r) = crate::seed::merge_val(old_entry.value, vt, rp, &es[i].value);
                ves.insert(j, MapEntry { key: old_entry.key, value: nv });
                proof {
                    assert(crate::value::view_entries(ves@) =~= cur.update(
                        j as int,
                        (key0, crate::value::view_val(nv)),
                    ));
                    assert forall|a: int, b: int|
                        0 <= a < b < crate::value::view_entries(ves@).len() implies (
                    #[trigger] crate::value::view_entries(ves@)[a].0) != (
                    #[trigger] crate::value::view_entries(ves@)[b].0) by {
                        assert(cur[a].0 == crate::value::view_entries(ves@)[a].0);
                        assert(cur[b].0 == crate::value::view_entries(ves@)[b].0);
                    }
                }
                if let Err(e) = r {
                    proof {
                        assert(map_update_from(ves0, vtv, srcs.subrange(0, i as int), 0) == Ok::<
                            Seq<(Seq<char>, ValueV)>,
                            MergeError,
                        >(cur));
                        assert(merge_spec(cur[j as int].1, vtv, recurse_policy(vtv),
                            srcs[i as int].1) is Err);
                        assert(table_abort_state(ves0, vtv, srcs, crate::value::view_entries(
                            ves@,
                        )));
                    }
                    return (ves, Err(e));
                }
                proof {
                    assert(srcs.subrange(0, i as int + 1) =~= srcs.subrange(0, i as int).push(
                        srcs[i as int],
                    ));
                    lemma_map_update_snoc(ves0, vtv, srcs.subrange(0, i as int), srcs[i as int], 0);
                }
            },
            None => {
                match crate::replace::decode(vt, &es[i].value) {
                    Ok(nv) => {
                        ves.push(MapEntry { key: es[i].key.clone(), value: nv });
                        proof {
                            assert(crate::value::view_entries(ves@) =~= cur.push((
                                key0,
                                crate::value::view_val(nv),
                            )));
                            assert(srcs.subrange(0, i as int + 1) =~= srcs.subrange(
                                0,
                                i as int,
                            ).push(srcs[i as int]));
                            lemma_map_update_snoc(ves0, vtv, srcs.subrange(0, i as int),
                                srcs[i as int], 0);
                            assert forall|a: int, b: int|
                                0 <= a < b < crate::value::view_entries(ves@).len() implies (
                            #[trigger] crate::value::view_entries(ves@)[a].0) != (
                            #[trigger] crate::value::view_entries(ves@)[b].0) by {
                                if b < cur.len() {
                                    assert(cur[a].0 == crate::value::view_entries(ves@)[a].0);
                                    assert(cur[b].0 == crate::value::view_entries(ves@)[b].0);
                                } else {
                                    assert(crate::value::view_entries(ves@)[b].0 == key0);
                                    assert(cur[a].0 == crate::value::view_entries(ves@)[a].0);
                                }
                            }
                        }
                    },
                    Err(e) => {
                        proof {
                            assert(map_update_from(ves0, vtv, srcs.subrange(0, i as int), 0)
                                == Ok::<Seq<(Seq<char>, ValueV)>, MergeError>(cur));
                            assert(decode_spec(vtv, srcs[i as int].1) is Err);
                            assert(table_abort_state(ves0, vtv, srcs, crate::value::view_entries(
                                ves@,
                            )));
                        }
                        return (ves, Err(e));
                    },
                }
            },
        }
        i += 1;
    }
    (ves, Ok(()))
}

} // verus!
