//! The `Append` resolver: extend the current value with the layer's data.
//!
//! Strings gain the new text at their end; sequences gain every pulled
//! element at their end; tables and sets upsert; an optional keeps its value
//! on absence and takes a fresh one on presence.

use vstd::prelude::*;

use vstd::string::StringExecFns;

use crate::MergeError;
use crate::schema::{Policy, Ty, TyV};
use crate::source::{Source, SourceEntry, SourceV};
use crate::value::{MapEntry, Scalar, ScalarV, Value, ValueV, set_find_from, table_upsert};
use crate::replace::{decode_scalar_spec, decode_spec};

verus! {

/// What appending source `s` onto value `v` of type `t` yields.
pub open spec fn append_spec(v: ValueV, t: TyV, s: SourceV) -> Result<ValueV, MergeError>
    decreases s, 1int, 0int,
{
    match t {
        TyV::Text => match (v, s) {
            (ValueV::Text(s1), SourceV::Text(s2)) => Ok(ValueV::Text(s1 + s2)),
            _ => Err(MergeError::MalformedToken),
        },
        TyV::Optional(t1) => match s {
            SourceV::Absent => Ok(v),
            SourceV::Present(b) => match decode_spec(*t1, *b) {
                Ok(nv) => Ok(ValueV::OptSome(Box::new(nv))),
                Err(e) => Err(e),
            },
            _ => Err(MergeError::MalformedToken),
        },
        TyV::Sequence(t1) => match (v, s) {
            (ValueV::List(vs), SourceV::List(es)) => match seq_concat_from(vs, *t1, es, 0) {
                Ok(nvs) => Ok(ValueV::List(nvs)),
                Err(e) => Err(e),
            },
            _ => Err(MergeError::MalformedToken),
        },
        TyV::Table(t1) => match (v, s) {
            (ValueV::Table(ves), SourceV::Table(es)) => match map_append_from(ves, *t1, es, 0) {
                Ok(nves) => Ok(ValueV::Table(nves)),
                Err(e) => Err(e),
            },
            _ => Err(MergeError::MalformedToken),
        },
        TyV::SetOf(k) => match (v, s) {
            (ValueV::SetOf(xs), SourceV::List(es)) => match set_append_from(xs, k, es, 0) {
                Ok(nxs) => Ok(ValueV::SetOf(nxs)),
                Err(e) => Err(e),
            },
            _ => Err(MergeError::MalformedToken),
        },
        _ => Err(MergeError::MalformedToken),
    }
}

/// Appending the elements of `es` from position `i` on at the end of the
/// sequence `vs`: every pulled element is decoded fresh and pushed, the
/// elements already in place stay where they are.
pub open spec fn seq_concat_from(
    vs: Seq<ValueV>,
    et: TyV,
    es: Seq<SourceV>,
    i: int,
) -> Result<Seq<ValueV>, MergeError>
    decreases es.len() - i,
{
    if i < 0 || i >= es.len() {
        Ok(vs)
    } else {
        match decode_spec(et, es[i]) {
            Ok(nv) => seq_concat_from(vs.push(nv), et, es, i + 1),
            Err(e) => Err(e),
        }
    }
}

/// Upserting the entries of `es` from position `i` on into the table `ves`:
/// a matching key takes the freshly decoded value wholesale, a new key is
/// added at the end.
pub open spec fn map_append_from(
    ves: Seq<(Seq<char>, ValueV)>,
    vt: TyV,
    es: Seq<(Seq<char>, SourceV)>,
    i: int,
) -> Result<Seq<(Seq<char>, ValueV)>, MergeError>
    decreases es, 0int, es.len() - i,
{
    if i < 0 || i >= es.len() {
        Ok(ves)
    } else {
        match decode_spec(vt, es[i].1) {
            Ok(nv) => map_append_from(table_upsert(ves, es[i].0, nv), vt, es, i + 1),
            Err(e) => Err(e),
        }
    }
}

/// Inserting the elements of `es` from position `i` on into the set `xs`:
/// an element already present leaves the set unchanged.
pub open spec fn set_append_from(
    xs: Seq<ScalarV>,
    k: crate::schema::ScalarKind,
    es: Seq<SourceV>,
    i: int,
) -> Result<Seq<ScalarV>, MergeError>
    decreases es.len() - i,
{
    if i < 0 || i >= es.len() {
        Ok(xs)
    } else {
        match decode_scalar_spec(k, es[i]) {
            Ok(x) => set_append_from(
                if set_find_from(xs, x, 0) >= 0 {
                    xs
                } else {
                    xs.push(x)
                },
                k,
                es,
                i + 1,
            ),
            Err(e) => Err(e),
        }
    }
}

} // verus!

verus! {

/// The `Append` policy resolver: extend the current value with the layer's.
pub struct Append;

impl Append {
    /// Appends the layer's data onto the value in place.
    pub fn apply(slot: &mut Value, ty: &Ty, src: &Source) -> (r: Result<(), MergeError>)
        requires
            crate::value::value_wf(crate::value::view_val(*old(slot)), crate::schema::view_ty(*ty)),
        ensures
            crate::seed::merge_ensures(
                crate::value::view_val(*old(slot)),
                crate::schema::view_ty(*ty),
                Policy::Append,
                crate::source::view_src(*src),
                crate::value::view_val(*final(slot)),
                r,
            ),
    {
        crate::seed::merge_value(slot, ty, Policy::Append, src)
    }
}

/// Appends source `src` onto the owned value `v` of type `ty`.
pub(crate) fn append_val(v: Value, ty: &Ty, src: &Source) -> (res: (Value, Result<(), MergeError>))
    requires
        crate::value::value_wf(crate::value::view_val(v), crate::schema::view_ty(*ty)),
    ensures
        ({
            let m = append_spec(
                crate::value::view_val(v),
                crate::schema::view_ty(*ty),
                crate::source::view_src(*src),
            );
            &&& (m is Ok ==> res.1 is Ok && crate::value::view_val(res.0) == m->Ok_0)
            &&& (m is Err ==> res.1 is Err && res.1->Err_0 == m->Err_0)
            &&& crate::value::value_wf(crate::value::view_val(res.0), crate::schema::view_ty(*ty))
        }),
    decreases *src, 1int, 0int,
{
    broadcast use {crate::value::lemma_view_vals, crate::value::lemma_view_entries,
        crate::value::lemma_view_scalars, crate::source::lemma_view_srcs,
        crate::source::lemma_view_src_entries};

    match (v, ty) {
        (Value::Text(s1), Ty::Text) => match src {
            Source::Text(s2) => {
                let mut s = s1;
                s.append(s2.as_str());
                (Value::Text(s), Ok(()))
            },
            _ => (Value::Text(s1), Err(MergeError::MalformedToken)),
        },
        (v0, Ty::Optional(t1)) => match src {
            Source::Absent => (v0, Ok(())),
            Source::Present(bs) => match crate::replace::decode(t1, bs) {
                Ok(nv) => (Value::OptSome(Box::new(nv)), Ok(())),
                Err(e) => (v0, Err(e)),
            },
            _ => (v0, Err(MergeError::MalformedToken)),
        },
        (Value::List(vs), Ty::Sequence(t1)) => match src {
            Source::List(es) => {
                let (nvs, r) = seq_append(vs, t1, es);
                (Value::List(nvs), r)
            },
            _ => (Value::List(vs), Err(MergeError::MalformedToken)),
        },
        (Value::Table(ves), Ty::Table(t1)) => match src {
            Source::Table(es) => {
                let (nves, r) = map_append(ves, t1, es);
                (Value::Table(nves), r)
            },
            _ => (Value::Table(ves), Err(MergeError::MalformedToken)),
        },
        (Value::SetOf(xs), Ty::SetOf(k)) => match src {
            Source::List(es) => {
                let (nxs, r) = set_append(xs, *k, es);
                (Value::SetOf(nxs), r)
            },
            _ => (Value::SetOf(xs), Err(MergeError::MalformedToken)),
        },
        (v0, _) => (v0, Err(MergeError::MalformedToken)),
    }
}

/// Appends every element of a list source at the end of the sequence, each
/// decoded fresh; the elements already in place are untouched.
#[verifier::loop_isolation(false)]
pub(crate) fn seq_append(vs: Vec<Value>, et: &Ty, es: &Vec<Source>) -> (res: (
    Vec<Value>,
    Result<(), MergeError>,
))
    requires
        crate::value::values_wf(
            crate::value::view_vals(vs@),
            crate::schema::view_ty(*et),
        ),
    ensures
        ({
            let m = seq_concat_from(
                crate::value::view_vals(vs@),
                crate::schema::view_ty(*et),
                crate::source::view_srcs(es@),
                0,
            );
            &&& (m is Ok ==> res.1 is Ok && crate::value::view_vals(res.0@) == m->Ok_0)
            &&& (m is Err ==> res.1 is Err && res.1->Err_0 == m->Err_0)
            &&& crate::value::values_wf(
                crate::value::view_vals(res.0@),
                crate::schema::view_ty(*et),
            )
        }),
{
    broadcast use {crate::value::lemma_view_vals, crate::source::lemma_view_srcs,
        crate::value::lemma_view_vals_push, crate::value::lemma_values_wf};

    let ghost etv = crate::schema::view_ty(*et);
    let ghost srcs = crate::source::view_srcs(es@);
    let ghost vs0 = crate::value::view_vals(vs@);
    let mut vs = vs;
    let mut i: usize = 0;
    while i < es.len()
        invariant
            0 <= i <= es@.len(),
            seq_concat_from(vs0, etv, srcs, 0) == seq_concat_from(
                crate::value::view_vals(vs@),
                etv,
                srcs,
                i as int,
            ),
            forall|j: int|
                0 <= j < vs@.len() ==> crate::value::value_wf(
                    #[trigger] crate::value::view_vals(vs@)[j],
                    etv,
                ),
        decreases es@.len() - i,
    {
        match crate::replace::decode(et, &es[i]) {
            Ok(nv) => {
                vs.push(nv);
            },
            Err(e) => {
                return (vs, Err(e));
            },
        }
        i += 1;
    }
    (vs, Ok(()))
}

/// Upserts the entries of a table source: matching keys take the freshly
/// decoded value, new keys are added at the end.
#[verifier::loop_isolation(false)]
pub(crate) fn map_append(ves: Vec<MapEntry>, vt: &Ty, es: &Vec<SourceEntry>) -> (res: (
    Vec<MapEntry>,
    Result<(), MergeError>,
))
    requires
        crate::value::keys_distinct(crate::value::view_entries(ves@)),
        crate::value::entries_wf(
            crate::value::view_entries(ves@),
            crate::schema::view_ty(*vt),
        ),
    ensures
        ({
            let m = map_append_from(
                crate::value::view_entries(ves@),
                crate::schema::view_ty(*vt),
                crate::source::view_src_entries(es@),
                0,
            );
            &&& (m is Ok ==> res.1 is Ok && crate::value::view_entries(res.0@) == m->Ok_0)
            &&& (m is Err ==> res.1 is Err && res.1->Err_0 == m->Err_0)
            &&& crate::value::keys_distinct(crate::value::view_entries(res.0@))
            &&& crate::value::entries_wf(
                crate::value::view_entries(res.0@),
                crate::schema::view_ty(*vt),
            )
        }),
{
    broadcast use {crate::value::lemma_view_entries, crate::source::lemma_view_src_entries,
        crate::value::lemma_view_entries_push, crate::value::lemma_view_entries_update,
        crate::value::lemma_entries_wf, crate::value::lemma_remove_insert};

    let ghost vtv = crate::schema::view_ty(*vt);
    let ghost srcs = crate::source::view_src_entries(es@);
    let ghost ves0 = crate::value::view_entries(ves@);
    let mut ves = ves;
    let mut i: usize = 0;
    while i < es.len()
        invariant
            0 <= i <= es@.len(),
            map_append_from(ves0, vtv, srcs, 0) == map_append_from(
                crate::value::view_entries(ves@),
                vtv,
                srcs,
                i as int,
            ),
            crate::value::keys_distinct(crate::value::view_entries(ves@)),
            forall|j: int|
                0 <= j < ves@.len() ==> crate::value::value_wf(
                    (#[trigger] crate::value::view_entries(ves@)[j]).1,
                    vtv,
                ),
        decreases es@.len() - i,
    {
        match crate::replace::decode(vt, &es[i].value) {
            Ok(nv) => {
                let ghost cur = crate::value::view_entries(ves@);
                let ghost key0 = es@[i as int].key@;
                proof {
                    crate::value::lemma_table_upsert(cur, key0, crate::value::view_val(nv));
                }
                match crate::value::find_entry(&ves, &es[i].key) {
                    Some(j) => {
                        proof {
                            crate::value::lemma_table_find_from(cur, key0, 0);
                        }
                        let old_entry = ves.remove(j);
                        ves.insert(j, MapEntry { key: old_entry.key, value: nv });
                        proof {
                            assert(old_entry.key@ == key0);
                            assert(crate::value::view_entries(ves@) =~= cur.update(
                                j as int,
                                (key0, crate::value::view_val(nv)),
                            ));
                            assert(crate::value::view_entries(ves@) =~= crate::value::table_upsert(
                                cur,
                                key0,
                                crate::value::view_val(nv),
                            ));
                        }
                    },
                    None => {
                        ves.push(MapEntry { key: es[i].key.clone(), value: nv });
                        proof {
                            assert(crate::value::view_entries(ves@) =~= crate::value::table_upsert(
                                cur,
                                key0,
                                crate::value::view_val(nv),
                            ));
                        }
                    },
                }
            },
            Err(e) => {
                return (ves, Err(e));
            },
        }
        i += 1;
    }
    (ves, Ok(()))
}

/// Inserts the elements of a list source into the set, skipping those
/// already present.
#[verifier::loop_isolation(false)]
pub(crate) fn set_append(xs: Vec<Scalar>, k: crate::schema::ScalarKind, es: &Vec<Source>) -> (res: (
    Vec<Scalar>,
    Result<(), MergeError>,
))
    requires
        crate::value::elems_distinct(crate::value::view_scalars(xs@)),
        crate::value::all_scalars_wf(crate::value::view_scalars(xs@), k),
    ensures
        ({
            let m = set_append_from(crate::value::view_scalars(xs@), k, crate::source::view_srcs(es@), 0);
            &&& (m is Ok ==> res.1 is Ok && crate::value::view_scalars(res.0@) == m->Ok_0)
            &&& (m is Err ==> res.1 is Err && res.1->Err_0 == m->Err_0)
            &&& crate::value::elems_distinct(crate::value::view_scalars(res.0@))
            &&& crate::value::all_scalars_wf(crate::value::view_scalars(res.0@), k)
        }),
{
    broadcast use {crate::value::lemma_view_scalars, crate::source::lemma_view_srcs,
        crate::value::lemma_view_scalars_push};

    let ghost srcs = crate::source::view_srcs(es@);
    let ghost xs0 = crate::value::view_scalars(xs@);
    let mut xs = xs;
    let mut i: usize = 0;
    while i < es.len()
        invariant
            0 <= i <= es@.len(),
            set_append_from(xs0, k, srcs, 0) == set_append_from(
                crate::value::view_scalars(xs@),
                k,
                srcs,
                i as int,
            ),
            crate::value::elems_distinct(crate::value::view_scalars(xs@)),
            crate::value::all_scalars_wf(crate::value::view_scalars(xs@), k),
        decreases es@.len() - i,
    {
        match crate::replace::decode_scalar(k, &es[i]) {
            Ok(x) => {
                let ghost cur = crate::value::view_scalars(xs@);
                let ghost xv = crate::value::view_scalar(x);
                proof {
                    crate::value::lemma_set_find_from(cur, xv, 0);
                }
                match crate::value::find_scalar(&xs, &x) {
                    Some(_) => {},
                    None => {
                        xs.push(x);
                    },
                }
            },
            Err(e) => {
                return (xs, Err(e));
            },
        }
        i += 1;
    }
    (xs, Ok(()))
}

} // verus!
