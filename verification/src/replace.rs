//! The `Replace` resolver: discard the current value entirely and decode a
//! brand-new value of the same type from the source.

use vstd::prelude::*;

use crate::MergeError;
use crate::UnitStructVisitor;
use crate::schema::{
    Field, FieldV, ScalarKind, Slot, Ty, TyV, field_find_from, fields_tys, slots_tys,
    view_fields, view_slots, view_ty, lemma_view_fields, lemma_view_slots,
};
use crate::source::{
    Source, SourceEntry, SourceV, lemma_view_src_entries, lemma_view_srcs, view_src,
    view_src_entries, view_srcs,
};
use crate::value::{
    MapEntry, Scalar, ScalarV, Value, ValueV, lemma_view_entries, lemma_view_scalars,
    lemma_view_vals, scalar_eq, scalar_wf, set_find_from, table_find_from, table_upsert,
    value_wf, view_entries, view_scalar, view_scalars, view_val, view_vals, str_eq,
};

verus! {

/// What decoding one scalar token as the given kind yields.
pub open spec fn decode_scalar_spec(k: ScalarKind, s: SourceV) -> Result<ScalarV, MergeError> {
    match (k, s) {
        (ScalarKind::Int, SourceV::Int(i)) => Ok(ScalarV::Int(i)),
        (ScalarKind::Bool, SourceV::Bool(b)) => Ok(ScalarV::Bool(b)),
        (ScalarKind::Text, SourceV::Text(t)) => Ok(ScalarV::Text(t)),
        _ => Err(MergeError::MalformedToken),
    }
}

/// What decoding a fresh value of type `t` from source `s` yields.
pub open spec fn decode_spec(t: TyV, s: SourceV) -> Result<ValueV, MergeError>
    decreases s, 0int, 0int,
{
    match t {
        TyV::Int => match s {
            SourceV::Int(i) => Ok(ValueV::Int(i)),
            _ => Err(MergeError::MalformedToken),
        },
        TyV::Bool => match s {
            SourceV::Bool(b) => Ok(ValueV::Bool(b)),
            _ => Err(MergeError::MalformedToken),
        },
        TyV::Text => match s {
            SourceV::Text(cs) => Ok(ValueV::Text(cs)),
            _ => Err(MergeError::MalformedToken),
        },
        TyV::Optional(t1) => match s {
            SourceV::Absent => Ok(ValueV::OptNone),
            SourceV::Present(b) => match decode_spec(*t1, *b) {
                Ok(v) => Ok(ValueV::OptSome(Box::new(v))),
                Err(e) => Err(e),
            },
            _ => Err(MergeError::MalformedToken),
        },
        TyV::Sequence(t1) => match s {
            SourceV::List(es) => match decode_list_from(Seq::<ValueV>::empty(), *t1, es, 0) {
                Ok(vs) => Ok(ValueV::List(vs)),
                Err(e) => Err(e),
            },
            _ => Err(MergeError::MalformedToken),
        },
        TyV::Table(t1) => match s {
            SourceV::Table(es) => match decode_table_from(
                Seq::<(Seq<char>, ValueV)>::empty(),
                *t1,
                es,
                0,
            ) {
                Ok(ves) => Ok(ValueV::Table(ves)),
                Err(e) => Err(e),
            },
            _ => Err(MergeError::MalformedToken),
        },
        TyV::SetOf(k) => match s {
            SourceV::List(es) => match decode_set_from(Seq::<ScalarV>::empty(), k, es, 0) {
                Ok(xs) => Ok(ValueV::SetOf(xs)),
                Err(e) => Err(e),
            },
            _ => Err(MergeError::MalformedToken),
        },
        TyV::Record(fs) => match s {
            SourceV::Table(es) => match decode_named_from(
                Seq::new(fs.len(), |i: int| Option::<ValueV>::None),
                fs,
                es,
                0,
            ) {
                Ok(acc) => if all_filled(acc) {
                    Ok(ValueV::Record(unwrap_slots(acc)))
                } else {
                    Err(MergeError::MalformedToken)
                },
                Err(e) => Err(e),
            },
            SourceV::List(es) => if es.len() == fs.len() {
                match decode_tys_from(Seq::<ValueV>::empty(), fields_tys(fs), es, 0) {
                    Ok(vs) => Ok(ValueV::Record(vs)),
                    Err(e) => Err(e),
                }
            } else {
                Err(MergeError::ArityMismatch)
            },
            _ => Err(MergeError::MalformedToken),
        },
        TyV::Tuple(ss) => match s {
            SourceV::List(es) => if es.len() == ss.len() {
                match decode_tys_from(Seq::<ValueV>::empty(), slots_tys(ss), es, 0) {
                    Ok(vs) => Ok(ValueV::Record(vs)),
                    Err(e) => Err(e),
                }
            } else {
                Err(MergeError::ArityMismatch)
            },
            _ => Err(MergeError::MalformedToken),
        },
        TyV::Unit => match s {
            SourceV::Unit => Ok(ValueV::Unit),
            _ => Err(MergeError::MalformedToken),
        },
    }
}

/// Decoding the elements of `es` from position `i` on, appended to `acc`.
pub open spec fn decode_list_from(
    acc: Seq<ValueV>,
    t: TyV,
    es: Seq<SourceV>,
    i: int,
) -> Result<Seq<ValueV>, MergeError>
    decreases es, 0int, es.len() - i,
{
    if i < 0 || i >= es.len() {
        Ok(acc)
    } else {
        match decode_spec(t, es[i]) {
            Ok(v) => decode_list_from(acc.push(v), t, es, i + 1),
            Err(e) => Err(e),
        }
    }
}

/// Decoding the entries of `es` from position `i` on, upserted into `acc`:
/// a repeated key overwrites the entry it first produced.
pub open spec fn decode_table_from(
    acc: Seq<(Seq<char>, ValueV)>,
    t: TyV,
    es: Seq<(Seq<char>, SourceV)>,
    i: int,
) -> Result<Seq<(Seq<char>, ValueV)>, MergeError>
    decreases es, 0int, es.len() - i,
{
    if i < 0 || i >= es.len() {
        Ok(acc)
    } else {
        match decode_spec(t, es[i].1) {
            Ok(v) => decode_table_from(table_upsert(acc, es[i].0, v), t, es, i + 1),
            Err(e) => Err(e),
        }
    }
}

/// Decoding the elements of `es` from position `i` on, inserted into the set
/// `acc` unless already present.
pub open spec fn decode_set_from(
    acc: Seq<ScalarV>,
    k: ScalarKind,
    es: Seq<SourceV>,
    i: int,
) -> Result<Seq<ScalarV>, MergeError>
    decreases es.len() - i,
{
    if i < 0 || i >= es.len() {
        Ok(acc)
    } else {
        match decode_scalar_spec(k, es[i]) {
            Ok(x) => decode_set_from(
                if set_find_from(acc, x, 0) >= 0 {
                    acc
                } else {
                    acc.push(x)
                },
                k,
                es,
                i + 1,
            ),
            Err(e) => Err(e),
        }
    }
}

/// Decoding one value per type from position `i` on, appended to `acc`.
pub open spec fn decode_tys_from(
    acc: Seq<ValueV>,
    tys: Seq<TyV>,
    es: Seq<SourceV>,
    i: int,
) -> Result<Seq<ValueV>, MergeError>
    decreases es, 0int, es.len() - i,
{
    if i < 0 || i >= es.len() {
        Ok(acc)
    } else {
        match decode_spec(tys[i], es[i]) {
            Ok(v) => decode_tys_from(acc.push(v), tys, es, i + 1),
            Err(e) => Err(e),
        }
    }
}

/// Filling named record slots from the entries of `es` from position `i` on.
/// An identifier outside the schema aborts; a repeated identifier refills
/// its slot.
pub open spec fn decode_named_from(
    acc: Seq<Option<ValueV>>,
    fs: Seq<FieldV>,
    es: Seq<(Seq<char>, SourceV)>,
    i: int,
) -> Result<Seq<Option<ValueV>>, MergeError>
    decreases es, 0int, es.len() - i,
{
    if i < 0 || i >= es.len() {
        Ok(acc)
    } else {
        let j = field_find_from(fs, es[i].0, 0);
        if j < 0 {
            Err(MergeError::UnknownField)
        } else {
            match decode_spec(fs[j].ty, es[i].1) {
                Ok(v) => decode_named_from(acc.update(j, Some(v)), fs, es, i + 1),
                Err(e) => Err(e),
            }
        }
    }
}

/// Mathematical model of partially filled record slots.
pub open spec fn view_opts(s: Seq<Option<Value>>) -> Seq<Option<ValueV>>
    decreases s,
{
    if s.len() == 0 {
        Seq::empty()
    } else {
        seq![
            match s[0] {
                Some(v) => Some(view_val(v)),
                None => None,
            },
        ] + view_opts(s.drop_first())
    }
}

pub broadcast proof fn lemma_view_opts(s: Seq<Option<Value>>)
    ensures
        (#[trigger] view_opts(s)).len() == s.len(),
        forall|i: int|
            0 <= i < s.len() ==> view_opts(s)[i] == (match s[i] {
                Some(v) => Some(view_val(v)),
                None => None,
            }),
    decreases s,
{
    if s.len() > 0 {
        lemma_view_opts(s.drop_first());
    }
}

pub broadcast proof fn lemma_view_opts_push(s: Seq<Option<Value>>, x: Option<Value>)
    ensures
        #[trigger] view_opts(s.push(x)) == view_opts(s).push(
            match x {
                Some(v) => Some(view_val(v)),
                None => None,
            },
        ),
{
    broadcast use lemma_view_opts;

    assert(view_opts(s.push(x)) =~= view_opts(s).push(
        match x {
            Some(v) => Some(view_val(v)),
            None => None,
        },
    ));
}

pub broadcast proof fn lemma_view_opts_update(s: Seq<Option<Value>>, i: int, x: Option<Value>)
    requires
        0 <= i < s.len(),
    ensures
        #[trigger] view_opts(s.update(i, x)) == view_opts(s).update(
            i,
            match x {
                Some(v) => Some(view_val(v)),
                None => None,
            },
        ),
{
    broadcast use lemma_view_opts;

    assert(view_opts(s.update(i, x)) =~= view_opts(s).update(
        i,
        match x {
            Some(v) => Some(view_val(v)),
            None => None,
        },
    ));
}

/// Whether every record slot received a value.
pub open spec fn all_filled(acc: Seq<Option<ValueV>>) -> bool {
    forall|i: int| 0 <= i < acc.len() ==> (#[trigger] acc[i]) is Some
}

/// The values of fully filled record slots, in order.
pub open spec fn unwrap_slots(acc: Seq<Option<ValueV>>) -> Seq<ValueV> {
    Seq::new(acc.len(), |i: int| acc[i]->0)
}

} // verus!

verus! {

/// Agreement between an executable decode result and the model's.
pub open spec fn decode_agrees(r: Result<Value, MergeError>, d: Result<ValueV, MergeError>, t: TyV) -> bool {
    &&& (d is Ok <==> r is Ok)
    &&& (r is Ok ==> view_val(r->Ok_0) == d->Ok_0 && value_wf(view_val(r->Ok_0), t))
    &&& (r is Err ==> r->Err_0 == d->Err_0)
}

/// The `Replace` policy resolver: substitute a freshly decoded value.
pub struct Replace;

impl Replace {
    /// Discards the current value entirely and decodes a brand-new value of
    /// the same type from the source.  Any subtree previously present is lost.
    pub fn apply(slot: &mut Value, ty: &Ty, src: &Source) -> (r: Result<(), MergeError>)
        ensures
            ({
                let d = decode_spec(view_ty(*ty), view_src(*src));
                &&& (d is Ok <==> r is Ok)
                &&& (r is Ok ==> view_val(*final(slot)) == d->Ok_0 && value_wf(
                    view_val(*final(slot)),
                    view_ty(*ty),
                ))
                &&& (r is Err ==> r->Err_0 == d->Err_0 && *final(slot) == *old(slot))
            }),
    {
        match decode(ty, src) {
            Ok(v) => {
                *slot = v;
                Ok(())
            },
            Err(e) => Err(e),
        }
    }
}

/// Decodes one scalar token as the given kind.
pub fn decode_scalar(k: ScalarKind, src: &Source) -> (r: Result<Scalar, MergeError>)
    ensures
        ({
            let d = decode_scalar_spec(k, view_src(*src));
            &&& (d is Ok <==> r is Ok)
            &&& (r is Ok ==> view_scalar(r->Ok_0) == d->Ok_0 && scalar_wf(view_scalar(r->Ok_0), k))
            &&& (r is Err ==> r->Err_0 == d->Err_0)
        }),
{
    match (k, src) {
        (ScalarKind::Int, Source::Int(i)) => Ok(Scalar::Int(*i)),
        (ScalarKind::Bool, Source::Bool(b)) => Ok(Scalar::Bool(*b)),
        (ScalarKind::Text, Source::Text(t)) => Ok(Scalar::Text(t.clone())),
        _ => Err(MergeError::MalformedToken),
    }
}

/// Decodes a fresh value of type `ty` from the source.
pub fn decode(ty: &Ty, src: &Source) -> (r: Result<Value, MergeError>)
    ensures
        decode_agrees(r, decode_spec(view_ty(*ty), view_src(*src)), view_ty(*ty)),
    decreases *src, 0int, 0int,
{
    broadcast use {lemma_view_srcs, lemma_view_src_entries, lemma_view_vals, lemma_view_fields,
        lemma_view_slots};

    match (ty, src) {
        (Ty::Int, Source::Int(i)) => Ok(Value::Int(*i)),
        (Ty::Bool, Source::Bool(b)) => Ok(Value::Bool(*b)),
        (Ty::Text, Source::Text(t)) => Ok(Value::Text(t.clone())),
        (Ty::Optional(_), Source::Absent) => Ok(Value::OptNone),
        (Ty::Optional(t1), Source::Present(b)) => match decode(t1, b) {
            Ok(v) => Ok(Value::OptSome(Box::new(v))),
            Err(e) => Err(e),
        },
        (Ty::Sequence(t1), Source::List(es)) => match decode_list(t1, es) {
            Ok(vs) => Ok(Value::List(vs)),
            Err(e) => Err(e),
        },
        (Ty::Table(t1), Source::Table(es)) => match decode_table(t1, es) {
            Ok(ves) => Ok(Value::Table(ves)),
            Err(e) => Err(e),
        },
        (Ty::SetOf(k), Source::List(es)) => match decode_set(*k, es) {
            Ok(xs) => Ok(Value::SetOf(xs)),
            Err(e) => Err(e),
        },
        (Ty::Record(fs), Source::Table(es)) => match decode_named(fs, es) {
            Ok(vs) => Ok(Value::Record(vs)),
            Err(e) => Err(e),
        },
        (Ty::Record(fs), Source::List(es)) => {
            if es.len() != fs.len() {
                proof {
                    assert(view_srcs(es@).len() != view_fields(fs@).len());
                }
                return Err(MergeError::ArityMismatch);
            }
            match decode_pos_fields(fs, es) {
                Ok(vs) => Ok(Value::Record(vs)),
                Err(e) => Err(e),
            }
        },
        (Ty::Tuple(ss), Source::List(es)) => {
            if es.len() != ss.len() {
                proof {
                    assert(view_srcs(es@).len() != view_slots(ss@).len());
                }
                return Err(MergeError::ArityMismatch);
            }
            match decode_pos_slots(ss, es) {
                Ok(vs) => Ok(Value::Record(vs)),
                Err(e) => Err(e),
            }
        },
        (Ty::Unit, _) => match UnitStructVisitor::visit_unit(src) {
            Ok(()) => Ok(Value::Unit),
            Err(e) => Err(e),
        },
        _ => Err(MergeError::MalformedToken),
    }
}

/// Decodes every element of a list source as the element type.
#[verifier::loop_isolation(false)]
fn decode_list(t: &Ty, es: &Vec<Source>) -> (r: Result<Vec<Value>, MergeError>)
    ensures
        ({
            let d = decode_list_from(Seq::<ValueV>::empty(), view_ty(*t), view_srcs(es@), 0);
            &&& (d is Ok <==> r is Ok)
            &&& (r is Ok ==> view_vals(r->Ok_0@) == d->Ok_0 && crate::value::values_wf(
                view_vals(r->Ok_0@),
                view_ty(*t),
            ))
            &&& (r is Err ==> r->Err_0 == d->Err_0)
        }),
    decreases es@, 0int, 0int,
{
    broadcast use {lemma_view_srcs, lemma_view_vals, crate::value::lemma_view_vals_push,
        crate::value::lemma_values_wf};

    let ghost srcs = view_srcs(es@);
    let ghost tv = view_ty(*t);
    let mut acc: Vec<Value> = Vec::new();
    let mut i: usize = 0;
    proof {
        assert(view_vals(acc@) =~= Seq::<ValueV>::empty());
    }
    while i < es.len()
        invariant
            0 <= i <= es@.len(),
            acc@.len() == i,
            decode_list_from(Seq::<ValueV>::empty(), tv, srcs, 0) == decode_list_from(
                view_vals(acc@),
                tv,
                srcs,
                i as int,
            ),
            forall|j: int| 0 <= j < i ==> value_wf(#[trigger] view_vals(acc@)[j], tv),
        decreases es@.len() - i,
    {
        match decode(t, &es[i]) {
            Ok(v) => {
                acc.push(v);
            },
            Err(e) => {
                return Err(e);
            },
        }
        i += 1;
    }
    Ok(acc)
}

/// Decodes every entry of a table source, later keys overwriting earlier ones.
#[verifier::loop_isolation(false)]
fn decode_table(t: &Ty, es: &Vec<SourceEntry>) -> (r: Result<Vec<MapEntry>, MergeError>)
    ensures
        ({
            let d = decode_table_from(
                Seq::<(Seq<char>, ValueV)>::empty(),
                view_ty(*t),
                view_src_entries(es@),
                0,
            );
            &&& (d is Ok <==> r is Ok)
            &&& (r is Ok ==> view_entries(r->Ok_0@) == d->Ok_0 && crate::value::keys_distinct(
                view_entries(r->Ok_0@),
            ) && crate::value::entries_wf(view_entries(r->Ok_0@), view_ty(*t)))
            &&& (r is Err ==> r->Err_0 == d->Err_0)
        }),
    decreases es@, 0int, 0int,
{
    broadcast use {lemma_view_src_entries, lemma_view_entries,
        crate::value::lemma_view_entries_push, crate::value::lemma_view_entries_update,
        crate::value::lemma_entries_wf, crate::value::lemma_remove_insert};

    let ghost srcs = view_src_entries(es@);
    let ghost tv = view_ty(*t);
    let mut acc: Vec<MapEntry> = Vec::new();
    let mut i: usize = 0;
    proof {
        assert(view_entries(acc@) =~= Seq::<(Seq<char>, ValueV)>::empty());
    }
    while i < es.len()
        invariant
            0 <= i <= es@.len(),
            decode_table_from(Seq::<(Seq<char>, ValueV)>::empty(), tv, srcs, 0)
                == decode_table_from(view_entries(acc@), tv, srcs, i as int),
            crate::value::keys_distinct(view_entries(acc@)),
            forall|j: int|
                0 <= j < acc@.len() ==> value_wf((#[trigger] view_entries(acc@)[j]).1, tv),
        decreases es@.len() - i,
    {
        match decode(&t, &es[i].value) {
            Ok(v) => {
                let ghost acc0 = view_entries(acc@);
                let ghost key0 = es@[i as int].key@;
                proof {
                    crate::value::lemma_table_upsert(acc0, key0, view_val(v));
                }
                match crate::value::find_entry(&acc, &es[i].key) {
                    Some(j) => {
                        let _ = acc.remove(j);
                        acc.insert(j, MapEntry { key: es[i].key.clone(), value: v });
                    },
                    None => {
                        acc.push(MapEntry { key: es[i].key.clone(), value: v });
                    },
                }
            },
            Err(e) => {
                return Err(e);
            },
        }
        i += 1;
    }
    Ok(acc)
}

/// Decodes every element of a list source as a set element, skipping
/// duplicates.
#[verifier::loop_isolation(false)]
fn decode_set(k: ScalarKind, es: &Vec<Source>) -> (r: Result<Vec<Scalar>, MergeError>)
    ensures
        ({
            let d = decode_set_from(Seq::<ScalarV>::empty(), k, view_srcs(es@), 0);
            &&& (d is Ok <==> r is Ok)
            &&& (r is Ok ==> view_scalars(r->Ok_0@) == d->Ok_0 && crate::value::elems_distinct(
                view_scalars(r->Ok_0@),
            ) && crate::value::all_scalars_wf(view_scalars(r->Ok_0@), k))
            &&& (r is Err ==> r->Err_0 == d->Err_0)
        }),
{
    broadcast use {lemma_view_srcs, lemma_view_scalars, crate::value::lemma_view_scalars_push};

    let ghost srcs = view_srcs(es@);
    let mut acc: Vec<Scalar> = Vec::new();
    let mut i: usize = 0;
    proof {
        assert(view_scalars(acc@) =~= Seq::<ScalarV>::empty());
    }
    while i < es.len()
        invariant
            0 <= i <= es@.len(),
            decode_set_from(Seq::<ScalarV>::empty(), k, srcs, 0) == decode_set_from(
                view_scalars(acc@),
                k,
                srcs,
                i as int,
            ),
            crate::value::elems_distinct(view_scalars(acc@)),
            crate::value::all_scalars_wf(view_scalars(acc@), k),
        decreases es@.len() - i,
    {
        match decode_scalar(k, &es[i]) {
            Ok(x) => {
                let ghost acc0 = view_scalars(acc@);
                let ghost xv = view_scalar(x);
                proof {
                    crate::value::lemma_set_find_from(acc0, xv, 0);
                }
                match crate::value::find_scalar(&acc, &x) {
                    Some(_) => {},
                    None => {
                        acc.push(x);
                    },
                }
            },
            Err(e) => {
                return Err(e);
            },
        }
        i += 1;
    }
    Ok(acc)
}

/// Decodes one value per named field, in schema order.
#[verifier::loop_isolation(false)]
fn decode_pos_fields(fs: &Vec<Field>, es: &Vec<Source>) -> (r: Result<Vec<Value>, MergeError>)
    requires
        es@.len() == fs@.len(),
    ensures
        ({
            let d = decode_tys_from(
                Seq::<ValueV>::empty(),
                fields_tys(view_fields(fs@)),
                view_srcs(es@),
                0,
            );
            &&& (d is Ok <==> r is Ok)
            &&& (r is Ok ==> view_vals(r->Ok_0@) == d->Ok_0 && r->Ok_0@.len() == fs@.len()
                && crate::value::fields_vals_wf(view_vals(r->Ok_0@), view_fields(fs@)))
            &&& (r is Err ==> r->Err_0 == d->Err_0)
        }),
    decreases es@, 0int, 0int,
{
    broadcast use {lemma_view_srcs, lemma_view_vals, lemma_view_fields,
        crate::value::lemma_view_vals_push, crate::value::lemma_fields_vals_wf};

    let ghost srcs = view_srcs(es@);
    let ghost tys = fields_tys(view_fields(fs@));
    let mut acc: Vec<Value> = Vec::new();
    let mut i: usize = 0;
    proof {
        assert(view_vals(acc@) =~= Seq::<ValueV>::empty());
    }
    while i < es.len()
        invariant
            0 <= i <= es@.len(),
            acc@.len() == i,
            decode_tys_from(Seq::<ValueV>::empty(), tys, srcs, 0) == decode_tys_from(
                view_vals(acc@),
                tys,
                srcs,
                i as int,
            ),
            forall|j: int|
                0 <= j < i ==> value_wf(#[trigger] view_vals(acc@)[j], view_fields(fs@)[j].ty),
        decreases es@.len() - i,
    {
        match decode(&fs[i].ty, &es[i]) {
            Ok(v) => {
                acc.push(v);
            },
            Err(e) => {
                return Err(e);
            },
        }
        i += 1;
    }
    proof {
        crate::value::lemma_fields_vals_wf(view_vals(acc@), view_fields(fs@));
    }
    Ok(acc)
}

/// Decodes one value per tuple slot, in schema order.
#[verifier::loop_isolation(false)]
fn decode_pos_slots(ss: &Vec<Slot>, es: &Vec<Source>) -> (r: Result<Vec<Value>, MergeError>)
    requires
        es@.len() == ss@.len(),
    ensures
        ({
            let d = decode_tys_from(
                Seq::<ValueV>::empty(),
                slots_tys(view_slots(ss@)),
                view_srcs(es@),
                0,
            );
            &&& (d is Ok <==> r is Ok)
            &&& (r is Ok ==> view_vals(r->Ok_0@) == d->Ok_0 && r->Ok_0@.len() == ss@.len()
                && crate::value::slots_vals_wf(view_vals(r->Ok_0@), view_slots(ss@)))
            &&& (r is Err ==> r->Err_0 == d->Err_0)
        }),
    decreases es@, 0int, 0int,
{
    broadcast use {lemma_view_srcs, lemma_view_vals, lemma_view_slots,
        crate::value::lemma_view_vals_push, crate::value::lemma_slots_vals_wf};

    let ghost srcs = view_srcs(es@);
    let ghost tys = slots_tys(view_slots(ss@));
    let mut acc: Vec<Value> = Vec::new();
    let mut i: usize = 0;
    proof {
        assert(view_vals(acc@) =~= Seq::<ValueV>::empty());
    }
    while i < es.len()
        invariant
            0 <= i <= es@.len(),
            acc@.len() == i,
            decode_tys_from(Seq::<ValueV>::empty(), tys, srcs, 0) == decode_tys_from(
                view_vals(acc@),
                tys,
                srcs,
                i as int,
            ),
            forall|j: int|
                0 <= j < i ==> value_wf(#[trigger] view_vals(acc@)[j], view_slots(ss@)[j].ty),
        decreases es@.len() - i,
    {
        match decode(&ss[i].ty, &es[i]) {
            Ok(v) => {
                acc.push(v);
            },
            Err(e) => {
                return Err(e);
            },
        }
        i += 1;
    }
    proof {
        crate::value::lemma_slots_vals_wf(view_vals(acc@), view_slots(ss@));
    }
    Ok(acc)
}

/// Decodes a named record from table entries: every field must be covered.
#[verifier::loop_isolation(false)]
fn decode_named(fs: &Vec<Field>, es: &Vec<SourceEntry>) -> (r: Result<Vec<Value>, MergeError>)
    ensures
        ({
            let d0 = decode_named_from(
                Seq::new(view_fields(fs@).len(), |i: int| Option::<ValueV>::None),
                view_fields(fs@),
                view_src_entries(es@),
                0,
            );
            let d = match d0 {
                Ok(acc) => if all_filled(acc) {
                    Ok(ValueV::Record(unwrap_slots(acc)))
                } else {
                    Err(MergeError::MalformedToken)
                },
                Err(e) => Err(e),
            };
            &&& (d is Ok <==> r is Ok)
            &&& (r is Ok ==> ValueV::Record(view_vals(r->Ok_0@)) == d->Ok_0 && r->Ok_0@.len()
                == fs@.len() && crate::value::fields_vals_wf(view_vals(r->Ok_0@), view_fields(fs@)))
            &&& (r is Err ==> r->Err_0 == d->Err_0)
        }),
    decreases es@, 0int, 0int,
{
    broadcast use {lemma_view_src_entries, lemma_view_vals, lemma_view_fields, lemma_view_opts,
        lemma_view_opts_push, lemma_view_opts_update, crate::value::lemma_view_vals_push,
        crate::value::lemma_fields_vals_wf, crate::value::lemma_remove_insert};

    let ghost fsv = view_fields(fs@);
    let ghost srcs = view_src_entries(es@);
    let ghost init = Seq::new(fsv.len(), |i: int| Option::<ValueV>::None);
    let mut slots: Vec<Option<Value>> = Vec::new();
    while slots.len() < fs.len()
        invariant
            0 <= slots@.len() <= fs@.len(),
            forall|j: int| 0 <= j < slots@.len() ==> (#[trigger] slots@[j]) is None,
        decreases fs@.len() - slots@.len(),
    {
        slots.push(None);
    }
    proof {
        assert(view_opts(slots@) =~= init);
    }
    let mut i: usize = 0;
    while i < es.len()
        invariant
            0 <= i <= es@.len(),
            slots@.len() == fs@.len(),
            decode_named_from(init, fsv, srcs, 0) == decode_named_from(
                view_opts(slots@),
                fsv,
                srcs,
                i as int,
            ),
            forall|j: int|
                0 <= j < slots@.len() ==> ((#[trigger] view_opts(slots@)[j]) is Some ==> value_wf(
                    view_opts(slots@)[j]->0,
                    fsv[j].ty,
                )),
        decreases es@.len() - i,
    {
        match crate::schema::find_field(fs, &es[i].key) {
            Some(j) => {
                match decode(&fs[j].ty, &es[i].value) {
                    Ok(v) => {
                        let _ = slots.remove(j);
                        slots.insert(j, Some(v));
                    },
                    Err(e) => {
                        return Err(e);
                    },
                }
            },
            None => {
                return Err(MergeError::UnknownField);
            },
        }
        i += 1;
    }
    let ghost filled = view_opts(slots@);
    let mut out: Vec<Value> = Vec::new();
    let mut j: usize = 0;
    proof {
        assert(view_vals(out@) =~= Seq::<ValueV>::empty());
        assert(slots@.subrange(0, slots@.len() as int) =~= slots@);
    }
    while slots.len() > 0
        invariant
            slots@.len() + j == filled.len(),
            filled.len() == fs@.len(),
            0 <= j <= filled.len(),
            view_opts(slots@) =~= filled.subrange(j as int, filled.len() as int),
            out@.len() == j,
            forall|x: int| 0 <= x < j ==> (#[trigger] filled[x]) is Some,
            forall|x: int| 0 <= x < j ==> view_vals(out@)[x] == filled[x]->0,
            forall|x: int|
                0 <= x < filled.len() ==> ((#[trigger] filled[x]) is Some ==> value_wf(
                    filled[x]->0,
                    fsv[x].ty,
                )),
        decreases slots@.len(),
    {
        let ghost pre = slots@;
        match slots.remove(0) {
            Some(v) => {
                out.push(v);
                proof {
                    assert(view_opts(pre)[0] == filled[j as int]);
                    assert(slots@ =~= pre.subrange(1, pre.len() as int));
                    assert forall|x: int| 0 <= x < slots@.len() implies view_opts(slots@)[x]
                        == filled[j as int + 1 + x] by {
                        assert(slots@[x] == pre[x + 1]);
                        assert(view_opts(pre)[x + 1] == filled.subrange(
                            j as int,
                            filled.len() as int,
                        )[x + 1]);
                    }
                    assert(view_opts(slots@) =~= filled.subrange(j as int + 1, filled.len() as int));
                }
            },
            None => {
                proof {
                    assert(view_opts(pre)[0] == filled[j as int]);
                    assert(!all_filled(filled));
                }
                return Err(MergeError::MalformedToken);
            },
        }
        j += 1;
    }
    proof {
        assert(all_filled(filled));
        assert(view_vals(out@) =~= unwrap_slots(filled));
        crate::value::lemma_fields_vals_wf(view_vals(out@), fsv);
    }
    Ok(out)
}

} // verus!
