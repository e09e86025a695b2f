//! The configuration value tree: the single live value a caller owns, mutated
//! in place by every merged layer.

use vstd::prelude::*;

use crate::schema::{ScalarKind, Ty, TyV, view_fields, view_slots, view_ty};
use crate::schema::{FieldV, SlotV, lemma_view_fields, lemma_view_slots};

verus! {

/// A scalar: the shapes a set element may take.
#[derive(Debug, PartialEq, Eq)]
pub enum Scalar {
    Int(i64),
    Bool(bool),
    Text(String),
}

/// One key/value entry of an associative table.
#[derive(Debug, PartialEq, Eq)]
pub struct MapEntry {
    pub key: String,
    pub value: Value,
}

/// A configuration value.  Its shape is described by a [`Ty`] descriptor;
/// see [`value_wf`] for the agreement between the two.
#[derive(Debug, PartialEq, Eq)]
pub enum Value {
    Int(i64),
    Bool(bool),
    Text(String),
    OptNone,
    OptSome(Box<Value>),
    List(Vec<Value>),
    Table(Vec<MapEntry>),
    SetOf(Vec<Scalar>),
    Record(Vec<Value>),
    Unit,
}

/// Mathematical model of a scalar.
pub enum ScalarV {
    Int(int),
    Bool(bool),
    Text(Seq<char>),
}

/// Mathematical model of a configuration value.  Table entries are ordered
/// key/value pairs with distinct keys.
pub enum ValueV {
    Int(int),
    Bool(bool),
    Text(Seq<char>),
    OptNone,
    OptSome(Box<ValueV>),
    List(Seq<ValueV>),
    Table(Seq<(Seq<char>, ValueV)>),
    SetOf(Seq<ScalarV>),
    Record(Seq<ValueV>),
    Unit,
}

pub open spec fn view_scalar(s: Scalar) -> ScalarV {
    match s {
        Scalar::Int(i) => ScalarV::Int(i as int),
        Scalar::Bool(b) => ScalarV::Bool(b),
        Scalar::Text(t) => ScalarV::Text(t@),
    }
}

pub open spec fn view_val(v: Value) -> ValueV
    decreases v,
{
    match v {
        Value::Int(i) => ValueV::Int(i as int),
        Value::Bool(b) => ValueV::Bool(b),
        Value::Text(t) => ValueV::Text(t@),
        Value::OptNone => ValueV::OptNone,
        Value::OptSome(b) => ValueV::OptSome(Box::new(view_val(*b))),
        Value::List(es) => ValueV::List(view_vals(es@)),
        Value::Table(es) => ValueV::Table(view_entries(es@)),
        Value::SetOf(xs) => ValueV::SetOf(view_scalars(xs@)),
        Value::Record(vs) => ValueV::Record(view_vals(vs@)),
        Value::Unit => ValueV::Unit,
    }
}

pub open spec fn view_vals(s: Seq<Value>) -> Seq<ValueV>
    decreases s,
{
    if s.len() == 0 {
        Seq::empty()
    } else {
        seq![view_val(s[0])] + view_vals(s.drop_first())
    }
}

pub open spec fn view_entries(s: Seq<MapEntry>) -> Seq<(Seq<char>, ValueV)>
    decreases s,
{
    if s.len() == 0 {
        Seq::empty()
    } else {
        seq![(s[0].key@, view_val(s[0].value))] + view_entries(s.drop_first())
    }
}

pub open spec fn view_scalars(s: Seq<Scalar>) -> Seq<ScalarV>
    decreases s,
{
    if s.len() == 0 {
        Seq::empty()
    } else {
        seq![view_scalar(s[0])] + view_scalars(s.drop_first())
    }
}

pub broadcast proof fn lemma_view_vals(s: Seq<Value>)
    ensures
        (#[trigger] view_vals(s)).len() == s.len(),
        forall|i: int| 0 <= i < s.len() ==> view_vals(s)[i] == view_val(s[i]),
    decreases s,
{
    if s.len() > 0 {
        lemma_view_vals(s.drop_first());
    }
}

pub broadcast proof fn lemma_view_entries(s: Seq<MapEntry>)
    ensures
        (#[trigger] view_entries(s)).len() == s.len(),
        forall|i: int|
            0 <= i < s.len() ==> view_entries(s)[i] == (s[i].key@, view_val(s[i].value)),
    decreases s,
{
    if s.len() > 0 {
        lemma_view_entries(s.drop_first());
    }
}

pub broadcast proof fn lemma_view_scalars(s: Seq<Scalar>)
    ensures
        (#[trigger] view_scalars(s)).len() == s.len(),
        forall|i: int| 0 <= i < s.len() ==> view_scalars(s)[i] == view_scalar(s[i]),
    decreases s,
{
    if s.len() > 0 {
        lemma_view_scalars(s.drop_first());
    }
}

/// Whether a scalar has the given kind.
pub open spec fn scalar_wf(x: ScalarV, k: ScalarKind) -> bool {
    match x {
        ScalarV::Int(_) => k == ScalarKind::Int,
        ScalarV::Bool(_) => k == ScalarKind::Bool,
        ScalarV::Text(_) => k == ScalarKind::Text,
    }
}

/// First index in `es` at or after `i` whose key is `k`, or -1.
pub open spec fn table_find_from(es: Seq<(Seq<char>, ValueV)>, k: Seq<char>, i: int) -> int
    decreases es.len() - i,
{
    if i < 0 || i >= es.len() {
        -1
    } else if es[i].0 == k {
        i
    } else {
        table_find_from(es, k, i + 1)
    }
}

/// Whether some entry of `es` has key `k`.
pub open spec fn table_contains(es: Seq<(Seq<char>, ValueV)>, k: Seq<char>) -> bool {
    exists|i: int| 0 <= i < es.len() && (#[trigger] es[i].0) == k
}

/// The value the table associates with `k` (the first entry, if keys repeat).
pub open spec fn table_lookup(es: Seq<(Seq<char>, ValueV)>, k: Seq<char>) -> ValueV {
    es[table_find_from(es, k, 0)].1
}

/// Replace the value stored under `k`, or add a final entry for it.
pub open spec fn table_upsert(
    es: Seq<(Seq<char>, ValueV)>,
    k: Seq<char>,
    v: ValueV,
) -> Seq<(Seq<char>, ValueV)> {
    let j = table_find_from(es, k, 0);
    if j < 0 {
        es.push((k, v))
    } else {
        es.update(j, (k, v))
    }
}

/// First index in `xs` at or after `i` holding scalar `x`, or -1.
pub open spec fn set_find_from(xs: Seq<ScalarV>, x: ScalarV, i: int) -> int
    decreases xs.len() - i,
{
    if i < 0 || i >= xs.len() {
        -1
    } else if xs[i] == x {
        i
    } else {
        set_find_from(xs, x, i + 1)
    }
}

/// Distinct table keys: no key appears twice.
pub open spec fn keys_distinct(es: Seq<(Seq<char>, ValueV)>) -> bool {
    forall|a: int, b: int|
        0 <= a < b < es.len() ==> (#[trigger] es[a].0) != (#[trigger] es[b].0)
}

/// Distinct set elements: no scalar appears twice.
pub open spec fn elems_distinct(xs: Seq<ScalarV>) -> bool {
    forall|a: int, b: int| 0 <= a < b < xs.len() ==> (#[trigger] xs[a]) != (#[trigger] xs[b])
}

/// Every set element has the kind the set was declared with.
pub open spec fn all_scalars_wf(xs: Seq<ScalarV>, k: ScalarKind) -> bool {
    forall|i: int| 0 <= i < xs.len() ==> scalar_wf(#[trigger] xs[i], k)
}

/// Agreement between a value and its type descriptor: matching shapes,
/// distinct table keys, distinct set elements of the right kind, and one
/// field value per schema field.
pub open spec fn value_wf(v: ValueV, t: TyV) -> bool
    decreases v, 1int,
{
    match t {
        TyV::Int => v is Int,
        TyV::Bool => v is Bool,
        TyV::Text => v is Text,
        TyV::Optional(t1) => match v {
            ValueV::OptNone => true,
            ValueV::OptSome(b) => value_wf(*b, *t1),
            _ => false,
        },
        TyV::Sequence(t1) => match v {
            ValueV::List(es) => values_wf(es, *t1),
            _ => false,
        },
        TyV::Table(t1) => match v {
            ValueV::Table(es) => keys_distinct(es) && entries_wf(es, *t1),
            _ => false,
        },
        TyV::SetOf(k) => match v {
            ValueV::SetOf(xs) => elems_distinct(xs) && all_scalars_wf(xs, k),
            _ => false,
        },
        TyV::Record(fs) => match v {
            ValueV::Record(vs) => vs.len() == fs.len() && fields_vals_wf(vs, fs),
            _ => false,
        },
        TyV::Tuple(ss) => match v {
            ValueV::Record(vs) => vs.len() == ss.len() && slots_vals_wf(vs, ss),
            _ => false,
        },
        TyV::Unit => v is Unit,
    }
}

/// Every sequence element agrees with the element type.
pub open spec fn values_wf(es: Seq<ValueV>, t: TyV) -> bool
    decreases es, 0int,
{
    es.len() == 0 || (value_wf(es[0], t) && values_wf(es.drop_first(), t))
}

/// Every table value agrees with the value type.
pub open spec fn entries_wf(es: Seq<(Seq<char>, ValueV)>, t: TyV) -> bool
    decreases es, 0int,
{
    es.len() == 0 || (value_wf(es[0].1, t) && entries_wf(es.drop_first(), t))
}

/// Every record field value agrees with its field's type.
pub open spec fn fields_vals_wf(vs: Seq<ValueV>, fs: Seq<FieldV>) -> bool
    decreases vs, 0int,
{
    vs.len() == 0 || (value_wf(vs[0], fs[0].ty) && fields_vals_wf(vs.drop_first(), fs.drop_first()))
}

/// Every tuple field value agrees with its slot's type.
pub open spec fn slots_vals_wf(vs: Seq<ValueV>, ss: Seq<SlotV>) -> bool
    decreases vs, 0int,
{
    vs.len() == 0 || (value_wf(vs[0], ss[0].ty) && slots_vals_wf(vs.drop_first(), ss.drop_first()))
}

pub broadcast proof fn lemma_values_wf(es: Seq<ValueV>, t: TyV)
    ensures
        #[trigger] values_wf(es, t) <==> (forall|i: int|
            0 <= i < es.len() ==> value_wf(#[trigger] es[i], t)),
    decreases es,
{
    if es.len() > 0 {
        lemma_values_wf(es.drop_first(), t);
        if value_wf(es[0], t) && values_wf(es.drop_first(), t) {
            assert forall|i: int| 0 <= i < es.len() implies value_wf(#[trigger] es[i], t) by {
                if i > 0 {
                    assert(es.drop_first()[i - 1] == es[i]);
                }
            }
        }
        if forall|i: int| 0 <= i < es.len() ==> value_wf(#[trigger] es[i], t) {
            assert forall|i: int| 0 <= i < es.drop_first().len() implies value_wf(
                #[trigger] es.drop_first()[i],
                t,
            ) by {
                assert(es.drop_first()[i] == es[i + 1]);
            }
        }
    }
}

pub broadcast proof fn lemma_entries_wf(es: Seq<(Seq<char>, ValueV)>, t: TyV)
    ensures
        #[trigger] entries_wf(es, t) <==> (forall|i: int|
            0 <= i < es.len() ==> value_wf((#[trigger] es[i]).1, t)),
    decreases es,
{
    if es.len() > 0 {
        lemma_entries_wf(es.drop_first(), t);
        if value_wf(es[0].1, t) && entries_wf(es.drop_first(), t) {
            assert forall|i: int| 0 <= i < es.len() implies value_wf((#[trigger] es[i]).1, t) by {
                if i > 0 {
                    assert(es.drop_first()[i - 1] == es[i]);
                }
            }
        }
        if forall|i: int| 0 <= i < es.len() ==> value_wf((#[trigger] es[i]).1, t) {
            assert forall|i: int| 0 <= i < es.drop_first().len() implies value_wf(
                (#[trigger] es.drop_first()[i]).1,
                t,
            ) by {
                assert(es.drop_first()[i] == es[i + 1]);
            }
        }
    }
}

pub broadcast proof fn lemma_fields_vals_wf(vs: Seq<ValueV>, fs: Seq<FieldV>)
    requires
        vs.len() == fs.len(),
    ensures
        #[trigger] fields_vals_wf(vs, fs) <==> (forall|i: int|
            0 <= i < vs.len() ==> value_wf(#[trigger] vs[i], fs[i].ty)),
    decreases vs,
{
    if vs.len() > 0 {
        lemma_fields_vals_wf(vs.drop_first(), fs.drop_first());
        if value_wf(vs[0], fs[0].ty) && fields_vals_wf(vs.drop_first(), fs.drop_first()) {
            assert forall|i: int| 0 <= i < vs.len() implies value_wf(
                #[trigger] vs[i],
                fs[i].ty,
            ) by {
                if i > 0 {
                    assert(vs.drop_first()[i - 1] == vs[i]);
                    assert(fs.drop_first()[i - 1] == fs[i]);
                }
            }
        }
        if forall|i: int| 0 <= i < vs.len() ==> value_wf(#[trigger] vs[i], fs[i].ty) {
            assert forall|i: int| 0 <= i < vs.drop_first().len() implies value_wf(
                #[trigger] vs.drop_first()[i],
                fs.drop_first()[i].ty,
            ) by {
                assert(vs.drop_first()[i] == vs[i + 1]);
                assert(fs.drop_first()[i] == fs[i + 1]);
            }
        }
    }
}

pub broadcast proof fn lemma_slots_vals_wf(vs: Seq<ValueV>, ss: Seq<SlotV>)
    requires
        vs.len() == ss.len(),
    ensures
        #[trigger] slots_vals_wf(vs, ss) <==> (forall|i: int|
            0 <= i < vs.len() ==> value_wf(#[trigger] vs[i], ss[i].ty)),
    decreases vs,
{
    if vs.len() > 0 {
        lemma_slots_vals_wf(vs.drop_first(), ss.drop_first());
        if value_wf(vs[0], ss[0].ty) && slots_vals_wf(vs.drop_first(), ss.drop_first()) {
            assert forall|i: int| 0 <= i < vs.len() implies value_wf(
                #[trigger] vs[i],
                ss[i].ty,
            ) by {
                if i > 0 {
                    assert(vs.drop_first()[i - 1] == vs[i]);
                    assert(ss.drop_first()[i - 1] == ss[i]);
                }
            }
        }
        if forall|i: int| 0 <= i < vs.len() ==> value_wf(#[trigger] vs[i], ss[i].ty) {
            assert forall|i: int| 0 <= i < vs.drop_first().len() implies value_wf(
                #[trigger] vs.drop_first()[i],
                ss.drop_first()[i].ty,
            ) by {
                assert(vs.drop_first()[i] == vs[i + 1]);
                assert(ss.drop_first()[i] == ss[i + 1]);
            }
        }
    }
}

pub broadcast proof fn lemma_view_vals_push(s: Seq<Value>, x: Value)
    ensures
        #[trigger] view_vals(s.push(x)) == view_vals(s).push(view_val(x)),
{
    broadcast use lemma_view_vals;

    assert(view_vals(s.push(x)) =~= view_vals(s).push(view_val(x)));
}

pub broadcast proof fn lemma_view_vals_update(s: Seq<Value>, i: int, x: Value)
    requires
        0 <= i < s.len(),
    ensures
        #[trigger] view_vals(s.update(i, x)) == view_vals(s).update(i, view_val(x)),
{
    broadcast use lemma_view_vals;

    assert(view_vals(s.update(i, x)) =~= view_vals(s).update(i, view_val(x)));
}

pub broadcast proof fn lemma_view_entries_push(s: Seq<MapEntry>, e: MapEntry)
    ensures
        #[trigger] view_entries(s.push(e)) == view_entries(s).push((e.key@, view_val(e.value))),
{
    broadcast use lemma_view_entries;

    assert(view_entries(s.push(e)) =~= view_entries(s).push((e.key@, view_val(e.value))));
}

pub broadcast proof fn lemma_view_entries_update(s: Seq<MapEntry>, i: int, e: MapEntry)
    requires
        0 <= i < s.len(),
    ensures
        #[trigger] view_entries(s.update(i, e)) == view_entries(s).update(
            i,
            (e.key@, view_val(e.value)),
        ),
{
    broadcast use lemma_view_entries;

    assert(view_entries(s.update(i, e)) =~= view_entries(s).update(
        i,
        (e.key@, view_val(e.value)),
    ));
}

pub broadcast proof fn lemma_view_scalars_push(s: Seq<Scalar>, x: Scalar)
    ensures
        #[trigger] view_scalars(s.push(x)) == view_scalars(s).push(view_scalar(x)),
{
    broadcast use lemma_view_scalars;

    assert(view_scalars(s.push(x)) =~= view_scalars(s).push(view_scalar(x)));
}

/// Remove-then-insert at one position is an update.
pub broadcast proof fn lemma_remove_insert<A>(s: Seq<A>, i: int, x: A)
    requires
        0 <= i < s.len(),
    ensures
        #[trigger] s.remove(i).insert(i, x) == s.update(i, x),
{
    assert(s.remove(i).insert(i, x) =~= s.update(i, x));
}

/// Scalar equality, decided in ordinary code and reflected to the model.
pub fn scalar_eq(a: &Scalar, b: &Scalar) -> (r: bool)
    ensures
        r == (view_scalar(*a) == view_scalar(*b)),
{
    match (a, b) {
        (Scalar::Int(x), Scalar::Int(y)) => *x == *y,
        (Scalar::Bool(x), Scalar::Bool(y)) => *x == *y,
        (Scalar::Text(x), Scalar::Text(y)) => *x == *y,
        _ => false,
    }
}

/// String equality, reflected to the model.
pub fn str_eq(a: &String, b: &String) -> (r: bool)
    ensures
        r == (a@ == b@),
{
    *a == *b
}

/// Whether a value agrees with a type descriptor.
pub fn check_value(v: &Value, ty: &Ty) -> (r: bool)
    ensures
        r == value_wf(view_val(*v), view_ty(*ty)),
{
    check_value_rec(v, ty)
}

#[verifier::loop_isolation(false)]
fn check_value_rec(v: &Value, ty: &Ty) -> (r: bool)
    ensures
        r == value_wf(view_val(*v), view_ty(*ty)),
    decreases *v,
{
    broadcast use {lemma_view_vals, lemma_view_entries, lemma_view_scalars, lemma_view_fields,
        lemma_view_slots, lemma_values_wf, lemma_entries_wf, lemma_fields_vals_wf,
        lemma_slots_vals_wf};

    match (v, ty) {
        (Value::Int(_), Ty::Int) => true,
        (Value::Bool(_), Ty::Bool) => true,
        (Value::Text(_), Ty::Text) => true,
        (Value::OptNone, Ty::Optional(_)) => true,
        (Value::OptSome(b), Ty::Optional(t1)) => check_value_rec(b, t1),
        (Value::List(es), Ty::Sequence(t1)) => {
            let mut i: usize = 0;
            while i < es.len()
                invariant
                    0 <= i <= es@.len(),
                    forall|j: int|
                        0 <= j < i ==> value_wf(#[trigger] view_vals(es@)[j], view_ty(**t1)),
                decreases es@.len() - i,
            {
                if !check_value_rec(&es[i], t1) {
                    proof {
                        assert(!value_wf(view_vals(es@)[i as int], view_ty(**t1)));
                        assert(!values_wf(view_vals(es@), view_ty(**t1)));
                    }
                    return false;
                }
                i += 1;
            }
            proof {
                assert(values_wf(view_vals(es@), view_ty(**t1)));
            }
            true
        },
        (Value::Table(es), Ty::Table(t1)) => {
            if !check_keys_distinct(es) {
                return false;
            }
            let mut i: usize = 0;
            while i < es.len()
                invariant
                    0 <= i <= es@.len(),
                    forall|j: int|
                        0 <= j < i ==> value_wf((#[trigger] view_entries(es@)[j]).1, view_ty(**t1)),
                decreases es@.len() - i,
            {
                if !check_value_rec(&es[i].value, t1) {
                    proof {
                        assert(!value_wf(view_entries(es@)[i as int].1, view_ty(**t1)));
                        assert(!entries_wf(view_entries(es@), view_ty(**t1)));
                    }
                    return false;
                }
                i += 1;
            }
            proof {
                assert(entries_wf(view_entries(es@), view_ty(**t1)));
            }
            true
        },
        (Value::SetOf(xs), Ty::SetOf(k)) => check_set_elems(xs, *k),
        (Value::Record(vs), Ty::Record(fs)) => {
            if vs.len() != fs.len() {
                proof {
                    assert(view_vals(vs@).len() != view_fields(fs@).len());
                }
                return false;
            }
            let mut i: usize = 0;
            while i < vs.len()
                invariant
                    vs@.len() == fs@.len(),
                    0 <= i <= vs@.len(),
                    forall|j: int|
                        0 <= j < i ==> value_wf(
                            #[trigger] view_vals(vs@)[j],
                            view_fields(fs@)[j].ty,
                        ),
                decreases vs@.len() - i,
            {
                if !check_value_rec(&vs[i], &fs[i].ty) {
                    proof {
                        assert(!value_wf(view_vals(vs@)[i as int], view_fields(fs@)[i as int].ty));
                        assert(!fields_vals_wf(view_vals(vs@), view_fields(fs@)));
                    }
                    return false;
                }
                i += 1;
            }
            proof {
                assert(fields_vals_wf(view_vals(vs@), view_fields(fs@)));
            }
            true
        },
        (Value::Record(vs), Ty::Tuple(ss)) => {
            if vs.len() != ss.len() {
                proof {
                    assert(view_vals(vs@).len() != view_slots(ss@).len());
                }
                return false;
            }
            let mut i: usize = 0;
            while i < vs.len()
                invariant
                    vs@.len() == ss@.len(),
                    0 <= i <= vs@.len(),
                    forall|j: int|
                        0 <= j < i ==> value_wf(
                            #[trigger] view_vals(vs@)[j],
                            view_slots(ss@)[j].ty,
                        ),
                decreases vs@.len() - i,
            {
                if !check_value_rec(&vs[i], &ss[i].ty) {
                    proof {
                        assert(!value_wf(view_vals(vs@)[i as int], view_slots(ss@)[i as int].ty));
                        assert(!slots_vals_wf(view_vals(vs@), view_slots(ss@)));
                    }
                    return false;
                }
                i += 1;
            }
            proof {
                assert(slots_vals_wf(view_vals(vs@), view_slots(ss@)));
            }
            true
        },
        (Value::Unit, Ty::Unit) => true,
        _ => false,
    }
}

#[verifier::loop_isolation(false)]
fn check_keys_distinct(es: &Vec<MapEntry>) -> (r: bool)
    ensures
        r == keys_distinct(view_entries(es@)),
{
    broadcast use lemma_view_entries;

    let mut a: usize = 0;
    while a < es.len()
        invariant
            0 <= a <= es@.len(),
            forall|x: int, y: int|
                0 <= x < y < es@.len() && x < a ==> (#[trigger] view_entries(es@)[x].0)
                    != (#[trigger] view_entries(es@)[y].0),
        decreases es@.len() - a,
    {
        let mut b: usize = a + 1;
        while b < es.len()
            invariant
                0 <= a < b <= es@.len(),
                forall|y: int|
                    a < y < b ==> (#[trigger] view_entries(es@)[y].0)
                        != view_entries(es@)[a as int].0,
            decreases es@.len() - b,
        {
            if str_eq(&es[a].key, &es[b].key) {
                proof {
                    assert(view_entries(es@)[a as int].0 == view_entries(es@)[b as int].0);
                }
                return false;
            }
            b += 1;
        }
        a += 1;
    }
    true
}

#[verifier::loop_isolation(false)]
fn check_set_elems(xs: &Vec<Scalar>, k: ScalarKind) -> (r: bool)
    ensures
        r == (elems_distinct(view_scalars(xs@)) && all_scalars_wf(view_scalars(xs@), k)),
{
    broadcast use lemma_view_scalars;

    let mut i: usize = 0;
    while i < xs.len()
        invariant
            0 <= i <= xs@.len(),
            forall|j: int| 0 <= j < i ==> scalar_wf(#[trigger] view_scalars(xs@)[j], k),
        decreases xs@.len() - i,
    {
        let this_ok = match (&xs[i], k) {
            (Scalar::Int(_), ScalarKind::Int) => true,
            (Scalar::Bool(_), ScalarKind::Bool) => true,
            (Scalar::Text(_), ScalarKind::Text) => true,
            _ => false,
        };
        if !this_ok {
            proof {
                assert(!scalar_wf(view_scalars(xs@)[i as int], k));
            }
            return false;
        }
        i += 1;
    }
    let mut a: usize = 0;
    while a < xs.len()
        invariant
            0 <= a <= xs@.len(),
            forall|j: int| 0 <= j < xs@.len() ==> scalar_wf(#[trigger] view_scalars(xs@)[j], k),
            forall|x: int, y: int|
                0 <= x < y < xs@.len() && x < a ==> (#[trigger] view_scalars(xs@)[x])
                    != (#[trigger] view_scalars(xs@)[y]),
        decreases xs@.len() - a,
    {
        let mut b: usize = a + 1;
        while b < xs.len()
            invariant
                0 <= a < b <= xs@.len(),
                forall|y: int|
                    a < y < b ==> (#[trigger] view_scalars(xs@)[y]) != view_scalars(xs@)[a as int],
            decreases xs@.len() - b,
        {
            if scalar_eq(&xs[a], &xs[b]) {
                proof {
                    assert(view_scalars(xs@)[a as int] == view_scalars(xs@)[b as int]);
                }
                return false;
            }
            b += 1;
        }
        a += 1;
    }
    true
}

} // verus!

verus! {

/// The index of the table entry keyed `k`, if any.
#[verifier::loop_isolation(false)]
pub fn find_entry(es: &Vec<MapEntry>, k: &String) -> (r: Option<usize>)
    ensures
        ({
            let j = table_find_from(view_entries(es@), k@, 0);
            match r {
                Some(u) => 0 <= u < es@.len() && j == u as int,
                None => j == -1,
            }
        }),
{
    broadcast use lemma_view_entries;

    let ghost esv = view_entries(es@);
    let mut i: usize = 0;
    while i < es.len()
        invariant
            0 <= i <= es@.len(),
            table_find_from(esv, k@, 0) == table_find_from(esv, k@, i as int),
        decreases es@.len() - i,
    {
        if str_eq(&es[i].key, k) {
            proof {
                assert(esv[i as int].0 == k@);
            }
            return Some(i);
        }
        proof {
            assert(esv[i as int].0 != k@);
        }
        i += 1;
    }
    None
}

/// The index of the set element equal to `x`, if any.
#[verifier::loop_isolation(false)]
pub fn find_scalar(xs: &Vec<Scalar>, x: &Scalar) -> (r: Option<usize>)
    ensures
        ({
            let j = set_find_from(view_scalars(xs@), view_scalar(*x), 0);
            match r {
                Some(u) => 0 <= u < xs@.len() && j == u as int,
                None => j == -1,
            }
        }),
{
    broadcast use lemma_view_scalars;

    let ghost xsv = view_scalars(xs@);
    let mut i: usize = 0;
    while i < xs.len()
        invariant
            0 <= i <= xs@.len(),
            set_find_from(xsv, view_scalar(*x), 0) == set_find_from(xsv, view_scalar(*x), i as int),
        decreases xs@.len() - i,
    {
        if scalar_eq(&xs[i], x) {
            proof {
                assert(xsv[i as int] == view_scalar(*x));
            }
            return Some(i);
        }
        proof {
            assert(xsv[i as int] != view_scalar(*x));
        }
        i += 1;
    }
    None
}

} // verus!

verus! {

/// What a successful or failed key search says about the table.
pub proof fn lemma_table_find_from(es: Seq<(Seq<char>, ValueV)>, k: Seq<char>, i: int)
    requires
        0 <= i,
    ensures
        ({
            let r = table_find_from(es, k, i);
            if r == -1 {
                forall|j: int| i <= j < es.len() ==> (#[trigger] es[j].0) != k
            } else {
                i <= r < es.len() && es[r].0 == k && (forall|j: int|
                    i <= j < r ==> (#[trigger] es[j].0) != k)
            }
        }),
    decreases es.len() - i,
{
    if i < es.len() && es[i].0 != k {
        lemma_table_find_from(es, k, i + 1);
    }
}

/// What a successful or failed element search says about the set.
pub proof fn lemma_set_find_from(xs: Seq<ScalarV>, x: ScalarV, i: int)
    requires
        0 <= i,
    ensures
        ({
            let r = set_find_from(xs, x, i);
            if r == -1 {
                forall|j: int| i <= j < xs.len() ==> (#[trigger] xs[j]) != x
            } else {
                i <= r < xs.len() && xs[r] == x && (forall|j: int|
                    i <= j < r ==> (#[trigger] xs[j]) != x)
            }
        }),
    decreases xs.len() - i,
{
    if i < xs.len() && xs[i] != x {
        lemma_set_find_from(xs, x, i + 1);
    }
}

/// Upserting keeps table keys distinct, leaves other entries in place, and
/// stores the new value under the key.
pub proof fn lemma_table_upsert(es: Seq<(Seq<char>, ValueV)>, k: Seq<char>, v: ValueV)
    requires
        keys_distinct(es),
    ensures
        keys_distinct(table_upsert(es, k, v)),
        table_find_from(es, k, 0) >= 0 ==> table_upsert(es, k, v).len() == es.len(),
        table_find_from(es, k, 0) == -1 ==> table_upsert(es, k, v) == es.push((k, v)),
        forall|j: int|
            0 <= j < es.len() && (#[trigger] es[j].0) != k ==> table_upsert(es, k, v)[j] == es[j],
        exists|j: int|
            0 <= j < table_upsert(es, k, v).len() && (#[trigger] table_upsert(es, k, v)[j]) == (
            k,
            v,
            ),
{
    lemma_table_find_from(es, k, 0);
    let r = table_find_from(es, k, 0);
    let u = table_upsert(es, k, v);
    if r == -1 {
        assert(u[es.len() as int] == (k, v));
        assert forall|a: int, b: int| 0 <= a < b < u.len() implies (#[trigger] u[a].0)
            != (#[trigger] u[b].0) by {
            if b < es.len() {
                assert(u[a] == es[a] && u[b] == es[b]);
            } else {
                assert(u[a] == es[a] && u[b] == (k, v));
            }
        }
    } else {
        assert(u[r] == (k, v));
        assert forall|a: int, b: int| 0 <= a < b < u.len() implies (#[trigger] u[a].0)
            != (#[trigger] u[b].0) by {
            if a != r && b != r {
                assert(u[a] == es[a] && u[b] == es[b]);
            } else if a == r {
                assert(u[a].0 == es[a].0 && u[b] == es[b]);
            } else {
                assert(u[b].0 == es[b].0 && u[a] == es[a]);
            }
        }
    }
}

} // verus!
