//! The field schema: merge policies, container kinds, and type descriptors.
//!
//! A record type's schema is a fixed, ordered list of fields, each carrying an
//! identifier, a merge policy and a type descriptor.  Schemas are built once,
//! at type-definition time, and consumed by the merge engine; they are never
//! mutated while merging.

use vstd::prelude::*;

verus! {

/// How a field combines the value of a new layer with its current value.
#[derive(Clone, Copy, Debug, PartialEq, Eq, Structural)]
pub enum Policy {
    /// Resolve the policy from the field's type kind.
    Default,
    /// Discard the current value and decode a brand-new one.
    Replace,
    /// Extend the current value: concatenate strings, push sequence
    /// elements, upsert table entries, insert set elements, fill options.
    Append,
    /// Merge the new data into the current value recursively.
    Update,
}

/// The shape a set element or plain scalar may take.
#[derive(Clone, Copy, Debug, PartialEq, Eq, Structural)]
pub enum ScalarKind {
    Int,
    Bool,
    Text,
}

/// The closed set of container kinds a mergeable type can have.
#[derive(Clone, Copy, Debug, PartialEq, Eq, Structural)]
pub enum Kind {
    Scalar,
    Text,
    Optional,
    Sequence,
    Table,
    SetOf,
    Record,
}

/// Type descriptor of a mergeable value.
#[derive(Debug, PartialEq, Eq)]
pub enum Ty {
    /// Signed integer scalar.
    Int,
    /// Boolean scalar.
    Bool,
    /// Plain string.
    Text,
    /// Optional value of the inner type.
    Optional(Box<Ty>),
    /// Sequence of elements of the inner type.
    Sequence(Box<Ty>),
    /// Associative table from string keys to values of the inner type.
    Table(Box<Ty>),
    /// Set of scalar elements of the given kind.
    SetOf(ScalarKind),
    /// Record with named fields, each with its own policy.
    Record(Vec<Field>),
    /// Tuple-shaped record: positional fields, strict arity.
    Tuple(Vec<Slot>),
    /// Unit record: no fields, accepts only an explicit unit token.
    Unit,
}

/// One named field of a record schema.
#[derive(Debug, PartialEq, Eq)]
pub struct Field {
    pub name: String,
    pub policy: Policy,
    pub ty: Ty,
}

/// One positional field of a tuple-shaped record schema.
#[derive(Debug, PartialEq, Eq)]
pub struct Slot {
    pub policy: Policy,
    pub ty: Ty,
}

/// Mathematical model of a type descriptor.
pub enum TyV {
    Int,
    Bool,
    Text,
    Optional(Box<TyV>),
    Sequence(Box<TyV>),
    Table(Box<TyV>),
    SetOf(ScalarKind),
    Record(Seq<FieldV>),
    Tuple(Seq<SlotV>),
    Unit,
}

/// Mathematical model of a named field.
pub struct FieldV {
    pub name: Seq<char>,
    pub policy: Policy,
    pub ty: TyV,
}

/// Mathematical model of a positional field.
pub struct SlotV {
    pub policy: Policy,
    pub ty: TyV,
}

pub open spec fn view_ty(t: Ty) -> TyV
    decreases t,
{
    match t {
        Ty::Int => TyV::Int,
        Ty::Bool => TyV::Bool,
        Ty::Text => TyV::Text,
        Ty::Optional(t1) => TyV::Optional(Box::new(view_ty(*t1))),
        Ty::Sequence(t1) => TyV::Sequence(Box::new(view_ty(*t1))),
        Ty::Table(t1) => TyV::Table(Box::new(view_ty(*t1))),
        Ty::SetOf(k) => TyV::SetOf(k),
        Ty::Record(fs) => TyV::Record(view_fields(fs@)),
        Ty::Tuple(ss) => TyV::Tuple(view_slots(ss@)),
        Ty::Unit => TyV::Unit,
    }
}

pub open spec fn view_fields(fs: Seq<Field>) -> Seq<FieldV>
    decreases fs,
{
    if fs.len() == 0 {
        Seq::empty()
    } else {
        seq![
            FieldV { name: fs[0].name@, policy: fs[0].policy, ty: view_ty(fs[0].ty) },
        ] + view_fields(fs.drop_first())
    }
}

pub open spec fn view_slots(ss: Seq<Slot>) -> Seq<SlotV>
    decreases ss,
{
    if ss.len() == 0 {
        Seq::empty()
    } else {
        seq![SlotV { policy: ss[0].policy, ty: view_ty(ss[0].ty) }] + view_slots(ss.drop_first())
    }
}

pub broadcast proof fn lemma_view_fields(fs: Seq<Field>)
    ensures
        (#[trigger] view_fields(fs)).len() == fs.len(),
        forall|i: int|
            0 <= i < fs.len() ==> view_fields(fs)[i] == (FieldV {
                name: fs[i].name@,
                policy: fs[i].policy,
                ty: view_ty(fs[i].ty),
            }),
    decreases fs,
{
    if fs.len() > 0 {
        lemma_view_fields(fs.drop_first());
    }
}

pub broadcast proof fn lemma_view_slots(ss: Seq<Slot>)
    ensures
        (#[trigger] view_slots(ss)).len() == ss.len(),
        forall|i: int|
            0 <= i < ss.len() ==> view_slots(ss)[i] == (SlotV {
                policy: ss[i].policy,
                ty: view_ty(ss[i].ty),
            }),
    decreases ss,
{
    if ss.len() > 0 {
        lemma_view_slots(ss.drop_first());
    }
}

/// The container kind of a type.
pub open spec fn kind_of(t: TyV) -> Kind {
    match t {
        TyV::Int => Kind::Scalar,
        TyV::Bool => Kind::Scalar,
        TyV::Text => Kind::Text,
        TyV::Optional(_) => Kind::Optional,
        TyV::Sequence(_) => Kind::Sequence,
        TyV::Table(_) => Kind::Table,
        TyV::SetOf(_) => Kind::SetOf,
        TyV::Record(_) => Kind::Record,
        TyV::Tuple(_) => Kind::Record,
        TyV::Unit => Kind::Record,
    }
}

/// The lookup table from container kind to default policy.
pub open spec fn default_policy(k: Kind) -> Policy {
    match k {
        Kind::Scalar => Policy::Replace,
        Kind::Text => Policy::Replace,
        Kind::Optional => Policy::Update,
        Kind::Sequence => Policy::Append,
        Kind::Table => Policy::Append,
        Kind::SetOf => Policy::Append,
        Kind::Record => Policy::Update,
    }
}

/// The policy a field effectively merges under.
pub open spec fn resolve_policy(p: Policy, t: TyV) -> Policy {
    if p is Default {
        default_policy(kind_of(t))
    } else {
        p
    }
}

/// Whether a policy is meaningful for a type.  `Append` needs a type with an
/// extend operation; `Update` is not defined for sets.  On a plain scalar or
/// string target `Update` degenerates to replacement.
pub open spec fn policy_ok(p: Policy, t: TyV) -> bool {
    match p {
        Policy::Default => true,
        Policy::Replace => true,
        Policy::Append => kind_of(t) != Kind::Scalar && kind_of(t) != Kind::Record,
        Policy::Update => kind_of(t) != Kind::SetOf,
    }
}

/// The policy under which an element already in place is re-merged when its
/// container combines overlapping entries: a set re-merges under its insert
/// rule, every other kind under update.
pub open spec fn recurse_policy(t: TyV) -> Policy {
    if kind_of(t) == Kind::SetOf {
        Policy::Append
    } else {
        Policy::Update
    }
}

/// First index in `fs` at or after `i` whose name is `k`, or -1.
pub open spec fn field_find_from(fs: Seq<FieldV>, k: Seq<char>, i: int) -> int
    decreases fs.len() - i,
{
    if i < 0 || i >= fs.len() {
        -1
    } else if fs[i].name == k {
        i
    } else {
        field_find_from(fs, k, i + 1)
    }
}

/// Distinct field names: no identifier appears twice in one schema.
pub open spec fn field_names_distinct(fs: Seq<FieldV>) -> bool {
    forall|a: int, b: int|
        0 <= a < b < fs.len() ==> (#[trigger] fs[a].name) != (#[trigger] fs[b].name)
}

/// A well-formed schema: field names are distinct, every field's policy fits
/// its type, and all nested schemas are well formed.
pub open spec fn ty_wf(t: TyV) -> bool
    decreases t, 1int,
{
    match t {
        TyV::Int => true,
        TyV::Bool => true,
        TyV::Text => true,
        TyV::Optional(t1) => ty_wf(*t1),
        TyV::Sequence(t1) => ty_wf(*t1),
        TyV::Table(t1) => ty_wf(*t1),
        TyV::SetOf(_) => true,
        TyV::Record(fs) => field_names_distinct(fs) && fields_ty_wf(fs),
        TyV::Tuple(ss) => slots_ty_wf(ss),
        TyV::Unit => true,
    }
}

/// Every field's policy fits its type and its schema is well formed.
pub open spec fn fields_ty_wf(fs: Seq<FieldV>) -> bool
    decreases fs, 0int,
{
    fs.len() == 0 || (policy_ok(fs[0].policy, fs[0].ty) && ty_wf(fs[0].ty) && fields_ty_wf(
        fs.drop_first(),
    ))
}

/// Every slot's policy fits its type and its schema is well formed.
pub open spec fn slots_ty_wf(ss: Seq<SlotV>) -> bool
    decreases ss, 0int,
{
    ss.len() == 0 || (policy_ok(ss[0].policy, ss[0].ty) && ty_wf(ss[0].ty) && slots_ty_wf(
        ss.drop_first(),
    ))
}

pub broadcast proof fn lemma_fields_ty_wf(fs: Seq<FieldV>)
    ensures
        #[trigger] fields_ty_wf(fs) <==> (forall|i: int|
            0 <= i < fs.len() ==> policy_ok((#[trigger] fs[i]).policy, fs[i].ty) && ty_wf(
                fs[i].ty,
            )),
    decreases fs,
{
    if fs.len() > 0 {
        lemma_fields_ty_wf(fs.drop_first());
        if policy_ok(fs[0].policy, fs[0].ty) && ty_wf(fs[0].ty) && fields_ty_wf(
            fs.drop_first(),
        ) {
            assert forall|i: int| 0 <= i < fs.len() implies policy_ok(
                (#[trigger] fs[i]).policy,
                fs[i].ty,
            ) && ty_wf(fs[i].ty) by {
                if i > 0 {
                    assert(fs.drop_first()[i - 1] == fs[i]);
                }
            }
        }
        if forall|i: int|
            0 <= i < fs.len() ==> policy_ok((#[trigger] fs[i]).policy, fs[i].ty) && ty_wf(
                fs[i].ty,
            ) {
            assert forall|i: int| 0 <= i < fs.drop_first().len() implies policy_ok(
                (#[trigger] fs.drop_first()[i]).policy,
                fs.drop_first()[i].ty,
            ) && ty_wf(fs.drop_first()[i].ty) by {
                assert(fs.drop_first()[i] == fs[i + 1]);
            }
        }
    }
}

pub broadcast proof fn lemma_slots_ty_wf(ss: Seq<SlotV>)
    ensures
        #[trigger] slots_ty_wf(ss) <==> (forall|i: int|
            0 <= i < ss.len() ==> policy_ok((#[trigger] ss[i]).policy, ss[i].ty) && ty_wf(
                ss[i].ty,
            )),
    decreases ss,
{
    if ss.len() > 0 {
        lemma_slots_ty_wf(ss.drop_first());
        if policy_ok(ss[0].policy, ss[0].ty) && ty_wf(ss[0].ty) && slots_ty_wf(
            ss.drop_first(),
        ) {
            assert forall|i: int| 0 <= i < ss.len() implies policy_ok(
                (#[trigger] ss[i]).policy,
                ss[i].ty,
            ) && ty_wf(ss[i].ty) by {
                if i > 0 {
                    assert(ss.drop_first()[i - 1] == ss[i]);
                }
            }
        }
        if forall|i: int|
            0 <= i < ss.len() ==> policy_ok((#[trigger] ss[i]).policy, ss[i].ty) && ty_wf(
                ss[i].ty,
            ) {
            assert forall|i: int| 0 <= i < ss.drop_first().len() implies policy_ok(
                (#[trigger] ss.drop_first()[i]).policy,
                ss.drop_first()[i].ty,
            ) && ty_wf(ss.drop_first()[i].ty) by {
                assert(ss.drop_first()[i] == ss[i + 1]);
            }
        }
    }
}

/// The slots of a named record schema, in order.
pub open spec fn fields_slots(fs: Seq<FieldV>) -> Seq<SlotV> {
    Seq::new(fs.len(), |i: int| SlotV { policy: fs[i].policy, ty: fs[i].ty })
}

/// The field types of a named record schema, in order.
pub open spec fn fields_tys(fs: Seq<FieldV>) -> Seq<TyV> {
    Seq::new(fs.len(), |i: int| fs[i].ty)
}

/// The field types of a tuple-shaped record schema, in order.
pub open spec fn slots_tys(ss: Seq<SlotV>) -> Seq<TyV> {
    Seq::new(ss.len(), |i: int| ss[i].ty)
}

/// The index of the schema field named `k`, if any.
#[verifier::loop_isolation(false)]
pub fn find_field(fs: &Vec<Field>, k: &String) -> (r: Option<usize>)
    ensures
        ({
            let j = field_find_from(view_fields(fs@), k@, 0);
            match r {
                Some(u) => 0 <= u < fs@.len() && j == u as int,
                None => j == -1,
            }
        }),
{
    broadcast use lemma_view_fields;

    let ghost fsv = view_fields(fs@);
    let mut i: usize = 0;
    while i < fs.len()
        invariant
            0 <= i <= fs@.len(),
            field_find_from(fsv, k@, 0) == field_find_from(fsv, k@, i as int),
        decreases fs@.len() - i,
    {
        if crate::value::str_eq(&fs[i].name, k) {
            proof {
                assert(fsv[i as int].name == k@);
            }
            return Some(i);
        }
        proof {
            assert(fsv[i as int].name != k@);
        }
        i += 1;
    }
    None
}

} // verus!


verus! {

/// Whether a policy is meaningful for a type, decided in ordinary code.
pub fn check_policy(p: Policy, ty: &Ty) -> (r: bool)
    ensures
        r == policy_ok(p, view_ty(*ty)),
{
    let k = crate::default::kind(ty);
    match p {
        Policy::Default => true,
        Policy::Replace => true,
        Policy::Append => !(matches!(k, Kind::Scalar) || matches!(k, Kind::Record)),
        Policy::Update => !(matches!(k, Kind::SetOf)),
    }
}

/// Whether a type descriptor is a well-formed schema.
pub fn check_schema(ty: &Ty) -> (r: bool)
    ensures
        r == ty_wf(view_ty(*ty)),
{
    check_schema_rec(ty)
}

#[verifier::loop_isolation(false)]
fn check_schema_rec(ty: &Ty) -> (r: bool)
    ensures
        r == ty_wf(view_ty(*ty)),
    decreases *ty,
{
    broadcast use {lemma_view_fields, lemma_view_slots, lemma_fields_ty_wf, lemma_slots_ty_wf};

    match ty {
        Ty::Int => true,
        Ty::Bool => true,
        Ty::Text => true,
        Ty::Optional(t1) => check_schema_rec(t1),
        Ty::Sequence(t1) => check_schema_rec(t1),
        Ty::Table(t1) => check_schema_rec(t1),
        Ty::SetOf(_) => true,
        Ty::Record(fs) => {
            if !check_names_distinct(fs) {
                return false;
            }
            let mut i: usize = 0;
            while i < fs.len()
                invariant
                    0 <= i <= fs@.len(),
                    forall|j: int|
                        0 <= j < i ==> policy_ok(
                            (#[trigger] view_fields(fs@)[j]).policy,
                            view_fields(fs@)[j].ty,
                        ) && ty_wf(view_fields(fs@)[j].ty),
                decreases fs@.len() - i,
            {
                let pol = fs[i].policy;
                if !check_policy(pol, &fs[i].ty) || !check_schema_rec(&fs[i].ty) {
                    proof {
                        assert(!(policy_ok(view_fields(fs@)[i as int].policy, view_fields(
                            fs@,
                        )[i as int].ty) && ty_wf(view_fields(fs@)[i as int].ty)));
                        assert(!fields_ty_wf(view_fields(fs@)));
                    }
                    return false;
                }
                i += 1;
            }
            proof {
                assert(fields_ty_wf(view_fields(fs@)));
            }
            true
        },
        Ty::Tuple(ss) => {
            let mut i: usize = 0;
            while i < ss.len()
                invariant
                    0 <= i <= ss@.len(),
                    forall|j: int|
                        0 <= j < i ==> policy_ok(
                            (#[trigger] view_slots(ss@)[j]).policy,
                            view_slots(ss@)[j].ty,
                        ) && ty_wf(view_slots(ss@)[j].ty),
                decreases ss@.len() - i,
            {
                let pol = ss[i].policy;
                if !check_policy(pol, &ss[i].ty) || !check_schema_rec(&ss[i].ty) {
                    proof {
                        assert(!(policy_ok(view_slots(ss@)[i as int].policy, view_slots(
                            ss@,
                        )[i as int].ty) && ty_wf(view_slots(ss@)[i as int].ty)));
                        assert(!slots_ty_wf(view_slots(ss@)));
                    }
                    return false;
                }
                i += 1;
            }
            proof {
                assert(slots_ty_wf(view_slots(ss@)));
            }
            true
        },
        Ty::Unit => true,
    }
}

#[verifier::loop_isolation(false)]
fn check_names_distinct(fs: &Vec<Field>) -> (r: bool)
    ensures
        r == field_names_distinct(view_fields(fs@)),
{
    broadcast use lemma_view_fields;

    let mut a: usize = 0;
    while a < fs.len()
        invariant
            0 <= a <= fs@.len(),
            forall|x: int, y: int|
                0 <= x < y < fs@.len() && x < a ==> (#[trigger] view_fields(fs@)[x].name)
                    != (#[trigger] view_fields(fs@)[y].name),
        decreases fs@.len() - a,
    {
        let mut b: usize = a + 1;
        while b < fs.len()
            invariant
                0 <= a < b <= fs@.len(),
                forall|y: int|
                    a < y < b ==> (#[trigger] view_fields(fs@)[y].name)
                        != view_fields(fs@)[a as int].name,
            decreases fs@.len() - b,
        {
            if crate::value::str_eq(&fs[a].name, &fs[b].name) {
                proof {
                    assert(view_fields(fs@)[a as int].name == view_fields(fs@)[b as int].name);
                }
                return false;
            }
            b += 1;
        }
        a += 1;
    }
    true
}

} // verus!
