//! The record merge protocol: positional and named dispatch of a record's
//! fields against its field schema.
//!
//! Named input resolves each pulled identifier against the schema and routes
//! the paired value through that field's policy; identifiers that never
//! appear leave their fields untouched, and an unrecognized one aborts.
//! Positional input routes one value per field in schema order; a named
//! record accepts a short prefix, a tuple-shaped record demands exact arity.

use vstd::prelude::*;

use crate::MergeError;
use crate::schema::{Field, FieldV, Slot, SlotV, field_find_from};
use crate::seed::merge_spec;
use crate::source::{Source, SourceEntry, SourceV};
use crate::value::{Value, ValueV};

verus! {

/// Routing the named entries of `es` from position `i` on into the record
/// fields `vals`.  A repeated identifier feeds the same field again.
pub open spec fn merge_named_from(
    vals: Seq<ValueV>,
    fs: Seq<FieldV>,
    es: Seq<(Seq<char>, SourceV)>,
    i: int,
) -> Result<Seq<ValueV>, MergeError>
    decreases es, 0int, es.len() - i,
{
    if i < 0 || i >= es.len() {
        Ok(vals)
    } else {
        let j = field_find_from(fs, es[i].0, 0);
        if j < 0 {
            Err(MergeError::UnknownField)
        } else {
            match merge_spec(vals[j], fs[j].ty, fs[j].policy, es[i].1) {
                Ok(nv) => merge_named_from(vals.update(j, nv), fs, es, i + 1),
                Err(e) => Err(e),
            }
        }
    }
}

/// One more named entry at the end of the layer extends the dispatch by one
/// step: resolve its identifier, then merge its value into that field.
pub proof fn lemma_merge_named_snoc(
    vals: Seq<ValueV>,
    fs: Seq<FieldV>,
    p: Seq<(Seq<char>, SourceV)>,
    x: (Seq<char>, SourceV),
    i: int,
)
    requires
        0 <= i <= p.len(),
    ensures
        merge_named_from(vals, fs, p.push(x), i) == (match merge_named_from(vals, fs, p, i) {
            Ok(cur) => {
                let j = field_find_from(fs, x.0, 0);
                if j < 0 {
                    Err::<Seq<ValueV>, MergeError>(MergeError::UnknownField)
                } else {
                    match merge_spec(cur[j], fs[j].ty, fs[j].policy, x.1) {
                        Ok(nv) => Ok(cur.update(j, nv)),
                        Err(e) => Err(e),
                    }
                }
            },
            Err(e) => Err(e),
        }),
    decreases p.len() - i,
{
    let q = p.push(x);
    if i == p.len() {
        assert(q[i] == x);
        assert(merge_named_from(vals, fs, p, i) == Ok::<Seq<ValueV>, MergeError>(vals));
        let j = field_find_from(fs, x.0, 0);
        if j >= 0 {
            match merge_spec(vals[j], fs[j].ty, fs[j].policy, x.1) {
                Ok(nv) => {
                    assert(merge_named_from(vals.update(j, nv), fs, q, i + 1) == Ok::<
                        Seq<ValueV>,
                        MergeError,
                    >(vals.update(j, nv)));
                },
                Err(_) => {},
            }
        }
    } else {
        assert(q[i] == p[i]);
        let j = field_find_from(fs, p[i].0, 0);
        if j >= 0 {
            match merge_spec(vals[j], fs[j].ty, fs[j].policy, p[i].1) {
                Ok(nv) => {
                    lemma_merge_named_snoc(vals.update(j, nv), fs, p, x, i + 1);
                },
                Err(_) => {},
            }
        }
    }
}

/// The state an aborted named dispatch leaves a record in: some prefix of
/// the layer merged cleanly, and the entry after it failed.  On an unknown
/// identifier the fields hold exactly the prefix result; when a field's own
/// merge failed, every sibling holds the prefix result and only that field's
/// slot may differ.
pub open spec fn named_abort_state(
    vals: Seq<ValueV>,
    fs: Seq<FieldV>,
    es: Seq<(Seq<char>, SourceV)>,
    out: Seq<ValueV>,
) -> bool {
    exists|i: int|
        #![trigger es.subrange(0, i)]
        0 <= i < es.len() && {
            let pre = merge_named_from(vals, fs, es.subrange(0, i), 0);
            &&& pre is Ok
            &&& ({
                let cur = pre->Ok_0;
                let j = field_find_from(fs, es[i].0, 0);
                if j < 0 {
                    out == cur
                } else {
                    &&& merge_spec(cur[j], fs[j].ty, fs[j].policy, es[i].1) is Err
                    &&& out.len() == cur.len()
                    &&& (forall|x: int| 0 <= x < cur.len() && x != j ==> out[x] == cur[x])
                }
            })
        }
}

/// Routing the positional elements of `es` from position `i` on into the
/// record fields `vals`, one per slot in schema order.
pub open spec fn merge_pos_from(
    vals: Seq<ValueV>,
    ss: Seq<SlotV>,
    es: Seq<SourceV>,
    i: int,
) -> Result<Seq<ValueV>, MergeError>
    decreases es, 0int, es.len() - i,
{
    if i < 0 || i >= es.len() {
        Ok(vals)
    } else {
        match merge_spec(vals[i], ss[i].ty, ss[i].policy, es[i]) {
            Ok(nv) => merge_pos_from(vals.update(i, nv), ss, es, i + 1),
            Err(e) => Err(e),
        }
    }
}

/// One more positional element at the end of the layer extends the dispatch
/// by one step: merge it into the next slot in schema order.
pub proof fn lemma_merge_pos_snoc(
    vals: Seq<ValueV>,
    ss: Seq<SlotV>,
    p: Seq<SourceV>,
    x: SourceV,
    i: int,
)
    requires
        0 <= i <= p.len(),
    ensures
        merge_pos_from(vals, ss, p.push(x), i) == (match merge_pos_from(vals, ss, p, i) {
            Ok(cur) => match merge_spec(
                cur[p.len() as int],
                ss[p.len() as int].ty,
                ss[p.len() as int].policy,
                x,
            ) {
                Ok(nv) => Ok::<Seq<ValueV>, MergeError>(cur.update(p.len() as int, nv)),
                Err(e) => Err(e),
            },
            Err(e) => Err(e),
        }),
    decreases p.len() - i,
{
    let q = p.push(x);
    if i == p.len() {
        assert(q[i] == x);
        assert(merge_pos_from(vals, ss, p, i) == Ok::<Seq<ValueV>, MergeError>(vals));
        match merge_spec(vals[i], ss[i].ty, ss[i].policy, x) {
            Ok(nv) => {
                assert(merge_pos_from(vals.update(i, nv), ss, q, i + 1) == Ok::<
                    Seq<ValueV>,
                    MergeError,
                >(vals.update(i, nv)));
            },
            Err(_) => {},
        }
    } else {
        assert(q[i] == p[i]);
        match merge_spec(vals[i], ss[i].ty, ss[i].policy, p[i]) {
            Ok(nv) => {
                lemma_merge_pos_snoc(vals.update(i, nv), ss, p, x, i + 1);
            },
            Err(_) => {},
        }
    }
}

/// The state an aborted positional dispatch leaves a record in: some prefix
/// of the layer merged cleanly into the first slots, the next slot's merge
/// failed, and only that slot may differ from the prefix result.
pub open spec fn pos_abort_state(
    vals: Seq<ValueV>,
    ss: Seq<SlotV>,
    es: Seq<SourceV>,
    out: Seq<ValueV>,
) -> bool {
    exists|i: int|
        #![trigger es.subrange(0, i)]
        0 <= i < es.len() && {
            let pre = merge_pos_from(vals, ss, es.subrange(0, i), 0);
            &&& pre is Ok
            &&& ({
                let cur = pre->Ok_0;
                &&& merge_spec(cur[i], ss[i].ty, ss[i].policy, es[i]) is Err
                &&& out.len() == cur.len()
                &&& (forall|x: int| 0 <= x < cur.len() && x != i ==> out[x] == cur[x])
            })
        }
}

} // verus!

verus! {

/// Routes each named entry of a table source through the field it names:
/// the identifier is resolved against the schema and the paired value is fed
/// to that field's merge seed.  An unrecognized identifier aborts, leaving
/// the record in the abort state: fields dispatched before the failure stay
/// merged, the failing field and every later one stay untouched.
#[verifier::loop_isolation(false)]
pub fn rec_named(vals: Vec<Value>, fs: &Vec<Field>, es: &Vec<SourceEntry>) -> (res: (
    Vec<Value>,
    Result<(), MergeError>,
))
    requires
        vals@.len() == fs@.len(),
        crate::value::fields_vals_wf(
            crate::value::view_vals(vals@),
            crate::schema::view_fields(fs@),
        ),
    ensures
        ({
            let m = merge_named_from(
                crate::value::view_vals(vals@),
                crate::schema::view_fields(fs@),
                crate::source::view_src_entries(es@),
                0,
            );
            &&& (m is Ok ==> res.1 is Ok && crate::value::view_vals(res.0@) == m->Ok_0)
            &&& (m is Err ==> res.1 is Err && res.1->Err_0 == m->Err_0)
            &&& (res.1 is Err ==> named_abort_state(
                crate::value::view_vals(vals@),
                crate::schema::view_fields(fs@),
                crate::source::view_src_entries(es@),
                crate::value::view_vals(res.0@),
            ))
            &&& res.0@.len() == fs@.len()
            &&& crate::value::fields_vals_wf(
                crate::value::view_vals(res.0@),
                crate::schema::view_fields(fs@),
            )
        }),
    decreases es@, 0int, 0int,
{
    broadcast use {crate::value::lemma_view_vals, crate::source::lemma_view_src_entries,
        crate::schema::lemma_view_fields, crate::value::lemma_view_vals_update,
        crate::value::lemma_fields_vals_wf, crate::value::lemma_remove_insert};

    let ghost fsv = crate::schema::view_fields(fs@);
    let ghost srcs = crate::source::view_src_entries(es@);
    let ghost vals0 = crate::value::view_vals(vals@);
    let mut vals = vals;
    let mut i: usize = 0;
    proof {
        assert(srcs.subrange(0, 0) =~= Seq::<(Seq<char>, SourceV)>::empty());
    }
    while i < es.len()
        invariant
            0 <= i <= es@.len(),
            vals@.len() == fs@.len(),
            merge_named_from(vals0, fsv, srcs, 0) == merge_named_from(
                crate::value::view_vals(vals@),
                fsv,
                srcs,
                i as int,
            ),
            merge_named_from(vals0, fsv, srcs.subrange(0, i as int), 0) == Ok::<
                Seq<ValueV>,
                MergeError,
            >(crate::value::view_vals(vals@)),
            forall|j: int|
                0 <= j < vals@.len() ==> crate::value::value_wf(
                    #[trigger] crate::value::view_vals(vals@)[j],
                    fsv[j].ty,
                ),
        decreases es@.len() - i,
    {
        let ghost cur = crate::value::view_vals(vals@);
        match crate::schema::find_field(fs, &es[i].key) {
            Some(j) => {
                let elem = vals.remove(j);
                let pol = fs[j].policy;
                let (elem2, r) = crate::seed::merge_val(elem, &fs[j].ty, pol, &es[i].value);
                vals.insert(j, elem2);
                if let Err(e) = r {
                    proof {
                        assert(merge_named_from(vals0, fsv, srcs.subrange(0, i as int), 0)
                            == Ok::<Seq<ValueV>, MergeError>(cur));
                        assert(merge_spec(cur[j as int], fsv[j as int].ty, fsv[j as int].policy,
                            srcs[i as int].1) is Err);
                        assert(named_abort_state(vals0, fsv, srcs, crate::value::view_vals(vals@)));
                    }
                    return (vals, Err(e));
                }
                proof {
                    assert(srcs.subrange(0, i as int + 1) =~= srcs.subrange(0, i as int).push(
                        srcs[i as int],
                    ));
                    lemma_merge_named_snoc(vals0, fsv, srcs.subrange(0, i as int), srcs[i as int], 0);
                }
            },
            None => {
                proof {
                    assert(merge_named_from(vals0, fsv, srcs.subrange(0, i as int), 0) == Ok::<
                        Seq<ValueV>,
                        MergeError,
                    >(cur));
                    assert(named_abort_state(vals0, fsv, srcs, crate::value::view_vals(vals@)));
                }
                return (vals, Err(MergeError::UnknownField));
            },
        }
        i += 1;
    }
    (vals, Ok(()))
}

/// Routes one positional element per named field, in schema order; a source
/// that runs out early leaves the remaining fields untouched.  An abort
/// leaves the record in the positional abort state: slots merged before the
/// failure stay merged, later ones stay untouched.
#[verifier::loop_isolation(false)]
pub fn rec_pos_fields(vals: Vec<Value>, fs: &Vec<Field>, es: &Vec<Source>) -> (res: (
    Vec<Value>,
    Result<(), MergeError>,
))
    requires
        vals@.len() == fs@.len(),
        es@.len() <= fs@.len(),
        crate::value::fields_vals_wf(
            crate::value::view_vals(vals@),
            crate::schema::view_fields(fs@),
        ),
    ensures
        ({
            let m = merge_pos_from(
                crate::value::view_vals(vals@),
                crate::schema::fields_slots(crate::schema::view_fields(fs@)),
                crate::source::view_srcs(es@),
                0,
            );
            &&& (m is Ok ==> res.1 is Ok && crate::value::view_vals(res.0@) == m->Ok_0)
            &&& (m is Err ==> res.1 is Err && res.1->Err_0 == m->Err_0)
            &&& (res.1 is Err ==> pos_abort_state(
                crate::value::view_vals(vals@),
                crate::schema::fields_slots(crate::schema::view_fields(fs@)),
                crate::source::view_srcs(es@),
                crate::value::view_vals(res.0@),
            ))
            &&& res.0@.len() == fs@.len()
            &&& crate::value::fields_vals_wf(
                crate::value::view_vals(res.0@),
                crate::schema::view_fields(fs@),
            )
        }),
    decreases es@, 0int, 0int,
{
    broadcast use {crate::value::lemma_view_vals, crate::source::lemma_view_srcs,
        crate::schema::lemma_view_fields, crate::value::lemma_view_vals_update,
        crate::value::lemma_fields_vals_wf, crate::value::lemma_remove_insert};

    let ghost fsv = crate::schema::view_fields(fs@);
    let ghost slots = crate::schema::fields_slots(fsv);
    let ghost srcs = crate::source::view_srcs(es@);
    let ghost vals0 = crate::value::view_vals(vals@);
    let mut vals = vals;
    let mut i: usize = 0;
    proof {
        assert(srcs.subrange(0, 0) =~= Seq::<SourceV>::empty());
    }
    while i < es.len()
        invariant
            0 <= i <= es@.len(),
            vals@.len() == fs@.len(),
            merge_pos_from(vals0, slots, srcs, 0) == merge_pos_from(
                crate::value::view_vals(vals@),
                slots,
                srcs,
                i as int,
            ),
            merge_pos_from(vals0, slots, srcs.subrange(0, i as int), 0) == Ok::<
                Seq<ValueV>,
                MergeError,
            >(crate::value::view_vals(vals@)),
            forall|j: int|
                0 <= j < vals@.len() ==> crate::value::value_wf(
                    #[trigger] crate::value::view_vals(vals@)[j],
                    fsv[j].ty,
                ),
        decreases es@.len() - i,
    {
        let ghost cur = crate::value::view_vals(vals@);
        let elem = vals.remove(i);
        let pol = fs[i].policy;
        let (elem2, r) = crate::seed::merge_val(elem, &fs[i].ty, pol, &es[i]);
        vals.insert(i, elem2);
        if let Err(e) = r {
            proof {
                assert(merge_pos_from(vals0, slots, srcs.subrange(0, i as int), 0) == Ok::<
                    Seq<ValueV>,
                    MergeError,
                >(cur));
                assert(merge_spec(cur[i as int], slots[i as int].ty, slots[i as int].policy,
                    srcs[i as int]) is Err);
                assert(pos_abort_state(vals0, slots, srcs, crate::value::view_vals(vals@)));
            }
            return (vals, Err(e));
        }
        proof {
            assert(srcs.subrange(0, i as int + 1) =~= srcs.subrange(0, i as int).push(
                srcs[i as int],
            ));
            lemma_merge_pos_snoc(vals0, slots, srcs.subrange(0, i as int), srcs[i as int], 0);
        }
        i += 1;
    }
    (vals, Ok(()))
}

/// Routes one positional element per tuple slot, in schema order; the caller
/// has already checked the strict arity.  An abort leaves the record in the
/// positional abort state.
#[verifier::loop_isolation(false)]
pub fn rec_pos_slots(vals: Vec<Value>, ss: &Vec<Slot>, es: &Vec<Source>) -> (res: (
    Vec<Value>,
    Result<(), MergeError>,
))
    requires
        vals@.len() == ss@.len(),
        es@.len() <= ss@.len(),
        crate::value::slots_vals_wf(
            crate::value::view_vals(vals@),
            crate::schema::view_slots(ss@),
        ),
    ensures
        ({
            let m = merge_pos_from(
                crate::value::view_vals(vals@),
                crate::schema::view_slots(ss@),
                crate::source::view_srcs(es@),
                0,
            );
            &&& (m is Ok ==> res.1 is Ok && crate::value::view_vals(res.0@) == m->Ok_0)
            &&& (m is Err ==> res.1 is Err && res.1->Err_0 == m->Err_0)
            &&& (res.1 is Err ==> pos_abort_state(
                crate::value::view_vals(vals@),
                crate::schema::view_slots(ss@),
                crate::source::view_srcs(es@),
                crate::value::view_vals(res.0@),
            ))
            &&& res.0@.len() == ss@.len()
            &&& crate::value::slots_vals_wf(
                crate::value::view_vals(res.0@),
                crate::schema::view_slots(ss@),
            )
        }),
    decreases es@, 0int, 0int,
{
    broadcast use {crate::value::lemma_view_vals, crate::source::lemma_view_srcs,
        crate::schema::lemma_view_slots, crate::value::lemma_view_vals_update,
        crate::value::lemma_slots_vals_wf, crate::value::lemma_remove_insert};

    let ghost ssv = crate::schema::view_slots(ss@);
    let ghost srcs = crate::source::view_srcs(es@);
    let ghost vals0 = crate::value::view_vals(vals@);
    let mut vals = vals;
    let mut i: usize = 0;
    proof {
        assert(srcs.subrange(0, 0) =~= Seq::<SourceV>::empty());
    }
    while i < es.len()
        invariant
            0 <= i <= es@.len(),
            vals@.len() == ss@.len(),
            merge_pos_from(vals0, ssv, srcs, 0) == merge_pos_from(
                crate::value::view_vals(vals@),
                ssv,
                srcs,
                i as int,
            ),
            merge_pos_from(vals0, ssv, srcs.subrange(0, i as int), 0) == Ok::<
                Seq<ValueV>,
                MergeError,
            >(crate::value::view_vals(vals@)),
            forall|j: int|
                0 <= j < vals@.len() ==> crate::value::value_wf(
                    #[trigger] crate::value::view_vals(vals@)[j],
                    ssv[j].ty,
                ),
        decreases es@.len() - i,
    {
        let ghost cur = crate::value::view_vals(vals@);
        let elem = vals.remove(i);
        let pol = ss[i].policy;
        let (elem2, r) = crate::seed::merge_val(elem, &ss[i].ty, pol, &es[i]);
        vals.insert(i, elem2);
        if let Err(e) = r {
            proof {
                assert(merge_pos_from(vals0, ssv, srcs.subrange(0, i as int), 0) == Ok::<
                    Seq<ValueV>,
                    MergeError,
                >(cur));
                assert(merge_spec(cur[i as int], ssv[i as int].ty, ssv[i as int].policy,
                    srcs[i as int]) is Err);
                assert(pos_abort_state(vals0, ssv, srcs, crate::value::view_vals(vals@)));
            }
            return (vals, Err(e));
        }
        proof {
            assert(srcs.subrange(0, i as int + 1) =~= srcs.subrange(0, i as int).push(
                srcs[i as int],
            ));
            lemma_merge_pos_snoc(vals0, ssv, srcs.subrange(0, i as int), srcs[i as int], 0);
        }
        i += 1;
    }
    (vals, Ok(()))
}

} // verus!
