//! The merge seed: one field's storage and policy, fed once with one pull
//! from the decode source.
//!
//! [`merge_spec`] is the mathematical model of the whole engine: what merging
//! one source into one value under one policy yields, or which error aborts
//! it.  [`merge_value`] is the executable seed application, proved to agree
//! with the model.

use vstd::prelude::*;

use crate::MergeError;
use crate::append::append_spec;
use crate::schema::{Policy, TyV, resolve_policy};
use crate::source::{SourceV, view_src};
use crate::update::update_spec;
use crate::value::ValueV;
use crate::replace::decode_spec;

verus! {

/// Termination rank of a policy: default resolution takes one extra step.
pub open spec fn policy_rank(p: Policy) -> int {
    match p {
        Policy::Default => 2,
        _ => 1,
    }
}

/// What merging source `s` into value `v` of type `t` under policy `p`
/// yields: the merged value, or the error that aborts the merge.
pub open spec fn merge_spec(v: ValueV, t: TyV, p: Policy, s: SourceV) -> Result<
    ValueV,
    MergeError,
>
    decreases s, policy_rank(p), 1int,
{
    match p {
        Policy::Default => merge_spec(v, t, resolve_policy(p, t), s),
        Policy::Replace => decode_spec(t, s),
        Policy::Append => append_spec(v, t, s),
        Policy::Update => update_spec(v, t, s),
    }
}

} // verus!

verus! {

/// The contract every seed application meets: on the model's success the slot
/// holds exactly the model's value; on its failure the same error comes back,
/// a failed replacement leaves the slot unchanged, and the slot always stays
/// a well-formed value of its type.  How an aborted record or table merge
/// leaves its fields is stated on [`crate::record::rec_named`] and
/// [`crate::update::map_update`].
pub open spec fn merge_ensures(
    v0: ValueV,
    t: TyV,
    p: Policy,
    s: SourceV,
    v1: ValueV,
    r: Result<(), MergeError>,
) -> bool {
    let m = merge_spec(v0, t, p, s);
    &&& (m is Ok ==> r is Ok && v1 == m->Ok_0)
    &&& (m is Err ==> r is Err && r->Err_0 == m->Err_0)
    &&& (m is Err && resolve_policy(p, t) == Policy::Replace ==> v1 == v0)
    &&& crate::value::value_wf(v1, t)
}

/// Applies one merge seed to an owned value: dispatch on the policy, with
/// `Default` resolved through the kind table first.
pub(crate) fn merge_val(v: crate::value::Value, ty: &crate::schema::Ty, p: Policy, src: &crate::source::Source) -> (res: (
    crate::value::Value,
    Result<(), MergeError>,
))
    requires
        crate::value::value_wf(crate::value::view_val(v), crate::schema::view_ty(*ty)),
    ensures
        merge_ensures(
            crate::value::view_val(v),
            crate::schema::view_ty(*ty),
            p,
            view_src(*src),
            crate::value::view_val(res.0),
            res.1,
        ),
    decreases *src, policy_rank(p), 1int,
{
    match p {
        Policy::Default => {
            let rp = crate::default::resolve(p, ty);
            merge_val(v, ty, rp, src)
        },
        Policy::Replace => match crate::replace::decode(ty, src) {
            Ok(nv) => (nv, Ok(())),
            Err(e) => (v, Err(e)),
        },
        Policy::Append => crate::append::append_val(v, ty, src),
        Policy::Update => crate::update::update_val(v, ty, src),
    }
}

/// Applies one merge seed: feeds the slot bound to a policy with one value
/// pulled from the decode source, mutating the slot in place.
pub fn merge_value(slot: &mut crate::value::Value, ty: &crate::schema::Ty, p: Policy, src: &crate::source::Source) -> (r: Result<
    (),
    MergeError,
>)
    requires
        crate::value::value_wf(crate::value::view_val(*old(slot)), crate::schema::view_ty(*ty)),
    ensures
        merge_ensures(
            crate::value::view_val(*old(slot)),
            crate::schema::view_ty(*ty),
            p,
            view_src(*src),
            crate::value::view_val(*final(slot)),
            r,
        ),
{
    let mut tmp = crate::value::Value::Unit;
    core::mem::swap(slot, &mut tmp);
    let (nv, r) = merge_val(tmp, ty, p, src);
    let mut nv = nv;
    core::mem::swap(slot, &mut nv);
    r
}

} // verus!
