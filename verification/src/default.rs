//! The `Default` resolver: pick the policy a field merges under from the
//! kind of its type, by a fixed lookup table.
//!
//! Numeric, boolean and plain string fields replace; sequences, tables and
//! sets append; optionals and records update.

use vstd::prelude::*;

use crate::schema::{Kind, Policy, Ty, default_policy, kind_of, resolve_policy, view_ty};

verus! {

/// The container kind of a type descriptor.
pub fn kind(ty: &Ty) -> (k: Kind)
    ensures
        k == kind_of(view_ty(*ty)),
{
    match ty {
        Ty::Int => Kind::Scalar,
        Ty::Bool => Kind::Scalar,
        Ty::Text => Kind::Text,
        Ty::Optional(_) => Kind::Optional,
        Ty::Sequence(_) => Kind::Sequence,
        Ty::Table(_) => Kind::Table,
        Ty::SetOf(_) => Kind::SetOf,
        Ty::Record(_) => Kind::Record,
        Ty::Tuple(_) => Kind::Record,
        Ty::Unit => Kind::Record,
    }
}

/// The policy a field effectively merges under: an explicit policy stands;
/// `Default` resolves through the kind table.
pub fn resolve(p: Policy, ty: &Ty) -> (r: Policy)
    ensures
        r == resolve_policy(p, view_ty(*ty)),
        !(r is Default),
{
    match p {
        Policy::Default => match kind(ty) {
            Kind::Scalar => Policy::Replace,
            Kind::Text => Policy::Replace,
            Kind::Optional => Policy::Update,
            Kind::Sequence => Policy::Append,
            Kind::Table => Policy::Append,
            Kind::SetOf => Policy::Append,
            Kind::Record => Policy::Update,
        },
        _ => p,
    }
}

} // verus!

verus! {

/// The `Default` policy resolver: dispatch through the kind table.
pub struct Default;

impl Default {
    /// Merges under the policy the value's type resolves to by default.
    pub fn apply(
        slot: &mut crate::value::Value,
        ty: &Ty,
        src: &crate::source::Source,
    ) -> (r: Result<(), crate::MergeError>)
        requires
            crate::value::value_wf(crate::value::view_val(*old(slot)), view_ty(*ty)),
        ensures
            crate::seed::merge_ensures(
                crate::value::view_val(*old(slot)),
                view_ty(*ty),
                Policy::Default,
                crate::source::view_src(*src),
                crate::value::view_val(*final(slot)),
                r,
            ),
    {
        crate::seed::merge_value(slot, ty, Policy::Default, src)
    }
}

/// The policy an element already in place is re-merged under.
pub fn recurse(ty: &Ty) -> (p: Policy)
    ensures
        p == crate::schema::recurse_policy(view_ty(*ty)),
{
    match kind(ty) {
        Kind::SetOf => Policy::Append,
        _ => Policy::Update,
    }
}

} // verus!
