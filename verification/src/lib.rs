//! A layered-configuration merge engine.
//!
//! A caller owns a single configuration value tree and merges successive
//! layers of new data into it, in place.  How a new value combines with the
//! current one is governed by a per-field merge [`Policy`](schema::Policy):
//! replace it wholesale, append to it, or update it recursively; a field
//! without an explicit policy resolves one from its type's kind.  Each layer
//! arrives as a [`Source`](source::Source), the pull-based shape any concrete
//! text format is reduced to outside the engine.
//!
//! The entry point is [`merge_layer`]; its contract pins the merged tree to
//! the mathematical model [`merge_spec`](seed::merge_spec).

use vstd::prelude::*;

pub mod append;
pub mod default;
pub mod laws;
pub mod record;
pub mod replace;
pub mod schema;
pub mod seed;
pub mod source;
pub mod update;
pub mod value;

use crate::schema::{Policy, Ty, view_ty};
use crate::seed::merge_spec;
use crate::source::{Source, view_src};
use crate::value::{Value, value_wf, view_val};

verus! {

/// Why a merge call aborted.  An abort leaves fields merged before the
/// failing one updated and the failing field and any after it untouched.
#[derive(Clone, Copy, Debug, PartialEq, Eq, Structural)]
pub enum MergeError {
    /// The source produced a value of the wrong shape for the target type.
    MalformedToken,
    /// Named record dispatch saw an identifier outside the field schema.
    UnknownField,
    /// Positional record input had too few or too many elements.
    ArityMismatch,
}

/// Accepts only an explicit unit token, the sole input a unit record takes.
pub struct UnitStructVisitor;

impl UnitStructVisitor {
    /// Checks the token for a unit record.
    pub fn visit_unit(src: &Source) -> (r: Result<(), MergeError>)
        ensures
            r is Ok <==> view_src(*src) is Unit,
            r is Err ==> r->Err_0 == MergeError::MalformedToken,
    {
        match src {
            Source::Unit => Ok(()),
            _ => Err(MergeError::MalformedToken),
        }
    }
}

/// Merges one layer of new data into the configuration value in place, under
/// the default policy of the value's type.  An abort propagates the model's
/// error and leaves the value well-formed; a failed replacement leaves it
/// unchanged (stated in [`seed::merge_ensures`]), and a failure partway
/// through a record or table leaves what was dispatched before it merged and
/// the rest untouched, as stated on [`record::rec_named`] and
/// [`update::map_update`].
pub fn merge_layer(slot: &mut Value, ty: &Ty, src: &Source) -> (r: Result<(), MergeError>)
    requires
        value_wf(view_val(*old(slot)), view_ty(*ty)),
    ensures
        ({
            let m = merge_spec(view_val(*old(slot)), view_ty(*ty), Policy::Default, view_src(*src));
            &&& (m is Ok ==> r is Ok && view_val(*final(slot)) == m->Ok_0)
            &&& (m is Err ==> r is Err && r->Err_0 == m->Err_0)
            &&& value_wf(view_val(*final(slot)), view_ty(*ty))
        }),
{
    crate::seed::merge_value(slot, ty, Policy::Default, src)
}

} // verus!
