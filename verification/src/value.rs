//! Trusted interface to the outside json value type that documents hold.
//!
//! An entry's content is a semi-structured document; the store treats it
//! as an opaque value: it only moves and clones whole values, and never
//! looks inside one.
use vstd::prelude::*;

verus! {

/// Declares `serde_json::Value` so that it can stand in signatures and
/// fields; the verifier sees nothing inside a value of it.
#[verifier::external_type_specification]
#[verifier::external_body]
pub struct ExValue(serde_json::Value);

/// Relies on `serde_json::Value::clone` (a derived, structural clone):
/// the clone equals the value cloned.
pub assume_specification[ <serde_json::Value as Clone>::clone ](
    v: &serde_json::Value,
) -> (res: serde_json::Value)
    ensures
        res == *v,
;

} // verus!
