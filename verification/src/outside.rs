//! Types of outside crates that pass through this library unopened.

use vstd::prelude::*;

verus! {

/// The value tree of `serde_yaml`, as its parser hands it out. Verified code
/// carries it and reads it one node at a time, through the wrappers of the
/// `tree` module.
#[verifier::external_type_specification]
#[verifier::external_body]
pub struct ExYamlTree(serde_yaml::Value);

} // verus!
