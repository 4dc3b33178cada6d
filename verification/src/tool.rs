//! Tools, as the model is told of them.

use serde_json::Value;
use vstd::prelude::*;

verus! {

/// A JSON value.
#[verifier::external_type_specification]
#[verifier::external_body]
pub struct ExValue(Value);

/// A tool as it is offered to the model.
#[derive(Debug)]
pub struct ToolSpec {
    pub name: String,
    pub description: String,
    /// The JSON schema of the arguments.
    pub parameters: Value,
}

} // verus!
