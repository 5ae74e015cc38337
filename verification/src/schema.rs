//! Schemas of tool parameters as typed values of `schemars`.
use vstd::prelude::*;

verus! {

/// A schema of `schemars`; it is handed on as it is.
#[verifier::external_type_specification]
#[verifier::external_body]
pub struct ExRootSchema(schemars::schema::RootSchema);

/// The typed schema that a JSON value writes; `None` where the value is no schema.
pub uninterp spec fn read_schema(value: serde_json::Value) -> Option<schemars::schema::RootSchema>;

/// Calls `serde_json::from_value` for a `schemars::schema::RootSchema` and drops its error. The
/// result is a function of the value alone, named `read_schema`.
#[verifier::external_body]
fn schema_from_value(value: serde_json::Value) -> (r: Option<schemars::schema::RootSchema>)
    ensures
        r == read_schema(value),
{
    serde_json::from_value(value).ok()
}

/// The typed schema of the parameters of a tool; `None` where there are no parameters, or where
/// they are not written as a schema.
pub fn root_schema(params: Option<&serde_json::Value>) -> (r: Option<schemars::schema::RootSchema>)
    ensures
        r == match params {
            Some(v) => read_schema(*v),
            None => None,
        },
{
    match params {
        Some(v) => schema_from_value(v.clone()),
        None => None,
    }
}

} // verus!
