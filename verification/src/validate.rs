//! `validate`: every resource spec checked against the API spec.

use vstd::prelude::*;
use openapi_forge::Spec;
use terraform_forge::ResourceSpec;
use crate::openapi::{endpoint_paths_of, schema_names_of};
use crate::terraform::{
    declared_name, first_failure, lemma_passes_without_failure, passes_validation, resource_fields_of,
    validate_resource, ValidationFailure,
};
use crate::text::{join_text, decimal, decimal_string};

verus! {

/// The outcome of checking one resource spec.
pub struct ResourceCheck {
    /// The name the resource spec declares.
    pub name: String,
    /// `Ok` where the spec fits the API, else the first check that fails.
    pub outcome: Result<(), ValidationFailure>,
}

/// Checks a loaded resource spec against a loaded API spec.
pub fn check_resource(resource: &ResourceSpec, api: &Spec) -> (c: ResourceCheck)
    ensures
        c.name@ == resource_fields_of(*resource).name,
        c.outcome is Ok <==> passes_validation(
            resource_fields_of(*resource),
            schema_names_of(*api).to_set(),
            endpoint_paths_of(*api).to_set(),
        ),
        c.outcome matches Err(f) ==> first_failure(
            resource_fields_of(*resource),
            schema_names_of(*api).to_set(),
            endpoint_paths_of(*api).to_set(),
        ) == Some(f@),
{
    let outcome = validate_resource(resource, api);
    proof {
        lemma_passes_without_failure(
            resource_fields_of(*resource),
            schema_names_of(*api).to_set(),
            endpoint_paths_of(*api).to_set(),
        );
    }
    ResourceCheck { name: declared_name(resource), outcome }
}

/// How many of the results are `value`.
pub open spec fn count_of(results: Seq<bool>, value: bool) -> nat
    decreases results.len(),
{
    if results.len() == 0 {
        0
    } else {
        count_of(results.drop_last(), value) + if results.last() == value { 1nat } else { 0nat }
    }
}

/// How the checked files fared.
pub struct ValidationSummary {
    pub passed: usize,
    pub failed: usize,
}

/// Counts the passed and the failed checks (a file that could not be read
/// or parsed counts as failed).
pub fn summarize(results: &Vec<bool>) -> (s: ValidationSummary)
    ensures
        s.passed == count_of(results@, true),
        s.failed == count_of(results@, false),
        s.passed + s.failed == results@.len(),
{
    let mut passed: usize = 0;
    let mut failed: usize = 0;
    let mut i: usize = 0;
    while i < results.len()
        invariant
            i <= results.len(),
            passed == count_of(results@.take(i as int), true),
            failed == count_of(results@.take(i as int), false),
            passed + failed == i,
        decreases results.len() - i,
    {
        assert(results@.take(i + 1).drop_last() =~= results@.take(i as int));
        if results[i] {
            passed = passed + 1;
        } else {
            failed = failed + 1;
        }
        i = i + 1;
    }
    assert(results@.take(results.len() as int) =~= results@);
    ValidationSummary { passed, failed }
}

/// The message of a run with failures: how many, then ` validation error(s)`.
pub open spec fn failure_message(failed: nat) -> Seq<char> {
    decimal(failed) + " validation error(s)"@
}

/// The result of the whole run: success exactly when nothing failed.
pub fn verdict(s: &ValidationSummary) -> (r: Result<(), String>)
    ensures
        r is Ok <==> s.failed == 0,
        r matches Err(m) ==> m@ == failure_message(s.failed as nat),
{
    if s.failed > 0 {
        let n = decimal_string(s.failed);
        Err(join_text(n.as_str(), " validation error(s)"))
    } else {
        Ok(())
    }
}

} // verus!
