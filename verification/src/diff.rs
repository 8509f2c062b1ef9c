//! `diff`: what changed between two versions of an API spec.

use vstd::prelude::*;
use openapi_forge::Spec;
use crate::listing::{difference_count, lemma_listing_len, lemma_listing_unique, lists, name_set, sorted_difference, views};
use crate::openapi::{endpoint_paths, endpoint_paths_of, schema_names, schema_names_of};

verus! {

/// The changes between an old and a new spec.
pub struct SpecDiff {
    /// Endpoint paths of the new spec that the old one lacks, sorted.
    pub added: Vec<String>,
    /// Endpoint paths of the old spec that the new one lacks, sorted.
    pub removed: Vec<String>,
    /// How many schema names the new spec has that the old one lacks.
    pub added_schemas: usize,
    /// How many schema names the old spec has that the new one lacks.
    pub removed_schemas: usize,
}

/// `d` reports the changes from the old endpoint and schema name sets to the new ones.
pub open spec fn reports_diff(
    d: SpecDiff,
    old_endpoints: Set<Seq<char>>,
    new_endpoints: Set<Seq<char>>,
    old_schemas: Set<Seq<char>>,
    new_schemas: Set<Seq<char>>,
) -> bool {
    &&& lists(views(d.added@), new_endpoints.difference(old_endpoints))
    &&& lists(views(d.removed@), old_endpoints.difference(new_endpoints))
    &&& d.added_schemas == new_schemas.difference(old_schemas).len()
    &&& d.removed_schemas == old_schemas.difference(new_schemas).len()
}

/// Compares the endpoint paths and schema names of two specs.
pub fn diff_names(
    old_endpoints: &Vec<String>,
    new_endpoints: &Vec<String>,
    old_schemas: &Vec<String>,
    new_schemas: &Vec<String>,
) -> (d: SpecDiff)
    ensures
        reports_diff(
            d,
            name_set(old_endpoints@),
            name_set(new_endpoints@),
            name_set(old_schemas@),
            name_set(new_schemas@),
        ),
{
    SpecDiff {
        added: sorted_difference(new_endpoints, old_endpoints),
        removed: sorted_difference(old_endpoints, new_endpoints),
        added_schemas: difference_count(new_schemas, old_schemas),
        removed_schemas: difference_count(old_schemas, new_schemas),
    }
}

/// Compares two loaded specs by their endpoint paths and schema names.
pub fn diff_specs(old_spec: &Spec, new_spec: &Spec) -> (d: SpecDiff)
    ensures
        reports_diff(
            d,
            endpoint_paths_of(*old_spec).to_set(),
            endpoint_paths_of(*new_spec).to_set(),
            schema_names_of(*old_spec).to_set(),
            schema_names_of(*new_spec).to_set(),
        ),
{
    let old_endpoints = endpoint_paths(old_spec);
    let new_endpoints = endpoint_paths(new_spec);
    let old_schemas = schema_names(old_spec);
    let new_schemas = schema_names(new_spec);
    diff_names(&old_endpoints, &new_endpoints, &old_schemas, &new_schemas)
}

/// Diffing in the other direction swaps what was added and what was removed.
pub proof fn lemma_diff_reversed(
    forward: SpecDiff,
    backward: SpecDiff,
    old_endpoints: Set<Seq<char>>,
    new_endpoints: Set<Seq<char>>,
    old_schemas: Set<Seq<char>>,
    new_schemas: Set<Seq<char>>,
)
    requires
        reports_diff(forward, old_endpoints, new_endpoints, old_schemas, new_schemas),
        reports_diff(backward, new_endpoints, old_endpoints, new_schemas, old_schemas),
    ensures
        views(forward.added@) == views(backward.removed@),
        views(forward.removed@) == views(backward.added@),
        forward.added_schemas == backward.removed_schemas,
        forward.removed_schemas == backward.added_schemas,
{
    lemma_listing_unique(views(forward.added@), views(backward.removed@));
    lemma_listing_unique(views(forward.removed@), views(backward.added@));
}

/// A spec compared with one of the same endpoints and schemas shows no change.
pub proof fn lemma_diff_unchanged(d: SpecDiff, endpoints: Set<Seq<char>>, schemas: Set<Seq<char>>)
    requires
        reports_diff(d, endpoints, endpoints, schemas, schemas),
    ensures
        d.added@.len() == 0,
        d.removed@.len() == 0,
        d.added_schemas == 0,
        d.removed_schemas == 0,
{
    assert(endpoints.difference(endpoints) =~= Set::empty());
    assert(schemas.difference(schemas) =~= Set::empty());
    if d.added@.len() > 0 {
        assert(views(d.added@).to_set().contains(views(d.added@)[0]));
    }
    if d.removed@.len() > 0 {
        assert(views(d.removed@).to_set().contains(views(d.removed@)[0]));
    }
}

/// No endpoint is reported both added and removed, and every added endpoint
/// is in the new spec, every removed one in the old.
pub proof fn lemma_diff_sides(
    d: SpecDiff,
    old_endpoints: Set<Seq<char>>,
    new_endpoints: Set<Seq<char>>,
    old_schemas: Set<Seq<char>>,
    new_schemas: Set<Seq<char>>,
    path: Seq<char>,
)
    requires
        reports_diff(d, old_endpoints, new_endpoints, old_schemas, new_schemas),
    ensures
        !(views(d.added@).contains(path) && views(d.removed@).contains(path)),
        views(d.added@).contains(path) ==> new_endpoints.contains(path) && !old_endpoints.contains(path),
        views(d.removed@).contains(path) ==> old_endpoints.contains(path) && !new_endpoints.contains(path),
{
    assert(views(d.added@).contains(path) ==> views(d.added@).to_set().contains(path));
    assert(views(d.removed@).contains(path) ==> views(d.removed@).to_set().contains(path));
}


/// The endpoint counts in the summary are the sizes of the two differences.
pub proof fn lemma_diff_counts(
    d: SpecDiff,
    old_endpoints: Set<Seq<char>>,
    new_endpoints: Set<Seq<char>>,
    old_schemas: Set<Seq<char>>,
    new_schemas: Set<Seq<char>>,
)
    requires
        reports_diff(d, old_endpoints, new_endpoints, old_schemas, new_schemas),
    ensures
        d.added@.len() == new_endpoints.difference(old_endpoints).len(),
        d.removed@.len() == old_endpoints.difference(new_endpoints).len(),
{
    lemma_listing_len(views(d.added@), new_endpoints.difference(old_endpoints));
    lemma_listing_len(views(d.removed@), old_endpoints.difference(new_endpoints));
}

} // verus!
