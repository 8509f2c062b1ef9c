//! What the library relies on from `openapi_forge`: the spec type and the
//! queries that the commands make of it.

use vstd::prelude::*;
use openapi_forge::Spec;
use crate::crud::{group_views, CrudGroup, CrudGroupView, Endpoint};
use crate::listing::views;

verus! {

/// `openapi_forge::Spec`, carried through opaque.
#[verifier::external_type_specification]
#[verifier::external_body]
pub struct ExSpec(openapi_forge::Spec);

/// The paths of the endpoints that `Spec::endpoints` lists for `api`, in its order.
pub uninterp spec fn endpoint_paths_of(api: Spec) -> Seq<Seq<char>>;

/// The names that `Spec::schema_names` lists for `api`, in its order.
pub uninterp spec fn schema_names_of(api: Spec) -> Seq<Seq<char>>;

/// The groups that `Spec::group_by_crud_pattern` forms for `api`, in its order,
/// each taken by its base name and its create, read, update and delete endpoints.
pub uninterp spec fn crud_groups_of(api: Spec) -> Seq<CrudGroupView>;

/// Calls `Spec::endpoints` and keeps the path of each endpoint. Claims only
/// that the result is determined by the spec (it is read from the spec's
/// path table, nothing else).
#[verifier::external_body]
pub(crate) fn endpoint_paths(api: &Spec) -> (r: Vec<String>)
    ensures
        views(r@) == endpoint_paths_of(*api),
{
    api.endpoints().into_iter().map(|e| e.path).collect()
}

/// Calls `Spec::schema_names` and copies each name. Claims only that the
/// result is determined by the spec (the keys of its component schemas).
#[verifier::external_body]
pub(crate) fn schema_names(api: &Spec) -> (r: Vec<String>)
    ensures
        views(r@) == schema_names_of(*api),
{
    api.schema_names().into_iter().map(String::from).collect()
}

/// Calls `Spec::group_by_crud_pattern` and keeps, of each group, the base name
/// and the path and request schema of its create, read, update and delete
/// endpoints. Claims only that the result is determined by the spec.
#[verifier::external_body]
pub(crate) fn crud_groups(api: &Spec) -> (r: Vec<CrudGroup>)
    ensures
        group_views(r@) == crud_groups_of(*api),
{
    let ep = |e: openapi_forge::Endpoint| Endpoint { path: e.path, request_schema_ref: e.request_schema_ref };
    api.group_by_crud_pattern().into_iter().map(|g| CrudGroup {
        base_name: g.base_name,
        create: g.create.map(ep),
        read: g.read.map(ep),
        update: g.update.map(ep),
        delete: g.delete.map(ep),
    }).collect()
}

} // verus!
