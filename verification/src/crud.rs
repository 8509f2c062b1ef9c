//! The CRUD groups of an API spec, as plain values the commands read.

use vstd::prelude::*;

verus! {

/// One endpoint of a CRUD group: its path and the schema of its request body.
pub struct Endpoint {
    pub path: String,
    pub request_schema_ref: Option<String>,
}

/// Endpoints that create, read, update and delete one kind of resource.
pub struct CrudGroup {
    pub base_name: String,
    pub create: Option<Endpoint>,
    pub read: Option<Endpoint>,
    pub update: Option<Endpoint>,
    pub delete: Option<Endpoint>,
}

/// The mathematical value of an [`Endpoint`].
pub struct EndpointView {
    pub path: Seq<char>,
    pub request_schema_ref: Option<Seq<char>>,
}

/// The mathematical value of a [`CrudGroup`].
pub struct CrudGroupView {
    pub base_name: Seq<char>,
    pub create: Option<EndpointView>,
    pub read: Option<EndpointView>,
    pub update: Option<EndpointView>,
    pub delete: Option<EndpointView>,
}

/// The character view of an optional string.
pub open spec fn opt_view(o: Option<String>) -> Option<Seq<char>> {
    match o {
        Some(s) => Some(s@),
        None => None,
    }
}

/// The view of an optional endpoint.
pub open spec fn opt_endpoint_view(o: Option<Endpoint>) -> Option<EndpointView> {
    match o {
        Some(e) => Some(e@),
        None => None,
    }
}

impl View for Endpoint {
    type V = EndpointView;

    open spec fn view(&self) -> EndpointView {
        EndpointView { path: self.path@, request_schema_ref: opt_view(self.request_schema_ref) }
    }
}

impl View for CrudGroup {
    type V = CrudGroupView;

    open spec fn view(&self) -> CrudGroupView {
        CrudGroupView {
            base_name: self.base_name@,
            create: opt_endpoint_view(self.create),
            read: opt_endpoint_view(self.read),
            update: opt_endpoint_view(self.update),
            delete: opt_endpoint_view(self.delete),
        }
    }
}

/// The views of a list of groups.
pub open spec fn group_views(gs: Seq<CrudGroup>) -> Seq<CrudGroupView> {
    gs.map_values(|g: CrudGroup| g@)
}

/// A group can become a resource when it can be both created and deleted.
pub open spec fn has_create_and_delete(g: CrudGroupView) -> bool {
    g.create is Some && g.delete is Some
}

/// Whether the group has both a create and a delete endpoint.
pub fn creates_and_deletes(g: &CrudGroup) -> (r: bool)
    ensures
        r == has_create_and_delete(g@),
{
    g.create.is_some() && g.delete.is_some()
}


/// The CRUD section of a resource spec: the endpoint and request schema for
/// each operation (update is optional).
pub struct ResourceCrud {
    pub create_endpoint: String,
    pub create_schema: String,
    pub update_endpoint: Option<String>,
    pub update_schema: Option<String>,
    pub read_endpoint: String,
    pub read_schema: String,
    pub delete_endpoint: String,
    pub delete_schema: String,
}

/// The mathematical value of a [`ResourceCrud`].
pub struct ResourceCrudView {
    pub create_endpoint: Seq<char>,
    pub create_schema: Seq<char>,
    pub update_endpoint: Option<Seq<char>>,
    pub update_schema: Option<Seq<char>>,
    pub read_endpoint: Seq<char>,
    pub read_schema: Seq<char>,
    pub delete_endpoint: Seq<char>,
    pub delete_schema: Seq<char>,
}

impl View for ResourceCrud {
    type V = ResourceCrudView;

    open spec fn view(&self) -> ResourceCrudView {
        ResourceCrudView {
            create_endpoint: self.create_endpoint@,
            create_schema: self.create_schema@,
            update_endpoint: opt_view(self.update_endpoint),
            update_schema: opt_view(self.update_schema),
            read_endpoint: self.read_endpoint@,
            read_schema: self.read_schema@,
            delete_endpoint: self.delete_endpoint@,
            delete_schema: self.delete_schema@,
        }
    }
}

/// A resource defined by a resource spec: its name and its CRUD section.
pub struct DefinedResource {
    pub name: String,
    pub crud: ResourceCrud,
}

/// The mathematical value of a [`DefinedResource`].
pub struct DefinedResourceView {
    pub name: Seq<char>,
    pub crud: ResourceCrudView,
}

impl View for DefinedResource {
    type V = DefinedResourceView;

    open spec fn view(&self) -> DefinedResourceView {
        DefinedResourceView { name: self.name@, crud: self.crud@ }
    }
}

/// The views of a list of defined resources.
pub open spec fn defined_views(rs: Seq<DefinedResource>) -> Seq<DefinedResourceView> {
    rs.map_values(|r: DefinedResource| r@)
}

} // verus!
