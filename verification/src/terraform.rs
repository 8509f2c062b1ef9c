//! What the library relies on from `terraform_forge`: the resource and
//! provider spec types, validation, and code generation.

use vstd::prelude::*;
use openapi_forge::Spec;
use terraform_forge::{ForgeError, ProviderSpec, ResourceSpec};
use crate::listing::views;
use crate::openapi::{endpoint_paths_of, schema_names_of};
use crate::text::join_text;

verus! {

/// `terraform_forge::ResourceSpec`, carried through opaque.
#[verifier::external_type_specification]
#[verifier::external_body]
pub struct ExResourceSpec(terraform_forge::ResourceSpec);

/// `terraform_forge::ProviderSpec`, carried through opaque.
#[verifier::external_type_specification]
#[verifier::external_body]
pub struct ExProviderSpec(terraform_forge::ProviderSpec);

/// `terraform_forge::ForgeError`, carried through opaque.
#[verifier::external_type_specification]
#[verifier::external_body]
pub struct ExForgeError(terraform_forge::ForgeError);

/// The fields of a resource spec that naming and validation read.
pub struct ResourceFields {
    /// `resource.name`
    pub name: Seq<char>,
    /// `crud.create_endpoint`
    pub create_endpoint: Seq<char>,
    /// `crud.create_schema`
    pub create_schema: Seq<char>,
    /// `crud.update_schema`
    pub update_schema: Option<Seq<char>>,
    /// `crud.read_schema`
    pub read_schema: Seq<char>,
    /// `crud.read_response_schema`
    pub read_response_schema: Option<Seq<char>>,
    /// `crud.delete_schema`
    pub delete_schema: Seq<char>,
}

/// What a resource spec holds in the fields that naming and validation read.
pub uninterp spec fn resource_fields_of(resource: ResourceSpec) -> ResourceFields;

/// What `generate_resource` gives for these arguments (with the provider's
/// defaults and SDK import): `None` where it fails, else the file name, the
/// Go code and the resource type name.
pub uninterp spec fn generated_resource_of(
    resource: ResourceSpec,
    api: Spec,
    provider: ProviderSpec,
) -> Option<(Seq<char>, Seq<char>, Seq<char>)>;

/// What `generate_test` gives for a resource: the file name and the Go code.
pub uninterp spec fn generated_test_of(resource: ResourceSpec) -> (Seq<char>, Seq<char>);

/// What `generate_provider` gives for a provider, the resource type names,
/// the resource names and the data source type names.
pub uninterp spec fn provider_code_of(
    provider: ProviderSpec,
    resource_types: Seq<Seq<char>>,
    resource_names: Seq<Seq<char>>,
    data_source_types: Seq<Seq<char>>,
) -> Seq<char>;

/// An optional schema name is absent or among the known ones.
pub open spec fn optional_schema_known(schema: Option<Seq<char>>, known: Set<Seq<char>>) -> bool {
    match schema {
        Some(s) => known.contains(s),
        None => true,
    }
}

/// The check of `ResourceSpec::validate`: every schema the resource names is
/// a schema of the API, and its create endpoint is an endpoint of the API.
pub open spec fn passes_validation(
    fields: ResourceFields,
    schemas: Set<Seq<char>>,
    endpoints: Set<Seq<char>>,
) -> bool {
    &&& schemas.contains(fields.create_schema)
    &&& schemas.contains(fields.read_schema)
    &&& schemas.contains(fields.delete_schema)
    &&& optional_schema_known(fields.update_schema, schemas)
    &&& optional_schema_known(fields.read_response_schema, schemas)
    &&& endpoints.contains(fields.create_endpoint)
}

/// Reads `resource.name` of a resource spec.
#[verifier::external_body]
pub(crate) fn declared_name(resource: &ResourceSpec) -> (r: String)
    ensures
        r@ == resource_fields_of(*resource).name,
{
    resource.resource.name.clone()
}

/// Why a resource spec does not fit an API spec, as `ResourceSpec::validate`
/// reports it.
pub enum ValidationFailure {
    /// `ForgeError::SchemaNotFound`: a schema the resource spec names is not
    /// a schema of the API.
    SchemaNotFound(String),
    /// `ForgeError::MissingEndpoint`: the create endpoint of the resource is
    /// not an endpoint of the API.
    MissingEndpoint { resource: String, endpoint: String },
    /// Any other `ForgeError`, by its message; validation returns none.
    Other(String),
}

/// The mathematical value of a [`ValidationFailure`].
pub enum ValidationFailureView {
    SchemaNotFound(Seq<char>),
    MissingEndpoint { resource: Seq<char>, endpoint: Seq<char> },
    Other(Seq<char>),
}

impl View for ValidationFailure {
    type V = ValidationFailureView;

    open spec fn view(&self) -> ValidationFailureView {
        match self {
            ValidationFailure::SchemaNotFound(s) => ValidationFailureView::SchemaNotFound(s@),
            ValidationFailure::MissingEndpoint { resource, endpoint } => ValidationFailureView::MissingEndpoint {
                resource: resource@,
                endpoint: endpoint@,
            },
            ValidationFailure::Other(m) => ValidationFailureView::Other(m@),
        }
    }
}

/// The first check of `ResourceSpec::validate` that fails, in its order: the
/// create, read and delete schemas, the update schema and the read response
/// schema where given, then the create endpoint. `None` where all pass.
pub open spec fn first_failure(
    fields: ResourceFields,
    schemas: Set<Seq<char>>,
    endpoints: Set<Seq<char>>,
) -> Option<ValidationFailureView> {
    if !schemas.contains(fields.create_schema) {
        Some(ValidationFailureView::SchemaNotFound(fields.create_schema))
    } else if !schemas.contains(fields.read_schema) {
        Some(ValidationFailureView::SchemaNotFound(fields.read_schema))
    } else if !schemas.contains(fields.delete_schema) {
        Some(ValidationFailureView::SchemaNotFound(fields.delete_schema))
    } else if !optional_schema_known(fields.update_schema, schemas) {
        Some(ValidationFailureView::SchemaNotFound(fields.update_schema->Some_0))
    } else if !optional_schema_known(fields.read_response_schema, schemas) {
        Some(ValidationFailureView::SchemaNotFound(fields.read_response_schema->Some_0))
    } else if !endpoints.contains(fields.create_endpoint) {
        Some(ValidationFailureView::MissingEndpoint { resource: fields.name, endpoint: fields.create_endpoint })
    } else {
        None
    }
}

/// The message of a validation failure, as `ForgeError` displays it.
pub open spec fn failure_description(f: ValidationFailureView) -> Seq<char> {
    match f {
        ValidationFailureView::SchemaNotFound(s) => "schema not found in spec: "@ + s,
        ValidationFailureView::MissingEndpoint { resource, endpoint } => "missing CRUD endpoint: "@ + resource
            + " needs "@ + endpoint,
        ValidationFailureView::Other(m) => m,
    }
}

/// Calls `ResourceSpec::validate`. Claims what its source does: it checks,
/// in order, that the create, read and delete schemas, and the update and
/// read response schemas where given, are schemas of the API (`Spec::schema`,
/// which looks up the same table as `Spec::schema_names`), failing with
/// `SchemaNotFound` and the first missing name; then that the create endpoint
/// is the path of one of its endpoints (`Spec::endpoint_by_path`), failing
/// with `MissingEndpoint` and the resource's name and that endpoint. It
/// returns no other error.
#[verifier::external_body]
pub(crate) fn validate_resource(resource: &ResourceSpec, api: &Spec) -> (r: Result<(), ValidationFailure>)
    ensures
        match r {
            Ok(()) => first_failure(
                resource_fields_of(*resource),
                schema_names_of(*api).to_set(),
                endpoint_paths_of(*api).to_set(),
            ) is None,
            Err(f) => first_failure(
                resource_fields_of(*resource),
                schema_names_of(*api).to_set(),
                endpoint_paths_of(*api).to_set(),
            ) == Some(f@),
        },
{
    match resource.validate(api) {
        Ok(()) => Ok(()),
        Err(ForgeError::SchemaNotFound(s)) => Err(ValidationFailure::SchemaNotFound(s)),
        Err(ForgeError::MissingEndpoint { resource, endpoint }) => Err(ValidationFailure::MissingEndpoint { resource, endpoint }),
        Err(e) => Err(ValidationFailure::Other(format!("{e}"))),
    }
}

/// A resource spec passes validation exactly when no check fails.
pub proof fn lemma_passes_without_failure(
    fields: ResourceFields,
    schemas: Set<Seq<char>>,
    endpoints: Set<Seq<char>>,
)
    ensures
        passes_validation(fields, schemas, endpoints) <==> first_failure(fields, schemas, endpoints) is None,
{
}

/// The message of a validation failure.
pub fn describe_failure(f: &ValidationFailure) -> (m: String)
    ensures
        m@ == failure_description(f@),
{
    match f {
        ValidationFailure::SchemaNotFound(s) => join_text("schema not found in spec: ", s.as_str()),
        ValidationFailure::MissingEndpoint { resource, endpoint } => {
            let head = join_text("missing CRUD endpoint: ", resource.as_str());
            let middle = join_text(head.as_str(), " needs ");
            join_text(middle.as_str(), endpoint.as_str())
        },
        ValidationFailure::Other(m) => m.clone(),
    }
}

/// Calls `generate_resource` with the provider's defaults and SDK import.
/// The result is a function of the arguments; it is named, not described,
/// and the error, where there is one, is not stated.
#[verifier::external_body]
pub(crate) fn generate_resource_code(
    resource: &ResourceSpec,
    api: &Spec,
    provider: &ProviderSpec,
) -> (r: Result<(String, String, String), ForgeError>)
    ensures
        match r {
            Ok(g) => generated_resource_of(*resource, *api, *provider) == Some((g.0@, g.1@, g.2@)),
            Err(_) => generated_resource_of(*resource, *api, *provider) is None,
        },
{
    let g = terraform_forge::generate_resource(resource, api, &provider.defaults, &provider.provider.sdk_import)?;
    Ok((g.file_name, g.go_code, g.resource_type_name))
}

/// Calls `generate_test`. The result is a function of the resource; it is
/// named, not described.
#[verifier::external_body]
pub(crate) fn generate_test_code(resource: &ResourceSpec) -> (r: (String, String))
    ensures
        generated_test_of(*resource) == (r.0@, r.1@),
{
    let t = terraform_forge::generate_test(resource);
    (t.file_name, t.go_code)
}

/// Calls `generate_provider`. The result is a function of the arguments; it
/// is named, not described.
#[verifier::external_body]
pub(crate) fn generate_provider_code(
    provider: &ProviderSpec,
    resource_types: &Vec<String>,
    resource_names: &Vec<String>,
    data_source_types: &Vec<String>,
) -> (r: String)
    ensures
        r@ == provider_code_of(
            *provider,
            views(resource_types@),
            views(resource_names@),
            views(data_source_types@),
        ),
{
    terraform_forge::generate_provider(provider, resource_types, resource_names, data_source_types)
}

} // verus!
