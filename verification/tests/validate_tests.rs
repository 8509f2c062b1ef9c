use std::collections::BTreeMap;

use openapi_forge::Spec;
use terraform_forge::{CrudMapping, IdentityConfig, ResourceMeta, ResourceSpec};
use terraform_forge_cli::terraform::{describe_failure, ValidationFailure};
use terraform_forge_cli::validate::{check_resource, summarize, verdict, ValidationSummary};

const SPEC: &str = r#"
openapi: "3.0.0"
info: { title: Test, version: "1.0" }
paths:
  /create-secret:
    post:
      operationId: createSecret
      responses:
        "200": { description: ok }
  /describe-item:
    post:
      operationId: describeItem
      responses:
        "200": { description: ok }
  /delete-item:
    post:
      operationId: deleteItem
      responses:
        "200": { description: ok }
components:
  schemas:
    createSecret: { type: object }
    describeItem: { type: object }
    deleteItem: { type: object }
"#;

fn resource(create_endpoint: &str, update_schema: Option<&str>) -> ResourceSpec {
    ResourceSpec {
        resource: ResourceMeta {
            name: "test_secret".to_string(),
            description: String::new(),
            category: String::new(),
        },
        crud: CrudMapping {
            create_endpoint: create_endpoint.to_string(),
            create_schema: "createSecret".to_string(),
            update_endpoint: None,
            update_schema: update_schema.map(|s| s.to_string()),
            read_endpoint: "/describe-item".to_string(),
            read_schema: "describeItem".to_string(),
            read_response_schema: None,
            delete_endpoint: "/delete-item".to_string(),
            delete_schema: "deleteItem".to_string(),
        },
        identity: IdentityConfig {
            id_field: "name".to_string(),
            import_field: None,
            force_new_fields: vec!["name".to_string()],
        },
        fields: BTreeMap::new(),
        read_mapping: BTreeMap::new(),
    }
}

#[test]
fn check_resource_accepts_a_fitting_spec() {
    let api = Spec::parse(SPEC).unwrap();
    let c = check_resource(&resource("/create-secret", None), &api);
    assert_eq!(c.name, "test_secret");
    assert!(c.outcome.is_ok());
}

#[test]
fn check_resource_rejects_unknown_schema_or_endpoint() {
    let api = Spec::parse(SPEC).unwrap();
    assert!(check_resource(&resource("/create-secret", Some("missingSchema")), &api).outcome.is_err());
    assert!(check_resource(&resource("/create-other", None), &api).outcome.is_err());
}

#[test]
fn check_resource_names_the_first_missing_schema() {
    let api = Spec::parse(SPEC).unwrap();
    let mut r = resource("/create-other", Some("missingUpdate"));
    r.crud.read_schema = "missingRead".to_string();
    r.crud.read_response_schema = Some("missingResponse".to_string());
    match check_resource(&r, &api).outcome {
        Err(ValidationFailure::SchemaNotFound(s)) => assert_eq!(s, "missingRead"),
        _ => panic!("expected the read schema to be reported"),
    }
    r.crud.read_schema = "describeItem".to_string();
    match check_resource(&r, &api).outcome {
        Err(ValidationFailure::SchemaNotFound(s)) => assert_eq!(s, "missingUpdate"),
        _ => panic!("expected the update schema to be reported"),
    }
    r.crud.update_schema = None;
    let outcome = check_resource(&r, &api).outcome;
    match &outcome {
        Err(ValidationFailure::SchemaNotFound(s)) => assert_eq!(s, "missingResponse"),
        _ => panic!("expected the read response schema to be reported"),
    }
    if let Err(f) = &outcome {
        assert_eq!(describe_failure(f), "schema not found in spec: missingResponse");
    }
}

#[test]
fn check_resource_names_the_missing_create_endpoint_last() {
    let api = Spec::parse(SPEC).unwrap();
    let outcome = check_resource(&resource("/create-other", None), &api).outcome;
    match &outcome {
        Err(ValidationFailure::MissingEndpoint { resource, endpoint }) => {
            assert_eq!(resource, "test_secret");
            assert_eq!(endpoint, "/create-other");
        }
        _ => panic!("expected the create endpoint to be reported"),
    }
    if let Err(f) = &outcome {
        assert_eq!(describe_failure(f), "missing CRUD endpoint: test_secret needs /create-other");
    }
}

#[test]
fn summarize_counts_each_outcome() {
    let s = summarize(&vec![true, false, true, true, false]);
    assert_eq!(s.passed, 3);
    assert_eq!(s.failed, 2);
    let empty = summarize(&Vec::new());
    assert_eq!((empty.passed, empty.failed), (0, 0));
}

#[test]
fn verdict_fails_with_the_count() {
    assert!(verdict(&ValidationSummary { passed: 4, failed: 0 }).is_ok());
    assert_eq!(
        verdict(&ValidationSummary { passed: 1, failed: 12 }).unwrap_err(),
        "12 validation error(s)"
    );
}
