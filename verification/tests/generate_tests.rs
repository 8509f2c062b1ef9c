use std::collections::BTreeMap;

use openapi_forge::Spec;
use terraform_forge::{
    AuthConfig, CrudMapping, FieldOverride, IdentityConfig, ProviderDefaults, ProviderMeta,
    ProviderSpec, ResourceMeta, ResourceSpec,
};
use terraform_forge_cli::terraform::describe_failure;
use terraform_forge_cli::generate::{
    missing_provider_message, provider_source, resource_file_source, FileSource, GenerateRun,
    ProviderSource, ResourceStep,
};

const SPEC: &str = r#"
openapi: "3.0.0"
info: { title: Test, version: "1.0" }
paths:
  /create-secret:
    post:
      operationId: createSecret
      requestBody:
        content:
          application/json:
            schema:
              $ref: '#/components/schemas/createSecret'
      responses:
        "200": { description: ok }
  /describe-item:
    post:
      operationId: describeItem
      responses:
        "200": { description: ok }
  /delete-item:
    post:
      operationId: deleteItem
      responses:
        "200": { description: ok }
components:
  schemas:
    createSecret:
      type: object
      required: [name, value]
      properties:
        name: { type: string }
        value: { type: string }
    describeItem:
      type: object
      properties:
        name: { type: string }
    deleteItem:
      type: object
      properties:
        name: { type: string }
"#;

fn provider() -> ProviderSpec {
    ProviderSpec {
        provider: ProviderMeta {
            name: "test".to_string(),
            description: "Test provider".to_string(),
            version: "0.1.0".to_string(),
            sdk_import: "github.com/test/sdk".to_string(),
        },
        auth: AuthConfig {
            token_field: "token".to_string(),
            env_var: "TEST_TOKEN".to_string(),
            gateway_url_field: "url".to_string(),
            gateway_env_var: "TEST_URL".to_string(),
        },
        defaults: ProviderDefaults { skip_fields: vec!["token".to_string()] },
    }
}

fn resource(create_schema: &str) -> ResourceSpec {
    let mut fields = BTreeMap::new();
    fields.insert("token".to_string(), FieldOverride { skip: true, ..FieldOverride::default() });
    ResourceSpec {
        resource: ResourceMeta {
            name: "test_secret".to_string(),
            description: "Test secret".to_string(),
            category: "secret".to_string(),
        },
        crud: CrudMapping {
            create_endpoint: "/create-secret".to_string(),
            create_schema: create_schema.to_string(),
            update_endpoint: None,
            update_schema: None,
            read_endpoint: "/describe-item".to_string(),
            read_schema: "describeItem".to_string(),
            read_response_schema: None,
            delete_endpoint: "/delete-item".to_string(),
            delete_schema: "deleteItem".to_string(),
        },
        identity: IdentityConfig {
            id_field: "name".to_string(),
            import_field: None,
            force_new_fields: vec!["name".to_string()],
        },
        fields,
        read_mapping: BTreeMap::new(),
    }
}

#[test]
fn provider_source_prefers_the_given_spec() {
    assert!(matches!(provider_source(true, true), ProviderSource::Given));
    assert!(matches!(provider_source(true, false), ProviderSource::Given));
    assert!(matches!(provider_source(false, true), ProviderSource::Default));
    assert!(matches!(provider_source(false, false), ProviderSource::Missing));
    assert_eq!(missing_provider_message(), "No provider.toml found. Use --provider to specify one.");
}

#[test]
fn override_replaces_generated_code() {
    assert!(matches!(resource_file_source(true), FileSource::CopyOverride));
    assert!(matches!(resource_file_source(false), FileSource::WriteGenerated));
}

#[test]
fn process_generates_a_fitting_resource() {
    let api = Spec::parse(SPEC).unwrap();
    let mut run = GenerateRun::new();
    match run.process(&resource("createSecret"), &api, &provider()) {
        Ok(ResourceStep::Generated(g)) => {
            assert_eq!(g.resource_file, "resource_test_secret.go");
            assert_eq!(g.test_file, "resource_test_secret_test.go");
            assert!(!g.resource_code.is_empty());
            assert!(!g.test_code.is_empty());
        }
        _ => panic!("expected the resource to be generated"),
    }
    assert_eq!(run.generated_count(), 1);
    assert_eq!(run.skipped_count(), 0);
    let code = run.provider_code(&provider());
    assert!(code.contains("TestSecret"));
}

#[test]
fn process_skips_a_resource_that_does_not_fit() {
    let api = Spec::parse(SPEC).unwrap();
    let mut run = GenerateRun::new();
    match run.process(&resource("noSuchSchema"), &api, &provider()) {
        Ok(ResourceStep::Skipped(e)) => {
            assert_eq!(describe_failure(&e), "schema not found in spec: noSuchSchema")
        }
        _ => panic!("expected the resource to be skipped"),
    }
    assert_eq!(run.generated_count(), 0);
    assert_eq!(run.skipped_count(), 1);
}

#[test]
fn record_steps_update_the_run() {
    let mut run = GenerateRun::new();
    run.record_generated("StaticSecret".to_string(), "akeyless_static_secret".to_string());
    run.record_skipped();
    run.record_skipped();
    assert_eq!(run.generated_count(), 1);
    assert_eq!(run.skipped_count(), 2);
    let code = run.provider_code(&provider());
    assert!(code.contains("StaticSecret"));
}

#[test]
fn every_processed_resource_is_counted_once() {
    let api = Spec::parse(SPEC).unwrap();
    let mut run = GenerateRun::new();
    let specs = [resource("createSecret"), resource("nope"), resource("createSecret"), resource("alsoNope")];
    for r in &specs {
        assert!(run.process(r, &api, &provider()).is_ok());
    }
    assert_eq!(run.generated_count() + run.skipped_count(), specs.len());
    assert_eq!(run.skipped_count(), 2);
}
