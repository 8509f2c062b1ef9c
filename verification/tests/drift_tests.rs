use openapi_forge::Spec;
use terraform_forge_cli::crud::{CrudGroup, DefinedResource, Endpoint, ResourceCrud};
use terraform_forge_cli::drift::{
    changed_resource_stems, crud_matches, defined_resource_stems, drift, drift_for_spec, offered_resource_stems,
};

fn strings(items: &[&str]) -> Vec<String> {
    items.iter().map(|s| s.to_string()).collect()
}

fn endpoint(path: &str) -> Option<Endpoint> {
    Some(Endpoint { path: path.to_string(), request_schema_ref: None })
}

fn group(base: &str, create: bool, delete: bool) -> CrudGroup {
    CrudGroup {
        base_name: base.to_string(),
        create: if create { endpoint(&format!("/create-{base}")) } else { None },
        read: None,
        update: None,
        delete: if delete { endpoint(&format!("/delete-{base}")) } else { None },
    }
}

/// A resource whose CRUD section names the endpoints that `group` gives its base.
fn defined(name: &str, base: &str) -> DefinedResource {
    DefinedResource {
        name: name.to_string(),
        crud: ResourceCrud {
            create_endpoint: format!("/create-{base}"),
            create_schema: "TODO".to_string(),
            update_endpoint: None,
            update_schema: None,
            read_endpoint: "TODO".to_string(),
            read_schema: "TODO".to_string(),
            delete_endpoint: format!("/delete-{base}"),
            delete_schema: "TODO".to_string(),
        },
    }
}

fn named(names: &[&str]) -> Vec<DefinedResource> {
    names.iter().map(|n| defined(n, "none")).collect()
}

#[test]
fn offered_stems_need_create_and_delete() {
    let groups = vec![group("auth-method", true, true), group("item", false, true), group("target-x", true, true)];
    assert_eq!(offered_resource_stems(&groups), strings(&["auth_method", "target_x"]));
}

#[test]
fn defined_stems_drop_the_provider_prefix() {
    let names = named(&["akeyless_auth_method", "custom", "akeyless_"]);
    assert_eq!(defined_resource_stems(&names), strings(&["auth_method", "custom", ""]));
}

#[test]
fn drift_reports_missing_extra_and_coverage() {
    let groups = vec![
        group("static-secret", true, true),
        group("auth-method", true, true),
        group("item", false, true),
        group("target", true, true),
    ];
    let defined = vec![
        defined("akeyless_auth_method", "auth-method"),
        defined("akeyless_orphan", "orphan"),
        defined("static_secret", "static-secret"),
        defined("akeyless_auth_method", "auth-method"),
    ];
    let d = drift(&groups, &defined);
    assert_eq!(d.missing, strings(&["target"]));
    assert_eq!(d.extra, strings(&["orphan"]));
    assert!(d.changed.is_empty());
    assert_eq!(d.covered, 2);
    assert_eq!(d.offered, 3);
    assert_eq!(d.covered + d.missing.len(), d.offered);
}

const SPEC: &str = r#"
openapi: "3.0.0"
info: { title: Drift, version: "1.0" }
paths:
  /create-widget-thing:
    post:
      responses:
        "200": { description: ok }
  /delete-widget-thing:
    post:
      responses:
        "200": { description: ok }
  /create-gadget:
    post:
      responses:
        "200": { description: ok }
components:
  schemas: {}
"#;

#[test]
fn drift_for_spec_reads_the_groups_of_the_spec() {
    let api = Spec::parse(SPEC).unwrap();
    let d = drift_for_spec(&api, &named(&["akeyless_other"]));
    assert_eq!(d.missing, strings(&["widget_thing"]));
    assert_eq!(d.extra, strings(&["other"]));
    assert_eq!(d.covered, 0);
    assert_eq!(d.offered, 1);
    assert!(d.changed.is_empty());
}

#[test]
fn drift_for_spec_flags_a_changed_endpoint() {
    let api = Spec::parse(SPEC).unwrap();
    let mut moved = defined("akeyless_widget_thing", "widget-thing");
    moved.crud.delete_endpoint = "/remove-widget-thing".to_string();
    let d = drift_for_spec(&api, &vec![moved]);
    assert!(d.missing.is_empty());
    assert_eq!(d.changed, strings(&["widget_thing"]));
    assert_eq!(d.covered, 1);
}

#[test]
fn crud_matches_checks_endpoints_and_named_schemas() {
    let g = group("secret", true, true);
    let r = defined("akeyless_secret", "secret");
    assert!(crud_matches(&r.crud, &g));
    let mut other_create = defined("akeyless_secret", "secret").crud;
    other_create.create_endpoint = "/create-other".to_string();
    assert!(!crud_matches(&other_create, &g));
    let mut with_schema = group("secret", true, true);
    with_schema.create = Some(Endpoint { path: "/create-secret".to_string(), request_schema_ref: Some("createSecret".to_string()) });
    assert!(!crud_matches(&r.crud, &with_schema));
    let mut named_schema = defined("akeyless_secret", "secret").crud;
    named_schema.create_schema = "createSecret".to_string();
    assert!(crud_matches(&named_schema, &with_schema));
    let mut with_update = group("secret", true, true);
    with_update.update = Some(Endpoint { path: "/update-secret".to_string(), request_schema_ref: None });
    assert!(!crud_matches(&r.crud, &with_update));
    let mut updating = defined("akeyless_secret", "secret").crud;
    updating.update_endpoint = Some("/update-secret".to_string());
    assert!(crud_matches(&updating, &with_update));
}

#[test]
fn changed_stems_list_only_offered_resources_that_disagree() {
    let groups = vec![group("secret", true, true), group("target", true, true), group("item", false, true)];
    let mut moved = defined("akeyless_target", "target");
    moved.crud.create_endpoint = "/create-target-v2".to_string();
    let defined = vec![
        defined("akeyless_secret", "secret"),
        moved,
        defined("akeyless_item", "other"),
        defined("akeyless_unknown", "unknown"),
    ];
    assert_eq!(changed_resource_stems(&groups, &defined), strings(&["target"]));
    let d = drift(&groups, &defined);
    assert_eq!(d.changed, strings(&["target"]));
    assert_eq!(d.extra, strings(&["item", "unknown"]));
}
