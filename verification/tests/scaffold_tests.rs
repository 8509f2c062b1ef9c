use openapi_forge::Spec;
use terraform_forge_cli::crud::{CrudGroup, DefinedResource, Endpoint};
use terraform_forge_cli::drift::drift;
use terraform_forge_cli::scaffold::{draft, drafted_crud_of, plan_scaffold, resource_toml_text, scaffold_spec};

fn ep(path: &str, schema: Option<&str>) -> Option<Endpoint> {
    Some(Endpoint { path: path.to_string(), request_schema_ref: schema.map(|s| s.to_string()) })
}

fn full_group() -> CrudGroup {
    CrudGroup {
        base_name: "auth-method-aws".to_string(),
        create: ep("/auth-method-create-aws", Some("authMethodCreateAws")),
        read: ep("/get-auth-method", Some("getAuthMethod")),
        update: ep("/auth-method-update-aws", None),
        delete: ep("/delete-auth-method", Some("deleteAuthMethod")),
    }
}

const TAIL: &str = "
[identity]
id_field = \"name\"
force_new_fields = [\"name\"]

[fields]
token = { skip = true }
uid_token = { skip = true }
json = { skip = true }
";

#[test]
fn resource_toml_text_full_group() {
    let expected = format!(
        "[resource]
name = \"akeyless_auth_method_aws\"
description = \"\"
category = \"\"

[crud]
create_endpoint = \"/auth-method-create-aws\"
create_schema = \"authMethodCreateAws\"
update_endpoint = \"/auth-method-update-aws\"
update_schema = \"TODO\"
read_endpoint = \"/get-auth-method\"
read_schema = \"getAuthMethod\"
delete_endpoint = \"/delete-auth-method\"
delete_schema = \"deleteAuthMethod\"
{TAIL}"
    );
    assert_eq!(resource_toml_text(&full_group()), expected);
}

#[test]
fn resource_toml_text_without_read_or_update() {
    let g = CrudGroup {
        base_name: "secret".to_string(),
        create: ep("/create-secret", None),
        read: None,
        update: None,
        delete: ep("/delete-secret", None),
    };
    let expected = format!(
        "[resource]
name = \"akeyless_secret\"
description = \"\"
category = \"\"

[crud]
create_endpoint = \"/create-secret\"
create_schema = \"TODO\"
read_endpoint = \"TODO\"
read_schema = \"TODO\"
delete_endpoint = \"/delete-secret\"
delete_schema = \"TODO\"
{TAIL}"
    );
    assert_eq!(resource_toml_text(&g), expected);
}

#[test]
fn draft_names_file_and_resource() {
    let f = draft(&full_group());
    assert_eq!(f.file_name, "auth_method_aws.toml");
    assert_eq!(f.resource_name, "akeyless_auth_method_aws");
}

#[test]
fn plan_scaffold_filters_by_pattern_and_crud() {
    let mut no_delete = full_group();
    no_delete.base_name = "auth-method-gcp".to_string();
    no_delete.delete = None;
    let mut target = full_group();
    target.base_name = "target-db".to_string();
    let groups = vec![full_group(), no_delete, target];
    let all = plan_scaffold(&groups, None);
    let names: Vec<&str> = all.iter().map(|f| f.file_name.as_str()).collect();
    assert_eq!(names, vec!["auth_method_aws.toml", "target_db.toml"]);
    let some = plan_scaffold(&groups, Some("auth-method-*"));
    let names: Vec<&str> = some.iter().map(|f| f.file_name.as_str()).collect();
    assert_eq!(names, vec!["auth_method_aws.toml"]);
    assert!(plan_scaffold(&groups, Some("*nothing*")).is_empty());
    let ends: Vec<String> = plan_scaffold(&groups, Some("*-db"))
        .iter()
        .map(|f| f.file_name.clone())
        .collect();
    assert_eq!(ends, vec!["target_db.toml".to_string()]);
    assert!(plan_scaffold(&groups, Some("method")).is_empty());
}

#[test]
fn pattern_is_a_whole_name_glob() {
    let mut axb = full_group();
    axb.base_name = "axb".to_string();
    let mut wrapped = full_group();
    wrapped.base_name = "x-auth-method-y".to_string();
    let groups = vec![axb, wrapped];
    let star: Vec<String> = plan_scaffold(&groups, Some("a*b")).iter().map(|f| f.file_name.clone()).collect();
    assert_eq!(star, vec!["axb.toml".to_string()]);
    assert!(plan_scaffold(&groups, Some("auth-method-*")).is_empty());
    let inner: Vec<String> = plan_scaffold(&groups, Some("*auth-method*")).iter().map(|f| f.file_name.clone()).collect();
    assert_eq!(inner, vec!["x_auth_method_y.toml".to_string()]);
}

#[test]
fn full_scaffold_leaves_no_drift() {
    let mut no_delete = full_group();
    no_delete.base_name = "auth-method-gcp".to_string();
    no_delete.delete = None;
    let mut target = full_group();
    target.base_name = "target-db".to_string();
    let groups = vec![full_group(), no_delete, target];
    let files = plan_scaffold(&groups, None);
    let drafted: Vec<&CrudGroup> = groups.iter().filter(|g| g.create.is_some() && g.delete.is_some()).collect();
    assert_eq!(files.len(), drafted.len());
    let defined: Vec<DefinedResource> = files
        .iter()
        .zip(drafted)
        .map(|(f, g)| DefinedResource { name: f.resource_name.clone(), crud: drafted_crud_of(g) })
        .collect();
    let d = drift(&groups, &defined);
    assert!(d.missing.is_empty());
    assert!(d.extra.is_empty());
    assert!(d.changed.is_empty());
    assert_eq!(d.covered, d.offered);
    assert_eq!(d.offered, 2);
}

const SPEC: &str = r#"
openapi: "3.0.0"
info: { title: Scaffold, version: "1.0" }
paths:
  /create-widget-thing:
    post:
      requestBody:
        content:
          application/json:
            schema:
              $ref: '#/components/schemas/createWidget'
      responses:
        "200": { description: ok }
  /delete-widget-thing:
    post:
      responses:
        "200": { description: ok }
  /get-gadget:
    post:
      responses:
        "200": { description: ok }
components:
  schemas:
    createWidget: { type: object }
"#;

#[test]
fn scaffold_spec_drafts_from_a_loaded_spec() {
    let api = Spec::parse(SPEC).unwrap();
    let plan = scaffold_spec(&api, None);
    assert_eq!(plan.group_count, 2);
    assert_eq!(plan.files.len(), 1);
    let f = &plan.files[0];
    assert_eq!(f.file_name, "widget_thing.toml");
    assert!(f.contents.contains("create_schema = \"createWidget\"\n"));
    assert!(f.contents.contains("delete_endpoint = \"/delete-widget-thing\"\n"));
    assert!(f.contents.contains("read_endpoint = \"TODO\"\n"));
}
