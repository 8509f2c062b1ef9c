use openapi_forge::Spec;
use terraform_forge_cli::diff::{diff_names, diff_specs};

fn strings(items: &[&str]) -> Vec<String> {
    items.iter().map(|s| s.to_string()).collect()
}

const OLD_SPEC: &str = r#"
openapi: "3.0.0"
info: { title: Old, version: "1.0" }
paths:
  /create-secret:
    post:
      responses:
        "200": { description: ok }
  /delete-item:
    post:
      responses:
        "200": { description: ok }
components:
  schemas:
    createSecret: { type: object }
    deleteItem: { type: object }
"#;

const NEW_SPEC: &str = r#"
openapi: "3.0.0"
info: { title: New, version: "2.0" }
paths:
  /create-secret:
    post:
      responses:
        "200": { description: ok }
  /update-secret:
    post:
      responses:
        "200": { description: ok }
  /describe-item:
    get:
      responses:
        "200": { description: ok }
    post:
      responses:
        "200": { description: ok }
components:
  schemas:
    createSecret: { type: object }
    updateSecret: { type: object }
    describeItem: { type: object }
    Other: { type: object }
"#;

#[test]
fn diff_names_reports_both_sides() {
    let d = diff_names(
        &strings(&["/a", "/b", "/c"]),
        &strings(&["/c", "/d", "/a", "/e", "/d"]),
        &strings(&["S1", "S2"]),
        &strings(&["S2", "S3", "S4"]),
    );
    assert_eq!(d.added, strings(&["/d", "/e"]));
    assert_eq!(d.removed, strings(&["/b"]));
    assert_eq!(d.added_schemas, 2);
    assert_eq!(d.removed_schemas, 1);
}

#[test]
fn diff_specs_compares_loaded_specs() {
    let old = Spec::parse(OLD_SPEC).unwrap();
    let new = Spec::parse(NEW_SPEC).unwrap();
    let d = diff_specs(&old, &new);
    assert_eq!(d.added, strings(&["/describe-item", "/update-secret"]));
    assert_eq!(d.removed, strings(&["/delete-item"]));
    assert_eq!(d.added_schemas, 3);
    assert_eq!(d.removed_schemas, 1);
}

#[test]
fn diff_reversed_swaps_sides() {
    let old = Spec::parse(OLD_SPEC).unwrap();
    let new = Spec::parse(NEW_SPEC).unwrap();
    let forward = diff_specs(&old, &new);
    let backward = diff_specs(&new, &old);
    assert_eq!(forward.added, backward.removed);
    assert_eq!(forward.removed, backward.added);
    assert_eq!(forward.added_schemas, backward.removed_schemas);
    assert_eq!(forward.removed_schemas, backward.added_schemas);
}

#[test]
fn diff_of_a_spec_with_itself_is_empty() {
    let spec = Spec::parse(NEW_SPEC).unwrap();
    let d = diff_specs(&spec, &spec);
    assert!(d.added.is_empty());
    assert!(d.removed.is_empty());
    assert_eq!(d.added_schemas, 0);
    assert_eq!(d.removed_schemas, 0);
}
