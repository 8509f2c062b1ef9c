use std::path::{Component, Path, PathBuf};

use terraform_forge_cli::paths::{default_provider_path, path_less, sort_paths, ListedPath, PathComponent};

fn listed(p: &str, index: usize) -> ListedPath {
    let components = Path::new(p)
        .components()
        .map(|c| PathComponent {
            kind: match c {
                Component::Prefix(_) => 0,
                Component::RootDir => 1,
                Component::CurDir => 2,
                Component::ParentDir => 3,
                Component::Normal(_) => 4,
            },
            name: c.as_os_str().to_string_lossy().into_owned(),
        })
        .collect();
    ListedPath { components, index }
}

/// The places in `input` of its paths, in the order `sort_paths` gives them.
fn sorted_indices(input: &[&str]) -> Vec<usize> {
    sort_paths(input.iter().enumerate().map(|(i, p)| listed(p, i)).collect())
        .into_iter()
        .map(|p| p.index)
        .collect()
}

#[test]
fn sort_paths_follows_the_order_of_paths() {
    let input = ["res/b.toml", "res/a-b.toml", "res/a/z.toml", "res/a.toml", "res/a/b.toml", "res/b.toml"];
    let sorted: Vec<PathBuf> = sorted_indices(&input).into_iter().map(|i| PathBuf::from(input[i])).collect();
    let mut expected: Vec<PathBuf> = input.iter().map(PathBuf::from).collect();
    expected.sort();
    assert_eq!(sorted, expected);
    assert_eq!(sorted[0], PathBuf::from("res/a/b.toml"));
}

#[test]
fn sort_paths_keeps_equal_paths_in_given_order() {
    // `a/b`, `a//b` and `a/b/` have the same components.
    let input = ["a/b", "c", "a//b", "a/b/", "c"];
    assert_eq!(sorted_indices(&input), vec![0, 2, 3, 1, 4]);
}

#[test]
fn adding_a_path_inserts_it_at_its_sorted_place() {
    let before = ["res/z.toml", "res/b.toml", "res/a/c.toml"];
    let after = ["res/z.toml", "res/b.toml", "res/a/c.toml", "res/a-c.toml"];
    let sorted_before = sorted_indices(&before);
    let sorted_after = sorted_indices(&after);
    assert_eq!(sorted_before, vec![2, 1, 0]);
    assert_eq!(sorted_after, vec![2, 3, 1, 0]);
}

#[test]
fn adding_a_path_in_the_middle_inserts_it_at_its_sorted_place() {
    let before = ["res/z.toml", "res/a/c.toml", "res/b.toml"];
    let after = ["res/z.toml", "res/b2.toml", "res/a/c.toml", "res/b.toml"];
    assert_eq!(sorted_indices(&before), vec![1, 2, 0]);
    // "res/b2.toml" lands between "res/b.toml" and "res/z.toml"
    assert_eq!(sorted_indices(&after), vec![2, 3, 1, 0]);
    // an equal path added before an existing one goes before it
    let equal = ["res/z.toml", "res//b.toml", "res/a/c.toml", "res/b.toml"];
    assert_eq!(sorted_indices(&equal), vec![2, 1, 3, 0]);
}

fn component_names(p: &str) -> Vec<String> {
    let path = default_provider_path(&listed(p, 0).components);
    path.iter().map(|c| c.name.clone()).collect()
}

fn expected_names(p: &str) -> Vec<String> {
    let dir = Path::new(p);
    dir.parent()
        .unwrap_or(dir)
        .join("provider.toml")
        .components()
        .map(|c| c.as_os_str().to_string_lossy().into_owned())
        .collect()
}

#[test]
fn default_provider_path_is_beside_the_resources_directory() {
    for dir in ["resources", "spec/resources", "/srv/resources/", "/", "", "./res", "a/..", "."] {
        assert_eq!(component_names(dir), expected_names(dir), "for {dir:?}");
    }
    assert_eq!(component_names("spec/resources"), vec!["spec", "provider.toml"]);
    assert_eq!(default_provider_path(&listed("/", 0).components)[0].kind, 1);
}

#[test]
fn path_less_compares_component_by_component() {
    assert!(path_less(&listed("a/b", 0).components, &listed("a-b", 0).components));
    assert!(!path_less(&listed("a-b", 0).components, &listed("a/b", 0).components));
    assert!(path_less(&listed("/x", 0).components, &listed("x", 0).components));
    assert!(!path_less(&listed("a", 0).components, &listed("a", 0).components));
}

#[test]
fn sort_paths_of_nothing_is_nothing() {
    assert!(sort_paths(Vec::new()).is_empty());
}
