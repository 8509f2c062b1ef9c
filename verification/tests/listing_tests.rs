use terraform_forge_cli::listing::{common_count, difference_count, distinct_count, sorted_difference, sorted_names};

fn strings(items: &[&str]) -> Vec<String> {
    items.iter().map(|s| s.to_string()).collect()
}

#[test]
fn sorted_names_sorts_and_dedups() {
    let v = strings(&["/b", "/a", "/c", "/a"]);
    assert_eq!(sorted_names(&v), strings(&["/a", "/b", "/c"]));
}

#[test]
fn sorted_difference_keeps_only_first_side() {
    let new = strings(&["/z", "/create-x", "/a", "/z"]);
    let old = strings(&["/a", "/q"]);
    assert_eq!(sorted_difference(&new, &old), strings(&["/create-x", "/z"]));
}

#[test]
fn counts_of_sets() {
    let a = strings(&["x", "y", "y", "z"]);
    let b = strings(&["y", "w"]);
    assert_eq!(distinct_count(&a), 3);
    assert_eq!(common_count(&a, &b), 1);
    assert_eq!(difference_count(&a, &b), 2);
}
