use terraform_forge_cli::order::{chars_eq, chars_lt};

fn c(s: &str) -> Vec<char> {
    s.chars().collect()
}

#[test]
fn chars_lt_agrees_with_string_order() {
    let words = ["", "a", "ab", "b", "B", "/a", "/a-b", "/a_b", "ä", "z", "zz"];
    for x in words {
        for y in words {
            assert_eq!(chars_lt(&c(x), &c(y)), x.to_string() < y.to_string(), "{x} vs {y}");
            assert_eq!(chars_eq(&c(x), &c(y)), x == y);
        }
    }
}
