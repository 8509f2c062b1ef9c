use terraform_forge_cli::text::{
    chars_of, decimal_string, glob_match, join_text, string_of, strip_or_keep, underscore_dashes,
};

#[test]
fn underscore_dashes_replaces_every_dash() {
    assert_eq!(underscore_dashes("auth-method-aws-iam"), "auth_method_aws_iam");
    assert_eq!(underscore_dashes("plain"), "plain");
    assert_eq!(underscore_dashes("--"), "__");
    assert_eq!(underscore_dashes(""), "");
}

#[test]
fn strip_or_keep_removes_only_a_leading_prefix() {
    assert_eq!(strip_or_keep("akeyless_static_secret", "akeyless_"), "static_secret");
    assert_eq!(strip_or_keep("static_secret", "akeyless_"), "static_secret");
    assert_eq!(strip_or_keep("x_akeyless_y", "akeyless_"), "x_akeyless_y");
    assert_eq!(strip_or_keep("akeyless_", "akeyless_"), "");
    assert_eq!(strip_or_keep("akey", "akeyless_"), "akey");
}

#[test]
fn glob_match_matches_whole_names() {
    assert!(glob_match("auth-method-*", "auth-method-aws"));
    assert!(glob_match("auth-method-*", "auth-method-"));
    assert!(!glob_match("auth-method-*", "x-auth-method-y"));
    assert!(glob_match("a*b", "axb"));
    assert!(glob_match("a*b", "ab"));
    assert!(!glob_match("a*b", "axbc"));
    assert!(glob_match("*", ""));
    assert!(glob_match("", ""));
    assert!(!glob_match("", "a"));
    assert!(glob_match("*method*", "auth-method-aws"));
    assert!(glob_match("**a**", "a"));
    assert!(!glob_match("abc", "ab"));
    assert!(glob_match("a*b*c", "aXbYbZc"));
}

#[test]
fn decimal_string_matches_to_string() {
    for n in [0usize, 7, 10, 42, 100, 1234567890] {
        assert_eq!(decimal_string(n), n.to_string());
    }
    assert_eq!(decimal_string(usize::MAX), usize::MAX.to_string());
}

#[test]
fn concat_and_char_round_trip() {
    assert_eq!(join_text("akeyless_", "widget"), "akeyless_widget");
    let cs = chars_of("héllo-wörld");
    assert_eq!(cs.len(), 11);
    assert_eq!(string_of(&cs), "héllo-wörld");
}
