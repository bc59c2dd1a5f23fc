use webtk::strings::canonicalize_name;

#[test]
fn test_support_strings_canonicalize_name_simple() {
    let input = "ico/user/fill";

    let result = canonicalize_name(input);

    assert_eq!(result, "ico-user-fill");
}

#[test]
fn test_support_strings_canonicalize_name_with_consecutive() {
    let input = "ico//user--fill";

    let result = canonicalize_name(input);

    assert_eq!(result, "ico-user-fill");
}

#[test]
fn test_support_strings_canonicalize_name_with_special_chars() {
    let input = "my@icon#name!test";

    let result = canonicalize_name(input);

    assert_eq!(result, "my-icon-name-test");
}

#[test]
fn test_support_strings_canonicalize_name_with_leading_trailing() {
    let input = "/ico/user/";

    let result = canonicalize_name(input);

    assert_eq!(result, "ico-user");
}

#[test]
fn canonicalize_name_empty_and_all_special() {
    assert_eq!(canonicalize_name(""), "");
    assert_eq!(canonicalize_name("///"), "");
    assert_eq!(canonicalize_name("---"), "");
    assert_eq!(canonicalize_name("a"), "a");
}

#[test]
fn canonicalize_name_yields_only_alphanumerics_and_single_dashes() {
    let inputs = ["ico/user/fill", "  spaced out  ", "Ünïcode→name", "a__b..c", "-x-"];
    for input in inputs {
        let slug = canonicalize_name(input);
        assert!(!slug.starts_with('-'));
        assert!(!slug.ends_with('-'));
        assert!(!slug.contains("--"));
        assert!(slug.chars().all(|c| c.is_ascii_alphanumeric() || c == '-'));
    }
}

#[test]
fn canonicalize_name_is_idempotent() {
    let inputs = ["ico//user--fill", "/ico/user/", "my@icon#name!test", "", "A B C"];
    for input in inputs {
        let once = canonicalize_name(input);
        let twice = canonicalize_name(&once);
        assert_eq!(once, twice);
    }
}
