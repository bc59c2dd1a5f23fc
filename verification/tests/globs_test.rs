use webtk::error::ExportError;
use webtk::export::{filter_artboards, Artboard};
use webtk::globs::{build_glob_set, matches_glob_set};

#[test]
fn glob_set_decides_membership() {
    let patterns = vec!["ico/*/fill".to_string()];
    let set = build_glob_set(&patterns).expect("pattern compiles").expect("set built");

    assert!(matches_glob_set(Some(&set), "ico/user/fill"));
    assert!(!matches_glob_set(Some(&set), "ico/user/line"));
    assert!(!matches_glob_set(Some(&set), "other"));
}

#[test]
fn no_patterns_means_no_set_and_everything_matches() {
    let patterns: Vec<String> = Vec::new();
    let set = build_glob_set(&patterns).expect("empty list is fine");
    assert!(set.is_none());
    assert!(matches_glob_set(None, "anything/at/all"));
}

#[test]
fn invalid_pattern_is_reported_as_such() {
    let patterns = vec!["ico/[".to_string()];
    let result = build_glob_set(&patterns);
    assert!(matches!(result, Err(ExportError::InvalidGlob(_))));
}

#[test]
fn filter_artboards_keeps_matches_in_order() {
    let artboards = vec![
        Artboard { uid: "1".to_string(), name: "ico/user/fill".to_string() },
        Artboard { uid: "2".to_string(), name: "logo".to_string() },
        Artboard { uid: "3".to_string(), name: "ico/home/fill".to_string() },
    ];
    let patterns = vec!["ico/**".to_string()];
    let set = build_glob_set(&patterns).unwrap().unwrap();

    let kept = filter_artboards(artboards, Some(&set));

    assert_eq!(kept.len(), 2);
    assert_eq!(kept[0].uid, "1");
    assert_eq!(kept[1].uid, "3");
}

#[test]
fn filter_artboards_without_patterns_keeps_all() {
    let artboards = vec![
        Artboard { uid: "1".to_string(), name: "a".to_string() },
        Artboard { uid: "2".to_string(), name: "b".to_string() },
    ];

    let kept = filter_artboards(artboards, None);

    assert_eq!(kept.len(), 2);
}
