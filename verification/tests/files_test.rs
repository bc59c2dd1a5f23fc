use webtk::error::ExportError;
use webtk::files::{authorize_dir_removal, authorize_file_removal, file_name, looks_like_file_path,
    path_ext, path_join, path_parent};

#[test]
fn looks_like_file_path_goes_by_the_extension() {
    assert!(looks_like_file_path("out/icons.svg"));
    assert!(looks_like_file_path("single.png"));
    assert!(!looks_like_file_path("out/icons"));
    assert!(!looks_like_file_path("out/.cache"));
    assert!(!looks_like_file_path(""));
}

#[test]
fn path_pieces_come_apart_as_expected() {
    assert_eq!(path_ext("a/b/c.SVG"), "SVG");
    assert_eq!(path_ext("a/b/c"), "");
    assert_eq!(file_name("a/b/c.svg"), "c.svg");
    assert_eq!(file_name("c.svg"), "c.svg");
    assert_eq!(path_parent("a/b/c.svg"), Some("a/b".to_string()));
    assert_eq!(path_parent("c.svg"), None);
    assert_eq!(path_parent("/c.svg"), Some("/".to_string()));
    assert_eq!(path_join("a/b", "c.svg"), "a/b/c.svg");
    assert_eq!(path_join("a/b/", "c.svg"), "a/b/c.svg");
    assert_eq!(path_join("", "c.svg"), "c.svg");
}

#[test]
fn dir_removal_refused_outside_the_working_directory() {
    let result = authorize_dir_removal("/elsewhere/out/.cache", "/work");
    assert!(matches!(result, Err(ExportError::UnsafeRemoval(_))));
}

#[test]
fn dir_removal_refused_without_a_cache_marker() {
    let result = authorize_dir_removal("/work/out/build", "/work");
    assert!(matches!(result, Err(ExportError::UnsafeRemoval(_))));
}

#[test]
fn dir_removal_allowed_below_cwd_with_marker() {
    assert!(authorize_dir_removal("/work/out/.cache", "/work").is_ok());
    assert!(authorize_dir_removal("/work/out/.cache-symbols", "/work").is_ok());
}

#[test]
fn file_removal_guard_checks_place_and_extension_markers() {
    assert!(authorize_file_removal("/work/out/icon.svg", "/work").is_ok());
    assert!(authorize_file_removal("/work/out/icon.png", "/work").is_ok());
    assert!(matches!(
        authorize_file_removal("/work/out/notes.txt", "/work"),
        Err(ExportError::UnsafeRemoval(_))
    ));
    assert!(matches!(
        authorize_file_removal("/elsewhere/icon.svg", "/work"),
        Err(ExportError::UnsafeRemoval(_))
    ));
}

#[test]
fn dir_removal_refused_for_paths_with_parent_components() {
    let result = authorize_dir_removal("/work/out/.cache/../../elsewhere", "/work");
    assert!(matches!(result, Err(ExportError::UnsafeRemoval(_))));
    let result = authorize_file_removal("/work/../other/icon.svg", "/work");
    assert!(matches!(result, Err(ExportError::UnsafeRemoval(_))));
}
