use webtk::error::ExportError;
use webtk::export::{export_machine_new, export_step, is_single_file_output, Artboard,
    ExportAction, ExportEvent};

fn artboard(uid: &str, name: &str) -> Artboard {
    Artboard { uid: uid.to_string(), name: name.to_string() }
}

#[test]
fn single_file_detection_is_case_blind_on_the_extension() {
    let formats = vec!["png".to_string(), "svg".to_string()];
    assert!(is_single_file_output("out/icon.PNG", &formats));
    assert!(is_single_file_output("out/icon.svg", &formats));
    assert!(!is_single_file_output("out/icon.jpeg", &formats));
    assert!(!is_single_file_output("out/icons", &formats));
}

#[test]
fn ambiguous_single_file_export_is_refused_before_any_work() {
    let artboards = vec![artboard("1", "a"), artboard("2", "b")];
    let formats = vec!["png".to_string()];

    let result = export_machine_new(artboards, &formats, "out/single.png", false);

    match result {
        Err(ExportError::AmbiguousOutput(path)) => assert_eq!(path, "out/single.png"),
        _ => panic!("two artboards into one file must be refused"),
    }
}

#[test]
fn too_many_formats_for_a_single_file_are_refused() {
    let artboards = vec![artboard("1", "a")];
    let formats = vec!["png".to_string(), "jpeg".to_string()];

    let result = export_machine_new(artboards, &formats, "out/single.png", false);

    assert!(matches!(result, Err(ExportError::AmbiguousOutput(_))));
}

#[test]
fn export_with_no_matching_artboards_finishes_with_nothing() {
    let artboards: Vec<Artboard> = Vec::new();
    let formats = vec!["png".to_string(), "svg-symbols".to_string()];
    let m = export_machine_new(artboards, &formats, "outdir", false).expect("plan is fine");

    let (_m, action) = export_step(m, ExportEvent::Start);

    match action {
        ExportAction::Finish { exported } => assert_eq!(exported.len(), 0),
        _ => panic!("an empty export must finish at once, with no tool invocation"),
    }
}

#[test]
fn symbols_export_walks_render_read_assemble_write_cleanup() {
    let artboards = vec![artboard("u1", "ico/user")];
    let formats = vec!["svg-symbols".to_string()];
    let m = export_machine_new(artboards, &formats, "out", false).expect("plan is fine");

    let (m, action) = export_step(m, ExportEvent::Start);
    match &action {
        ExportAction::EnsureDir { path } => assert_eq!(path, "out/.cache-symbols"),
        _ => panic!("the symbols cache is created first"),
    }

    let (m, action) = export_step(m, ExportEvent::Done);
    match &action {
        ExportAction::RunRender { format, items, output_dir } => {
            assert_eq!(format, "svg");
            assert_eq!(items, "u1");
            assert_eq!(output_dir, "out/.cache-symbols");
        },
        _ => panic!("rendering follows the cache"),
    }

    let (m, action) = export_step(
        m,
        ExportEvent::RenderDone { ok: true, stderr: String::new() },
    );
    match &action {
        ExportAction::ReadFiles { paths } => {
            assert_eq!(paths.len(), 1);
            assert_eq!(paths[0], "out/.cache-symbols/ico/user.svg");
        },
        _ => panic!("each artboard's file is read from its exact expected path"),
    }

    let svg = r#"<svg viewBox="0 0 24 24"><path d="M0 0"/></svg>"#.to_string();
    let (m, action) = export_step(m, ExportEvent::FilesRead { contents: vec![Some(svg)] });
    match &action {
        ExportAction::EnsureDir { path } => assert_eq!(path, "out"),
        _ => panic!("the target's parent directory is ensured before writing"),
    }

    let (m, action) = export_step(m, ExportEvent::Done);
    let written = match action {
        ExportAction::WriteFile { path, content } => {
            assert_eq!(path, "out/symbols.svg");
            content
        },
        _ => panic!("the sprite is written to the resolved target"),
    };
    assert!(written.contains("<symbol id=\"ico-user\" viewBox=\"0 0 24 24\">"));
    assert!(written.starts_with("<svg width=\"0\" height=\"0\" style=\"position:absolute\">"));
    assert!(written.ends_with("</svg>\n"));

    let (m, action) = export_step(m, ExportEvent::Done);
    match &action {
        ExportAction::RemoveDir { path } => assert_eq!(path, "out/.cache-symbols"),
        _ => panic!("the cache is removed after the write"),
    }

    let (_m, action) = export_step(m, ExportEvent::Done);
    match action {
        ExportAction::Finish { exported } => {
            assert_eq!(exported, vec!["out/symbols.svg".to_string()]);
        },
        _ => panic!("the export finishes with the sprite's path"),
    }
}

#[test]
fn symbols_export_aborts_and_cleans_up_on_invalid_svg() {
    let artboards = vec![artboard("u1", "bad/one")];
    let formats = vec!["svg-symbols".to_string()];
    let m = export_machine_new(artboards, &formats, "out", false).expect("plan is fine");

    let (m, _) = export_step(m, ExportEvent::Start);
    let (m, _) = export_step(m, ExportEvent::Done);
    let (m, _) = export_step(m, ExportEvent::RenderDone { ok: true, stderr: String::new() });
    let empty_svg = r#"<svg viewBox="0 0 24 24"/>"#.to_string();
    let (m, action) = export_step(m, ExportEvent::FilesRead { contents: vec![Some(empty_svg)] });
    match &action {
        ExportAction::RemoveDir { path } => assert_eq!(path, "out/.cache-symbols"),
        _ => panic!("the cache is removed before aborting"),
    }

    let (_m, action) = export_step(m, ExportEvent::Done);
    match action {
        ExportAction::Abort { error: ExportError::InvalidSvg(name) } => {
            assert_eq!(name, "bad/one");
        },
        _ => panic!("the failing artboard is named"),
    }
}

#[test]
fn multi_file_export_renders_each_format_and_lists_every_artifact() {
    let artboards = vec![artboard("u1", "ico/user")];
    let formats = vec!["png".to_string(), "svg".to_string()];
    let m = export_machine_new(artboards, &formats, "outdir", false).expect("plan is fine");

    let (m, action) = export_step(m, ExportEvent::Start);
    match &action {
        ExportAction::EnsureDir { path } => assert_eq!(path, "outdir"),
        _ => panic!("the output directory is ensured first"),
    }

    let (m, action) = export_step(m, ExportEvent::Done);
    match &action {
        ExportAction::RunRender { format, .. } => assert_eq!(format, "png"),
        _ => panic!("the first format is rendered"),
    }

    let (m, action) = export_step(m, ExportEvent::RenderDone { ok: true, stderr: String::new() });
    match &action {
        ExportAction::RunRender { format, .. } => assert_eq!(format, "svg"),
        _ => panic!("the next format is rendered"),
    }

    let (_m, action) = export_step(m, ExportEvent::RenderDone { ok: true, stderr: String::new() });
    match action {
        ExportAction::Finish { exported } => {
            assert_eq!(
                exported,
                vec!["outdir/ico/user.png".to_string(), "outdir/ico/user.svg".to_string()]
            );
        },
        _ => panic!("all artifact paths are listed"),
    }
}

#[test]
fn single_file_export_renders_into_a_cache_and_copies_out() {
    let artboards = vec![artboard("u1", "icon")];
    let formats = vec!["png".to_string()];
    let m = export_machine_new(artboards, &formats, "dir/out.png", false).expect("plan is fine");

    let (m, action) = export_step(m, ExportEvent::Start);
    match &action {
        ExportAction::EnsureDir { path } => assert_eq!(path, "dir/.cache"),
        _ => panic!("rendering goes into a private cache"),
    }

    let (m, action) = export_step(m, ExportEvent::Done);
    match &action {
        ExportAction::RunRender { output_dir, .. } => assert_eq!(output_dir, "dir/.cache"),
        _ => panic!("the tool renders into the cache"),
    }

    let (m, action) = export_step(m, ExportEvent::RenderDone { ok: true, stderr: String::new() });
    match &action {
        ExportAction::FindFileByExt { dir, ext } => {
            assert_eq!(dir, "dir/.cache");
            assert_eq!(ext, "png");
        },
        _ => panic!("the one produced file is located in the cache"),
    }

    let found = "dir/.cache/icon.png".to_string();
    let (m, action) = export_step(m, ExportEvent::FileFound { path: Some(found) });
    match &action {
        ExportAction::EnsureDir { path } => assert_eq!(path, "dir"),
        _ => panic!("the destination's parent is ensured"),
    }

    let (m, action) = export_step(m, ExportEvent::Done);
    match &action {
        ExportAction::CopyFile { from, to } => {
            assert_eq!(from, "dir/.cache/icon.png");
            assert_eq!(to, "dir/out.png");
        },
        _ => panic!("the file is copied, not moved"),
    }

    let (m, action) = export_step(m, ExportEvent::Done);
    match &action {
        ExportAction::RemoveDir { path } => assert_eq!(path, "dir/.cache"),
        _ => panic!("the cache is removed after the copy"),
    }

    let (_m, action) = export_step(m, ExportEvent::Done);
    match action {
        ExportAction::Finish { exported } => {
            assert_eq!(exported, vec!["dir/out.png".to_string()]);
        },
        _ => panic!("the destination is the one exported path"),
    }
}

#[test]
fn render_failure_aborts_with_the_tool_diagnostic() {
    let artboards = vec![artboard("u1", "icon")];
    let formats = vec!["png".to_string()];
    let m = export_machine_new(artboards, &formats, "outdir", false).expect("plan is fine");

    let (m, _) = export_step(m, ExportEvent::Start);
    let (m, _) = export_step(m, ExportEvent::Done);
    let (_m, action) = export_step(
        m,
        ExportEvent::RenderDone { ok: false, stderr: "boom".to_string() },
    );
    match action {
        ExportAction::Abort { error: ExportError::ExternalToolFailure(detail) } => {
            assert_eq!(detail, "boom");
        },
        _ => panic!("a failed tool run is fatal"),
    }
}

#[test]
fn missing_rendered_file_is_a_missing_artifact_error() {
    let artboards = vec![artboard("u1", "icon")];
    let formats = vec!["svg-symbols".to_string()];
    let m = export_machine_new(artboards, &formats, "out", false).expect("plan is fine");

    let (m, _) = export_step(m, ExportEvent::Start);
    let (m, _) = export_step(m, ExportEvent::Done);
    let (m, _) = export_step(m, ExportEvent::RenderDone { ok: true, stderr: String::new() });
    let (m, action) = export_step(m, ExportEvent::FilesRead { contents: vec![None] });
    match &action {
        ExportAction::RemoveDir { .. } => {},
        _ => panic!("the cache is removed before aborting"),
    }
    let (_m, action) = export_step(m, ExportEvent::Done);
    match action {
        ExportAction::Abort { error: ExportError::MissingExpectedArtifact(path) } => {
            assert_eq!(path, "out/.cache-symbols/icon.svg");
        },
        _ => panic!("the missing artifact's expected path is named"),
    }
}

#[test]
fn keeping_the_raw_cache_skips_its_removal() {
    let artboards = vec![artboard("u1", "icon")];
    let formats = vec!["png".to_string()];
    let m = export_machine_new(artboards, &formats, "dir/out.png", true).expect("plan is fine");

    let (m, _) = export_step(m, ExportEvent::Start);
    let (m, _) = export_step(m, ExportEvent::Done);
    let (m, _) = export_step(m, ExportEvent::RenderDone { ok: true, stderr: String::new() });
    let (m, _) = export_step(m, ExportEvent::FileFound { path: Some("dir/.cache/icon.png".to_string()) });
    let (m, _) = export_step(m, ExportEvent::Done);
    let (_m, action) = export_step(m, ExportEvent::Done);
    match action {
        ExportAction::Finish { exported } => {
            assert_eq!(exported, vec!["dir/out.png".to_string()]);
        },
        ExportAction::RemoveDir { .. } => panic!("the raw cache is preserved on request"),
        _ => panic!("the export finishes after the copy"),
    }
}

#[test]
fn zero_artboards_win_over_single_file_ambiguity() {
    let artboards: Vec<Artboard> = Vec::new();
    let formats = vec!["png".to_string(), "jpeg".to_string()];
    let m = export_machine_new(artboards, &formats, "out/single.png", false)
        .expect("with nothing to export there is nothing to reject");

    let (_m, action) = export_step(m, ExportEvent::Start);

    match action {
        ExportAction::Finish { exported } => assert_eq!(exported.len(), 0),
        _ => panic!("the empty export short-circuits to an empty success"),
    }
}
