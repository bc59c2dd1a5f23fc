use webtk::cmd::{exec_command, ExportArgs, ListArtboardsArgs, ServiceRequest, SketchCommand};

#[test]
fn exec_command_routes_listing_with_its_arguments() {
    let command = SketchCommand::ListArtboards(ListArtboardsArgs {
        sketch_file: "design.sketch".to_string(),
        glob: vec!["ico/*".to_string()],
    });

    let request = exec_command(command);

    match request {
        ServiceRequest::ListArtboards { sketch_file, globs } => {
            assert_eq!(sketch_file, "design.sketch");
            assert_eq!(globs, vec!["ico/*".to_string()]);
        },
        _ => panic!("a listing command asks for a listing"),
    }
}

#[test]
fn exec_command_routes_export_with_its_arguments() {
    let command = SketchCommand::Export(ExportArgs {
        sketch_file: "design.sketch".to_string(),
        glob: Vec::new(),
        format: vec!["svg-symbols".to_string()],
        output: "out".to_string(),
        flatten: false,
        keep_raw_export: true,
    });

    let request = exec_command(command);

    match request {
        ServiceRequest::Export { sketch_file, globs, formats, output, flatten, keep_raw_export } => {
            assert_eq!(sketch_file, "design.sketch");
            assert_eq!(globs.len(), 0);
            assert_eq!(formats, vec!["svg-symbols".to_string()]);
            assert_eq!(output, "out");
            assert!(!flatten);
            assert!(keep_raw_export);
        },
        _ => panic!("an export command asks for an export"),
    }
}
