//! The command model: what the command line asks for, free of any
//! argument-parsing machinery, and the dispatch from a command to the
//! service request it stands for.

use vstd::prelude::*;

verus! {

/// The whole invocation: possibly no subcommand at all.
pub struct CliCmd {
    pub command: Option<CliSubCmd>,
}

/// The top-level subcommands.
pub enum CliSubCmd {
    Sketch(SketchCommand),
}

/// The design-file commands.
pub enum SketchCommand {
    ListArtboards(ListArtboardsArgs),
    Export(ExportArgs),
}

/// Arguments of the listing command: the design file and optional glob
/// patterns to filter artboards by name.
pub struct ListArtboardsArgs {
    pub sketch_file: String,
    pub glob: Vec<String>,
}

/// Arguments of the export command: the design file, optional glob
/// patterns, the requested format tokens, the output path, and the two
/// flags.
pub struct ExportArgs {
    pub sketch_file: String,
    pub glob: Vec<String>,
    pub format: Vec<String>,
    pub output: String,
    pub flatten: bool,
    pub keep_raw_export: bool,
}

/// What a command asks the service layer to do.
pub enum ServiceRequest {
    ListArtboards { sketch_file: String, globs: Vec<String> },
    Export {
        sketch_file: String,
        globs: Vec<String>,
        formats: Vec<String>,
        output: String,
        flatten: bool,
        keep_raw_export: bool,
    },
}

/// Routes a design-file command to the service request it stands for,
/// carrying every argument over unchanged.
pub fn exec_command(command: SketchCommand) -> (r: ServiceRequest)
    ensures
        match command {
            SketchCommand::ListArtboards(args) => r == ServiceRequest::ListArtboards {
                sketch_file: args.sketch_file,
                globs: args.glob,
            },
            SketchCommand::Export(args) => r == ServiceRequest::Export {
                sketch_file: args.sketch_file,
                globs: args.glob,
                formats: args.format,
                output: args.output,
                flatten: args.flatten,
                keep_raw_export: args.keep_raw_export,
            },
        },
{
    match command {
        SketchCommand::ListArtboards(args) => ServiceRequest::ListArtboards {
            sketch_file: args.sketch_file,
            globs: args.glob,
        },
        SketchCommand::Export(args) => ServiceRequest::Export {
            sketch_file: args.sketch_file,
            globs: args.glob,
            formats: args.format,
            output: args.output,
            flatten: args.flatten,
            keep_raw_export: args.keep_raw_export,
        },
    }
}

} // verus!
