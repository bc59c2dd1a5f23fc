//! The earlier shape of the command model, kept for callers that still
//! build it: one listing command under one subcommand group.

use vstd::prelude::*;

verus! {

/// The whole invocation: possibly no subcommand at all.
pub struct CliArgs {
    pub command: Option<Command>,
}

/// The top-level subcommands.
pub enum Command {
    Sketch { command: SketchCommand },
}

/// The design-file commands of this model: listing only.
pub enum SketchCommand {
    ListArtboards { sketch_file: String, glob: Vec<String> },
}

} // verus!
