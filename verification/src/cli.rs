use vstd::prelude::*;

verus! {

/// The command line of the tool: its global options and the subcommand to run.
#[derive(Debug)]
pub struct Program {
    pub options: Options,
    pub subcommands: Option<SubCommands>,
}

/// The global flags: print the version, print the help.
#[derive(Debug)]
pub struct Options {
    pub version: Option<bool>,
    pub help: Option<bool>,
}

/// The subcommands of the tool.
#[derive(Debug)]
pub enum SubCommands {
    /// Add schemata to the schema list.
    Add { schemata: Vec<String> },
    /// Remove schemata from the schema list.
    Remove { schemata: Vec<String> },
    /// Build the binaries.
    Build,
    /// Deploy the binaries to their target place.
    Deploy,
    /// Download recipe packages.
    Download { recipes: Vec<String> },
    /// Install recipes.
    Install { recipes: Vec<String> },
    /// Create a new recipe.
    New { _name: Option<String> },
    /// Apply a patch to a configuration: set `key` of `config` to `value`.
    Patch { config: String, key: String, value: String },
    /// Select a schema.
    Select { schema: String },
}

} // verus!
