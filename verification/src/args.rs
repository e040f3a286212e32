//! The configuration record that drives a documentation run.

use vstd::prelude::*;
use vstd::string::*;

verus! {

/// All configuration options and input info in one place.
#[derive(Clone, Debug, PartialEq, Eq)]
pub struct ParsedOptions {
    /// Directory that receives the generated artifacts.
    pub output_dir: String,
    /// Files and directories named by the user, in the order given.
    pub inputs: Vec<String>,
    /// Search prefixes tried for an input that does not exist as given.
    pub includes: Vec<String>,
    /// Title of the book; may be empty.
    pub project_name: String,
}

/// The output directory used when the user names none.
pub open spec fn default_output_dir() -> Seq<char> {
    "svdoc"@
}

impl ParsedOptions {
    /// Options for the given inputs with every other setting at its default:
    /// output directory `svdoc`, no include prefixes, empty project name.
    pub fn with_inputs(inputs: Vec<String>) -> (options: ParsedOptions)
        ensures
            options.output_dir@ == default_output_dir(),
            options.inputs == inputs,
            options.includes@.len() == 0,
            options.project_name@.len() == 0,
    {
        ParsedOptions {
            output_dir: String::from_str("svdoc"),
            inputs,
            includes: Vec::new(),
            project_name: String::new(),
        }
    }
}

} // verus!
