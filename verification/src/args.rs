//! What the program is started with.

use crate::path::{join, joined};
use vstd::prelude::*;

verus! {

/// Print the module structure of a Terraform project.
#[derive(Debug, PartialEq, Eq)]
pub struct Args {
    /// Files to load variable values from, beside the default ones.
    pub var_file: Vec<String>,
    /// Values for input variables of the root module, each as `name=value`.
    pub var: Vec<String>,
    /// The limit on concurrent operations.
    pub parallelism: Option<u32>,
    /// The path to the project.
    pub path: String,
}

impl Default for Args {
    /// No variables, ten concurrent operations, the project in the directory
    /// the program runs in.
    fn default() -> (args: Args)
        ensures
            args.var_file@.len() == 0,
            args.var@.len() == 0,
            args.parallelism == Some(10u32),
            args.path@ == "."@,
    {
        Args { var_file: Vec::new(), var: Vec::new(), parallelism: Some(10), path: ".".to_owned() }
    }
}

impl Args {
    /// The directory of the project, for a program that runs in `current_dir`.
    pub fn project_dir(&self, current_dir: &str) -> (dir: String)
        ensures
            dir@ == joined(current_dir@, self.path@),
    {
        join(current_dir, self.path.as_str())
    }
}

} // verus!
