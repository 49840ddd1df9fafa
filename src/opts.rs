//! The commands of the tool, as plain values.
use vstd::prelude::*;

verus! {

/// A parsed command line.
#[derive(Debug, PartialEq, Eq, Clone)]
pub struct Opts {
    pub action: Action,
}

/// What the tool is asked to do.
#[derive(Debug, PartialEq, Eq, Clone)]
pub enum Action {
    /// Set the templates main folder.
    SetPath(SetPath),
    /// Show the template file of a page.
    Show(Show),
    /// Copy the template file of a page.
    Copy(Copy),
    /// Show a project's variables.
    Var(Var),
    /// Print the configuration and all templates.
    Config,
}

/// Arguments of `set`.
#[derive(Debug, PartialEq, Eq, Clone)]
pub struct SetPath {
    pub path: String,
    pub clipboard: String,
}

/// Arguments of `show`.
#[derive(Debug, PartialEq, Eq, Clone)]
pub struct Show {
    pub page: String,
    pub project: Option<String>,
}

/// Arguments of `copy`.
#[derive(Debug, PartialEq, Eq, Clone)]
pub struct Copy {
    pub page: String,
    pub project: Option<String>,
}

/// Arguments of `var`.
#[derive(Debug, PartialEq, Eq, Clone)]
pub struct Var {
    pub project: Option<String>,
}

} // verus!
