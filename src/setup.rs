//! A command made ready to run: its action, the configuration, and the path
//! it works on, checked on disk where the action needs it.
use vstd::prelude::*;

use crate::config::Config;
use crate::error::{check_file, check_folder, file_error, folder_error, PathStatus, TemplateError};
use crate::opts::{Action, Opts};
use crate::resolve::{join_path, joined};

verus! {

/// A command ready to run.
#[derive(Debug)]
pub struct Setup {
    pub action: Action,
    pub config: Config,
    pub path: String,
}

/// A project name, the templates root itself when absent.
pub open spec fn project_of(project: Option<String>) -> Seq<char> {
    match project {
        Some(p) => p@,
        None => Seq::empty(),
    }
}

/// The path an action works on: the folder to set, the project's variables
/// file, or the current directory.
pub open spec fn target_of(action: Action, config: Config) -> Seq<char> {
    match action {
        Action::SetPath(v) => v.path@,
        Action::Var(v) => joined(joined(config.templates_path@, project_of(v.project)), "var"@),
        _ => "."@,
    }
}

/// Whether the observed `status` of the target lets `action` run.
pub open spec fn target_ready(action: Action, status: PathStatus) -> bool {
    match action {
        Action::SetPath(_) => status.exists && status.is_dir,
        Action::Var(_) => status.exists && status.is_file,
        _ => true,
    }
}

impl Setup {
    /// The path that `action` works on.
    pub fn target_path(action: &Action, config: &Config) -> (r: String)
        ensures
            r@ == target_of(*action, *config),
    {
        match action {
            Action::SetPath(v) => v.path.clone(),
            Action::Var(v) => {
                let project = match &v.project {
                    Some(p) => p.clone(),
                    None => String::new(),
                };
                let dir = join_path(config.templates_path.as_str(), project.as_str());
                proof {
                    reveal_strlit("var");
                }
                join_path(dir.as_str(), "var")
            },
            _ => String::from_str("."),
        }
    }

    /// Makes a command ready to run. `status` is what the caller observed on
    /// disk at `target_path(&opts.action, &config)`: setting the folder needs
    /// an existing directory there, showing variables an existing file.
    pub fn try_from(opts: Opts, config: Config, status: &PathStatus) -> (r: Result<
        Setup,
        TemplateError,
    >)
        ensures
            r is Ok <==> target_ready(opts.action, *status),
            r is Ok ==> r->Ok_0.action == opts.action && r->Ok_0.config == config
                && r->Ok_0.path@ == target_of(opts.action, config),
            r is Err ==> match opts.action {
                Action::SetPath(_) => folder_error(
                    r->Err_0,
                    target_of(opts.action, config),
                    *status,
                ),
                _ => file_error(r->Err_0, target_of(opts.action, config), *status),
            },
    {
        let action = opts.action;
        let path = Setup::target_path(&action, &config);
        match &action {
            Action::SetPath(_) => {
                check_folder(path.as_str(), status)?;
            },
            Action::Var(_) => {
                check_file(path.as_str(), status)?;
            },
            _ => {},
        }
        Ok(Setup { action, config, path })
    }
}

} // verus!
