use std::path::{Path, PathBuf};

use templates::config::Config;
use templates::error::{PathStatus, TemplateError};
use templates::opts::{Action, Opts, SetPath, Var};
use templates::setup::Setup;

fn status_of(path: &str) -> PathStatus {
    let p = Path::new(path);
    PathStatus { exists: p.exists(), is_dir: p.is_dir(), is_file: p.is_file() }
}

fn config() -> Config {
    Config::with_defaults("/home/user/.config/templates-cli.json".to_string())
}

#[test]
fn setup_print() -> Result<(), TemplateError> {
    let opts = Opts { action: Action::Config };
    let config = config();
    let status = status_of(&Setup::target_path(&opts.action, &config));
    let setup: Setup = Setup::try_from(opts, config, &status)?;
    assert_eq!(setup.action, Action::Config);
    assert_eq!(PathBuf::from(&setup.path), PathBuf::from("."));
    return Ok(());
}

#[test]
fn setup_set() -> Result<(), TemplateError> {
    let template_path = PathBuf::from("/templates");
    let opts = Opts {
        action: Action::SetPath(SetPath {
            path: template_path.to_str().unwrap().to_string(),
            clipboard: String::new(),
        }),
    };
    let config = config();
    let status = status_of(&Setup::target_path(&opts.action, &config));
    let setup: Result<Setup, TemplateError> = Setup::try_from(opts, config, &status);
    if template_path.is_dir() {
        assert!(setup.is_ok());
    } else {
        assert!(setup.is_err());
    }
    return Ok(());
}

#[test]
fn setup_set_missing_folder_is_reported() {
    let opts = Opts {
        action: Action::SetPath(SetPath {
            path: "/no/such/folder".to_string(),
            clipboard: String::new(),
        }),
    };
    let status = PathStatus { exists: false, is_dir: false, is_file: false };
    let r = Setup::try_from(opts, config(), &status);
    assert_eq!(r.unwrap_err(), TemplateError::DirectoryNotFound("/no/such/folder".to_string()));
}

#[test]
fn setup_var_targets_project_variables_file() {
    let mut config = config();
    config.templates_path = "lib".to_string();
    let action = Action::Var(Var { project: Some("proj".to_string()) });
    assert_eq!(Setup::target_path(&action, &config), "lib/proj/var");
    let action_root = Action::Var(Var { project: None });
    assert_eq!(Setup::target_path(&action_root, &config), "lib/var");

    let status = PathStatus { exists: true, is_dir: false, is_file: true };
    let setup = Setup::try_from(Opts { action: action.clone() }, config.clone(), &status).unwrap();
    assert_eq!(setup.path, "lib/proj/var");
    assert_eq!(setup.action, action);

    let dir_status = PathStatus { exists: true, is_dir: true, is_file: false };
    let r = Setup::try_from(Opts { action }, config, &dir_status);
    assert_eq!(r.unwrap_err(), TemplateError::NotAFile("lib/proj/var".to_string()));
}
