//! Errors of the engine, and the checks on paths that the caller observed.
use vstd::prelude::*;

verus! {

/// Where a path stands on disk, as the caller observed it.
pub struct PathStatus {
    pub exists: bool,
    pub is_dir: bool,
    pub is_file: bool,
}

/// The ways the engine's operations can fail. Each carries the offending
/// path or name.
#[derive(Debug, PartialEq, Eq)]
pub enum TemplateError {
    DirectoryNotFound(String),
    NotADirectory(String),
    FileNotFound(String),
    NotAFile(String),
    MalformedTemplateName(String),
    NoPagesRequested,
    ConfigInvalid(String),
}

/// How Rust's `Debug` writes the text `s`: in double quotes, with quotes,
/// backslashes and unprintable characters escaped.
pub uninterp spec fn debug_text(s: Seq<char>) -> Seq<char>;

/// Relies on `<str as Debug>::fmt`: `s` written as a quoted, escaped literal.
#[verifier::external_body]
fn quoted(s: &str) -> (r: String)
    ensures
        r@ == debug_text(s@),
{
    format!("{:?}", s)
}

/// `prefix` followed by `s` written as a quoted literal.
fn prefixed_quoted(prefix: &str, s: &String) -> (r: String)
    ensures
        r@ == prefix@ + debug_text(s@),
{
    let mut r = String::from_str(prefix);
    let q = quoted(s.as_str());
    r.append(q.as_str());
    r
}

/// The text that describes an error to the user.
pub open spec fn error_message(e: TemplateError) -> Seq<char> {
    match e {
        TemplateError::DirectoryNotFound(p) => "Folder does not exist: "@ + debug_text(p@),
        TemplateError::NotADirectory(p) => "Path is not a folder: "@ + debug_text(p@),
        TemplateError::FileNotFound(p) => "File does not exist: "@ + debug_text(p@),
        TemplateError::NotAFile(p) => "Path is not a file: "@ + debug_text(p@),
        TemplateError::MalformedTemplateName(n) => "Template name lacks a [tag]: "@ + n@,
        TemplateError::NoPagesRequested => "No pages provided"@,
        TemplateError::ConfigInvalid(p) => "Config not valid: "@ + p@,
    }
}

/// The error that `check_folder` gives for `path` in `status`.
pub open spec fn folder_error(e: TemplateError, path: Seq<char>, status: PathStatus) -> bool {
    if !status.exists {
        e is DirectoryNotFound && e->DirectoryNotFound_0@ == path
    } else {
        e is NotADirectory && e->NotADirectory_0@ == path
    }
}

/// The error that `check_file` gives for `path` in `status`.
pub open spec fn file_error(e: TemplateError, path: Seq<char>, status: PathStatus) -> bool {
    if !status.exists {
        e is FileNotFound && e->FileNotFound_0@ == path
    } else {
        e is NotAFile && e->NotAFile_0@ == path
    }
}

fn prefixed(prefix: &str, s: &String) -> (r: String)
    ensures
        r@ == prefix@ + s@,
{
    let mut r = String::from_str(prefix);
    r.append(s.as_str());
    r
}

impl TemplateError {
    /// The text that describes this error to the user.
    pub fn message(&self) -> (r: String)
        ensures
            r@ == error_message(*self),
    {
        match self {
            TemplateError::DirectoryNotFound(p) => prefixed_quoted("Folder does not exist: ", p),
            TemplateError::NotADirectory(p) => prefixed_quoted("Path is not a folder: ", p),
            TemplateError::FileNotFound(p) => prefixed_quoted("File does not exist: ", p),
            TemplateError::NotAFile(p) => prefixed_quoted("Path is not a file: ", p),
            TemplateError::MalformedTemplateName(n) => prefixed("Template name lacks a [tag]: ", n),
            TemplateError::NoPagesRequested => String::from_str("No pages provided"),
            TemplateError::ConfigInvalid(p) => prefixed("Config not valid: ", p),
        }
    }
}

/// Succeeds iff `path` is an existing directory.
pub fn check_folder(path: &str, status: &PathStatus) -> (r: Result<(), TemplateError>)
    ensures
        r is Ok <==> status.exists && status.is_dir,
        r is Err ==> folder_error(r->Err_0, path@, *status),
{
    if !status.exists {
        return Err(TemplateError::DirectoryNotFound(String::from_str(path)));
    }
    if !status.is_dir {
        return Err(TemplateError::NotADirectory(String::from_str(path)));
    }
    Ok(())
}

/// Succeeds iff `path` is an existing regular file.
pub fn check_file(path: &str, status: &PathStatus) -> (r: Result<(), TemplateError>)
    ensures
        r is Ok <==> status.exists && status.is_file,
        r is Err ==> file_error(r->Err_0, path@, *status),
{
    if !status.exists {
        return Err(TemplateError::FileNotFound(String::from_str(path)));
    }
    if !status.is_file {
        return Err(TemplateError::NotAFile(String::from_str(path)));
    }
    Ok(())
}

} // verus!
