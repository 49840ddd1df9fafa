//! The tool's configuration: where the templates live and which clipboard
//! program to use, read from a JSON document.
use vstd::prelude::*;

use crate::error::TemplateError;
use crate::resolve::{join_path, joined};

verus! {

#[verifier::external_type_specification]
#[verifier::external_body]
pub struct ExJsonValue(serde_json::Value);

#[verifier::external_type_specification]
#[verifier::external_body]
pub struct ExJsonError(serde_json::Error);

#[verifier::external_type_specification]
#[verifier::external_body]
#[verifier::reject_recursive_types(K)]
#[verifier::reject_recursive_types(V)]
pub struct ExJsonMap<K, V>(serde_json::Map<K, V>);

/// Whether serde_json reads `text` as one JSON document.
pub uninterp spec fn json_accepts(text: Seq<char>) -> bool;

/// The string member `key` of the JSON object that `text` holds, if `text`
/// is a JSON object with such a member and that member is a string.
pub uninterp spec fn json_text_member(text: Seq<char>, key: Seq<char>) -> Option<Seq<char>>;

/// Whether serde_json reads `text` as one JSON object.
pub uninterp spec fn json_object_text(text: Seq<char>) -> bool;

/// Relies on `serde_json::from_str::<Value>`, `Value::get` and `Value::as_str`:
/// the string member `key` of the document in `text`; None when `text` is no
/// JSON document, or holds no such member, or the member is no string.
#[verifier::external_body]
fn text_member(text: &str, key: &str) -> (r: Option<String>)
    ensures
        option_model(r) == json_text_member(text@, key@),
        !json_accepts(text@) ==> r is None,
{
    let doc: serde_json::Value = serde_json::from_str(text).ok()?;
    let member = doc.get(key)?.as_str()?;
    Some(member.to_string())
}

/// Relies on `serde_json::from_str::<Value>` and the `Value::Object` variant:
/// the members of the object in `text`; None when `text` is not one JSON
/// object.
#[verifier::external_body]
fn parse_object(text: &str) -> (r: Option<serde_json::Map<String, serde_json::Value>>)
    ensures
        r is Some <==> json_object_text(text@),
        r is Some ==> json_accepts(text@),
{
    match serde_json::from_str::<serde_json::Value>(text) {
        Ok(serde_json::Value::Object(m)) => Some(m),
        _ => None,
    }
}

/// Relies on `serde_json::Map::insert`: sets the member `key` to the string
/// `text`.
#[verifier::external_body]
fn insert_text(m: &mut serde_json::Map<String, serde_json::Value>, key: &str, text: &str) {
    m.insert(key.to_string(), serde_json::Value::String(text.to_string()));
}

/// Relies on `serde_json::to_string_pretty`: the object written as indented
/// JSON. A `Value` has string keys only and is written into a `Vec`, so this
/// does not fail.
#[verifier::external_body]
fn pretty_object(m: serde_json::Map<String, serde_json::Value>) -> (r: Result<
    String,
    serde_json::Error,
>)
    ensures
        r is Ok,
{
    serde_json::to_string_pretty(&serde_json::Value::Object(m))
}

/// The text of the configuration file at `config_path`, whose content is
/// `text`, with its templates folder set to `templates_path`; its other
/// members are kept. Fails when `text` is not a JSON object.
pub fn set_templates_path(config_path: &str, text: &str, templates_path: &str) -> (r: Result<
    String,
    TemplateError,
>)
    ensures
        r is Ok <==> json_object_text(text@),
        !json_accepts(text@) ==> r is Err,
        r is Err ==> r->Err_0 is ConfigInvalid && r->Err_0->ConfigInvalid_0@ == config_path@,
{
    let invalid = TemplateError::ConfigInvalid(String::from_str(config_path));
    let mut members = match parse_object(text) {
        Some(m) => m,
        None => {
            return Err(invalid);
        },
    };
    insert_text(&mut members, "templates_path", templates_path);
    match pretty_object(members) {
        Ok(s) => Ok(s),
        Err(_) => Err(invalid),
    }
}

/// The configuration of the tool.
#[derive(Debug, PartialEq, Eq, Clone)]
pub struct Config {
    pub config_path: String,
    pub templates_path: String,
    pub clipboard_command: String,
}

/// File name of the configuration inside the configuration directory.
pub open spec fn config_file_name() -> Seq<char> {
    "templates-cli.json"@
}

/// Templates folder of a fresh configuration.
pub open spec fn default_templates_path() -> Seq<char> {
    "~/templates"@
}

/// Clipboard program when the configuration names none.
pub open spec fn default_clipboard() -> Seq<char> {
    "xclip"@
}

/// Where the configuration file lives: in `xdg` when that is set, else in
/// `home/.config`; None when neither is set.
pub open spec fn config_file_of(xdg: Option<Seq<char>>, home: Option<Seq<char>>) -> Option<
    Seq<char>,
> {
    match xdg {
        Some(x) => Some(joined(x, config_file_name())),
        None => match home {
            Some(h) => Some(joined(h + "/.config"@, config_file_name())),
            None => None,
        },
    }
}

/// The models of an optional string.
pub open spec fn option_model(o: Option<String>) -> Option<Seq<char>> {
    match o {
        Some(s) => Some(s@),
        None => None,
    }
}

/// Path of the configuration file, from the values of `XDG_CONFIG_HOME` and
/// `HOME`.
pub fn config_file_path(xdg: Option<String>, home: Option<String>) -> (r: Option<String>)
    ensures
        option_model(r) == config_file_of(option_model(xdg), option_model(home)),
{
    match xdg {
        Some(x) => Some(join_path(x.as_str(), "templates-cli.json")),
        None => match home {
            Some(h) => {
                let mut dir = h;
                dir.append("/.config");
                Some(join_path(dir.as_str(), "templates-cli.json"))
            },
            None => None,
        },
    }
}

/// The text of a fresh configuration file.
pub fn default_config_text() -> (r: String)
    ensures
        r@ == "{\"templates_path\": \"~/templates\"}"@,
{
    String::from_str("{\"templates_path\": \"~/templates\"}")
}

impl Config {
    /// The configuration written into a fresh configuration file.
    pub fn with_defaults(config_path: String) -> (r: Config)
        ensures
            r.config_path == config_path,
            r.templates_path@ == default_templates_path(),
            r.clipboard_command@ == default_clipboard(),
    {
        Config {
            config_path,
            templates_path: String::from_str("~/templates"),
            clipboard_command: String::from_str("xclip"),
        }
    }

    /// The configuration from the values read for its members: the templates
    /// folder is required, the clipboard program defaults to `xclip`.
    pub fn from_fields(
        config_path: String,
        templates_path: Option<String>,
        clipboard_command: Option<String>,
    ) -> (r: Result<Config, TemplateError>)
        ensures
            r is Ok <==> templates_path is Some,
            r is Err ==> r->Err_0 == TemplateError::ConfigInvalid(config_path),
            r is Ok ==> {
                let c = r->Ok_0;
                &&& c.config_path == config_path
                &&& c.templates_path == templates_path->Some_0
                &&& c.clipboard_command@ == match clipboard_command {
                    Some(s) => s@,
                    None => default_clipboard(),
                }
            },
    {
        match templates_path {
            Some(templates_path) => {
                let clipboard_command = match clipboard_command {
                    Some(c) => c,
                    None => String::from_str("xclip"),
                };
                Ok(Config { config_path, templates_path, clipboard_command })
            },
            None => Err(TemplateError::ConfigInvalid(config_path)),
        }
    }

    /// Reads the configuration from the text of its file: a JSON object with a
    /// string member `templates_path` and optionally `clipboard_command`.
    pub fn from_json(config_path: String, text: &str) -> (r: Result<Config, TemplateError>)
        ensures
            r is Ok <==> json_text_member(text@, "templates_path"@) is Some,
            !json_accepts(text@) ==> r is Err,
            r is Err ==> r->Err_0 == TemplateError::ConfigInvalid(config_path),
            r is Ok ==> {
                let c = r->Ok_0;
                &&& c.config_path == config_path
                &&& c.templates_path@ == json_text_member(text@, "templates_path"@)->Some_0
                &&& c.clipboard_command@ == match json_text_member(text@, "clipboard_command"@) {
                    Some(s) => s,
                    None => default_clipboard(),
                }
            },
    {
        let templates_path = text_member(text, "templates_path");
        let clipboard_command = text_member(text, "clipboard_command");
        Config::from_fields(config_path, templates_path, clipboard_command)
    }
}

} // verus!
