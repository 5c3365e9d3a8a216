//! The project configuration.

use vstd::prelude::*;
use vstd::string::*;

use crate::args;
use crate::text;

verus! {

// -- JSON documents ---------------------------------------------------------------------

/// What a JSON value holds, as far as the configuration reads it.
pub enum JsonView {
    Text(Seq<char>),
    Items(Seq<JsonView>),
    Object(Map<Seq<char>, JsonView>),
    /// `null`, a boolean or a number.
    Other,
}

/// A JSON value of `serde_json`.
#[verifier::external_type_specification]
#[verifier::external_body]
pub struct ExJsonValue(serde_json::Value);

/// The error of `serde_json`.
#[verifier::external_type_specification]
#[verifier::external_body]
pub struct ExJsonError(serde_json::Error);

/// What a `serde_json::Value` holds.
pub uninterp spec fn json_contents(value: serde_json::Value) -> JsonView;

/// What `serde_json::from_str` reads from a text as a `serde_json::Value`: nothing where
/// the text is not a JSON document.
pub uninterp spec fn json_document(text: Seq<char>) -> Option<JsonView>;

/// `serde_json::from_str`, for a `serde_json::Value`: whether the text is a JSON document,
/// and what the document holds, is named by `json_document`.
#[verifier::external_body]
fn parse_json(text: &str) -> (value: Result<serde_json::Value, serde_json::Error>)
    ensures
        match value {
            Ok(value) => json_document(text@) == Some(json_contents(value)),
            Err(_) => json_document(text@) is None,
        },
{
    serde_json::from_str::<serde_json::Value>(text)
}

/// `serde_json::Value::get` with a string: the value that an object has under a key;
/// nothing where the key is missing or the value is no object.
#[verifier::external_body]
fn json_get<'a>(value: &'a serde_json::Value, key: &str) -> (found: Option<&'a serde_json::Value>)
    ensures
        match found {
            Some(found) => entry(json_contents(*value), key@) == Some(json_contents(*found)),
            None => entry(json_contents(*value), key@) is None,
        },
{
    value.get(key)
}

/// `serde_json::Value::as_array`: the items of an array, and nothing for any other value.
pub assume_specification[ serde_json::Value::as_array ](value: &serde_json::Value) -> (items:
    Option<&Vec<serde_json::Value>>)
    ensures
        match items {
            Some(items) => json_contents(*value) == JsonView::Items(
                items@.map_values(|item: serde_json::Value| json_contents(item)),
            ),
            None => !(json_contents(*value) is Items),
        },
;

/// `serde_json::Value::as_str`: the text of a string, and nothing for any other value.
pub assume_specification[ serde_json::Value::as_str ](value: &serde_json::Value) -> (held:
    Option<&str>)
    ensures
        match held {
            Some(held) => json_contents(*value) == JsonView::Text(held@),
            None => !(json_contents(*value) is Text),
        },
;

/// The value that a document has under a key.
pub open spec fn entry(document: JsonView, key: Seq<char>) -> Option<JsonView> {
    match document {
        JsonView::Object(entries) => if entries.contains_key(key) {
            Some(entries[key])
        } else {
            None
        },
        _ => None,
    }
}

/// The texts among some items.
pub open spec fn texts_of(items: Seq<JsonView>) -> Seq<Seq<char>>
    decreases items.len(),
{
    if items.len() == 0 {
        Seq::empty()
    } else {
        let before = texts_of(items.drop_last());
        match items.last() {
            JsonView::Text(text) => before.push(text),
            _ => before,
        }
    }
}

/// The texts of the list that a document has under a key: none without such a list.
pub open spec fn string_list_of(document: JsonView, key: Seq<char>) -> Seq<Seq<char>> {
    match entry(document, key) {
        Some(JsonView::Items(items)) => texts_of(items),
        _ => Seq::empty(),
    }
}

/// The text that a document has under a key.
pub open spec fn string_of(document: JsonView, key: Seq<char>) -> Option<Seq<char>> {
    match entry(document, key) {
        Some(JsonView::Text(text)) => Some(text),
        _ => None,
    }
}

fn string_list(document: &serde_json::Value, key: &str) -> (list: Vec<String>)
    ensures
        text::texts(list@) == string_list_of(json_contents(*document), key@),
{
    let mut list: Vec<String> = Vec::new();
    if let Some(value) = json_get(document, key) {
        if let Some(items) = value.as_array() {
            let ghost held = items@.map_values(|item: serde_json::Value| json_contents(item));
            let mut i: usize = 0;
            while i < items.len()
                invariant
                    i <= items@.len(),
                    held == items@.map_values(|item: serde_json::Value| json_contents(item)),
                    text::texts(list@) == texts_of(held.take(i as int)),
                decreases items@.len() - i,
            {
                proof {
                    assert(held.take(i + 1).drop_last() == held.take(i as int));
                    assert(held.take(i + 1).last() == json_contents(items@[i as int]));
                }
                if let Some(text) = items[i].as_str() {
                    let ghost before = list@;
                    list.push(text.to_owned());
                    assert(text::texts(list@) == text::texts(before).push(text@));
                }
                i += 1;
            }
            assert(held.take(i as int) == held);
        }
    }
    list
}

// -- the configuration ------------------------------------------------------------------

/// The part of a project configuration that is used.
#[derive(Debug)]
pub struct PyrightConfig {
    pub extra_paths: Vec<String>,
    pub exclude: Vec<String>,
    pub python_path: Option<String>,
}

/// A project configuration by value.
#[verifier::ext_equal]
pub struct ConfigView {
    pub extra_paths: Seq<Seq<char>>,
    pub exclude: Seq<Seq<char>>,
    pub python_path: Option<Seq<char>>,
}

impl View for PyrightConfig {
    type V = ConfigView;

    open spec fn view(&self) -> ConfigView {
        ConfigView {
            extra_paths: text::texts(self.extra_paths@),
            exclude: text::texts(self.exclude@),
            python_path: args::optional_view(self.python_path),
        }
    }
}

/// The configuration without a configuration file.
pub open spec fn no_config() -> ConfigView {
    ConfigView { extra_paths: Seq::empty(), exclude: Seq::empty(), python_path: None }
}

/// The configuration that a document holds.
pub open spec fn config_in(document: JsonView) -> ConfigView {
    ConfigView {
        extra_paths: string_list_of(document, "extraPaths"@),
        exclude: string_list_of(document, "exclude"@),
        python_path: string_of(document, "pythonPath"@),
    }
}

/// The project configuration is no JSON document.
#[derive(Debug)]
pub struct ConfigError {
    pub cause: serde_json::Error,
}

impl ConfigError {
    pub fn message(&self) -> (message: &'static str)
        ensures
            message@ == "project config is not valid JSON"@,
    {
        "project config is not valid JSON"
    }
}

/// Reads the configuration out of a document: what is missing, or of another kind than
/// expected, counts as not configured.
pub fn config_of(document: &serde_json::Value) -> (config: PyrightConfig)
    ensures
        config@ == config_in(json_contents(*document)),
{
    let extra_paths = string_list(document, "extraPaths");
    let exclude = string_list(document, "exclude");
    let python_path = match json_get(document, "pythonPath") {
        Some(value) => match value.as_str() {
            Some(text) => Some(text.to_owned()),
            None => None,
        },
        None => None,
    };
    PyrightConfig { extra_paths, exclude, python_path }
}

/// Reads the text of a configuration file, if there is one.
pub fn read_pyright_config(text: Option<&str>) -> (config: Result<PyrightConfig, ConfigError>)
    ensures
        match text {
            None => config matches Ok(config) && config@ == no_config(),
            Some(text) => match json_document(text@) {
                None => config is Err,
                Some(document) => config matches Ok(config) && config@ == config_in(document),
            },
        },
{
    match text {
        None => {
            let config = PyrightConfig {
                extra_paths: Vec::new(),
                exclude: Vec::new(),
                python_path: None,
            };
            assert(config@ =~= no_config());
            Ok(config)
        },
        Some(text) => match parse_json(text) {
            Ok(document) => Ok(config_of(&document)),
            Err(cause) => Err(ConfigError { cause }),
        },
    }
}

// -- the options ------------------------------------------------------------------------

/// How the type checker is set up.
#[derive(Debug)]
pub struct ProjectOptions {
    pub python: Option<String>,
    pub extra_paths: Option<Vec<String>>,
    pub exclude: Option<Vec<String>>,
    pub respect_ignore_files: bool,
    /// The rules that are reported as warnings.
    pub warn: Vec<String>,
}

/// The rules that are switched on.
pub open spec fn enabled_rules() -> Seq<Seq<char>> {
    seq![
        "unnecessary-isinstance"@,
        "unnecessary-comparison"@,
        "unnecessary-contains"@,
        "redundant-cast"@,
        "unresolved-import"@,
    ]
}

/// A list, or nothing where it is empty.
pub open spec fn non_empty(list: Seq<Seq<char>>) -> Option<Seq<Seq<char>>> {
    if list.len() == 0 {
        None
    } else {
        Some(list)
    }
}

pub open spec fn optional_texts(list: Option<Vec<String>>) -> Option<Seq<Seq<char>>> {
    match list {
        Some(list) => Some(text::texts(list@)),
        None => None,
    }
}

fn non_empty_list(list: Vec<String>) -> (result: Option<Vec<String>>)
    ensures
        optional_texts(result) == non_empty(text::texts(list@)),
{
    if list.len() == 0 {
        None
    } else {
        Some(list)
    }
}

/// The set-up for a configuration and the interpreter named on the command line, which
/// wins over the configured one. Ignore files are not respected: what is excluded is
/// configured.
pub fn project_options(config: PyrightConfig, python_path: Option<String>) -> (options:
    ProjectOptions)
    ensures
        args::optional_view(options.python) == (if python_path is Some {
            args::optional_view(python_path)
        } else {
            config@.python_path
        }),
        optional_texts(options.extra_paths) == non_empty(config@.extra_paths),
        optional_texts(options.exclude) == non_empty(config@.exclude),
        !options.respect_ignore_files,
        text::texts(options.warn@) == enabled_rules(),
{
    let python = match python_path {
        Some(path) => Some(path),
        None => config.python_path,
    };
    let mut warn: Vec<String> = Vec::new();
    warn.push("unnecessary-isinstance".to_owned());
    warn.push("unnecessary-comparison".to_owned());
    warn.push("unnecessary-contains".to_owned());
    warn.push("redundant-cast".to_owned());
    warn.push("unresolved-import".to_owned());
    assert(text::texts(warn@) =~= enabled_rules());
    ProjectOptions {
        python,
        extra_paths: non_empty_list(config.extra_paths),
        exclude: non_empty_list(config.exclude),
        respect_ignore_files: false,
        warn,
    }
}

} // verus!
