//! A document to validate: its value tree, and where it came from.

use crate::error::ConfigGuardError;
use crate::text::same_text;
use crate::tree::{build, depicts, fits, json_tree, parse_json, parse_yaml, yaml_tree};
use crate::value::{well_keyed, ConfigValue};
use serde_yaml::Value as YamlTree;
use vstd::prelude::*;

verus! {

/// The formats in which a document can be written.
#[derive(Debug, Clone, Copy, PartialEq, Eq, Structural)]
pub enum ConfigFormat {
    /// YAML, in files that end in `.yaml` or `.yml`.
    Yaml,
    /// JSON, in files that end in `.json`.
    Json,
}

/// A parsed document.
#[derive(Debug)]
pub struct Config {
    /// The value tree.
    pub data: ConfigValue,
    /// The format in which the document was written.
    pub format: ConfigFormat,
    /// The file that the document was read from, where it came from a file.
    pub path: Option<String>,
    /// The source text, where it is at hand, for the line mapper.
    pub content: Option<String>,
}

/// The deepest nesting of a document that is taken: more levels than either
/// parser allows.
pub const DEPTH_LIMIT: usize = 1024;

/// What parsing a text in a format gives: the tree that the format's parser
/// hands out, or the message of its error.
pub open spec fn document(text: Seq<char>, format: ConfigFormat) -> Result<YamlTree, Seq<char>> {
    match format {
        ConfigFormat::Yaml => yaml_tree(text),
        ConfigFormat::Json => json_tree(text),
    }
}

/// Whether a failure is the parse failure of a format with a message.
pub open spec fn is_parse_failure(
    e: ConfigGuardError,
    format: ConfigFormat,
    message: Seq<char>,
) -> bool {
    match format {
        ConfigFormat::Yaml => e matches ConfigGuardError::ParseYaml(m) && m@ == message,
        ConfigFormat::Json => e matches ConfigGuardError::ParseJson(m) && m@ == message,
    }
}

/// The parse failure of a format with a message.
pub fn parse_failure_of(format: ConfigFormat, message: String) -> (e: ConfigGuardError)
    ensures
        is_parse_failure(e, format, message@),
{
    match format {
        ConfigFormat::Yaml => ConfigGuardError::ParseYaml(message),
        ConfigFormat::Json => ConfigGuardError::ParseJson(message),
    }
}

/// Whether an answer is the one for a text in a format, given what the parser
/// made of the text: the document that depicts the parser's tree, with the
/// text kept and no path; the parse failure of the format with the parser's
/// message; or the parse failure for a tree that is nested too deeply.
pub open spec fn loaded_as(
    r: Result<Config, ConfigGuardError>,
    content: Seq<char>,
    format: ConfigFormat,
    parsed: Result<YamlTree, Seq<char>>,
) -> bool {
    match parsed {
        Ok(tree) => if fits(tree, DEPTH_LIMIT as nat) {
            r matches Ok(config) && depicts(tree, config.data) && well_keyed(config.data)
                && config.format == format
                && config.path is None && (config.content matches Some(text) && text@ == content)
        } else {
            r matches Err(e) && is_parse_failure(e, format, "document is nested too deeply"@)
        },
        Err(message) => r matches Err(e) && is_parse_failure(e, format, message),
    }
}

/// The text of a parser's answer where it is a message.
pub open spec fn parsed_view(parsed: Result<YamlTree, String>) -> Result<YamlTree, Seq<char>> {
    match parsed {
        Ok(tree) => Ok(tree),
        Err(message) => Err(message@),
    }
}

impl Config {
    /// Makes a document of what a parser made of its text.
    pub fn from_parsed(content: &str, format: ConfigFormat, parsed: Result<YamlTree, String>) -> (r:
        Result<Config, ConfigGuardError>)
        ensures
            loaded_as(r, content@, format, parsed_view(parsed)),
    {
        match parsed {
            Ok(tree) => match build(&tree, DEPTH_LIMIT) {
                Some(data) => Ok(
                    Config { data, format, path: None, content: Some(content.to_string()) },
                ),
                None => Err(
                    parse_failure_of(format, "document is nested too deeply".to_string()),
                ),
            },
            Err(message) => Err(parse_failure_of(format, message)),
        }
    }

    /// Parses a document from its text. The source text is kept for the line
    /// mapper. A text that is not well-formed gives the parse failure of its
    /// format, with the parser's message.
    pub fn from_str(content: &str, format: ConfigFormat) -> (r: Result<Config, ConfigGuardError>)
        ensures
            loaded_as(r, content@, format, document(content@, format)),
    {
        let parsed = match format {
            ConfigFormat::Yaml => parse_yaml(content),
            ConfigFormat::Json => parse_json(content),
        };
        Config::from_parsed(content, format, parsed)
    }
}

/// The lower-case form of a text, as `str::to_lowercase` gives it.
pub uninterp spec fn lowercase(s: Seq<char>) -> Seq<char>;

/// Lower-cases a text with `str::to_lowercase`. The contract names the result;
/// the case mapping is that of the standard library.
#[verifier::external_body]
fn to_lower(s: &str) -> (r: String)
    ensures
        r@ == lowercase(s@),
{
    s.to_lowercase()
}

/// The extension of a path, as `std::path::Path::extension` finds it, where it
/// is valid Unicode. What counts as the file name of a path depends on the
/// platform, so nothing is claimed of the result.
#[verifier::external_body]
fn path_extension(path: &str) -> (r: Option<String>) {
    std::path::Path::new(path).extension().and_then(|e| e.to_str()).map(|e| e.to_string())
}

/// The format that an extension in lower case names: `yaml` and `yml` name
/// YAML, `json` names JSON.
pub open spec fn format_of_lowered(lowered: Seq<char>) -> Option<ConfigFormat> {
    if lowered == "yaml"@ || lowered == "yml"@ {
        Some(ConfigFormat::Yaml)
    } else if lowered == "json"@ {
        Some(ConfigFormat::Json)
    } else {
        None
    }
}

/// The format that an extension names, whatever its case.
pub open spec fn format_named(extension: Option<Seq<char>>) -> Option<ConfigFormat> {
    match extension {
        Some(e) => format_of_lowered(lowercase(e)),
        None => None,
    }
}

/// The format of a file by its extension in lower case: the format that the
/// extension names, or the failure for an unsupported format with the path and
/// the extension. A missing extension is reported as the empty text.
pub fn format_for_lowered(path: &str, lowered: Option<String>) -> (r: Result<
    ConfigFormat,
    ConfigGuardError,
>)
    ensures
        match lowered {
            Some(e) => match format_of_lowered(e@) {
                Some(format) => r == Ok::<ConfigFormat, ConfigGuardError>(format),
                None => r matches Err(
                    ConfigGuardError::UnsupportedFormat { path: p, extension: x },
                ) && p@ == path@ && x@ == e@,
            },
            None => r matches Err(ConfigGuardError::UnsupportedFormat { path: p, extension: x })
                && p@ == path@ && x@ == Seq::<char>::empty(),
        },
{
    match lowered {
        Some(lower) => {
            if same_text(lower.as_str(), "yaml") || same_text(lower.as_str(), "yml") {
                Ok(ConfigFormat::Yaml)
            } else if same_text(lower.as_str(), "json") {
                Ok(ConfigFormat::Json)
            } else {
                Err(
                    ConfigGuardError::UnsupportedFormat {
                        path: path.to_string(),
                        extension: lower,
                    },
                )
            }
        },
        None => Err(
            ConfigGuardError::UnsupportedFormat {
                path: path.to_string(),
                extension: String::new(),
            },
        ),
    }
}

/// Whether an answer is the one for a path with the given extension: the
/// format that the extension names, or the failure for an unsupported format,
/// with the path and the extension in lower case. A missing extension is
/// reported as the empty text.
pub open spec fn answers_for(
    r: Result<ConfigFormat, ConfigGuardError>,
    path: Seq<char>,
    extension: Option<Seq<char>>,
) -> bool {
    match format_named(extension) {
        Some(format) => r == Ok::<ConfigFormat, ConfigGuardError>(format),
        None => r matches Err(ConfigGuardError::UnsupportedFormat { path: p, extension: e })
            && p@ == path && e@ == (match extension {
            Some(x) => lowercase(x),
            None => Seq::empty(),
        }),
    }
}

/// The format of a file by its extension, whatever its case.
pub fn format_for_extension(path: &str, extension: Option<String>) -> (r: Result<
    ConfigFormat,
    ConfigGuardError,
>)
    ensures
        answers_for(r, path@, crate::validation::text_of(extension)),
{
    let lowered = match extension {
        Some(e) => Some(to_lower(e.as_str())),
        None => None,
    };
    format_for_lowered(path, lowered)
}

/// The format of a file by the extension of its path. Which part of a path is
/// its extension is the platform's decision; the answer is the one for that
/// extension.
pub fn detect_format(path: &str) -> (r: Result<ConfigFormat, ConfigGuardError>)
    ensures
        exists|extension: Option<Seq<char>>| answers_for(r, path@, extension),
{
    let extension = path_extension(path);
    let r = format_for_extension(path, extension);
    assert(answers_for(r, path@, crate::validation::text_of(extension)));
    r
}

} // verus!
