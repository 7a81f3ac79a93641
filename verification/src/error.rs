//! The failures of the tool, their messages and their exit codes.

use crate::text::{decimal, count_text};
use crate::validation::{views, ErrorView, ValidationError};
use vstd::prelude::*;

verus! {

/// Why an operation failed.
#[derive(Debug)]
pub enum ConfigGuardError {
    /// A file could not be read.
    FileRead { path: String, error: String },
    /// A file could not be written.
    FileWrite { path: String, error: String },
    /// A file does not exist.
    FileNotFound { path: String },
    /// A document is not well-formed YAML.
    ParseYaml(String),
    /// A document is not well-formed JSON.
    ParseJson(String),
    /// A file's extension names no supported format.
    UnsupportedFormat { path: String, extension: String },
    /// A report could not be serialised.
    Serialization(String),
    /// An input or output operation failed.
    IO(String),
    /// Bytes were not valid text.
    Encoding(String),
    /// A single violation.
    Validation { message: String, path: String, expected: String, actual: String },
    /// A count of violations, with one of them as a sample.
    ValidationErrors { count: usize, source: Box<ConfigGuardError> },
    /// Every violation found in a document.
    AllValidationErrors { errors: Vec<ValidationError> },
    /// A pattern of the schema is no valid regular expression.
    Pattern(String),
    /// The command line was misused.
    Cli(String),
    /// The schema is inconsistent.
    Schema(String),
    /// A defect of the tool itself.
    Internal(String),
}

/// The result of an operation that can fail.
pub type ConfigGuardResult<T> = Result<T, ConfigGuardError>;

/// The message of a failure, as it is shown to the user.
pub open spec fn message_of(e: ConfigGuardError) -> Seq<char>
    decreases e,
{
    match e {
        ConfigGuardError::FileRead { path, error } => "Failed to read file '"@ + path@ + "': "@
            + error@,
        ConfigGuardError::FileWrite { path, error } => "Failed to write to file '"@ + path@
            + "': "@ + error@,
        ConfigGuardError::FileNotFound { path } => "File not found: "@ + path@,
        ConfigGuardError::ParseYaml(msg) => "Failed to parse YAML: "@ + msg@,
        ConfigGuardError::ParseJson(msg) => "Failed to parse JSON: "@ + msg@,
        ConfigGuardError::UnsupportedFormat { path, extension } => "Unsupported file format for '"@
            + path@ + "' with extension '"@ + extension@ + "'"@,
        ConfigGuardError::Serialization(msg) => "Serialization error: "@ + msg@,
        ConfigGuardError::IO(msg) => "I/O error: "@ + msg@,
        ConfigGuardError::Encoding(msg) => "Encoding error: "@ + msg@,
        ConfigGuardError::Validation { message, path, expected, actual } => "Validation error at '"@
            + path@ + "': "@ + message@ + " (expected: "@ + expected@ + ", found: "@ + actual@
            + ")"@,
        ConfigGuardError::ValidationErrors { count, source } => decimal(count as nat)
            + " validation errors (first error: "@ + message_of(*source) + ")"@,
        ConfigGuardError::AllValidationErrors { errors } => if errors@.len() == 0 {
            decimal(0) + " validation errors"@
        } else {
            decimal(errors@.len()) + " validation errors"@
                + " (first error: Validation error at '"@ + errors@[0].path@ + "': "@
                + errors@[0].message@ + ")"@
        },
        ConfigGuardError::Pattern(msg) => "Invalid pattern: "@ + msg@,
        ConfigGuardError::Cli(msg) => "CLI error: "@ + msg@,
        ConfigGuardError::Schema(msg) => "Schema error: "@ + msg@,
        ConfigGuardError::Internal(msg) => "Internal error: "@ + msg@,
    }
}

/// The process exit code of a failure, by category.
pub open spec fn exit_code_of(e: ConfigGuardError) -> i32 {
    match e {
        ConfigGuardError::FileNotFound { .. } => 2,
        ConfigGuardError::FileRead { .. } | ConfigGuardError::FileWrite { .. } => 3,
        ConfigGuardError::ParseYaml(_) | ConfigGuardError::ParseJson(_) => 4,
        ConfigGuardError::UnsupportedFormat { .. } => 5,
        ConfigGuardError::Validation { .. }
        | ConfigGuardError::ValidationErrors { .. }
        | ConfigGuardError::AllValidationErrors { .. } => 10,
        ConfigGuardError::Schema(_) => 11,
        ConfigGuardError::Pattern(_) => 12,
        ConfigGuardError::Cli(_) => 20,
        ConfigGuardError::Serialization(_)
        | ConfigGuardError::Encoding(_)
        | ConfigGuardError::IO(_) => 30,
        ConfigGuardError::Internal(_) => 99,
    }
}

/// The document path that a failure points at: that of a single violation, or of
/// the sample of a count of violations; empty for every other failure.
pub open spec fn error_path_of(e: ConfigGuardError) -> Seq<char> {
    match e {
        ConfigGuardError::Validation { path, .. } => path@,
        ConfigGuardError::ValidationErrors { source, .. } => match *source {
            ConfigGuardError::Validation { path, .. } => path@,
            _ => Seq::empty(),
        },
        _ => Seq::empty(),
    }
}

impl ConfigGuardError {
    /// The exit code for this failure.
    pub fn exit_code(&self) -> (code: i32)
        ensures
            code == exit_code_of(*self),
    {
        match self {
            ConfigGuardError::FileNotFound { .. } => 2,
            ConfigGuardError::FileRead { .. } | ConfigGuardError::FileWrite { .. } => 3,
            ConfigGuardError::ParseYaml(_) | ConfigGuardError::ParseJson(_) => 4,
            ConfigGuardError::UnsupportedFormat { .. } => 5,
            ConfigGuardError::Validation { .. }
            | ConfigGuardError::ValidationErrors { .. }
            | ConfigGuardError::AllValidationErrors { .. } => 10,
            ConfigGuardError::Schema(_) => 11,
            ConfigGuardError::Pattern(_) => 12,
            ConfigGuardError::Cli(_) => 20,
            ConfigGuardError::Serialization(_)
            | ConfigGuardError::Encoding(_)
            | ConfigGuardError::IO(_) => 30,
            ConfigGuardError::Internal(_) => 99,
        }
    }

    /// The failure that this one was sampled from: the sample of a count of
    /// violations, nothing for any other failure.
    pub fn source(&self) -> (r: Option<&ConfigGuardError>)
        ensures
            match *self {
                ConfigGuardError::ValidationErrors { source, .. } => r == Some(&*source),
                _ => r is None,
            },
    {
        match self {
            ConfigGuardError::ValidationErrors { source, .. } => Some(&**source),
            _ => None,
        }
    }

    /// The message of this failure.
    pub fn message(&self) -> (r: String)
        ensures
            r@ == message_of(*self),
        decreases *self,
    {
        match self {
            ConfigGuardError::FileRead { path, error } => {
                let mut r = "Failed to read file '".to_string();
                r.append(path.as_str());
                r.append("': ");
                r.append(error.as_str());
                r
            },
            ConfigGuardError::FileWrite { path, error } => {
                let mut r = "Failed to write to file '".to_string();
                r.append(path.as_str());
                r.append("': ");
                r.append(error.as_str());
                r
            },
            ConfigGuardError::FileNotFound { path } => {
                let mut r = "File not found: ".to_string();
                r.append(path.as_str());
                r
            },
            ConfigGuardError::ParseYaml(msg) => {
                let mut r = "Failed to parse YAML: ".to_string();
                r.append(msg.as_str());
                r
            },
            ConfigGuardError::ParseJson(msg) => {
                let mut r = "Failed to parse JSON: ".to_string();
                r.append(msg.as_str());
                r
            },
            ConfigGuardError::UnsupportedFormat { path, extension } => {
                let mut r = "Unsupported file format for '".to_string();
                r.append(path.as_str());
                r.append("' with extension '");
                r.append(extension.as_str());
                r.append("'");
                r
            },
            ConfigGuardError::Serialization(msg) => {
                let mut r = "Serialization error: ".to_string();
                r.append(msg.as_str());
                r
            },
            ConfigGuardError::IO(msg) => {
                let mut r = "I/O error: ".to_string();
                r.append(msg.as_str());
                r
            },
            ConfigGuardError::Encoding(msg) => {
                let mut r = "Encoding error: ".to_string();
                r.append(msg.as_str());
                r
            },
            ConfigGuardError::Validation { message, path, expected, actual } => {
                let mut r = "Validation error at '".to_string();
                r.append(path.as_str());
                r.append("': ");
                r.append(message.as_str());
                r.append(" (expected: ");
                r.append(expected.as_str());
                r.append(", found: ");
                r.append(actual.as_str());
                r.append(")");
                r
            },
            ConfigGuardError::ValidationErrors { count, source } => {
                let mut r = count_text(*count);
                r.append(" validation errors (first error: ");
                let inner = source.message();
                r.append(inner.as_str());
                r.append(")");
                r
            },
            ConfigGuardError::AllValidationErrors { errors } => {
                let mut r = count_text(errors.len());
                r.append(" validation errors");
                if errors.len() > 0 {
                    r.append(" (first error: Validation error at '");
                    r.append(errors[0].path.as_str());
                    r.append("': ");
                    r.append(errors[0].message.as_str());
                    r.append(")");
                }
                r
            },
            ConfigGuardError::Pattern(msg) => {
                let mut r = "Invalid pattern: ".to_string();
                r.append(msg.as_str());
                r
            },
            ConfigGuardError::Cli(msg) => {
                let mut r = "CLI error: ".to_string();
                r.append(msg.as_str());
                r
            },
            ConfigGuardError::Schema(msg) => {
                let mut r = "Schema error: ".to_string();
                r.append(msg.as_str());
                r
            },
            ConfigGuardError::Internal(msg) => {
                let mut r = "Internal error: ".to_string();
                r.append(msg.as_str());
                r
            },
        }
    }
}

/// The document path that a failure points at, or the empty text.
pub fn get_error_path(err: &ConfigGuardError) -> (r: String)
    ensures
        r@ == error_path_of(*err),
{
    match err {
        ConfigGuardError::Validation { path, .. } => path.clone(),
        ConfigGuardError::ValidationErrors { source, .. } => {
            match &**source {
                ConfigGuardError::Validation { path, .. } => path.clone(),
                _ => String::new(),
            }
        },
        _ => String::new(),
    }
}

/// A single violation as a failure carries it, without description and line.
pub open spec fn plain_violation(
    path: Seq<char>,
    message: Seq<char>,
    expected: Seq<char>,
    actual: Seq<char>,
) -> ErrorView {
    ErrorView { path, message, expected, actual, description: None, line: None }
}

/// The entry that stands for the violations that a count does not show.
pub open spec fn remainder(count: usize) -> ErrorView {
    plain_violation(
        Seq::empty(),
        "and "@ + decimal((count - 1) as nat) + " more validation errors"@,
        Seq::empty(),
        Seq::empty(),
    )
}

/// The violations that a failure stands for: all of them where the failure
/// holds them and there is at least one; the sample of a count, followed by an
/// entry for the rest where the count is above one; the violation of a single
/// one. `None` for every other failure.
pub open spec fn violations_of(e: ConfigGuardError) -> Option<Seq<ErrorView>> {
    match e {
        ConfigGuardError::AllValidationErrors { errors } => if errors@.len() > 0 {
            Some(views(errors@))
        } else {
            None
        },
        ConfigGuardError::ValidationErrors { count, source } => {
            let sample = match *source {
                ConfigGuardError::Validation { message, path, expected, actual } => seq![
                    plain_violation(path@, message@, expected@, actual@),
                ],
                _ => Seq::empty(),
            };
            Some(
                if count > 1 {
                    sample.push(remainder(count))
                } else {
                    sample
                },
            )
        },
        ConfigGuardError::Validation { message, path, expected, actual } => Some(
            seq![plain_violation(path@, message@, expected@, actual@)],
        ),
        _ => None,
    }
}

/// A violation without description and line.
fn plain(path: &String, message: &String, expected: &String, actual: &String) -> (r:
    ValidationError)
    ensures
        r@ == plain_violation(path@, message@, expected@, actual@),
{
    ValidationError {
        path: path.clone(),
        message: message.clone(),
        expected: expected.clone(),
        actual: actual.clone(),
        description: None,
        line: None,
    }
}

/// The violations that a failure stands for, to list them in a report.
pub fn extract_validation_errors(err: &ConfigGuardError) -> (r: Option<Vec<ValidationError>>)
    ensures
        match violations_of(*err) {
            Some(listed) => r matches Some(errors) && views(errors@) == listed,
            None => r is None,
        },
{
    match err {
        ConfigGuardError::AllValidationErrors { errors } => {
            if errors.len() == 0 {
                return None;
            }
            let mut copies: Vec<ValidationError> = Vec::new();
            let mut i: usize = 0;
            while i < errors.len()
                invariant
                    i <= errors.len(),
                    copies@.len() == i,
                    forall|j: int| 0 <= j < i ==> (#[trigger] copies@[j])@ == errors@[j]@,
                decreases errors.len() - i,
            {
                copies.push(errors[i].duplicate());
                i = i + 1;
            }
            assert(views(copies@) =~= views(errors@));
            Some(copies)
        },
        ConfigGuardError::ValidationErrors { count, source } => {
            let mut listed: Vec<ValidationError> = Vec::new();
            match &**source {
                ConfigGuardError::Validation { message, path, expected, actual } => {
                    listed.push(plain(path, message, expected, actual));
                },
                _ => {},
            }
            if *count > 1 {
                let mut message = "and ".to_string();
                let more = count_text(*count - 1);
                message.append(more.as_str());
                message.append(" more validation errors");
                let empty = String::new();
                listed.push(plain(&empty, &message, &empty, &empty));
            }
            assert(views(listed@) =~= violations_of(*err)->Some_0);
            Some(listed)
        },
        ConfigGuardError::Validation { message, path, expected, actual } => {
            let mut listed: Vec<ValidationError> = Vec::new();
            listed.push(plain(path, message, expected, actual));
            assert(views(listed@) =~= violations_of(*err)->Some_0);
            Some(listed)
        },
        _ => None,
    }
}

} // verus!
