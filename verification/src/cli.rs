//! The decisions of the command line tool: what a run over several documents or
//! directories counts, prints and answers. Reading files and printing are the
//! caller's part.

use crate::config::{format_for_extension, format_named, Config};
use crate::error::{message_of, ConfigGuardError};
use crate::reporting::{format_validation_result, json_report, text_report, ReportFormat};
use crate::schema::Schema;
use crate::text::{count_text, decimal, same_text};
use crate::validation::{validate, walk_node, ValidationResult};
use vstd::prelude::*;

verus! {

/// How a run of the tool ended.
#[derive(Debug)]
pub enum RunResult {
    /// Every document was valid.
    Success,
    /// The run failed.
    Failure(ConfigGuardError),
}

/// The form of report that a name on the command line asks for: JSON for
/// `json`, text for anything else.
pub fn output_format_named(name: &str) -> (r: ReportFormat)
    ensures
        r == (if name@ == "json"@ {
            ReportFormat::Json
        } else {
            ReportFormat::Text
        }),
{
    if same_text(name, "json") {
        ReportFormat::Json
    } else {
        ReportFormat::Text
    }
}

/// Whether a failure is the one that a run over several documents ends with:
/// a count of violations with a general sample.
pub open spec fn is_batch_failure(e: ConfigGuardError, count: usize) -> bool {
    match e {
        ConfigGuardError::ValidationErrors { count: c, source } => c == count && (match *source {
            ConfigGuardError::Validation { message, path, expected, actual } => message@
                == "One or more configurations failed validation"@ && path@ == ""@ && expected@
                == "Valid configuration"@ && actual@ == "Invalid configuration"@,
            _ => false,
        }),
        _ => false,
    }
}

/// The failure that a run over several documents ends with.
pub fn batch_failure(count: usize) -> (e: ConfigGuardError)
    ensures
        is_batch_failure(e, count),
{
    ConfigGuardError::ValidationErrors {
        count,
        source: Box::new(
            ConfigGuardError::Validation {
                message: "One or more configurations failed validation".to_string(),
                path: "".to_string(),
                expected: "Valid configuration".to_string(),
                actual: "Invalid configuration".to_string(),
            },
        ),
    }
}

/// The report on a result in a form.
pub open spec fn report_text(result: ValidationResult, format: ReportFormat) -> Seq<char> {
    match format {
        ReportFormat::Text => text_report(result),
        ReportFormat::Json => json_report(result),
    }
}

/// Validates one loaded document and formats the report on it. The second part
/// of the answer says whether the report lists violations.
pub fn validate_single_config(
    config: &Config,
    schema: &Schema,
    strict: bool,
    output_format: &ReportFormat,
) -> (r: Result<(String, bool), ConfigGuardError>)
    ensures
        ({
            let walk = walk_node(config.data, schema.root, Seq::empty(), strict);
            match walk.fault {
                Some(message) => r matches Err(ConfigGuardError::Pattern(t)) && t@ == message,
                None => r matches Ok(answer) && answer.1 == (walk.errors.len() > 0) && (exists|
                    result: ValidationResult,
                |
                    crate::validation::verdict(
                        Ok::<ValidationResult, ConfigGuardError>(result),
                        *config,
                        *schema,
                        strict,
                    ) && answer.0@ == report_text(result, *output_format)),
            }
        }),
{
    match validate(config, schema, strict) {
        Ok(result) => {
            let has_errors = match &result {
                ValidationResult::Valid => false,
                ValidationResult::Invalid(_) => true,
            };
            match format_validation_result(&result, output_format) {
                Ok(report) => {
                    assert(crate::validation::verdict(
                        Ok::<ValidationResult, ConfigGuardError>(result),
                        *config,
                        *schema,
                        strict,
                    ) && report@ == report_text(result, *output_format));
                    Ok((report, has_errors))
                },
                Err(e) => Err(e),
            }
        },
        Err(e) => Err(e),
    }
}

/// What one document of a run came to: valid, invalid, or a failure to load or
/// validate it.
pub open spec fn is_clean(outcome: Result<bool, ConfigGuardError>) -> bool {
    outcome matches Ok(has_errors) && !has_errors
}

/// The line that a run over several documents prints for one of them, in text
/// form: on a failure always, else only where the run has more than one document.
pub open spec fn config_line(
    path: Seq<char>,
    total: usize,
    format: ReportFormat,
    outcome: Result<bool, ConfigGuardError>,
) -> Option<Seq<char>> {
    if format != ReportFormat::Text {
        None
    } else {
        match outcome {
            Ok(has_errors) => if total > 1 {
                Some(
                    (if has_errors {
                        "\u{274c} "@
                    } else {
                        "\u{2705} "@
                    }) + path + (if has_errors {
                        ": Invalid"@
                    } else {
                        ": Valid"@
                    }),
                )
            } else {
                None
            },
            Err(e) => Some("Error processing "@ + path + ": "@ + message_of(e)),
        }
    }
}

/// The line to print for one document of a run, if any. The line for a failure
/// belongs on the error stream.
pub fn config_outcome_line(
    path: &str,
    total: usize,
    format: ReportFormat,
    outcome: &Result<bool, ConfigGuardError>,
) -> (r: Option<String>)
    ensures
        crate::validation::text_of(r) == config_line(path@, total, format, *outcome),
{
    if format != ReportFormat::Text {
        return None;
    }
    match outcome {
        Ok(has_errors) => {
            if total > 1 {
                let mut line = if *has_errors {
                    "\u{274c} ".to_string()
                } else {
                    "\u{2705} ".to_string()
                };
                line.append(path);
                line.append(
                    if *has_errors {
                        ": Invalid"
                    } else {
                        ": Valid"
                    },
                );
                Some(line)
            } else {
                None
            }
        },
        Err(e) => {
            let mut line = "Error processing ".to_string();
            line.append(path);
            line.append(": ");
            let shown = e.message();
            line.append(shown.as_str());
            Some(line)
        },
    }
}

/// What a run over several documents does after one of them: with a single
/// document a failure ends the run with that failure; else the run goes on and
/// remembers whether any document was not clean.
pub fn configs_step(
    errors_found: bool,
    total: usize,
    outcome: Result<bool, ConfigGuardError>,
) -> (r: Result<bool, ConfigGuardError>)
    ensures
        match outcome {
            Ok(has_errors) => r == Ok::<bool, ConfigGuardError>(errors_found || has_errors),
            Err(e) => if total == 1 {
                r == Err::<bool, ConfigGuardError>(e)
            } else {
                r == Ok::<bool, ConfigGuardError>(true)
            },
        },
{
    match outcome {
        Ok(has_errors) => Ok(errors_found || has_errors),
        Err(e) => {
            if total == 1 {
                Err(e)
            } else {
                Ok(true)
            }
        },
    }
}

/// How a run over several documents ends.
pub fn configs_result(errors_found: bool) -> (r: RunResult)
    ensures
        if errors_found {
            r matches RunResult::Failure(e) && is_batch_failure(e, 1)
        } else {
            r is Success
        },
{
    if errors_found {
        RunResult::Failure(batch_failure(1))
    } else {
        RunResult::Success
    }
}

/// The counts of a run over directories.
#[derive(Debug, Clone, Copy, PartialEq, Eq, Structural)]
pub struct Tally {
    /// Documents that were looked at.
    pub processed: usize,
    /// Documents, among those, without a violation.
    pub valid: usize,
    /// Files passed over for their extension.
    pub skipped: usize,
}

impl Tally {
    /// Whether the counts are consistent.
    pub open spec fn wf(self) -> bool {
        self.valid <= self.processed
    }

    /// Nothing counted yet.
    pub fn new() -> (r: Tally)
        ensures
            r == (Tally { processed: 0, valid: 0, skipped: 0 }),
            r.wf(),
    {
        Tally { processed: 0, valid: 0, skipped: 0 }
    }

    /// Counts a document: as valid only where it was validated without a violation.
    pub fn record(&mut self, outcome: &Result<bool, ConfigGuardError>)
        requires
            old(self).wf(),
            old(self).processed < usize::MAX,
        ensures
            final(self).wf(),
            final(self).processed == old(self).processed + 1,
            final(self).valid == old(self).valid + (if is_clean(*outcome) {
                1int
            } else {
                0int
            }),
            final(self).skipped == old(self).skipped,
    {
        self.processed = self.processed + 1;
        match outcome {
            Ok(has_errors) => {
                if !*has_errors {
                    self.valid = self.valid + 1;
                }
            },
            Err(_) => {},
        }
    }

    /// Counts a file that was passed over.
    pub fn skip(&mut self)
        requires
            old(self).skipped < usize::MAX,
        ensures
            final(self).skipped == old(self).skipped + 1,
            final(self).processed == old(self).processed,
            final(self).valid == old(self).valid,
    {
        self.skipped = self.skipped + 1;
    }

    /// Adds the counts of one directory to those of the run.
    pub fn add(&mut self, other: &Tally)
        requires
            old(self).wf(),
            other.wf(),
            old(self).processed + other.processed <= usize::MAX,
            old(self).skipped + other.skipped <= usize::MAX,
        ensures
            final(self).wf(),
            final(self).processed == old(self).processed + other.processed,
            final(self).valid == old(self).valid + other.valid,
            final(self).skipped == old(self).skipped + other.skipped,
    {
        self.processed = self.processed + other.processed;
        self.valid = self.valid + other.valid;
        self.skipped = self.skipped + other.skipped;
    }

    /// Whether a directory with these counts holds a document that is not valid.
    pub fn has_failures(&self) -> (r: bool)
        ensures
            r == (self.processed > 0 && self.processed != self.valid),
    {
        self.processed > 0 && self.processed != self.valid
    }
}

/// Whether a file with this extension is a document: its extension, whatever
/// its case, names a format.
pub fn is_config_extension(extension: &str) -> (r: bool)
    ensures
        r == (format_named(Some(extension@)) is Some),
{
    format_for_extension("", Some(extension.to_string())).is_ok()
}

/// The line that a run over a directory prints for one document, in text form.
pub open spec fn directory_line(path: Seq<char>, outcome: Result<bool, ConfigGuardError>) -> Seq<
    char,
> {
    match outcome {
        Ok(has_errors) => if has_errors {
            "\u{274c} "@ + path + ": Invalid"@
        } else {
            "\u{2705} "@ + path + ": Valid"@
        },
        Err(e) => "\u{274c} "@ + path + ": Error - "@ + message_of(e),
    }
}

/// The line to print for one document of a directory.
pub fn directory_outcome_line(path: &str, outcome: &Result<bool, ConfigGuardError>) -> (r: String)
    ensures
        r@ == directory_line(path@, *outcome),
{
    match outcome {
        Ok(has_errors) => {
            if *has_errors {
                let mut line = "\u{274c} ".to_string();
                line.append(path);
                line.append(": Invalid");
                line
            } else {
                let mut line = "\u{2705} ".to_string();
                line.append(path);
                line.append(": Valid");
                line
            }
        },
        Err(e) => {
            let mut line = "\u{274c} ".to_string();
            line.append(path);
            line.append(": Error - ");
            let shown = e.message();
            line.append(shown.as_str());
            line
        },
    }
}

/// The summary of a run over directories, in text form.
pub open spec fn summary_text(tally: Tally) -> Seq<char> {
    "\nValidation Summary:\n"@ + "  Processed: "@ + decimal(tally.processed as nat) + " files\n"@
        + "  Valid: "@ + decimal(tally.valid as nat) + " files\n"@ + "  Invalid: "@ + decimal(
        (tally.processed - tally.valid) as nat,
    ) + " files\n"@ + "  Skipped: "@ + decimal(tally.skipped as nat)
        + " files (incompatible extension)"@
}

/// Formats the summary of a run over directories.
pub fn format_summary(tally: &Tally) -> (r: String)
    requires
        tally.wf(),
    ensures
        r@ == summary_text(*tally),
{
    let mut out = "\nValidation Summary:\n".to_string();
    out.append("  Processed: ");
    let processed = count_text(tally.processed);
    out.append(processed.as_str());
    out.append(" files\n");
    out.append("  Valid: ");
    let valid = count_text(tally.valid);
    out.append(valid.as_str());
    out.append(" files\n");
    out.append("  Invalid: ");
    let invalid = count_text(tally.processed - tally.valid);
    out.append(invalid.as_str());
    out.append(" files\n");
    out.append("  Skipped: ");
    let skipped = count_text(tally.skipped);
    out.append(skipped.as_str());
    out.append(" files (incompatible extension)");
    out
}

/// How a run over directories ends: with the number of documents that were not
/// valid where any directory held one or could not be read.
pub fn directories_result(tally: &Tally, errors_found: bool) -> (r: RunResult)
    requires
        tally.wf(),
    ensures
        if errors_found {
            r matches RunResult::Failure(e) && is_batch_failure(
                e,
                (tally.processed - tally.valid) as usize,
            )
        } else {
            r is Success
        },
{
    if errors_found {
        RunResult::Failure(batch_failure(tally.processed - tally.valid))
    } else {
        RunResult::Success
    }
}

} // verus!
