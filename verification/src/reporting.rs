//! Reports on the outcome of a validation, as plain text and as JSON.

use crate::error::ConfigGuardError;
use crate::text::{count_text, decimal};
use crate::validation::{views, ErrorView, ValidationError, ValidationResult};
use vstd::prelude::*;

verus! {

/// The form of a report.
#[derive(Debug, Clone, Copy, PartialEq, Eq, Structural)]
pub enum ReportFormat {
    /// Text for a reader.
    Text,
    /// JSON for a program.
    Json,
}

/// The name of a form, as the command line writes it.
pub open spec fn format_name(format: ReportFormat) -> Seq<char> {
    match format {
        ReportFormat::Text => "text"@,
        ReportFormat::Json => "json"@,
    }
}

impl ReportFormat {
    /// The name of the form, as the command line writes it.
    pub fn name(&self) -> (r: String)
        ensures
            r@ == format_name(*self),
    {
        match self {
            ReportFormat::Text => "text".to_string(),
            ReportFormat::Json => "json".to_string(),
        }
    }
}

/// The violations that a result lists; none for a valid document.
pub open spec fn listed_in(result: ValidationResult) -> Seq<ErrorView> {
    match result {
        ValidationResult::Valid => Seq::empty(),
        ValidationResult::Invalid(errors) => views(errors@),
    }
}

/// The lines of a text report on one violation: its number, path and message,
/// with the line of the source where it is known; the rule's description where
/// it has one; what was expected and what was found. A blank line follows
/// unless the violation is the last one.
pub open spec fn text_entry(e: ErrorView, number: nat, last: bool) -> Seq<char> {
    let head = decimal(number) + ". Error at path '"@ + e.path + "'"@ + (match e.line {
        Some(line) => " (line "@ + decimal(line as nat) + ")"@,
        None => Seq::empty(),
    }) + ": "@ + e.message + "\n"@;
    let described = match e.description {
        Some(d) => "   Field description: "@ + d + "\n"@,
        None => Seq::empty(),
    };
    let body = "   Expected: "@ + e.expected + "\n"@ + "   Found: "@ + e.actual + "\n"@;
    head + described + body + (if last {
        Seq::empty()
    } else {
        "\n"@
    })
}

/// The text report on the first `upto` violations.
pub open spec fn text_entries(errors: Seq<ErrorView>, upto: nat) -> Seq<char>
    decreases upto,
{
    if upto == 0 || upto > errors.len() {
        Seq::empty()
    } else {
        text_entries(errors, (upto - 1) as nat) + text_entry(
            errors[upto - 1],
            upto,
            upto == errors.len(),
        )
    }
}

/// The text report on a result.
pub open spec fn text_report(result: ValidationResult) -> Seq<char> {
    match result {
        ValidationResult::Valid => "Configuration validation passed.\n"@,
        ValidationResult::Invalid(errors) => "Configuration validation failed with "@ + decimal(
            errors@.len(),
        ) + " errors:\n"@ + text_entries(views(errors@), errors@.len()),
    }
}

/// Formats the lines of a text report on one violation.
fn text_entry_text(e: &ValidationError, number: usize, last: bool) -> (r: String)
    ensures
        r@ == text_entry(e@, number as nat, last),
{
    let mut located = String::new();
    if let Some(line) = e.line {
        located.append(" (line ");
        let shown = count_text(line);
        located.append(shown.as_str());
        located.append(")");
        assert(located@ =~= " (line "@ + decimal(line as nat) + ")"@);
    }
    let mut head = count_text(number);
    head.append(". Error at path '");
    head.append(e.path.as_str());
    head.append("'");
    head.append(located.as_str());
    head.append(": ");
    head.append(e.message.as_str());
    head.append("\n");
    let mut described = String::new();
    if let Some(d) = &e.description {
        described.append("   Field description: ");
        described.append(d.as_str());
        described.append("\n");
        assert(described@ =~= "   Field description: "@ + d@ + "\n"@);
    }
    let mut body = "   Expected: ".to_string();
    body.append(e.expected.as_str());
    body.append("\n");
    body.append("   Found: ");
    body.append(e.actual.as_str());
    body.append("\n");
    let mut out = head;
    out.append(described.as_str());
    out.append(body.as_str());
    if !last {
        out.append("\n");
    } else {
        assert(out@ =~= out@ + Seq::<char>::empty());
    }
    out
}

/// Formats a result as text for a reader.
pub fn format_text_report(result: &ValidationResult) -> (r: Result<String, ConfigGuardError>)
    ensures
        r matches Ok(report) && report@ == text_report(*result),
{
    match result {
        ValidationResult::Valid => Ok("Configuration validation passed.\n".to_string()),
        ValidationResult::Invalid(errors) => {
            let mut out = "Configuration validation failed with ".to_string();
            let count = count_text(errors.len());
            out.append(count.as_str());
            out.append(" errors:\n");
            let ghost head = out@;
            let mut i: usize = 0;
            assert(out@ =~= head + text_entries(views(errors@), 0));
            while i < errors.len()
                invariant
                    i <= errors.len(),
                    out@ == head + text_entries(views(errors@), i as nat),
                decreases errors.len() - i,
            {
                let entry = text_entry_text(&errors[i], i + 1, i + 1 == errors.len());
                out.append(entry.as_str());
                assert(views(errors@)[i as int] == errors@[i as int]@);
                i = i + 1;
                assert(out@ =~= head + text_entries(views(errors@), i as nat));
            }
            Ok(out)
        },
    }
}

/// The JSON string literal for a text, as `serde_json::to_string` writes it:
/// between double quotes, with the escapes that JSON asks for.
pub uninterp spec fn json_string(s: Seq<char>) -> Seq<char>;

/// Writes a text as a JSON string literal with `serde_json::to_string`, which
/// does not fail on a string. The contract names the result; the escaping is
/// that of the crate.
#[verifier::external_body]
fn json_quoted(s: &str) -> (r: String)
    ensures
        r@ == json_string(s@),
{
    serde_json::to_string(s).unwrap_or_default()
}

/// The JSON for an optional text: a string literal, or `null`.
pub open spec fn json_optional(s: Option<Seq<char>>) -> Seq<char> {
    match s {
        Some(t) => json_string(t),
        None => "null"@,
    }
}

/// The JSON object for one violation, as it stands in the list of a report.
pub open spec fn json_entry(e: ErrorView) -> Seq<char> {
    "    {\n      \"path\": "@ + json_string(e.path) + ",\n      \"message\": "@ + json_string(
        e.message,
    ) + ",\n      \"expected\": "@ + json_string(e.expected) + ",\n      \"actual\": "@
        + json_string(e.actual) + ",\n      \"description\": "@ + json_optional(e.description)
        + ",\n      \"line\": "@ + (match e.line {
        Some(line) => decimal(line as nat),
        None => "null"@,
    }) + "\n    }"@
}

/// The JSON objects for the first `upto` violations, one below the other.
pub open spec fn json_entries(errors: Seq<ErrorView>, upto: nat) -> Seq<char>
    decreases upto,
{
    if upto == 0 || upto > errors.len() {
        Seq::empty()
    } else if upto == 1 {
        json_entry(errors[0])
    } else {
        json_entries(errors, (upto - 1) as nat) + ",\n"@ + json_entry(errors[upto - 1])
    }
}

/// The JSON report on a result: whether the document is valid, the number of
/// violations, and the violations, indented by two spaces a level.
pub open spec fn json_report(result: ValidationResult) -> Seq<char> {
    let errors = listed_in(result);
    "{\n  \"valid\": "@ + (if result is Valid {
        "true"@
    } else {
        "false"@
    }) + ",\n  \"error_count\": "@ + decimal(errors.len()) + ",\n  \"errors\": ["@ + (
    if errors.len() == 0 {
        Seq::empty()
    } else {
        "\n"@ + json_entries(errors, errors.len()) + "\n  "@
    }) + "]\n}"@
}

/// Formats the JSON object for one violation.
fn json_entry_text(e: &ValidationError) -> (r: String)
    ensures
        r@ == json_entry(e@),
{
    let mut out = "    {\n      \"path\": ".to_string();
    let path = json_quoted(e.path.as_str());
    out.append(path.as_str());
    out.append(",\n      \"message\": ");
    let message = json_quoted(e.message.as_str());
    out.append(message.as_str());
    out.append(",\n      \"expected\": ");
    let expected = json_quoted(e.expected.as_str());
    out.append(expected.as_str());
    out.append(",\n      \"actual\": ");
    let actual = json_quoted(e.actual.as_str());
    out.append(actual.as_str());
    out.append(",\n      \"description\": ");
    match &e.description {
        Some(d) => {
            let description = json_quoted(d.as_str());
            out.append(description.as_str());
        },
        None => {
            out.append("null");
        },
    }
    out.append(",\n      \"line\": ");
    match e.line {
        Some(line) => {
            let shown = count_text(line);
            out.append(shown.as_str());
        },
        None => {
            out.append("null");
        },
    }
    out.append("\n    }");
    out
}

/// Formats a result as JSON for a program.
pub fn format_json_report(result: &ValidationResult) -> (r: Result<String, ConfigGuardError>)
    ensures
        r matches Ok(report) && report@ == json_report(*result),
{
    match result {
        ValidationResult::Valid => {
            let mut out = "{\n  \"valid\": ".to_string();
            out.append("true");
            out.append(",\n  \"error_count\": ");
            let count = count_text(0);
            out.append(count.as_str());
            out.append(",\n  \"errors\": [");
            out.append("]\n}");
            assert(out@ =~= json_report(*result));
            Ok(out)
        },
        ValidationResult::Invalid(errors) => {
            let mut out = "{\n  \"valid\": ".to_string();
            out.append("false");
            out.append(",\n  \"error_count\": ");
            let count = count_text(errors.len());
            out.append(count.as_str());
            out.append(",\n  \"errors\": [");
            let ghost head = out@;
            if errors.len() > 0 {
                out.append("\n");
                let mut i: usize = 0;
                assert(out@ =~= head + "\n"@ + json_entries(views(errors@), 0));
                while i < errors.len()
                    invariant
                        i <= errors.len(),
                        out@ == head + "\n"@ + json_entries(views(errors@), i as nat),
                    decreases errors.len() - i,
                {
                    if i > 0 {
                        out.append(",\n");
                    }
                    let entry = json_entry_text(&errors[i]);
                    out.append(entry.as_str());
                    assert(views(errors@)[i as int] == errors@[i as int]@);
                    i = i + 1;
                    assert(out@ =~= head + "\n"@ + json_entries(views(errors@), i as nat));
                }
                out.append("\n  ");
            }
            out.append("]\n}");
            assert(out@ =~= json_report(*result));
            Ok(out)
        },
    }
}

/// Formats a result in the form asked for.
pub fn format_validation_result(result: &ValidationResult, format: &ReportFormat) -> (r: Result<
    String,
    ConfigGuardError,
>)
    ensures
        r matches Ok(report) && report@ == (match *format {
            ReportFormat::Text => text_report(*result),
            ReportFormat::Json => json_report(*result),
        }),
{
    match format {
        ReportFormat::Text => format_text_report(result),
        ReportFormat::Json => format_json_report(result),
    }
}

} // verus!
