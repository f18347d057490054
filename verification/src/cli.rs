//! Decisions of the command line: the output format before parsing, when the terminal
//! interface runs, how a failure maps to an exit code, and the errors of configuration and
//! database maintenance.

use vstd::prelude::*;

use crate::application::output::OutputFormat;
use crate::config::diagnostic::{diagnostic_text, ConfigDiagnostic};
use crate::diagnostic::{plain_error, Diagnostic, DiagnosticCategory};
use crate::store::SCHEMA_VERSION;
use crate::text::{push_signed_decimal, signed_decimal};

verus! {

/// Argument `i` asks for JSON: it is `--format=json`, or `--format` followed by `json`.
pub open spec fn asks_json(args: Seq<Seq<char>>, i: int) -> bool {
    args[i] == "--format=json"@ || (args[i] == "--format"@ && i + 1 < args.len() && args[i + 1] == "json"@)
}

/// Some argument after the program's name asks for JSON.
pub open spec fn json_requested(args: Seq<Seq<char>>) -> bool {
    exists|i: int| 1 <= i < args.len() && #[trigger] asks_json(args, i)
}

/// The texts of the arguments.
pub open spec fn arg_texts(args: Seq<String>) -> Seq<Seq<char>> {
    args.map_values(|a: String| a@)
}

fn same(a: &str, b: &str) -> (r: bool)
    ensures
        r == (a@ == b@),
{
    match crate::order::text_order(a, b) {
        crate::order::Precedence::Same => true,
        _ => false,
    }
}

/// The output format of arguments that may not parse, so that a parse error can be
/// reported in it: JSON where an argument asks for it (see `asks_json`), human otherwise.
pub fn early_output_format(args: &Vec<String>) -> (f: OutputFormat)
    ensures
        f == if json_requested(arg_texts(args@)) { OutputFormat::Json } else { OutputFormat::Human },
{
    let ghost a = arg_texts(args@);
    let mut json = false;
    let mut index: usize = 1;
    proof {
        reveal_strlit("json");
        reveal_strlit("--format");
        reveal_strlit("--format=json");
        assert("json"@ != "--format"@ && "json"@ != "--format=json"@) by {
            assert("json"@.len() != "--format"@.len());
            assert("json"@.len() != "--format=json"@.len());
        }
    }
    while index < args.len()
        invariant
            a == arg_texts(args@),
            a.len() == args@.len(),
            1 <= index,
            index <= args@.len() + 1,
            "json"@ != "--format"@ && "json"@ != "--format=json"@,
            json == exists|i: int| 1 <= i < index && i < a.len() && #[trigger] asks_json(a, i),
        decreases args@.len() + 1 - index,
    {
        proof {
            assert(a[index as int] == args@[index as int]@);
        }
        if same(args[index].as_str(), "--format=json") {
            json = true;
            proof {
                assert(asks_json(a, index as int));
            }
        } else if same(args[index].as_str(), "--format") && index + 1 < args.len() && same(args[index + 1].as_str(), "json") {
            json = true;
            proof {
                assert(a[index + 1] == args@[index + 1]@);
                assert(asks_json(a, index as int));
                assert(!asks_json(a, index + 1));
            }
            index = index + 1;
        } else {
            proof {
                if index + 1 < args.len() {
                    assert(a[index + 1] == args@[index + 1]@);
                }
                assert(!asks_json(a, index as int));
            }
        }
        index = index + 1;
    }
    if json {
        OutputFormat::Json
    } else {
        OutputFormat::Human
    }
}

/// The terminal interface runs when no command was given, the format is human, and both
/// standard input and standard output are terminals.
pub fn should_use_tui(has_command: bool, format: OutputFormat, stdin_terminal: bool, stdout_terminal: bool) -> (b: bool)
    ensures
        b == (!has_command && format == OutputFormat::Human && stdin_terminal && stdout_terminal),
{
    let human = match format {
        OutputFormat::Human => true,
        _ => false,
    };
    !has_command && human && stdin_terminal && stdout_terminal
}

/// The exit code of a failure: 2 for a usage problem (syntax, capability, configuration),
/// 3 for an incompatible store, 1 otherwise.
pub open spec fn failure_code(category: DiagnosticCategory) -> u8 {
    match category {
        DiagnosticCategory::Syntax | DiagnosticCategory::Capability | DiagnosticCategory::Configuration => 2,
        DiagnosticCategory::Compatibility => 3,
        _ => 1,
    }
}

/// The exit code of a failure (see `failure_code`).
pub fn exit_code(category: DiagnosticCategory) -> (c: u8)
    ensures
        c == failure_code(category),
{
    match category {
        DiagnosticCategory::Syntax | DiagnosticCategory::Capability | DiagnosticCategory::Configuration => 2,
        DiagnosticCategory::Compatibility => 3,
        _ => 1,
    }
}

/// The texts of some configuration diagnostics joined by `; `.
pub open spec fn joined_texts(errors: Seq<ConfigDiagnostic>) -> Seq<char>
    decreases errors.len(),
{
    if errors.len() == 0 {
        Seq::empty()
    } else if errors.len() == 1 {
        diagnostic_text(errors[0])
    } else {
        joined_texts(errors.drop_last()) + "; "@ + diagnostic_text(errors.last())
    }
}

/// The one diagnostic of a configuration that cannot be loaded: every configuration
/// diagnostic's text, joined by `; `.
pub fn config_failure(errors: &Vec<ConfigDiagnostic>) -> (d: Diagnostic)
    ensures
        plain_error(d, "E_CONFIG"@, DiagnosticCategory::Configuration, joined_texts(errors@)),
{
    let mut message = String::new();
    let mut i: usize = 0;
    while i < errors.len()
        invariant
            0 <= i <= errors@.len(),
            message@ == joined_texts(errors@.take(i as int)),
        decreases errors@.len() - i,
    {
        proof {
            assert(errors@.take(i + 1).drop_last() =~= errors@.take(i as int));
        }
        if i > 0 {
            message.push_str("; ");
        }
        let text = errors[i].text();
        message.push_str(text.as_str());
        proof {
            if i == 0 {
                assert(message@ =~= diagnostic_text(errors@[0]));
            }
        }
        i = i + 1;
    }
    proof {
        assert(errors@.take(errors@.len() as int) =~= errors@);
    }
    Diagnostic::error("E_CONFIG", DiagnosticCategory::Configuration, message.as_str())
}

/// A database migration is needed or impossible unless the store is compatible and at the
/// current schema; the error names the version found.
pub fn migration_check(compatible: bool, user_version: i32) -> (r: Result<(), Diagnostic>)
    ensures
        compatible && user_version == SCHEMA_VERSION ==> r is Ok,
        !(compatible && user_version == SCHEMA_VERSION) ==> (r matches Err(d) && plain_error(
            d,
            "E_DB_MIGRATION"@,
            DiagnosticCategory::Compatibility,
            "no supported migration from schema "@ + signed_decimal(user_version as int) + " to 1"@,
        )),
{
    if !compatible || user_version != SCHEMA_VERSION {
        let mut message = "no supported migration from schema ".to_owned();
        push_signed_decimal(&mut message, user_version as i128);
        message.push_str(" to 1");
        return Err(Diagnostic::error("E_DB_MIGRATION", DiagnosticCategory::Compatibility, message.as_str()));
    }
    Ok(())
}

/// How an interactive session ended.
#[derive(Clone, Copy, Debug, Eq, PartialEq, Structural)]
pub enum ReplOutcome {
    /// The user ended the session normally.
    Completed,
    /// Input ended inside an incomplete statement.
    IncompleteInput,
    /// Reading input failed.
    InputIo,
    /// Writing output failed.
    OutputIo,
}

/// The process exit code of a session's end: zero for success, one for an I/O failure, two
/// for incomplete input.
pub open spec fn session_code(outcome: ReplOutcome) -> u8 {
    match outcome {
        ReplOutcome::Completed => 0,
        ReplOutcome::InputIo | ReplOutcome::OutputIo => 1,
        ReplOutcome::IncompleteInput => 2,
    }
}

impl ReplOutcome {
    /// The process exit code (see `session_code`).
    pub fn exit_code(self) -> (c: u8)
        ensures
            c == session_code(self),
    {
        match self {
            ReplOutcome::Completed => 0,
            ReplOutcome::InputIo | ReplOutcome::OutputIo => 1,
            ReplOutcome::IncompleteInput => 2,
        }
    }
}

} // verus!
