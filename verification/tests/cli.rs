use promptr::application::output::OutputFormat;
use promptr::cli::{config_failure, early_output_format, exit_code, migration_check, should_use_tui};
use promptr::config::diagnostic::ConfigDiagnostic;
use promptr::diagnostic::DiagnosticCategory;

fn args(items: &[&str]) -> Vec<String> {
    items.iter().map(|s| s.to_string()).collect()
}

#[test]
fn early_format_finds_json_before_parsing() {
    assert_eq!(early_output_format(&args(&["promptr", "--format=json", "bogus"])), OutputFormat::Json);
    assert_eq!(early_output_format(&args(&["promptr", "eval", "--format", "json"])), OutputFormat::Json);
    assert_eq!(early_output_format(&args(&["promptr", "--format", "human"])), OutputFormat::Human);
    assert_eq!(early_output_format(&args(&["--format=json"])), OutputFormat::Human);
    assert_eq!(early_output_format(&args(&["promptr", "--format"])), OutputFormat::Human);
    assert_eq!(early_output_format(&args(&["promptr", "--format=json", "--format", "human"])), OutputFormat::Json);
}

#[test]
fn tui_needs_no_command_human_format_and_two_terminals() {
    assert!(should_use_tui(false, OutputFormat::Human, true, true));
    assert!(!should_use_tui(true, OutputFormat::Human, true, true));
    assert!(!should_use_tui(false, OutputFormat::Json, true, true));
    assert!(!should_use_tui(false, OutputFormat::Human, false, true));
    assert!(!should_use_tui(false, OutputFormat::Human, true, false));
}

#[test]
fn failures_map_to_exit_codes_by_category() {
    assert_eq!(exit_code(DiagnosticCategory::Syntax), 2);
    assert_eq!(exit_code(DiagnosticCategory::Configuration), 2);
    assert_eq!(exit_code(DiagnosticCategory::Capability), 2);
    assert_eq!(exit_code(DiagnosticCategory::Compatibility), 3);
    assert_eq!(exit_code(DiagnosticCategory::Storage), 1);
    assert_eq!(exit_code(DiagnosticCategory::Domain), 1);
}

#[test]
fn configuration_errors_become_one_diagnostic() {
    let errors = vec![
        ConfigDiagnostic::error("E_A", "first").with_suggestion("try this"),
        ConfigDiagnostic::error("E_B", "second"),
    ];
    let d = config_failure(&errors);
    assert_eq!(d.code, "E_CONFIG");
    assert_eq!(d.category, DiagnosticCategory::Configuration);
    assert_eq!(d.message, "E_A: first (try this); E_B: second");
}

#[test]
fn database_migration_is_refused_unless_current() {
    assert!(migration_check(true, 1).is_ok());
    let d = migration_check(false, 1).unwrap_err();
    assert_eq!(d.code, "E_DB_MIGRATION");
    assert_eq!(d.message, "no supported migration from schema 1 to 1");
    assert_eq!(migration_check(true, 2).unwrap_err().message, "no supported migration from schema 2 to 1");
}

#[test]
fn session_outcomes_map_to_stable_exit_codes() {
    assert_eq!(promptr::cli::ReplOutcome::Completed.exit_code(), 0);
    assert_eq!(promptr::cli::ReplOutcome::InputIo.exit_code(), 1);
    assert_eq!(promptr::cli::ReplOutcome::OutputIo.exit_code(), 1);
    assert_eq!(promptr::cli::ReplOutcome::IncompleteInput.exit_code(), 2);
}
