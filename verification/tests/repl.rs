use promptr::cli::ReplOutcome;
use promptr::config::schema::{EditorConfig, EditorMode};
use promptr::diagnostic::DiagnosticCategory;
use promptr::repl::{after_parse, line_edit, prompt, provider_strategy, repl_step, LineEdit, ProviderStrategy, ReplAction, ReplEvent};

#[test]
fn session_lines_are_skipped_quit_escaped_or_gathered() {
    let mut source = String::new();
    assert_eq!(prompt(&source), "promptr> ");
    assert_eq!(repl_step(&mut source, ReplEvent::Line("   \n".into())), ReplAction::Read);
    assert_eq!(repl_step(&mut source, ReplEvent::Line("  :q \n".into())), ReplAction::Finish(ReplOutcome::Completed));
    assert_eq!(repl_step(&mut source, ReplEvent::Line("!ls -l  \n".into())), ReplAction::Shell("ls -l".into()));
    assert_eq!(repl_step(&mut source, ReplEvent::Line("PRINT a\n".into())), ReplAction::Parse);
    assert_eq!(source, "PRINT a\n");
    assert_eq!(prompt(&source), "......> ");
    assert_eq!(repl_step(&mut source, ReplEvent::Line("quit\n".into())), ReplAction::Parse);
    assert_eq!(repl_step(&mut source, ReplEvent::EndOfInput), ReplAction::Finish(ReplOutcome::IncompleteInput));
    after_parse(&mut source, false);
    assert_eq!(source, "");
    assert_eq!(repl_step(&mut source, ReplEvent::EndOfInput), ReplAction::Finish(ReplOutcome::Completed));
    assert_eq!(repl_step(&mut source, ReplEvent::ReadFailed), ReplAction::Finish(ReplOutcome::InputIo));
}

#[test]
fn editor_strategy_follows_the_configured_mode() {
    let builtin = EditorConfig { mode: EditorMode::Builtin, external: Some(vec!["vi".into()]) };
    assert_eq!(provider_strategy(&builtin).unwrap(), ProviderStrategy::Builtin);
    let external = EditorConfig { mode: EditorMode::External, external: Some(vec!["vi".into(), "{file}".into()]) };
    assert_eq!(provider_strategy(&external).unwrap(), ProviderStrategy::External(vec!["vi".into(), "{file}".into()]));
    let missing = EditorConfig { mode: EditorMode::External, external: None };
    let err = provider_strategy(&missing).unwrap_err();
    assert_eq!(err.code, "E_EDITOR_CONFIG");
    assert_eq!(err.category, DiagnosticCategory::Configuration);
    assert_eq!(err.message, "external editor mode requires a configured argv");
}

#[test]
fn line_editor_saves_cancels_or_keeps_each_line() {
    assert_eq!(line_edit(Some(".save\n")), LineEdit::Save);
    assert_eq!(line_edit(Some(".save\r\n")), LineEdit::Save);
    assert_eq!(line_edit(Some(".cancel")), LineEdit::Cancel);
    assert_eq!(line_edit(None), LineEdit::Cancel);
    assert_eq!(line_edit(Some(" .save\n")), LineEdit::Append);
    assert_eq!(line_edit(Some(".saved\n")), LineEdit::Append);
    assert_eq!(line_edit(Some("text\n")), LineEdit::Append);
}
