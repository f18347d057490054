//! The decisions of the interactive session, one input event at a time: what each line
//! means, and how the session ends. The host reads lines, runs shell commands, parses and
//! evaluates, and reports; the source gathered so far is the session's state.

use vstd::prelude::*;

use crate::application::search::chars_of;
use crate::cli::ReplOutcome;
use crate::config::schema::{EditorConfig, EditorMode};
use crate::diagnostic::{plain_error, Diagnostic, DiagnosticCategory};
use crate::domain::metadata::{is_unicode_whitespace, unicode_whitespace};
use crate::order::{text_order, Precedence};

verus! {

/// What the host read.
pub enum ReplEvent {
    /// A line, with its line break.
    Line(String),
    /// The input ended.
    EndOfInput,
    /// Reading failed.
    ReadFailed,
}

/// What the host does next.
#[derive(Debug, PartialEq, Eq)]
pub enum ReplAction {
    /// Read the next line.
    Read,
    /// Run a shell command, then read the next line.
    Shell(String),
    /// Parse the gathered source (see `after_parse`).
    Parse,
    /// End the session (input that ended inside a statement is reported first).
    Finish(ReplOutcome),
}

/// What the host does next, as values.
pub enum ReplDecision {
    /// Read the next line.
    Read,
    /// Run this shell command.
    Shell(Seq<char>),
    /// Parse the gathered source.
    Parse,
    /// End the session.
    Finish(ReplOutcome),
}

/// An action as values.
pub open spec fn decision_of(a: ReplAction) -> ReplDecision {
    match a {
        ReplAction::Read => ReplDecision::Read,
        ReplAction::Shell(c) => ReplDecision::Shell(c@),
        ReplAction::Parse => ReplDecision::Parse,
        ReplAction::Finish(o) => ReplDecision::Finish(o),
    }
}

/// A text without the whitespace that starts it.
pub open spec fn trim_start(s: Seq<char>) -> Seq<char>
    decreases s.len(),
{
    if s.len() > 0 && unicode_whitespace(s[0]) {
        trim_start(s.drop_first())
    } else {
        s
    }
}

/// A text without the whitespace that ends it.
pub open spec fn trim_end(s: Seq<char>) -> Seq<char>
    decreases s.len(),
{
    if s.len() > 0 && unicode_whitespace(s.last()) {
        trim_end(s.drop_last())
    } else {
        s
    }
}

/// A text without the whitespace around it.
pub open spec fn trimmed(s: Seq<char>) -> Seq<char> {
    trim_end(trim_start(s))
}

/// The words that end a session.
pub open spec fn quit_word(s: Seq<char>) -> bool {
    s == ":quit"@ || s == ":q"@ || s == "quit"@ || s == "exit"@
}

/// The prompt: a fresh one, or a continuation inside a statement.
pub open spec fn prompt_text(source: Seq<char>) -> Seq<char> {
    if source.len() == 0 {
        "promptr> "@
    } else {
        "......> "@
    }
}

/// What an event means for the session: at the start of a statement, a blank line is
/// skipped, a quit word ends the session and a line starting with `!` is a shell command
/// (without its trailing whitespace); any other line is added to the source, which is then
/// parsed. The end of input completes the session, or reports an incomplete statement; a
/// failed read ends it with an input error.
pub open spec fn repl_next(source: Seq<char>, event: ReplEvent) -> (Seq<char>, ReplDecision) {
    match event {
        ReplEvent::ReadFailed => (source, ReplDecision::Finish(ReplOutcome::InputIo)),
        ReplEvent::EndOfInput => (
            source,
            ReplDecision::Finish(
                if source.len() > 0 {
                    ReplOutcome::IncompleteInput
                } else {
                    ReplOutcome::Completed
                },
            ),
        ),
        ReplEvent::Line(line) => {
            let l = line@;
            if source.len() == 0 && trimmed(l).len() == 0 {
                (source, ReplDecision::Read)
            } else if source.len() == 0 && quit_word(trimmed(l)) {
                (source, ReplDecision::Finish(ReplOutcome::Completed))
            } else if source.len() == 0 && l.len() > 0 && l[0] == '!' {
                (source, ReplDecision::Shell(trim_end(l.drop_first())))
            } else {
                (source + l, ReplDecision::Parse)
            }
        },
    }
}

/// The first position from `from` on that is not whitespace.
pub(crate) fn skip_space(cs: &Vec<char>, from: usize) -> (i: usize)
    requires
        from <= cs@.len(),
    ensures
        from <= i <= cs@.len(),
        cs@.skip(i as int) == trim_start(cs@.skip(from as int)),
{
    let mut i = from;
    while i < cs.len() && is_unicode_whitespace(cs[i])
        invariant
            from <= i <= cs@.len(),
            trim_start(cs@.skip(i as int)) == trim_start(cs@.skip(from as int)),
        decreases cs@.len() - i,
    {
        proof {
            assert(cs@.skip(i as int)[0] == cs@[i as int]);
            assert(cs@.skip(i as int).drop_first() =~= cs@.skip(i + 1));
        }
        i = i + 1;
    }
    proof {
        if i < cs@.len() {
            assert(cs@.skip(i as int)[0] == cs@[i as int]);
        }
    }
    i
}

/// The end of the text from `from` to `to` once its trailing whitespace is left out.
fn end_of_text(cs: &Vec<char>, from: usize, to: usize) -> (e: usize)
    requires
        from <= to <= cs@.len(),
    ensures
        from <= e <= to,
        cs@.subrange(from as int, e as int) == trim_end(cs@.subrange(from as int, to as int)),
{
    let mut e = to;
    while e > from && is_unicode_whitespace(cs[e - 1])
        invariant
            from <= e <= to <= cs@.len(),
            trim_end(cs@.subrange(from as int, e as int)) == trim_end(cs@.subrange(from as int, to as int)),
        decreases e,
    {
        proof {
            assert(cs@.subrange(from as int, e as int).last() == cs@[e - 1]);
            assert(cs@.subrange(from as int, e as int).drop_last() =~= cs@.subrange(from as int, e - 1));
        }
        e = e - 1;
    }
    proof {
        if e > from {
            assert(cs@.subrange(from as int, e as int).last() == cs@[e - 1]);
        }
    }
    e
}

/// The characters from `from` to `to`, as a string.
fn text_between(cs: &Vec<char>, from: usize, to: usize) -> (s: String)
    requires
        from <= to <= cs@.len(),
    ensures
        s@ == cs@.subrange(from as int, to as int),
{
    let mut s = String::new();
    let mut k = from;
    while k < to
        invariant
            from <= k <= to <= cs@.len(),
            s@ == cs@.subrange(from as int, k as int),
        decreases to - k,
    {
        s.push(cs[k]);
        proof {
            assert(cs@.subrange(from as int, k + 1) =~= cs@.subrange(from as int, k as int).push(cs@[k as int]));
        }
        k = k + 1;
    }
    s
}

/// How the session edits a fragment: with its own line editor, or by running the configured
/// external program.
#[derive(Debug, Clone, PartialEq, Eq)]
pub enum ProviderStrategy {
    /// The session's line editor.
    Builtin,
    /// The external program's argv.
    External(Vec<String>),
}

/// The views of an argv.
pub open spec fn argv_view(v: Seq<String>) -> Seq<Seq<char>> {
    v.map_values(|a: String| a@)
}

/// The session's editing strategy for an editor configuration: the line editor in built-in
/// mode, the configured argv in external mode, and an error when external mode has no argv.
pub fn provider_strategy(config: &EditorConfig) -> (r: Result<ProviderStrategy, Diagnostic>)
    ensures
        config.mode == EditorMode::Builtin ==> r matches Ok(ProviderStrategy::Builtin),
        config.mode == EditorMode::External && config.external is Some ==> (r matches Ok(ProviderStrategy::External(argv))
            && argv_view(argv@) == argv_view(config.external->0@)),
        config.mode == EditorMode::External && config.external is None ==> (r matches Err(d) && plain_error(
            d,
            "E_EDITOR_CONFIG"@,
            DiagnosticCategory::Configuration,
            "external editor mode requires a configured argv"@,
        )),
{
    match config.mode {
        EditorMode::Builtin => Ok(ProviderStrategy::Builtin),
        EditorMode::External => match &config.external {
            Some(argv) => {
                let mut copy: Vec<String> = Vec::new();
                let mut k: usize = 0;
                while k < argv.len()
                    invariant
                        0 <= k <= argv@.len(),
                        argv_view(copy@) == argv_view(argv@.take(k as int)),
                    decreases argv@.len() - k,
                {
                    let ghost before = copy@;
                    copy.push(argv[k].clone());
                    proof {
                        assert(argv@.take(k + 1) =~= argv@.take(k as int).push(argv@[k as int]));
                        assert(copy@ =~= before.push(argv@[k as int]));
                        assert(argv_view(copy@) =~= argv_view(before).push(argv@[k as int]@));
                        assert(argv_view(argv@.take(k + 1)) =~= argv_view(argv@.take(k as int)).push(argv@[k as int]@));
                    }
                    k = k + 1;
                }
                proof {
                    assert(argv@.take(argv@.len() as int) =~= argv@);
                }
                Ok(ProviderStrategy::External(copy))
            },
            None => Err(
                Diagnostic::error(
                    "E_EDITOR_CONFIG",
                    DiagnosticCategory::Configuration,
                    "external editor mode requires a configured argv",
                ),
            ),
        },
    }
}

/// What the session's line editor does with what it read.
#[derive(Debug, Clone, Copy, PartialEq, Eq)]
pub enum LineEdit {
    /// Save the lines kept so far.
    Save,
    /// Cancel the edit.
    Cancel,
    /// Keep the line.
    Append,
}

/// A line without the carriage returns and line feeds that end it.
pub open spec fn without_line_end(s: Seq<char>) -> Seq<char>
    decreases s.len(),
{
    if s.len() > 0 && (s.last() == '\r' || s.last() == '\n') {
        without_line_end(s.drop_last())
    } else {
        s
    }
}

/// The line editor's decision: the end of the input (`None`) or a line `.cancel` cancels, a
/// line `.save` saves (each without its line end), and any other line is kept.
pub open spec fn line_edit_of(line: Option<Seq<char>>) -> LineEdit {
    match line {
        None => LineEdit::Cancel,
        Some(l) => if without_line_end(l) == ".cancel"@ {
            LineEdit::Cancel
        } else if without_line_end(l) == ".save"@ {
            LineEdit::Save
        } else {
            LineEdit::Append
        },
    }
}

/// Decides what the line editor does with a line it read, or with the end of the input
/// (see `line_edit_of`).
pub fn line_edit(line: Option<&str>) -> (e: LineEdit)
    ensures
        e == line_edit_of(
            match line {
                Some(l) => Some(l@),
                None => None,
            },
        ),
{
    let text = match line {
        Some(l) => l,
        None => {
            return LineEdit::Cancel;
        },
    };
    let cs = chars_of(text);
    let mut e: usize = cs.len();
    proof {
        assert(cs@.take(e as int) =~= cs@);
    }
    while e > 0 && (cs[e - 1] == '\r' || cs[e - 1] == '\n')
        invariant
            0 <= e <= cs@.len(),
            without_line_end(cs@.take(e as int)) == without_line_end(cs@),
        decreases e,
    {
        proof {
            assert(cs@.take(e as int).drop_last() =~= cs@.take(e - 1));
        }
        e = e - 1;
    }
    proof {
        assert(cs@.subrange(0, e as int) =~= cs@.take(e as int));
    }
    let bare = text_between(&cs, 0, e);
    match text_order(bare.as_str(), ".cancel") {
        Precedence::Same => LineEdit::Cancel,
        _ => match text_order(bare.as_str(), ".save") {
            Precedence::Same => LineEdit::Save,
            _ => LineEdit::Append,
        },
    }
}

/// The prompt for the source gathered so far (see `prompt_text`).
pub fn prompt(source: &str) -> (p: &'static str)
    ensures
        p@ == prompt_text(source@),
{
    proof {
        reveal_strlit("promptr> ");
        reveal_strlit("......> ");
    }
    if source.is_empty() {
        "promptr> "
    } else {
        "......> "
    }
}

/// Takes one event of the session (see `repl_next`).
pub fn repl_step(source: &mut String, event: ReplEvent) -> (a: ReplAction)
    ensures
        (final(source)@, decision_of(a)) == repl_next(old(source)@, event),
{
    match event {
        ReplEvent::ReadFailed => ReplAction::Finish(ReplOutcome::InputIo),
        ReplEvent::EndOfInput => {
            let empty = source.as_str().is_empty();
            if empty {
                ReplAction::Finish(ReplOutcome::Completed)
            } else {
                ReplAction::Finish(ReplOutcome::IncompleteInput)
            }
        },
        ReplEvent::Line(line) => {
            if source.as_str().is_empty() {
                let cs = chars_of(line.as_str());
                let start = skip_space(&cs, 0);
                let end = end_of_text(&cs, start, cs.len());
                proof {
                    assert(cs@.skip(0) =~= cs@);
                    assert(cs@.subrange(start as int, cs@.len() as int) =~= cs@.skip(start as int));
                }
                if start == end {
                    return ReplAction::Read;
                }
                let word = text_between(&cs, start, end);
                let quit = match text_order(word.as_str(), ":quit") {
                    Precedence::Same => true,
                    _ => match text_order(word.as_str(), ":q") {
                        Precedence::Same => true,
                        _ => match text_order(word.as_str(), "quit") {
                            Precedence::Same => true,
                            _ => match text_order(word.as_str(), "exit") {
                                Precedence::Same => true,
                                _ => false,
                            },
                        },
                    },
                };
                if quit {
                    return ReplAction::Finish(ReplOutcome::Completed);
                }
                if cs.len() > 0 && cs[0] == '!' {
                    let stop = end_of_text(&cs, 1, cs.len());
                    let command = text_between(&cs, 1, stop);
                    proof {
                        assert(cs@.subrange(1, cs@.len() as int) =~= cs@.drop_first());
                    }
                    return ReplAction::Shell(command);
                }
            }
            source.push_str(line.as_str());
            ReplAction::Parse
        },
    }
}

/// After the gathered source was parsed: an incomplete statement keeps it for the next line;
/// otherwise (evaluated or refused) it starts afresh.
pub fn after_parse(source: &mut String, incomplete: bool)
    ensures
        final(source)@ == if incomplete { old(source)@ } else { Seq::<char>::empty() },
{
    if !incomplete {
        *source = String::new();
    }
}

} // verus!
