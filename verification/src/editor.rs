//! Text editors prepare text in memory; they hold no store and persist nothing.

use vstd::prelude::*;

use crate::domain::{NodeId, Revision};

verus! {

/// Why an edit could not be prepared.
#[derive(Debug, Clone, PartialEq, Eq)]
pub enum EditorError {
    /// The external editor command has no program.
    EmptyCommand,
    /// The external editor arguments hold no `{file}` argument, or more than one.
    InvalidFilePlaceholder {
        /// Number of `{file}` arguments found.
        found: usize,
    },
    /// An input or output step failed.
    Io {
        /// The step that failed.
        operation: &'static str,
        /// What went wrong.
        message: String,
    },
    /// The external editor exited unsuccessfully.
    ExternalFailure {
        /// Its exit code, if any.
        code: Option<i32>,
    },
}

/// The persistent node an edit is for, if it exists yet.
#[derive(Clone, Copy, Debug, Eq, PartialEq)]
pub struct EditTarget {
    /// Identity of the edited node.
    pub node_id: Option<NodeId>,
    /// Revision the edit starts from.
    pub base_revision: Option<Revision>,
}

/// A request to edit a text.
#[derive(Clone, Debug, Eq, PartialEq)]
pub struct EditRequest {
    /// What is edited.
    pub target: EditTarget,
    /// The text before editing.
    pub original_text: String,
}

/// An edited text ready to be saved.
#[derive(Clone, Debug, Eq, PartialEq)]
pub struct PreparedEdit {
    /// What is edited.
    pub target: EditTarget,
    /// The text before editing.
    pub original_text: String,
    /// The text after editing, byte for byte.
    pub edited_text: String,
}

/// The end of an edit.
#[derive(Clone, Debug, Eq, PartialEq)]
pub enum EditorOutcome {
    /// Save the prepared edit.
    Save(PreparedEdit),
    /// Leave everything as it was.
    Cancel,
}

impl PreparedEdit {
    /// Completes a request with the edited text, which is kept exactly.
    pub fn from_request(request: EditRequest, edited_text: String) -> (p: Self)
        ensures
            p.target == request.target,
            p.original_text@ == request.original_text@,
            p.edited_text@ == edited_text@,
    {
        PreparedEdit { target: request.target, original_text: request.original_text, edited_text }
    }
}

/// The user-facing explanation of an editor error.
pub open spec fn editor_message(e: EditorError) -> Seq<char> {
    match e {
        EditorError::EmptyCommand => "external editor command must contain a program"@,
        EditorError::InvalidFilePlaceholder { found } => "external editor argv must contain exactly one `{file}` argument; found "@
            + crate::text::decimal(found as nat),
        EditorError::Io { operation, message } => "editor "@ + operation@ + " failed: "@ + message@,
        EditorError::ExternalFailure { code } => "external editor exited unsuccessfully (code: "@ + match code {
            Some(c) => "Some("@ + crate::text::signed_decimal(c as int) + ")"@,
            None => "None"@,
        } + ")"@,
    }
}

impl EditorError {
    /// The user-facing explanation of the error.
    pub fn message(&self) -> (m: String)
        ensures
            m@ == editor_message(*self),
    {
        let mut out = String::new();
        match self {
            EditorError::EmptyCommand => out.push_str("external editor command must contain a program"),
            EditorError::InvalidFilePlaceholder { found } => {
                out.push_str("external editor argv must contain exactly one `{file}` argument; found ");
                crate::text::push_decimal(&mut out, *found as u128);
            },
            EditorError::Io { operation, message } => {
                out.push_str("editor ");
                out.push_str(operation);
                out.push_str(" failed: ");
                out.push_str(message.as_str());
            },
            EditorError::ExternalFailure { code } => {
                out.push_str("external editor exited unsuccessfully (code: ");
                match code {
                    Some(c) => {
                        out.push_str("Some(");
                        crate::text::push_signed_decimal(&mut out, *c as i128);
                        out.push_str(")");
                    },
                    None => out.push_str("None"),
                }
                out.push_str(")");
            },
        }
        proof {
            assert(out@ =~= editor_message(*self));
        }
        out
    }
}

/// One edit a text provider answered: the request and what came back.
pub type Answer = (EditRequest, Result<EditorOutcome, EditorError>);

/// The edits a text provider answered, oldest first.
pub type AnswerLog = Seq<Answer>;

/// Something that turns an edit request into an outcome.
pub trait TextProvider {
    /// The edits answered so far, oldest first.
    spec fn answers(&self) -> AnswerLog;

    /// Edits the requested text.
    fn edit(&mut self, request: EditRequest) -> (r: Result<EditorOutcome, EditorError>)
        ensures
            final(self).answers() == old(self).answers().push((request, r)),
    ;
}

/// The host side of the built-in editor: shows a text and returns the edited text, or
/// nothing when the user cancels.
pub trait BuiltinEditorHost {
    /// Edits a text.
    fn edit_text(&mut self, initial_text: &str) -> Result<Option<String>, EditorError>;
}

/// Calls a host closure with a text. Nothing is claimed of what it returns: that is the
/// host's business.
#[verifier::external_body]
fn call_host<F: FnMut(&str) -> Result<Option<String>, EditorError>>(
    host: &mut F,
    text: &str,
) -> Result<Option<String>, EditorError> {
    host(text)
}

impl<F> BuiltinEditorHost for F where F: FnMut(&str) -> Result<Option<String>, EditorError> {
    fn edit_text(&mut self, initial_text: &str) -> Result<Option<String>, EditorError> {
        call_host(self, initial_text)
    }
}

/// What the built-in editor yields for a request once the host has answered: the host's
/// error, a cancellation, or the request completed with the returned text.
pub fn outcome_of(request: EditRequest, edited: Result<Option<String>, EditorError>) -> (r: Result<
    EditorOutcome,
    EditorError,
>)
    ensures
        match edited {
            Err(e) => r == Err::<EditorOutcome, EditorError>(e),
            Ok(None) => r == Ok::<EditorOutcome, EditorError>(EditorOutcome::Cancel),
            Ok(Some(text)) => r matches Ok(EditorOutcome::Save(p)) && p.target == request.target
                && p.original_text@ == request.original_text@ && p.edited_text@ == text@,
        },
{
    match edited {
        Err(e) => Err(e),
        Ok(None) => Ok(EditorOutcome::Cancel),
        Ok(Some(text)) => Ok(EditorOutcome::Save(PreparedEdit::from_request(request, text))),
    }
}

/// The built-in editor, driven by a host.
pub struct BuiltinTextProvider<H> {
    host: H,
    answered: Ghost<Seq<Answer>>,
}

impl<H> BuiltinTextProvider<H> {
    /// The host.
    pub closed spec fn spec_host(&self) -> H {
        self.host
    }

    /// Wraps a host.
    pub fn new(host: H) -> (p: Self)
        ensures
            p.spec_host() == host,
            p.spec_answers() == Seq::<Answer>::empty(),
    {
        BuiltinTextProvider { host, answered: Ghost(Seq::empty()) }
    }

    /// The edits answered so far.
    pub closed spec fn spec_answers(&self) -> Seq<Answer> {
        self.answered@
    }

    /// Returns the host.
    pub fn into_inner(self) -> (h: H)
        ensures
            h == self.spec_host(),
    {
        self.host
    }
}

impl<H: BuiltinEditorHost> TextProvider for BuiltinTextProvider<H> {
    open spec fn answers(&self) -> Seq<Answer> {
        self.spec_answers()
    }

    /// Asks the host to edit the original text, then completes the request with its answer
    /// (see `outcome_of`).
    fn edit(&mut self, request: EditRequest) -> (r: Result<EditorOutcome, EditorError>)
        ensures
            r matches Ok(EditorOutcome::Save(p)) ==> p.target == request.target
                && p.original_text@ == request.original_text@,
    {
        let ghost asked = request;
        let edited = self.host.edit_text(request.original_text.as_str());
        let r = outcome_of(request, edited);
        self.answered = Ghost(self.answered@.push((asked, r)));
        r
    }
}

/// The argument an external editor command must hold once: replaced by the file to edit.
pub open spec fn file_placeholder() -> Seq<char> {
    seq!['{', 'f', 'i', 'l', 'e', '}']
}

/// Number of arguments after the program that are exactly the file placeholder.
pub open spec fn placeholder_count(argv: Seq<Seq<char>>) -> nat
    decreases argv.len(),
{
    if argv.len() <= 1 {
        0
    } else {
        placeholder_count(argv.drop_last()) + if argv.last() == file_placeholder() {
            1nat
        } else {
            0nat
        }
    }
}

/// Whether a text is the file placeholder.
fn is_placeholder(s: &str) -> (b: bool)
    ensures
        b == (s@ == file_placeholder()),
{
    let mut it = s.chars();
    let expected = ['{', 'f', 'i', 'l', 'e', '}'];
    let ghost whole = s@;
    let mut k: usize = 0;
    broadcast use vstd::string::group_string_axioms;
    assert(expected@ == file_placeholder());
    loop
        invariant
            whole == s@,
            0 <= k <= 6,
            k <= whole.len(),
            vstd::std_specs::iter::IteratorSpec::remaining(&it) == whole.skip(k as int),
            expected@ == file_placeholder(),
            whole.take(k as int) == file_placeholder().take(k as int),
        decreases 7 - k,
    {
        match it.next() {
            None => {
                assert(whole.skip(k as int).len() == 0);
                assert(file_placeholder().len() == 6);
                if k == 6 {
                    assert(whole =~= whole.take(6));
                    assert(file_placeholder().take(6) =~= file_placeholder());
                }
                return k == 6;
            },
            Some(c) => {
                assert(c == whole[k as int]);
                if k == 6 || c != expected[k] {
                    proof {
                        if whole == file_placeholder() {
                            assert(whole[k as int] == file_placeholder()[k as int]);
                        }
                    }
                    return false;
                }
                proof {
                    assert(whole.take(k + 1) =~= whole.take(k as int).push(c));
                    assert(file_placeholder().take(k + 1) =~= file_placeholder().take(k as int).push(expected@[k as int]));
                    assert(whole.skip(k + 1) =~= whole.skip(k as int).drop_first());
                }
                k = k + 1;
            },
        }
    }
}

/// Checks an external editor command: a program, then exactly one `{file}` argument among
/// the rest.
pub fn validate_editor_argv(argv: &[String]) -> (r: Result<(), EditorError>)
    ensures
        argv@.len() == 0 ==> r == Err::<(), EditorError>(EditorError::EmptyCommand),
        argv@.len() > 0 && placeholder_count(argv@.map_values(|a: String| a@)) == 1 ==> r is Ok,
        argv@.len() > 0 && placeholder_count(argv@.map_values(|a: String| a@)) != 1 ==> r == Err::<(), EditorError>(
            EditorError::InvalidFilePlaceholder {
                found: placeholder_count(argv@.map_values(|a: String| a@)) as usize,
            },
        ),
{
    if argv.len() == 0 {
        return Err(EditorError::EmptyCommand);
    }
    let ghost views = argv@.map_values(|a: String| a@);
    let mut found: usize = 0;
    let mut i: usize = 1;
    while i < argv.len()
        invariant
            1 <= i <= argv@.len(),
            views == argv@.map_values(|a: String| a@),
            found == placeholder_count(views.take(i as int)),
            found <= i,
        decreases argv@.len() - i,
    {
        let is_file = is_placeholder(argv[i].as_str());
        proof {
            assert(views.take(i + 1).drop_last() =~= views.take(i as int));
            assert(views.take(i + 1).last() == argv@[i as int]@);
        }
        if is_file {
            found = found + 1;
        }
        i = i + 1;
    }
    proof {
        assert(views.take(argv@.len() as int) =~= views);
    }
    if found != 1 {
        return Err(EditorError::InvalidFilePlaceholder { found });
    }
    Ok(())
}

/// The arguments an external editor runs with, after its program: each `{file}` argument
/// stands for the staging file's path (`None`), every other argument is passed as it is.
pub fn editor_arguments(argv: &Vec<String>) -> (r: Vec<Option<String>>)
    requires
        argv@.len() > 0,
    ensures
        r@.len() == argv@.len() - 1,
        forall|i: int|
            0 <= i < r@.len() ==> match #[trigger] r@[i] {
                None => argv@[i + 1]@ == file_placeholder(),
                Some(a) => argv@[i + 1]@ != file_placeholder() && a@ == argv@[i + 1]@,
            },
{
    let mut out: Vec<Option<String>> = Vec::new();
    let mut i: usize = 1;
    while i < argv.len()
        invariant
            1 <= i <= argv@.len(),
            out@.len() == i - 1,
            forall|k: int|
                0 <= k < out@.len() ==> match #[trigger] out@[k] {
                    None => argv@[k + 1]@ == file_placeholder(),
                    Some(a) => argv@[k + 1]@ != file_placeholder() && a@ == argv@[k + 1]@,
                },
        decreases argv@.len() - i,
    {
        if is_placeholder(argv[i].as_str()) {
            out.push(None);
        } else {
            out.push(Some(argv[i].clone()));
        }
        i = i + 1;
    }
    out
}

} // verus!
