//! The fragment editor: a text area over the lines of a draft.

use vstd::prelude::*;

use ratatui_textarea::{CursorMove, Scrolling, TextArea};

use super::action::EditorMove;

verus! {

/// A `ratatui_textarea::TextArea`, kept opaque: Verus refuses to declare that type, so it is
/// held here and reached only through the functions below.
#[verifier::external_body]
#[derive(Debug)]
pub struct TextBuffer {
    /// The text area itself, for drawing.
    pub area: TextArea<'static>,
}

/// The lines a text area holds.
pub uninterp spec fn area_lines(area: TextBuffer) -> Seq<Seq<char>>;

/// Where a text area's cursor stands: its line and its column, counted in characters.
pub uninterp spec fn area_cursor(area: TextBuffer) -> (nat, nat);

/// Whether a text area has a selection under way.
pub uninterp spec fn area_selecting(area: TextBuffer) -> bool;

/// The text of the search pattern a text area holds, if it holds one.
pub uninterp spec fn area_search(area: TextBuffer) -> Option<Seq<char>>;

/// One recorded edit: the lines and the cursor before it, then the lines and the cursor
/// after it.
pub type EditStep = (Seq<Seq<char>>, (nat, nat), Seq<Seq<char>>, (nat, nat));

/// The edits a text area can undo, oldest first.
pub uninterp spec fn area_undoable(area: TextBuffer) -> Seq<EditStep>;

/// The edits a text area can redo, next first.
pub uninterp spec fn area_redoable(area: TextBuffer) -> Seq<EditStep>;

/// How many edits a text area's history keeps.
pub uninterp spec fn area_history_limit(area: TextBuffer) -> nat;

/// Whether a text area lays its text out as `TextArea::new` leaves it: one screen row per
/// line (no wrapping), no mask, tabs four columns wide.
pub uninterp spec fn area_plain_layout(area: TextBuffer) -> bool;

/// Where `TextArea::move_cursor` takes a cursor on lines laid out plainly (see
/// `area_plain_layout`). The moves by character and by line go by display columns, which
/// depend on the width of each character; the moves by word go by the kind of each character.
pub uninterp spec fn moved_cursor(lines: Seq<Seq<char>>, cursor: (nat, nat), movement: EditorMove) -> (nat, nat);

/// Where the next match of a search pattern after a cursor starts, looking on to the end of
/// the text and then from its start (`regex` semantics); none when the pattern matches
/// nowhere.
pub uninterp spec fn next_match(lines: Seq<Seq<char>>, cursor: (nat, nat), pattern: Seq<char>) -> Option<(nat, nat)>;

/// Printable ASCII, from space to tilde: one display column each.
pub open spec fn printable(c: char) -> bool {
    ' ' <= c && c <= '~'
}

/// Lines of printable ASCII only.
pub open spec fn printable_lines(lines: Seq<Seq<char>>) -> bool {
    forall|i: int, j: int| 0 <= i < lines.len() && 0 <= j < lines[i].len() ==> printable(#[trigger] lines[i][j])
}

/// Whether a move goes by one character or one line.
pub open spec fn single_step(movement: EditorMove) -> bool {
    movement is Left || movement is Right || movement is Up || movement is Down
}

/// Where a move by one character or one line takes a cursor on printable lines: right to the
/// next character, or from the end of a line to the head of the next; left to the previous
/// character, or from the head of a line to the end of the previous; up or down a line,
/// keeping the column as far as the line reaches. At the edge of the text it stays.
pub open spec fn stepped(lines: Seq<Seq<char>>, cursor: (nat, nat), movement: EditorMove) -> (nat, nat) {
    let (row, col) = cursor;
    match movement {
        EditorMove::Right => if col < lines[row as int].len() {
            (row, col + 1)
        } else if row + 1 < lines.len() {
            (row + 1, 0nat)
        } else {
            cursor
        },
        EditorMove::Left => if col > 0 {
            (row, (col - 1) as nat)
        } else if row > 0 {
            ((row - 1) as nat, lines[row - 1].len())
        } else {
            cursor
        },
        EditorMove::Up => if row > 0 {
            let above = lines[row - 1].len();
            ((row - 1) as nat, if col < above { col } else { above })
        } else {
            cursor
        },
        EditorMove::Down => if row + 1 < lines.len() {
            let below = lines[row + 1int].len();
            (row + 1, if col < below { col } else { below })
        } else {
            cursor
        },
        _ => cursor,
    }
}

/// Where a search from a cursor leaves it: at the next match, or where it was when there is
/// no search or no match.
pub open spec fn found_cursor(lines: Seq<Seq<char>>, cursor: (nat, nat), find: Option<Seq<char>>) -> (nat, nat) {
    match find {
        Some(p) => match next_match(lines, cursor, p) {
            Some(c) => c,
            None => cursor,
        },
        None => cursor,
    }
}

/// A history that leads to the lines: each edit starts where the one before it ended, the
/// last undoable edit ended at the lines and the next redoable one starts from them, and each
/// recorded cursor stands on its lines.
pub open spec fn history_fits(lines: Seq<Seq<char>>, undoable: Seq<EditStep>, redoable: Seq<EditStep>) -> bool {
    let all = undoable + redoable;
    &&& forall|i: int| 0 <= i < all.len() ==> cursor_fits((#[trigger] all[i]).0, all[i].1) && cursor_fits(all[i].2, all[i].3)
    &&& forall|i: int, j: int| 0 <= i && j == i + 1 && j < all.len() ==> (#[trigger] all[i]).2 == (#[trigger] all[j]).0
    &&& undoable.len() > 0 ==> undoable.last().2 == lines
    &&& redoable.len() > 0 ==> redoable[0].0 == lines
}

/// The undoable edits once a new edit is recorded: when the history is full, its oldest edit
/// goes first (an undoable one, if any); the redoable edits are dropped.
pub open spec fn recorded(undoable: Seq<EditStep>, redoable: Seq<EditStep>, limit: nat, step: EditStep) -> Seq<EditStep> {
    if undoable.len() + redoable.len() == limit && undoable.len() > 0 {
        undoable.drop_first().push(step)
    } else {
        undoable.push(step)
    }
}

/// Whether inserting pieces changes the text (and so is recorded): all but one empty piece.
pub open spec fn insert_changes(pieces: Seq<Seq<char>>) -> bool {
    !(pieces.len() == 1 && pieces[0].len() == 0)
}

/// Whether deleting before a cursor changes the text: all but at the very start.
pub open spec fn backspace_changes(cursor: (nat, nat)) -> bool {
    cursor.0 > 0 || cursor.1 > 0
}

/// A cursor that stands on one of the lines, at most just past its last character.
pub open spec fn cursor_fits(lines: Seq<Seq<char>>, cursor: (nat, nat)) -> bool {
    cursor.0 < lines.len() && cursor.1 <= lines[cursor.0 as int].len()
}

/// A text area that edits at its cursor: no selection under way, the cursor on the text.
pub open spec fn area_ready(area: TextBuffer) -> bool {
    !area_selecting(area) && cursor_fits(area_lines(area), area_cursor(area))
}

/// A piece of inserted text without the carriage return that may end it.
pub open spec fn without_cr(p: Seq<char>) -> Seq<char> {
    if p.len() > 0 && p.last() == '\r' {
        p.drop_last()
    } else {
        p
    }
}

/// The lines an inserted text brings: its pieces between newlines, each without a final
/// carriage return.
pub open spec fn inserted_pieces(text: Seq<char>) -> Seq<Seq<char>> {
    split_lines(text).map_values(|p: Seq<char>| without_cr(p))
}

/// What one line becomes when pieces are inserted at a column: a single piece goes inside the
/// line; several pieces split it, the first ending the head of the line and the last starting
/// its tail.
pub open spec fn spliced(line: Seq<char>, col: nat, pieces: Seq<Seq<char>>) -> Seq<Seq<char>> {
    if pieces.len() == 1 {
        seq![line.take(col as int) + pieces[0] + line.skip(col as int)]
    } else {
        seq![line.take(col as int) + pieces[0]] + pieces.subrange(1, pieces.len() - 1) + seq![pieces.last()
            + line.skip(col as int)]
    }
}

/// The lines after inserting pieces at a cursor.
pub open spec fn lines_after_insert(lines: Seq<Seq<char>>, cursor: (nat, nat), pieces: Seq<Seq<char>>) -> Seq<Seq<char>> {
    lines.take(cursor.0 as int) + spliced(lines[cursor.0 as int], cursor.1, pieces) + lines.skip(cursor.0 as int + 1)
}

/// The cursor after inserting pieces: just after the inserted text.
pub open spec fn cursor_after_insert(cursor: (nat, nat), pieces: Seq<Seq<char>>) -> (nat, nat) {
    if pieces.len() == 1 {
        (cursor.0, cursor.1 + pieces[0].len())
    } else {
        ((cursor.0 + pieces.len() - 1) as nat, pieces.last().len())
    }
}

/// The lines after deleting before a cursor: the character before it, or at the head of a
/// line the line break before it, or nothing at the very start.
pub open spec fn lines_after_backspace(lines: Seq<Seq<char>>, cursor: (nat, nat)) -> Seq<Seq<char>> {
    let (row, col) = cursor;
    if col > 0 {
        lines.update(row as int, lines[row as int].take(col - 1) + lines[row as int].skip(col as int))
    } else if row > 0 {
        lines.take(row - 1).push(lines[row - 1] + lines[row as int]) + lines.skip(row as int + 1)
    } else {
        lines
    }
}

/// The cursor after deleting before it.
pub open spec fn cursor_after_backspace(lines: Seq<Seq<char>>, cursor: (nat, nat)) -> (nat, nat) {
    let (row, col) = cursor;
    if col > 0 {
        (row, (col - 1) as nat)
    } else if row > 0 {
        ((row - 1) as nat, lines[row - 1].len())
    } else {
        cursor
    }
}

/// The views of a list of strings.
pub open spec fn views(v: Seq<String>) -> Seq<Seq<char>> {
    v.map_values(|s: String| s@)
}

/// `TextArea::new`: a text area over the given lines, or over one empty line when there are
/// none.
#[verifier::external_body]
fn area_new(lines: Vec<String>) -> (a: TextBuffer)
    ensures
        area_lines(a) == if lines@.len() == 0 {
            seq![Seq::<char>::empty()]
        } else {
            views(lines@)
        },
        area_cursor(a) == (0nat, 0nat),
        !area_selecting(a),
        area_search(a) is None,
        area_undoable(a) == Seq::<EditStep>::empty(),
        area_redoable(a) == Seq::<EditStep>::empty(),
        area_history_limit(a) == 50,
        area_plain_layout(a),
{
    TextBuffer { area: TextArea::new(lines) }
}

/// `TextArea::lines`, copied out.
#[verifier::external_body]
fn area_lines_of(area: &TextBuffer) -> (v: Vec<String>)
    ensures
        views(v@) == area_lines(*area),
{
    area.area.lines().to_vec()
}

/// `TextArea::insert_str` at the cursor: with no selection under way, the text's pieces
/// between newlines (see `inserted_pieces`) go in at the cursor, which moves past them.
#[verifier::external_body]
fn area_insert(area: &mut TextBuffer, text: &str)
    ensures
        area_ready(*old(area)) ==> {
            &&& area_lines(*final(area)) == lines_after_insert(area_lines(*old(area)), area_cursor(*old(area)), inserted_pieces(text@))
            &&& area_cursor(*final(area)) == cursor_after_insert(area_cursor(*old(area)), inserted_pieces(text@))
            &&& !area_selecting(*final(area))
            &&& area_history_limit(*old(area)) > 0 ==> if insert_changes(inserted_pieces(text@)) {
                &&& area_undoable(*final(area)) == recorded(
                    area_undoable(*old(area)),
                    area_redoable(*old(area)),
                    area_history_limit(*old(area)),
                    (area_lines(*old(area)), area_cursor(*old(area)), area_lines(*final(area)), area_cursor(*final(area))),
                )
                &&& area_redoable(*final(area)) == Seq::<EditStep>::empty()
            } else {
                &&& area_undoable(*final(area)) == area_undoable(*old(area))
                &&& area_redoable(*final(area)) == area_redoable(*old(area))
            }
        },
        area_history_limit(*final(area)) == area_history_limit(*old(area)),
        area_plain_layout(*final(area)) == area_plain_layout(*old(area)),
        area_search(*final(area)) == area_search(*old(area)),
{
    area.area.insert_str(text);
}

/// `TextArea::delete_char`: with no selection under way, deletes the character before the
/// cursor, or at the head of a line the line break before it.
#[verifier::external_body]
fn area_delete_char(area: &mut TextBuffer)
    ensures
        area_ready(*old(area)) ==> {
            &&& area_lines(*final(area)) == lines_after_backspace(area_lines(*old(area)), area_cursor(*old(area)))
            &&& area_cursor(*final(area)) == cursor_after_backspace(area_lines(*old(area)), area_cursor(*old(area)))
            &&& !area_selecting(*final(area))
            &&& area_history_limit(*old(area)) > 0 ==> if backspace_changes(area_cursor(*old(area))) {
                &&& area_undoable(*final(area)) == recorded(
                    area_undoable(*old(area)),
                    area_redoable(*old(area)),
                    area_history_limit(*old(area)),
                    (area_lines(*old(area)), area_cursor(*old(area)), area_lines(*final(area)), area_cursor(*final(area))),
                )
                &&& area_redoable(*final(area)) == Seq::<EditStep>::empty()
            } else {
                &&& area_undoable(*final(area)) == area_undoable(*old(area))
                &&& area_redoable(*final(area)) == area_redoable(*old(area))
            }
        },
        area_history_limit(*final(area)) == area_history_limit(*old(area)),
        area_plain_layout(*final(area)) == area_plain_layout(*old(area)),
        area_search(*final(area)) == area_search(*old(area)),
{
    area.area.delete_char();
}

/// `TextArea::undo`: with nothing to undo, nothing changes; otherwise the last undoable edit
/// is reverted (its inverse applied to lines it ended at gives back the lines it started
/// from), the cursor goes back to where that edit started, a selection is ended, and the
/// edit becomes the next redoable one.
#[verifier::external_body]
fn area_undo(area: &mut TextBuffer)
    ensures
        area_undoable(*old(area)).len() == 0 ==> {
            &&& area_lines(*final(area)) == area_lines(*old(area))
            &&& area_cursor(*final(area)) == area_cursor(*old(area))
            &&& area_selecting(*final(area)) == area_selecting(*old(area))
            &&& area_undoable(*final(area)) == area_undoable(*old(area))
            &&& area_redoable(*final(area)) == area_redoable(*old(area))
        },
        area_undoable(*old(area)).len() > 0 && history_fits(area_lines(*old(area)), area_undoable(*old(area)), area_redoable(*old(area))) ==> {
            &&& area_lines(*final(area)) == area_undoable(*old(area)).last().0
            &&& area_cursor(*final(area)) == area_undoable(*old(area)).last().1
            &&& !area_selecting(*final(area))
            &&& area_undoable(*final(area)) == area_undoable(*old(area)).drop_last()
            &&& area_redoable(*final(area)) == seq![area_undoable(*old(area)).last()] + area_redoable(*old(area))
        },
        area_history_limit(*final(area)) == area_history_limit(*old(area)),
        area_plain_layout(*final(area)) == area_plain_layout(*old(area)),
        area_search(*final(area)) == area_search(*old(area)),
{
    area.area.undo();
}

/// `TextArea::redo`: with nothing to redo, nothing changes; otherwise the next redoable edit
/// is applied again to the lines it started from, the cursor goes to where that edit ended, a
/// selection is ended, and the edit becomes the last undoable one.
#[verifier::external_body]
fn area_redo(area: &mut TextBuffer)
    ensures
        area_redoable(*old(area)).len() == 0 ==> {
            &&& area_lines(*final(area)) == area_lines(*old(area))
            &&& area_cursor(*final(area)) == area_cursor(*old(area))
            &&& area_selecting(*final(area)) == area_selecting(*old(area))
            &&& area_undoable(*final(area)) == area_undoable(*old(area))
            &&& area_redoable(*final(area)) == area_redoable(*old(area))
        },
        area_redoable(*old(area)).len() > 0 && history_fits(area_lines(*old(area)), area_undoable(*old(area)), area_redoable(*old(area))) ==> {
            &&& area_lines(*final(area)) == area_redoable(*old(area))[0].2
            &&& area_cursor(*final(area)) == area_redoable(*old(area))[0].3
            &&& !area_selecting(*final(area))
            &&& area_undoable(*final(area)) == area_undoable(*old(area)).push(area_redoable(*old(area))[0])
            &&& area_redoable(*final(area)) == area_redoable(*old(area)).drop_first()
        },
        area_history_limit(*final(area)) == area_history_limit(*old(area)),
        area_plain_layout(*final(area)) == area_plain_layout(*old(area)),
        area_search(*final(area)) == area_search(*old(area)),
{
    area.area.redo();
}

/// `TextArea::scroll` by rows: moves the viewport and keeps the cursor inside it, on the text;
/// the lines stay. The viewport negates a negative count, which overflows for `i16::MIN`, so
/// `requires` leaves that count out.
#[verifier::external_body]
fn area_scroll(area: &mut TextBuffer, rows: i16)
    requires
        rows != i16::MIN,
    ensures
        area_lines(*final(area)) == area_lines(*old(area)),
        area_ready(*old(area)) ==> area_ready(*final(area)),
        area_search(*final(area)) == area_search(*old(area)),
        area_undoable(*final(area)) == area_undoable(*old(area)),
        area_redoable(*final(area)) == area_redoable(*old(area)),
        area_history_limit(*final(area)) == area_history_limit(*old(area)),
        area_plain_layout(*final(area)) == area_plain_layout(*old(area)),
{
    area.area.scroll(Scrolling::Delta { rows, cols: 0 });
}

/// `TextArea::move_cursor`: moves the cursor on the text, not the lines, to where the move
/// takes it (`moved_cursor`, for a plain layout); to the head or the end of a line it goes to
/// column zero or past the line's last character; on printable lines a move by one character
/// or one line goes as `stepped` says.
#[verifier::external_body]
fn area_move_cursor(area: &mut TextBuffer, movement: EditorMove)
    ensures
        area_lines(*final(area)) == area_lines(*old(area)),
        area_ready(*old(area)) ==> area_ready(*final(area)),
        area_ready(*old(area)) && area_plain_layout(*old(area)) ==> area_cursor(*final(area)) == moved_cursor(
            area_lines(*old(area)),
            area_cursor(*old(area)),
            movement,
        ),
        area_ready(*old(area)) && area_plain_layout(*old(area)) && printable_lines(area_lines(*old(area))) && single_step(movement)
            ==> area_cursor(*final(area)) == stepped(area_lines(*old(area)), area_cursor(*old(area)), movement),
        area_ready(*old(area)) && movement is LineStart ==> area_cursor(*final(area)) == (area_cursor(*old(area)).0, 0nat),
        area_ready(*old(area)) && movement is LineEnd ==> area_cursor(*final(area)) == (
            area_cursor(*old(area)).0,
            area_lines(*old(area))[area_cursor(*old(area)).0 as int].len(),
        ),
        area_search(*final(area)) == area_search(*old(area)),
        area_undoable(*final(area)) == area_undoable(*old(area)),
        area_redoable(*final(area)) == area_redoable(*old(area)),
        area_history_limit(*final(area)) == area_history_limit(*old(area)),
        area_plain_layout(*final(area)) == area_plain_layout(*old(area)),
{
    area.area.move_cursor(
        match movement {
            EditorMove::Up => CursorMove::Up,
            EditorMove::Down => CursorMove::Down,
            EditorMove::Left => CursorMove::Back,
            EditorMove::Right => CursorMove::Forward,
            EditorMove::WordLeft => CursorMove::WordBack,
            EditorMove::WordRight => CursorMove::WordForward,
            EditorMove::LineStart => CursorMove::Head,
            EditorMove::LineEnd => CursorMove::End,
        },
    );
}

/// `TextArea::set_search_pattern`: an empty pattern clears the search; another becomes the
/// search, unless the regex crate refuses it, which leaves the search as it was. The lines,
/// the cursor and the selection stay.
#[verifier::external_body]
fn area_set_search(area: &mut TextBuffer, pattern: &str)
    ensures
        pattern@.len() == 0 ==> area_search(*final(area)) is None,
        pattern@.len() > 0 ==> area_search(*final(area)) == Some(pattern@) || area_search(*final(area)) == area_search(*old(area)),
        area_lines(*final(area)) == area_lines(*old(area)),
        area_cursor(*final(area)) == area_cursor(*old(area)),
        area_selecting(*final(area)) == area_selecting(*old(area)),
        area_undoable(*final(area)) == area_undoable(*old(area)),
        area_redoable(*final(area)) == area_redoable(*old(area)),
        area_history_limit(*final(area)) == area_history_limit(*old(area)),
        area_plain_layout(*final(area)) == area_plain_layout(*old(area)),
{
    let _ = area.area.set_search_pattern(pattern);
}

/// `TextArea::search_forward` past the cursor: moves the cursor to the next match
/// (`next_match`), on the text; without a search or a match it does nothing. The lines stay.
#[verifier::external_body]
fn area_search_forward(area: &mut TextBuffer)
    ensures
        area_lines(*final(area)) == area_lines(*old(area)),
        area_selecting(*final(area)) == area_selecting(*old(area)),
        cursor_fits(area_lines(*old(area)), area_cursor(*old(area))) ==> cursor_fits(area_lines(*final(area)), area_cursor(*final(area))),
        cursor_fits(area_lines(*old(area)), area_cursor(*old(area))) && area_search(*old(area)) is Some ==> area_cursor(*final(area))
            == match next_match(area_lines(*old(area)), area_cursor(*old(area)), area_search(*old(area))->0) {
            Some(c) => c,
            None => area_cursor(*old(area)),
        },
        area_search(*old(area)) is None ==> area_cursor(*final(area)) == area_cursor(*old(area)),
        area_search(*final(area)) == area_search(*old(area)),
        area_undoable(*final(area)) == area_undoable(*old(area)),
        area_redoable(*final(area)) == area_redoable(*old(area)),
        area_history_limit(*final(area)) == area_history_limit(*old(area)),
        area_plain_layout(*final(area)) == area_plain_layout(*old(area)),
{
    area.area.search_forward(false);
}

/// Characters that mean something in a regular expression.
pub open spec fn regex_meta(c: char) -> bool {
    c == '\\' || c == '.' || c == '+' || c == '*' || c == '?' || c == '(' || c == ')' || c == '|'
        || c == '[' || c == ']' || c == '{' || c == '}' || c == '^' || c == '$' || c == '#' || c
        == '&' || c == '-' || c == '~'
}

/// A text with a backslash before each regular-expression meta character.
pub open spec fn regex_escaped(s: Seq<char>) -> Seq<char>
    decreases s.len(),
{
    if s.len() == 0 {
        seq![]
    } else {
        regex_escaped(s.drop_last()) + if regex_meta(s.last()) {
            seq!['\\', s.last()]
        } else {
            seq![s.last()]
        }
    }
}

/// `regex::escape`: a pattern that matches the text literally.
#[verifier::external_body]
fn escape_pattern(text: &str) -> (r: String)
    ensures
        r@ == regex_escaped(text@),
{
    regex::escape(text)
}

/// The lines of a text: the pieces between newlines (an empty text is one empty line).
pub open spec fn split_lines(s: Seq<char>) -> Seq<Seq<char>>
    decreases s.len(),
{
    if s.len() == 0 {
        seq![Seq::<char>::empty()]
    } else {
        let head = split_lines(s.drop_last());
        if s.last() == '\n' {
            head.push(Seq::<char>::empty())
        } else {
            head.update(head.len() - 1, head.last().push(s.last()))
        }
    }
}

/// Lines joined with newlines.
pub open spec fn join_lines(lines: Seq<Seq<char>>) -> Seq<char>
    decreases lines.len(),
{
    if lines.len() == 0 {
        seq![]
    } else if lines.len() == 1 {
        lines[0]
    } else {
        join_lines(lines.drop_last()) + seq!['\n'] + lines.last()
    }
}

/// Splitting always gives at least one line.
pub proof fn lemma_split_nonempty(s: Seq<char>)
    ensures
        split_lines(s).len() >= 1,
    decreases s.len(),
{
    if s.len() > 0 {
        lemma_split_nonempty(s.drop_last());
    }
}

/// Joining the lines of a text gives the text back.
pub proof fn lemma_join_split(s: Seq<char>)
    ensures
        join_lines(split_lines(s)) == s,
    decreases s.len(),
{
    if s.len() == 0 {
    } else {
        let t = s.drop_last();
        lemma_join_split(t);
        lemma_split_nonempty(t);
        let head = split_lines(t);
        if s.last() == '\n' {
            let l = head.push(Seq::<char>::empty());
            assert(l.drop_last() =~= head);
            assert(join_lines(l) =~= join_lines(head) + seq!['\n']);
            assert(s =~= t + seq!['\n']);
        } else {
            let l = head.update(head.len() - 1, head.last().push(s.last()));
            if head.len() == 1 {
                assert(join_lines(head) == head[0]);
                assert(join_lines(l) == l[0]);
                assert(s =~= t.push(s.last()));
            } else {
                assert(l.drop_last() =~= head.drop_last());
                assert(join_lines(l) == join_lines(head.drop_last()) + seq!['\n'] + head.last().push(s.last()));
                assert(join_lines(head) == join_lines(head.drop_last()) + seq!['\n'] + head.last());
                assert(join_lines(l) =~= join_lines(head).push(s.last()));
                assert(s =~= t.push(s.last()));
            }
        }
    }
}

/// Splits a text at its newlines.
pub fn split_at_newlines(text: &str) -> (lines: Vec<String>)
    ensures
        views(lines@) == split_lines(text@),
{
    let mut lines: Vec<String> = Vec::new();
    let mut current = String::new();
    let mut it = text.chars();
    let ghost whole = text@;
    let ghost mut k: int = 0;
    broadcast use vstd::string::group_string_axioms;

    assert(whole.take(0) =~= Seq::<char>::empty());
    loop
        invariant
            whole == text@,
            0 <= k <= whole.len(),
            vstd::std_specs::iter::IteratorSpec::remaining(&it) == whole.skip(k),
            views(lines@).push(current@) == split_lines(whole.take(k)),
        decreases whole.len() - k,
    {
        match it.next() {
            None => {
                assert(whole.skip(k).len() == 0);
                assert(whole.take(k) =~= whole);
                let ghost before = lines@;
                lines.push(current);
                proof {
                    assert(views(lines@) =~= views(before).push(lines@.last()@));
                }
                return lines;
            },
            Some(c) => {
                assert(c == whole[k]);
                proof {
                    assert(whole.take(k + 1).drop_last() =~= whole.take(k));
                    assert(whole.take(k + 1).last() == c);
                    lemma_split_nonempty(whole.take(k));
                }
                if c == '\n' {
                    let ghost before = lines@;
                    let finished = current;
                    current = String::new();
                    lines.push(finished);
                    proof {
                        assert(views(lines@) =~= views(before).push(lines@.last()@));
                        assert(views(lines@).push(current@) =~= split_lines(whole.take(k + 1)));
                    }
                } else {
                    let ghost before = current@;
                    current.push(c);
                    proof {
                        let h = split_lines(whole.take(k));
                        assert(h =~= views(lines@).push(before));
                        assert(views(lines@).push(current@) =~= h.update(h.len() - 1, h.last().push(c)));
                    }
                }
                proof {
                    k = k + 1;
                    assert(whole.skip(k) =~= whole.skip(k - 1).drop_first());
                }
            },
        }
    }
}

/// Joins lines with newlines.
pub fn join_with_newlines(lines: &Vec<String>) -> (text: String)
    ensures
        text@ == join_lines(views(lines@)),
{
    let mut out = String::new();
    let mut i: usize = 0;
    proof {
        assert(views(lines@.take(0)) =~= Seq::<Seq<char>>::empty());
    }
    while i < lines.len()
        invariant
            0 <= i <= lines@.len(),
            out@ == join_lines(views(lines@.take(i as int))),
        decreases lines@.len() - i,
    {
        let ghost before = out@;
        if i > 0 {
            out.push('\n');
        }
        out.push_str(lines[i].as_str());
        proof {
            let v = views(lines@.take(i + 1));
            assert(v.drop_last() =~= views(lines@.take(i as int)));
            assert(v.last() == lines@[i as int]@);
            if i == 0 {
                assert(out@ =~= lines@[0]@);
                assert(v.len() == 1);
            } else {
                assert(out@ =~= before + seq!['\n'] + lines@[i as int]@);
            }
        }
        i = i + 1;
    }
    proof {
        assert(lines@.take(lines@.len() as int) =~= lines@);
    }
    out
}

/// The fragment editor: the text it started from and a text area.
#[derive(Debug)]
pub struct EditorState {
    original: String,
    buffer: TextBuffer,
}

impl EditorState {
    /// The text the editor started from.
    pub closed spec fn spec_original(&self) -> Seq<char> {
        self.original@
    }

    /// The lines being edited.
    pub closed spec fn spec_lines(&self) -> Seq<Seq<char>> {
        area_lines(self.buffer)
    }

    /// The text being edited.
    pub open spec fn spec_text(&self) -> Seq<char> {
        join_lines(self.spec_lines())
    }

    /// Where the cursor stands: line and column, in characters.
    pub closed spec fn spec_cursor(&self) -> (nat, nat) {
        area_cursor(self.buffer)
    }

    /// The pattern the editor searches with, if any.
    pub closed spec fn spec_find(&self) -> Option<Seq<char>> {
        area_search(self.buffer)
    }

    /// The edits the editor can undo, oldest first.
    pub closed spec fn spec_undoable(&self) -> Seq<EditStep> {
        area_undoable(self.buffer)
    }

    /// The edits the editor can redo, next first.
    pub closed spec fn spec_redoable(&self) -> Seq<EditStep> {
        area_redoable(self.buffer)
    }

    /// How many edits the editor's history keeps.
    pub closed spec fn spec_history_limit(&self) -> nat {
        area_history_limit(self.buffer)
    }

    /// The editor edits at its cursor, which stands on the text, with no selection under way,
    /// and its edit history leads to its lines. Every editor is made so and every method keeps
    /// it so.
    pub closed spec fn well_formed(&self) -> bool {
        &&& area_ready(self.buffer)
        &&& area_history_limit(self.buffer) > 0
        &&& area_plain_layout(self.buffer)
        &&& history_fits(area_lines(self.buffer), area_undoable(self.buffer), area_redoable(self.buffer))
    }

    /// An editor over a text, split at its newlines.
    pub fn new(text: String) -> (e: Self)
        ensures
            e.spec_original() == text@,
            e.spec_lines() == split_lines(text@),
            e.spec_text() == text@,
            e.spec_cursor() == (0nat, 0nat),
            e.spec_find() is None,
            e.spec_undoable() == Seq::<EditStep>::empty(),
            e.spec_redoable() == Seq::<EditStep>::empty(),
            e.spec_history_limit() == 50,
            e.well_formed(),
    {
        let lines = split_at_newlines(text.as_str());
        proof {
            lemma_split_nonempty(text@);
            lemma_join_split(text@);
        }
        let buffer = area_new(lines);
        proof {
            assert(area_undoable(buffer) + area_redoable(buffer) =~= Seq::<EditStep>::empty());
        }
        EditorState { original: text, buffer }
    }

    /// The text the editor started from.
    pub fn original(&self) -> (s: &str)
        ensures
            s@ == self.spec_original(),
    {
        self.original.as_str()
    }

    /// The text being edited: the lines joined with newlines.
    pub fn text(&self) -> (s: String)
        ensures
            s@ == self.spec_text(),
    {
        let lines = area_lines_of(&self.buffer);
        join_with_newlines(&lines)
    }

    /// A copy of the text buffer, for drawing.
    pub fn textarea(&self) -> (a: TextBuffer)
        ensures
            area_lines(a) == self.spec_lines(),
    {
        copy_area(&self.buffer)
    }

    /// Inserts text at the cursor: its pieces between newlines (see `inserted_pieces`) go in
    /// at the cursor, which moves past them.
    pub fn insert(&mut self, text: &str)
        ensures
            final(self).spec_original() == old(self).spec_original(),
            old(self).well_formed() ==> final(self).well_formed(),
            old(self).well_formed() ==> final(self).spec_lines() == lines_after_insert(
                old(self).spec_lines(),
                old(self).spec_cursor(),
                inserted_pieces(text@),
            ),
            old(self).well_formed() ==> final(self).spec_cursor() == cursor_after_insert(old(self).spec_cursor(), inserted_pieces(text@)),
            old(self).well_formed() && insert_changes(inserted_pieces(text@)) ==> final(self).spec_undoable() == recorded(
                old(self).spec_undoable(),
                old(self).spec_redoable(),
                old(self).spec_history_limit(),
                (old(self).spec_lines(), old(self).spec_cursor(), final(self).spec_lines(), final(self).spec_cursor()),
            ) && final(self).spec_redoable() == Seq::<EditStep>::empty(),
            old(self).well_formed() && !insert_changes(inserted_pieces(text@)) ==> final(self).spec_undoable()
                == old(self).spec_undoable() && final(self).spec_redoable() == old(self).spec_redoable(),
            final(self).spec_history_limit() == old(self).spec_history_limit(),
            final(self).spec_find() == old(self).spec_find(),
    {
        area_insert(&mut self.buffer, text);
        proof {
            lemma_inserted_pieces_nonempty(text@);
            if old(self).well_formed() {
                lemma_insert_keeps_cursor_on_text(
                    old(self).spec_lines(),
                    old(self).spec_cursor(),
                    inserted_pieces(text@),
                );
                if insert_changes(inserted_pieces(text@)) {
                    lemma_recorded_fits(
                        old(self).spec_undoable(),
                        old(self).spec_redoable(),
                        old(self).spec_history_limit(),
                        (old(self).spec_lines(), old(self).spec_cursor(), self.spec_lines(), self.spec_cursor()),
                    );
                } else {
                    lemma_single_empty_insert(old(self).spec_lines(), old(self).spec_cursor(), inserted_pieces(text@));
                }
            }
        }
    }

    /// Deletes the character before the cursor, or at the head of a line the line break
    /// before it.
    pub fn backspace(&mut self)
        ensures
            final(self).spec_original() == old(self).spec_original(),
            old(self).well_formed() ==> final(self).well_formed(),
            old(self).well_formed() ==> final(self).spec_lines() == lines_after_backspace(old(self).spec_lines(), old(self).spec_cursor()),
            old(self).well_formed() ==> final(self).spec_cursor() == cursor_after_backspace(old(self).spec_lines(), old(self).spec_cursor()),
            old(self).well_formed() && backspace_changes(old(self).spec_cursor()) ==> final(self).spec_undoable() == recorded(
                old(self).spec_undoable(),
                old(self).spec_redoable(),
                old(self).spec_history_limit(),
                (old(self).spec_lines(), old(self).spec_cursor(), final(self).spec_lines(), final(self).spec_cursor()),
            ) && final(self).spec_redoable() == Seq::<EditStep>::empty(),
            old(self).well_formed() && !backspace_changes(old(self).spec_cursor()) ==> final(self).spec_undoable()
                == old(self).spec_undoable() && final(self).spec_redoable() == old(self).spec_redoable(),
            final(self).spec_history_limit() == old(self).spec_history_limit(),
            final(self).spec_find() == old(self).spec_find(),
    {
        area_delete_char(&mut self.buffer);
        proof {
            if old(self).well_formed() {
                lemma_backspace_keeps_cursor_on_text(old(self).spec_lines(), old(self).spec_cursor());
                if backspace_changes(old(self).spec_cursor()) {
                    lemma_recorded_fits(
                        old(self).spec_undoable(),
                        old(self).spec_redoable(),
                        old(self).spec_history_limit(),
                        (old(self).spec_lines(), old(self).spec_cursor(), self.spec_lines(), self.spec_cursor()),
                    );
                }
            }
        }
    }

    /// Undoes the last change: the lines and the cursor go back to where that edit started,
    /// and the edit can be redone; with nothing to undo, nothing changes.
    pub fn undo(&mut self)
        ensures
            old(self).spec_undoable().len() == 0 ==> final(self).spec_lines() == old(self).spec_lines()
                && final(self).spec_cursor() == old(self).spec_cursor() && final(self).spec_undoable()
                == old(self).spec_undoable() && final(self).spec_redoable() == old(self).spec_redoable(),
            old(self).well_formed() && old(self).spec_undoable().len() > 0 ==> {
                &&& final(self).spec_lines() == old(self).spec_undoable().last().0
                &&& final(self).spec_cursor() == old(self).spec_undoable().last().1
                &&& final(self).spec_undoable() == old(self).spec_undoable().drop_last()
                &&& final(self).spec_redoable() == seq![old(self).spec_undoable().last()] + old(self).spec_redoable()
            },
            final(self).spec_history_limit() == old(self).spec_history_limit(),
            final(self).spec_original() == old(self).spec_original(),
            old(self).well_formed() ==> final(self).well_formed(),
            final(self).spec_find() == old(self).spec_find(),
    {
        area_undo(&mut self.buffer);
        proof {
            if old(self).well_formed() && old(self).spec_undoable().len() > 0 {
                lemma_undo_fits(old(self).spec_lines(), old(self).spec_undoable(), old(self).spec_redoable());
            }
        }
    }

    /// Redoes the last undone change: the lines and the cursor go to where that edit ended,
    /// and the edit can be undone again; with nothing to redo, nothing changes.
    pub fn redo(&mut self)
        ensures
            old(self).spec_redoable().len() == 0 ==> final(self).spec_lines() == old(self).spec_lines()
                && final(self).spec_cursor() == old(self).spec_cursor() && final(self).spec_undoable()
                == old(self).spec_undoable() && final(self).spec_redoable() == old(self).spec_redoable(),
            old(self).well_formed() && old(self).spec_redoable().len() > 0 ==> {
                &&& final(self).spec_lines() == old(self).spec_redoable()[0].2
                &&& final(self).spec_cursor() == old(self).spec_redoable()[0].3
                &&& final(self).spec_undoable() == old(self).spec_undoable().push(old(self).spec_redoable()[0])
                &&& final(self).spec_redoable() == old(self).spec_redoable().drop_first()
            },
            final(self).spec_history_limit() == old(self).spec_history_limit(),
            final(self).spec_original() == old(self).spec_original(),
            old(self).well_formed() ==> final(self).well_formed(),
            final(self).spec_find() == old(self).spec_find(),
    {
        area_redo(&mut self.buffer);
        proof {
            if old(self).well_formed() && old(self).spec_redoable().len() > 0 {
                lemma_redo_fits(old(self).spec_lines(), old(self).spec_undoable(), old(self).spec_redoable());
            }
        }
    }

    /// Scrolls by rows (any count but `i16::MIN`, which the text area cannot negate); the
    /// text stays.
    pub fn scroll(&mut self, rows: i16)
        requires
            rows != i16::MIN,
        ensures
            final(self).spec_original() == old(self).spec_original(),
            final(self).spec_lines() == old(self).spec_lines(),
            old(self).well_formed() ==> final(self).well_formed(),
            final(self).spec_find() == old(self).spec_find(),
            final(self).spec_undoable() == old(self).spec_undoable(),
            final(self).spec_redoable() == old(self).spec_redoable(),
            final(self).spec_history_limit() == old(self).spec_history_limit(),
    {
        area_scroll(&mut self.buffer, rows);
    }

    /// Moves the cursor to where the move takes it (`moved_cursor`); the text stays. To the
    /// head or the end of a line, the cursor goes to column zero or just past the line's last
    /// character; on printable lines a move by one character or one line goes as `stepped`
    /// says.
    pub fn move_cursor(&mut self, movement: EditorMove)
        ensures
            final(self).spec_original() == old(self).spec_original(),
            final(self).spec_lines() == old(self).spec_lines(),
            old(self).well_formed() ==> final(self).well_formed(),
            old(self).well_formed() ==> final(self).spec_cursor() == moved_cursor(old(self).spec_lines(), old(self).spec_cursor(), movement),
            old(self).well_formed() && printable_lines(old(self).spec_lines()) && single_step(movement) ==> final(self).spec_cursor()
                == stepped(old(self).spec_lines(), old(self).spec_cursor(), movement),
            old(self).well_formed() && movement is LineStart ==> final(self).spec_cursor() == (old(self).spec_cursor().0, 0nat),
            old(self).well_formed() && movement is LineEnd ==> final(self).spec_cursor() == (
                old(self).spec_cursor().0,
                old(self).spec_lines()[old(self).spec_cursor().0 as int].len(),
            ),
            final(self).spec_find() == old(self).spec_find(),
            final(self).spec_undoable() == old(self).spec_undoable(),
            final(self).spec_redoable() == old(self).spec_redoable(),
            final(self).spec_history_limit() == old(self).spec_history_limit(),
    {
        area_move_cursor(&mut self.buffer, movement);
    }

    /// Looks for a text literally: the search becomes the text with its regular-expression
    /// meta characters escaped, or none for an empty text (a pattern the regex crate refuses
    /// leaves the search as it was). The text and the cursor stay.
    pub fn set_find(&mut self, query: &str)
        ensures
            query@.len() == 0 ==> final(self).spec_find() is None,
            query@.len() > 0 ==> final(self).spec_find() == Some(regex_escaped(query@)) || final(self).spec_find()
                == old(self).spec_find(),
            final(self).spec_original() == old(self).spec_original(),
            final(self).spec_lines() == old(self).spec_lines(),
            final(self).spec_cursor() == old(self).spec_cursor(),
            old(self).well_formed() ==> final(self).well_formed(),
            final(self).spec_undoable() == old(self).spec_undoable(),
            final(self).spec_redoable() == old(self).spec_redoable(),
            final(self).spec_history_limit() == old(self).spec_history_limit(),
    {
        let pattern = escape_pattern(query);
        proof {
            lemma_escaped_length(query@);
        }
        area_set_search(&mut self.buffer, pattern.as_str());
    }

    /// Moves to the next match of the search after the cursor (`found_cursor`); without a
    /// search or a match the cursor stays. The text and the search stay.
    pub fn find_next(&mut self)
        ensures
            final(self).spec_find() == old(self).spec_find(),
            old(self).spec_find() is None ==> final(self).spec_cursor() == old(self).spec_cursor(),
            old(self).well_formed() ==> final(self).spec_cursor() == found_cursor(old(self).spec_lines(), old(self).spec_cursor(), old(self).spec_find()),
            final(self).spec_original() == old(self).spec_original(),
            final(self).spec_lines() == old(self).spec_lines(),
            old(self).well_formed() ==> final(self).well_formed(),
            final(self).spec_undoable() == old(self).spec_undoable(),
            final(self).spec_redoable() == old(self).spec_redoable(),
            final(self).spec_history_limit() == old(self).spec_history_limit(),
    {
        area_search_forward(&mut self.buffer);
    }
}

/// Escaping keeps every character, so it never shortens a text.
proof fn lemma_escaped_length(s: Seq<char>)
    ensures
        regex_escaped(s).len() >= s.len(),
    decreases s.len(),
{
    if s.len() > 0 {
        lemma_escaped_length(s.drop_last());
    }
}

/// Recording an edit that starts at the lines keeps the history leading to the lines the
/// edit ends at.
proof fn lemma_recorded_fits(undoable: Seq<EditStep>, redoable: Seq<EditStep>, limit: nat, step: EditStep)
    requires
        history_fits(step.0, undoable, redoable),
        cursor_fits(step.0, step.1),
        cursor_fits(step.2, step.3),
    ensures
        history_fits(step.2, recorded(undoable, redoable, limit, step), Seq::<EditStep>::empty()),
{
    let all = undoable + redoable;
    let drop = undoable.len() + redoable.len() == limit && undoable.len() > 0;
    let start: int = if drop { 1 } else { 0 };
    let kept = all.subrange(start, undoable.len() as int);
    let n = recorded(undoable, redoable, limit, step);
    assert(n =~= kept.push(step));
    assert(n + Seq::<EditStep>::empty() =~= n);
    assert forall|i: int| 0 <= i < n.len() implies cursor_fits((#[trigger] n[i]).0, n[i].1) && cursor_fits(n[i].2, n[i].3) by {
        if i < kept.len() {
            assert(n[i] == all[start + i]);
        }
    }
    assert forall|i: int, j: int| 0 <= i && j == i + 1 && j < n.len() implies (#[trigger] n[i]).2 == (#[trigger] n[j]).0 by {
        if j < kept.len() {
            assert(n[i] == all[start + i]);
            assert(n[j] == all[start + j]);
        } else {
            assert(n[i] == all[undoable.len() - 1]);
            assert(all[undoable.len() - 1] == undoable.last());
        }
    }
}

/// Undoing keeps the history leading to the lines the undone edit started from.
proof fn lemma_undo_fits(lines: Seq<Seq<char>>, undoable: Seq<EditStep>, redoable: Seq<EditStep>)
    requires
        history_fits(lines, undoable, redoable),
        undoable.len() > 0,
    ensures
        history_fits(undoable.last().0, undoable.drop_last(), seq![undoable.last()] + redoable),
        cursor_fits(undoable.last().0, undoable.last().1),
{
    let all = undoable + redoable;
    assert(undoable.drop_last() + (seq![undoable.last()] + redoable) =~= all);
    let k = undoable.len() - 1;
    assert(all[k] == undoable.last());
    if undoable.len() > 1 {
        assert(all[k - 1] == undoable.drop_last().last());
    }
}

/// Redoing keeps the history leading to the lines the redone edit ends at.
proof fn lemma_redo_fits(lines: Seq<Seq<char>>, undoable: Seq<EditStep>, redoable: Seq<EditStep>)
    requires
        history_fits(lines, undoable, redoable),
        redoable.len() > 0,
    ensures
        history_fits(redoable[0].2, undoable.push(redoable[0]), redoable.drop_first()),
        cursor_fits(redoable[0].2, redoable[0].3),
{
    let all = undoable + redoable;
    assert(undoable.push(redoable[0]) + redoable.drop_first() =~= all);
    let k = undoable.len() as int;
    assert(all[k] == redoable[0]);
    if redoable.len() > 1 {
        assert(all[k + 1] == redoable.drop_first()[0]);
    }
}

/// Inserting a single empty piece leaves the lines as they were.
proof fn lemma_single_empty_insert(lines: Seq<Seq<char>>, cursor: (nat, nat), pieces: Seq<Seq<char>>)
    requires
        cursor_fits(lines, cursor),
        pieces.len() == 1,
        pieces[0].len() == 0,
    ensures
        lines_after_insert(lines, cursor, pieces) == lines,
{
    let line = lines[cursor.0 as int];
    assert(line.take(cursor.1 as int) + pieces[0] + line.skip(cursor.1 as int) =~= line);
    assert(lines_after_insert(lines, cursor, pieces) =~= lines);
}

/// An inserted text brings at least one piece.
proof fn lemma_inserted_pieces_nonempty(text: Seq<char>)
    ensures
        inserted_pieces(text).len() >= 1,
{
    lemma_split_nonempty(text);
}

/// After an insertion the cursor stands on the text.
proof fn lemma_insert_keeps_cursor_on_text(lines: Seq<Seq<char>>, cursor: (nat, nat), pieces: Seq<Seq<char>>)
    requires
        cursor_fits(lines, cursor),
        pieces.len() >= 1,
    ensures
        cursor_fits(lines_after_insert(lines, cursor, pieces), cursor_after_insert(cursor, pieces)),
{
    let line = lines[cursor.0 as int];
    let sp = spliced(line, cursor.1, pieces);
    let after = lines_after_insert(lines, cursor, pieces);
    let c = cursor_after_insert(cursor, pieces);
    assert(after[c.0 as int] == sp[c.0 - cursor.0]);
    if pieces.len() == 1 {
        assert((line.take(cursor.1 as int) + pieces[0] + line.skip(cursor.1 as int)).len() == line.len() + pieces[0].len());
    } else {
        assert(sp[sp.len() - 1] == pieces.last() + line.skip(cursor.1 as int));
    }
}

/// After a deletion the cursor stands on the text.
proof fn lemma_backspace_keeps_cursor_on_text(lines: Seq<Seq<char>>, cursor: (nat, nat))
    requires
        cursor_fits(lines, cursor),
    ensures
        cursor_fits(lines_after_backspace(lines, cursor), cursor_after_backspace(lines, cursor)),
{
    let (row, col) = cursor;
    if col == 0 && row > 0 {
        let after = lines_after_backspace(lines, cursor);
        assert(after[row - 1] == lines[row - 1] + lines[row as int]);
    }
}

impl Clone for EditorState {
    fn clone(&self) -> (c: Self)
        ensures
            c.spec_original() == self.spec_original(),
            c.spec_lines() == self.spec_lines(),
            c.spec_cursor() == self.spec_cursor(),
            c.well_formed() == self.well_formed(),
            c.spec_find() == self.spec_find(),
            c.spec_undoable() == self.spec_undoable(),
            c.spec_redoable() == self.spec_redoable(),
            c.spec_history_limit() == self.spec_history_limit(),
    {
        EditorState { original: self.original.clone(), buffer: copy_area(&self.buffer) }
    }
}

/// `TextArea::clone`: a copy holding the same lines.
#[verifier::external_body]
fn copy_area(area: &TextBuffer) -> (c: TextBuffer)
    ensures
        area_lines(c) == area_lines(*area),
        area_cursor(c) == area_cursor(*area),
        area_selecting(c) == area_selecting(*area),
        area_search(c) == area_search(*area),
        area_undoable(c) == area_undoable(*area),
        area_redoable(c) == area_redoable(*area),
        area_history_limit(c) == area_history_limit(*area),
        area_plain_layout(c) == area_plain_layout(*area),
{
    TextBuffer { area: area.area.clone() }
}

} // verus!
