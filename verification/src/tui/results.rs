//! What the interface does with the runtime around a request: the script that loads a
//! preview, the tab a configuration opens on, and which row to select after a change.

use vstd::prelude::*;

use super::model::PreviewTab;
use super::request::RuntimeRequest;
use crate::config::schema::{ascii_lower, same_chars, PreviewMode};
use crate::application::value::NodeView;
use crate::domain::metadata::{is_unicode_whitespace, unicode_whitespace};
use crate::domain::node::Symbol;
use crate::text::decimal;
use crate::diagnostic::{plain_error, Diagnostic, DiagnosticCategory};

verus! {

/// The script that loads the preview of a tab: the node, and its XML for the XML and
/// content tabs.
pub open spec fn preview_script(symbol: Seq<char>, tab: PreviewTab) -> Seq<char> {
    match tab {
        PreviewTab::Xml | PreviewTab::Content => "PRINT "@ + symbol + "; OUTPUT "@ + symbol + ";"@,
        PreviewTab::Tree | PreviewTab::Metadata => "PRINT "@ + symbol + ";"@,
    }
}

/// The script that loads the preview of a tab (see `preview_script`).
pub fn preview_source(symbol: &str, tab: PreviewTab) -> (s: String)
    ensures
        s@ == preview_script(symbol@, tab),
{
    let mut s = "PRINT ".to_owned();
    s.push_str(symbol);
    match tab {
        PreviewTab::Xml | PreviewTab::Content => {
            s.push_str("; OUTPUT ");
            s.push_str(symbol);
            s.push_str(";");
        },
        PreviewTab::Tree | PreviewTab::Metadata => {
            s.push_str(";");
        },
    }
    proof {
        assert(s@ =~= preview_script(symbol@, tab));
    }
    s
}

/// The tab that a configured preview opens on.
pub fn configured_preview(preview: PreviewMode) -> (t: PreviewTab)
    ensures
        t == match preview {
            PreviewMode::Tree => PreviewTab::Tree,
            PreviewMode::Xml => PreviewTab::Xml,
            PreviewMode::Content => PreviewTab::Content,
            PreviewMode::Metadata => PreviewTab::Metadata,
        },
{
    match preview {
        PreviewMode::Tree => PreviewTab::Tree,
        PreviewMode::Xml => PreviewTab::Xml,
        PreviewMode::Content => PreviewTab::Content,
        PreviewMode::Metadata => PreviewTab::Metadata,
    }
}

/// A character that ends a statement's tail: a semicolon or white space.
pub open spec fn tail_char(c: char) -> bool {
    c == ';' || unicode_whitespace(c)
}

/// A text without its trailing semicolons and white space.
pub open spec fn trimmed_tail(s: Seq<char>) -> Seq<char>
    decreases s.len(),
{
    if s.len() > 0 && tail_char(s.last()) {
        trimmed_tail(s.drop_last())
    } else {
        s
    }
}

/// The words of a text: its runs of characters other than white space, in order.
pub open spec fn words(s: Seq<char>) -> Seq<Seq<char>>
    decreases s.len(),
{
    if s.len() == 0 {
        seq![]
    } else {
        let w = words(s.drop_last());
        let c = s.last();
        if unicode_whitespace(c) {
            w
        } else if s.len() > 1 && !unicode_whitespace(s[s.len() - 2]) {
            w.update(w.len() - 1, w.last().push(c))
        } else {
            w.push(seq![c])
        }
    }
}

/// The row to keep selected after a script runs: where the script is `RENAME <selected> TO
/// <new>` (keywords in any ASCII case, trailing semicolons and space ignored), the new
/// symbol; otherwise the selected one.
pub open spec fn rename_target(source: Seq<char>, selected: Option<Seq<char>>) -> Option<Seq<char>> {
    let t = words(trimmed_tail(source));
    if t.len() == 4 && ascii_lower(t[0]) == "rename"@ && ascii_lower(t[2]) == "to"@ && selected == Some(t[1]) {
        Some(t[3])
    } else {
        selected
    }
}

/// The texts of an optional string and an optional string slice.
pub open spec fn opt_text(s: Option<String>) -> Option<Seq<char>> {
    match s {
        Some(t) => Some(t@),
        None => None,
    }
}

/// The text of an optional string slice.
pub open spec fn opt_str(s: Option<&str>) -> Option<Seq<char>> {
    match s {
        Some(t) => Some(t@),
        None => None,
    }
}

/// The row to select after a request changed the catalog: the edited node for an edit,
/// the new symbol of a rename of the selected node (see `rename_target`), otherwise the
/// selected row.
pub open spec fn selection_hint(request: RuntimeRequest, selected: Option<Seq<char>>) -> Option<Seq<char>> {
    match request {
        RuntimeRequest::EditFragment { draft, .. } => opt_text(draft.symbol),
        RuntimeRequest::EditMetadata { symbol, .. } => Some(symbol@),
        RuntimeRequest::Eval(source) => rename_target(source@, selected),
        _ => selected,
    }
}

fn string_of(cs: &Vec<char>) -> (s: String)
    ensures
        s@ == cs@,
{
    let mut s = String::new();
    let mut i: usize = 0;
    while i < cs.len()
        invariant
            0 <= i <= cs@.len(),
            s@ == cs@.take(i as int),
        decreases cs@.len() - i,
    {
        s.push(cs[i]);
        proof {
            assert(cs@.take(i + 1) =~= cs@.take(i as int).push(cs@[i as int]));
        }
        i = i + 1;
    }
    proof {
        assert(cs@.take(cs@.len() as int) =~= cs@);
    }
    s
}

/// The words of the first `n` characters, built one character at a time.
fn split_words(cs: &Vec<char>, n: usize) -> (w: Vec<Vec<char>>)
    requires
        n <= cs@.len(),
    ensures
        w@.len() == words(cs@.take(n as int)).len(),
        forall|k: int| 0 <= k < w@.len() ==> (#[trigger] w@[k])@ == words(cs@.take(n as int))[k],
{
    let mut w: Vec<Vec<char>> = Vec::new();
    let mut i: usize = 0;
    while i < n
        invariant
            n <= cs@.len(),
            0 <= i <= n,
            w@.len() == words(cs@.take(i as int)).len(),
            forall|k: int| 0 <= k < w@.len() ==> (#[trigger] w@[k])@ == words(cs@.take(i as int))[k],
            i > 0 && !unicode_whitespace(cs@[i - 1]) ==> w@.len() > 0,
        decreases n - i,
    {
        let c = cs[i];
        let ghost before = words(cs@.take(i as int));
        proof {
            assert(cs@.take(i + 1).drop_last() =~= cs@.take(i as int));
            assert(cs@.take(i + 1).last() == c);
            if i > 0 {
                assert(cs@.take(i + 1)[i - 1] == cs@[i - 1]);
            }
        }
        if is_unicode_whitespace(c) {
        } else if i > 0 && !is_unicode_whitespace(cs[i - 1]) {
            let ghost wv = w@;
            let last = w.len() - 1;
            let mut word = w.pop().unwrap();
            word.push(c);
            w.push(word);
            proof {
                assert forall|k: int| 0 <= k < w@.len() implies (#[trigger] w@[k])@ == words(cs@.take(i + 1))[k] by {
                    if k < last {
                        assert(w@[k] == wv[k]);
                    }
                }
            }
        } else {
            let mut word: Vec<char> = Vec::new();
            word.push(c);
            w.push(word);
            proof {
                assert(w@.last()@ =~= seq![c]);
            }
        }
        i = i + 1;
    }
    w
}

/// The row to select after a request changed the catalog (see `selection_hint`).
pub fn mutation_selection_hint(request: &RuntimeRequest, selected: Option<&str>) -> (r: Option<String>)
    ensures
        opt_text(r) == selection_hint(*request, opt_str(selected)),
{
    match request {
        RuntimeRequest::EditFragment { draft, .. } => match &draft.symbol {
            Some(s) => Some(s.clone()),
            None => None,
        },
        RuntimeRequest::EditMetadata { symbol, .. } => Some(symbol.clone()),
        RuntimeRequest::Eval(source) => {
            let cs = crate::application::search::chars_of(source.as_str());
            let mut e = cs.len();
            proof {
                assert(cs@.take(e as int) =~= cs@);
            }
            while e > 0 && (cs[e - 1] == ';' || is_unicode_whitespace(cs[e - 1]))
                invariant
                    e <= cs@.len(),
                    trimmed_tail(cs@) == trimmed_tail(cs@.take(e as int)),
                decreases e,
            {
                proof {
                    assert(cs@.take(e as int).drop_last() =~= cs@.take(e - 1));
                }
                e = e - 1;
            }
            proof {
                if e == cs@.len() {
                    assert(cs@.take(e as int) =~= cs@);
                }
                assert(trimmed_tail(cs@.take(e as int)) == cs@.take(e as int));
            }
            let t = split_words(&cs, e);
            let keep = match selected {
                Some(sel) => Some(sel.to_owned()),
                None => None,
            };
            if t.len() == 4 {
                let first = crate::tui::capability::lowered(&t[0]);
                let third = crate::tui::capability::lowered(&t[2]);
                let same_selected = match selected {
                    Some(sel) => same_chars(&t[1], sel),
                    None => false,
                };
                if same_chars(&first, "rename") && same_chars(&third, "to") && same_selected {
                    return Some(string_of(&t[3]));
                }
            }
            keep
        },
        _ => match selected {
            Some(sel) => Some(sel.to_owned()),
            None => None,
        },
    }
}

/// Two spaces per level of depth.
pub open spec fn indent(depth: nat) -> Seq<char>
    decreases depth,
{
    if depth == 0 {
        seq![]
    } else {
        indent((depth - 1) as nat) + "  "@
    }
}

/// The children of the last node listed with a symbol, as the tree walk finds them.
pub open spec fn children_named(nodes: Seq<NodeView>, symbol: Seq<char>) -> Seq<Seq<char>>
    decreases nodes.len(),
{
    if nodes.len() == 0 {
        seq![]
    } else if nodes.last().symbol@ == symbol {
        nodes.last().children@.map_values(|c: Symbol| c@)
    } else {
        children_named(nodes.drop_last(), symbol)
    }
}

/// Entries to walk next, for children at a depth: pushed last child first, so that the first
/// child is taken first.
pub open spec fn pushed(children: Seq<Seq<char>>, depth: nat) -> Seq<(Seq<char>, nat)> {
    Seq::new(children.len(), |i: int| (children[children.len() - 1 - i], depth))
}

/// The line that ends a walk cut short by its budget.
pub open spec fn budget_line(budget: nat) -> Seq<char> {
    "… more occurrences (visual budget "@ + decimal(budget) + ")"@
}

/// The occurrence walk: take the last pending entry, list it indented by its depth, then push
/// its children; once the lines reach the budget with entries left, one closing line.
pub open spec fn walk(
    nodes: Seq<NodeView>,
    pending: Seq<(Seq<char>, nat)>,
    lines: Seq<Seq<char>>,
    budget: nat,
) -> Seq<Seq<char>>
    decreases budget - lines.len(),
{
    if pending.len() == 0 {
        lines
    } else if lines.len() >= budget {
        lines.push(budget_line(budget))
    } else {
        let (symbol, depth) = pending.last();
        walk(
            nodes,
            pending.drop_last() + pushed(children_named(nodes, symbol), depth + 1),
            lines.push(indent(depth) + symbol),
            budget,
        )
    }
}

/// The lines of a node's occurrence tree (see `walk`), starting from the node's symbol.
pub open spec fn tree_of(root: NodeView, nodes: Seq<NodeView>, budget: nat) -> Seq<Seq<char>> {
    walk(nodes, pushed(root.children@.map_values(|c: Symbol| c@), 1), seq![root.symbol@], budget)
}

fn find_children<'a>(nodes: &'a [NodeView], symbol: &str) -> (r: Option<&'a Vec<Symbol>>)
    ensures
        match r {
            Some(c) => c@.map_values(|x: Symbol| x@) == children_named(nodes@, symbol@),
            None => children_named(nodes@, symbol@).len() == 0,
        },
{
    let mut i = nodes.len();
    proof {
        assert(nodes@.take(i as int) =~= nodes@);
    }
    while i > 0
        invariant
            i <= nodes@.len(),
            children_named(nodes@, symbol@) == children_named(nodes@.take(i as int), symbol@),
        decreases i,
    {
        let node = &nodes[i - 1];
        proof {
            assert(nodes@.take(i as int).drop_last() =~= nodes@.take(i - 1));
            assert(nodes@.take(i as int).last() == *node);
        }
        let same = match crate::order::text_order(node.symbol.as_str(), symbol) {
            crate::order::Precedence::Same => true,
            _ => false,
        };
        if same {
            return Some(&node.children);
        }
        i = i - 1;
    }
    None
}

fn indent_text(depth: usize) -> (s: String)
    ensures
        s@ == indent(depth as nat),
{
    let mut s = String::new();
    let mut k: usize = 0;
    while k < depth
        invariant
            k <= depth,
            s@ == indent(k as nat),
        decreases depth - k,
    {
        s.push_str("  ");
        k = k + 1;
    }
    s
}

fn push_children(pending: &mut Vec<(String, usize)>, children: &Vec<Symbol>, depth: usize)
    ensures
        pending_view(final(pending)@) == pending_view(old(pending)@) + pushed(children@.map_values(|c: Symbol| c@), depth as nat),
{
    let ghost start = pending_view(pending@);
    let ghost cs = children@.map_values(|c: Symbol| c@);
    let mut j = children.len();
    while j > 0
        invariant
            j <= children@.len(),
            cs == children@.map_values(|c: Symbol| c@),
            pending_view(pending@) == start + pushed(cs, depth as nat).take(children@.len() - j),
        decreases j,
    {
        let text = children[j - 1].as_str().to_owned();
        let ghost before = pending@;
        pending.push((text, depth));
        proof {
            let k = children@.len() - j;
            assert(pushed(cs, depth as nat).take(k + 1) =~= pushed(cs, depth as nat).take(k).push(
                (cs[j - 1], depth as nat),
            ));
            assert(pending_view(pending@) =~= pending_view(before).push((cs[j - 1], depth as nat)));
        }
        j = j - 1;
    }
    proof {
        assert(pushed(cs, depth as nat).take(children@.len() as int) =~= pushed(cs, depth as nat));
    }
}

/// The pending entries as values.
pub open spec fn pending_view(p: Seq<(String, usize)>) -> Seq<(Seq<char>, nat)> {
    p.map_values(|e: (String, usize)| (e.0@, e.1 as nat))
}

/// The texts of some lines.
pub open spec fn line_texts(lines: Seq<String>) -> Seq<Seq<char>> {
    lines.map_values(|l: String| l@)
}

/// The lines of a node's occurrence tree, at most `budget` of them before a closing line
/// (see `tree_of`): each occurrence indented by its depth, repeated children kept.
pub fn tree_lines(root: &NodeView, nodes: &[NodeView], budget: usize) -> (lines: Vec<String>)
    ensures
        line_texts(lines@) == tree_of(*root, nodes@, budget as nat),
{
    let mut lines: Vec<String> = Vec::new();
    lines.push(root.symbol.as_str().to_owned());
    let mut pending: Vec<(String, usize)> = Vec::new();
    push_children(&mut pending, &root.children, 1);
    proof {
        assert(pending_view(Seq::<(String, usize)>::empty()) =~= Seq::<(Seq<char>, nat)>::empty());
        assert(line_texts(lines@) =~= seq![root.symbol@]);
    }
    while pending.len() > 0
        invariant
            walk(nodes@, pending_view(pending@), line_texts(lines@), budget as nat) == tree_of(*root, nodes@, budget as nat),
            1 <= lines@.len() <= budget + 1,
            forall|k: int| 0 <= k < pending@.len() ==> #[trigger] pending_view(pending@)[k].1 <= lines@.len(),
        decreases budget + 1 - lines@.len(),
    {
        let ghost p0 = pending_view(pending@);
        let ghost l0 = line_texts(lines@);
        if lines.len() >= budget {
            let mut closing = "… more occurrences (visual budget ".to_owned();
            crate::text::push_decimal(&mut closing, budget as u128);
            closing.push_str(")");
            lines.push(closing);
            proof {
                assert(line_texts(lines@) =~= l0.push(budget_line(budget as nat)));
            }
            return lines;
        }
        let entry = pending.pop().unwrap();
        let (symbol, depth) = entry;
        proof {
            assert(pending_view(pending@) =~= p0.drop_last());
            assert(p0.last() == (symbol@, depth as nat));
            assert(p0[p0.len() - 1].1 <= lines@.len());
        }
        let mut line = indent_text(depth);
        line.push_str(symbol.as_str());
        lines.push(line);
        proof {
            assert(line_texts(lines@) =~= l0.push(indent(depth as nat) + symbol@));
        }
        let ghost p1 = pending_view(pending@);
        match find_children(nodes, symbol.as_str()) {
            Some(children) => {
                push_children(&mut pending, children, depth + 1);
            },
            None => {
                proof {
                    assert(pushed(children_named(nodes@, symbol@), (depth + 1) as nat) =~= Seq::<(Seq<char>, nat)>::empty());
                    assert(p1 + pushed(children_named(nodes@, symbol@), (depth + 1) as nat) =~= p1);
                }
            },
        }
        proof {
            assert(pending_view(pending@) == p0.drop_last() + pushed(children_named(nodes@, symbol@), (depth + 1) as nat));
            assert forall|k: int| 0 <= k < pending@.len() implies #[trigger] pending_view(pending@)[k].1 <= lines@.len() by {
                if k < p1.len() {
                    assert(pending_view(pending@)[k] == p0[k]);
                }
            }
        }
    }
    lines
}

/// A text with each occurrence of a non-empty pattern replaced, left to right, without
/// overlaps.
pub open spec fn replaced(s: Seq<char>, pat: Seq<char>, rep: Seq<char>) -> Seq<char>
    decreases s.len(),
{
    if s.len() == 0 {
        s
    } else if pat.len() > 0 && pat.len() <= s.len() && s.take(pat.len() as int) == pat {
        rep + replaced(s.skip(pat.len() as int), pat, rep)
    } else {
        seq![s[0]] + replaced(s.drop_first(), pat, rep)
    }
}

/// The text of an escaped fragment body: `&lt;`, `&gt;` and then `&amp;` turned back into
/// the characters the renderer escapes (ampersands last).
pub open spec fn unescaped(s: Seq<char>) -> Seq<char> {
    replaced(replaced(replaced(s, "&lt;"@, "<"@), "&gt;"@, ">"@), "&amp;"@, "&"@)
}

/// The editable text of a fragment from its canonical XML: the body between `<symbol>` and
/// `</symbol>` and a line break, unescaped (see `unescaped`); none when the XML is not so
/// framed.
pub open spec fn fragment_body(symbol: Seq<char>, xml: Seq<char>) -> Option<Seq<char>> {
    let open = "<"@ + symbol + ">"@;
    let close = "</"@ + symbol + ">\n"@;
    if open.len() + close.len() <= xml.len() && xml.take(open.len() as int) == open && xml.skip(xml.len() - close.len())
        == close {
        Some(unescaped(xml.subrange(open.len() as int, xml.len() - close.len())))
    } else {
        None
    }
}

/// Whether a pattern stands in a text at a position.
fn stands_at(cs: &Vec<char>, at: usize, pat: &Vec<char>) -> (b: bool)
    requires
        at <= cs@.len(),
    ensures
        b == (pat@.len() <= cs@.len() - at && cs@.subrange(at as int, at + pat@.len()) == pat@),
{
    let n = cs.len();
    if pat.len() > n - at {
        return false;
    }
    let mut k: usize = 0;
    while k < pat.len()
        invariant
            0 <= k <= pat@.len(),
            n == cs@.len(),
            at <= cs@.len(),
            pat@.len() <= cs@.len() - at,
            forall|j: int| 0 <= j < k ==> cs@[at + j] == pat@[j],
        decreases pat@.len() - k,
    {
        let here: usize = at + k;
        if cs[here] != pat[k] {
            proof {
                assert(cs@.subrange(at as int, at + pat@.len())[k as int] != pat@[k as int]);
            }
            return false;
        }
        k = k + 1;
    }
    proof {
        assert(cs@.subrange(at as int, at + pat@.len()) =~= pat@);
    }
    true
}

/// Replaces each occurrence of a non-empty pattern (see `replaced`).
fn replace_all(cs: &Vec<char>, pat: &Vec<char>, rep: &Vec<char>) -> (out: Vec<char>)
    requires
        pat@.len() > 0,
    ensures
        out@ == replaced(cs@, pat@, rep@),
{
    let mut out: Vec<char> = Vec::new();
    let mut i: usize = 0;
    proof {
        assert(cs@.skip(0) =~= cs@);
    }
    while i < cs.len()
        invariant
            0 <= i <= cs@.len(),
            pat@.len() > 0,
            replaced(cs@, pat@, rep@) == out@ + replaced(cs@.skip(i as int), pat@, rep@),
        decreases cs@.len() - i,
    {
        let ghost rest = cs@.skip(i as int);
        let ghost before = out@;
        if stands_at(cs, i, pat) {
            proof {
                assert(rest.take(pat@.len() as int) =~= cs@.subrange(i as int, i + pat@.len()));
                assert(rest.skip(pat@.len() as int) =~= cs@.skip(i + pat@.len()));
            }
            let mut k: usize = 0;
            while k < rep.len()
                invariant
                    0 <= k <= rep@.len(),
                    out@ == before + rep@.take(k as int),
                decreases rep@.len() - k,
            {
                out.push(rep[k]);
                proof {
                    assert(rep@.take(k + 1) =~= rep@.take(k as int).push(rep@[k as int]));
                }
                k = k + 1;
            }
            proof {
                assert(rep@.take(rep@.len() as int) =~= rep@);
                assert(out@ + replaced(cs@.skip(i + pat@.len()), pat@, rep@) =~= before + (rep@ + replaced(
                    rest.skip(pat@.len() as int),
                    pat@,
                    rep@,
                )));
            }
            i = i + pat.len();
        } else {
            out.push(cs[i]);
            proof {
                if pat@.len() <= rest.len() {
                    assert(rest.take(pat@.len() as int) =~= cs@.subrange(i as int, i + pat@.len()));
                }
                assert(rest.drop_first() =~= cs@.skip(i + 1));
                assert(rest[0] == cs@[i as int]);
                assert(out@ + replaced(cs@.skip(i + 1), pat@, rep@) =~= before + (seq![rest[0]] + replaced(
                    rest.drop_first(),
                    pat@,
                    rep@,
                )));
            }
            i = i + 1;
        }
    }
    proof {
        assert(cs@.skip(i as int) =~= Seq::<char>::empty());
        assert(out@ + Seq::<char>::empty() =~= out@);
    }
    out
}

/// The characters of a text.
fn char_vec(s: &str) -> (v: Vec<char>)
    ensures
        v@ == s@,
{
    crate::application::search::chars_of(s)
}

/// The editable text of a fragment from its canonical XML (see `fragment_body`), or an error
/// when the XML is not framed by the fragment's symbol.
pub fn fragment_draft_text(symbol: &str, xml: &str) -> (r: Result<String, Diagnostic>)
    ensures
        fragment_body(symbol@, xml@) matches Some(t) ==> (r matches Ok(s) && s@ == t),
        fragment_body(symbol@, xml@) is None ==> (r matches Err(d) && plain_error(
            d,
            "E_TUI_VALUE"@,
            DiagnosticCategory::Internal,
            "fragment XML did not match its selected symbol"@,
        )),
{
    let mut open = "<".to_owned();
    open.push_str(symbol);
    open.push_str(">");
    let mut close = "</".to_owned();
    close.push_str(symbol);
    close.push_str(">\n");
    let cs = char_vec(xml);
    let o = char_vec(open.as_str());
    let c = char_vec(close.as_str());
    let framed = o.len() <= cs.len() && c.len() <= cs.len() - o.len() && stands_at(&cs, 0, &o) && stands_at(
        &cs,
        cs.len() - c.len(),
        &c,
    );
    proof {
        assert(cs@.subrange(0, o@.len() as int) =~= cs@.take(o@.len() as int));
        if c@.len() <= cs@.len() {
            assert(cs@.subrange(cs@.len() - c@.len(), cs@.len() as int) =~= cs@.skip(cs@.len() - c@.len()));
        }
    }
    if !framed {
        return Err(
            Diagnostic::error(
                "E_TUI_VALUE",
                DiagnosticCategory::Internal,
                "fragment XML did not match its selected symbol",
            ),
        );
    }
    let mut body: Vec<char> = Vec::new();
    let mut k: usize = o.len();
    let stop = cs.len() - c.len();
    while k < stop
        invariant
            o@.len() <= k <= stop,
            stop <= cs@.len(),
            body@ == cs@.subrange(o@.len() as int, k as int),
        decreases stop - k,
    {
        body.push(cs[k]);
        proof {
            assert(cs@.subrange(o@.len() as int, k + 1) =~= cs@.subrange(o@.len() as int, k as int).push(cs@[k as int]));
        }
        k = k + 1;
    }
    let lt = char_vec("&lt;");
    let lt_to = char_vec("<");
    let gt = char_vec("&gt;");
    let gt_to = char_vec(">");
    let amp = char_vec("&amp;");
    let amp_to = char_vec("&");
    proof {
        reveal_strlit("&lt;");
        reveal_strlit("&gt;");
        reveal_strlit("&amp;");
    }
    let a = replace_all(&body, &lt, &lt_to);
    let b = replace_all(&a, &gt, &gt_to);
    let t = replace_all(&b, &amp, &amp_to);
    let mut out = String::new();
    let mut j: usize = 0;
    while j < t.len()
        invariant
            0 <= j <= t@.len(),
            out@ == t@.take(j as int),
        decreases t@.len() - j,
    {
        out.push(t[j]);
        proof {
            assert(t@.take(j + 1) =~= t@.take(j as int).push(t@[j as int]));
        }
        j = j + 1;
    }
    proof {
        assert(t@.take(t@.len() as int) =~= t@);
    }
    Ok(out)
}

} // verus!
