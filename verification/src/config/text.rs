//! Small text rules of the configuration: enum spellings from the environment, and the edit
//! distance behind key suggestions.

use vstd::prelude::*;

use super::schema::{
    color_name, editor_name, field_name, glyph_name, ColorMode, EditorMode, GlyphMode, SearchField,
};

verus! {

fn same_text(a: &str, b: &str) -> (r: bool)
    ensures
        r == (a@ == b@),
{
    match crate::order::text_order(a, b) {
        crate::order::Precedence::Same => true,
        _ => false,
    }
}

/// Reads a color mode by its spelling; the error lists the accepted ones.
pub fn parse_color(value: &str) -> (r: Result<ColorMode, &'static str>)
    ensures
        match r {
            Ok(m) => color_name(m) == value@,
            Err(e) => e@ == "auto|truecolor|ansi256|ansi16|none"@ && forall|m: ColorMode| color_name(m) != value@,
        },
{
    if same_text(value, "auto") {
        Ok(ColorMode::Auto)
    } else if same_text(value, "truecolor") {
        Ok(ColorMode::Truecolor)
    } else if same_text(value, "ansi256") {
        Ok(ColorMode::Ansi256)
    } else if same_text(value, "ansi16") {
        Ok(ColorMode::Ansi16)
    } else if same_text(value, "none") {
        Ok(ColorMode::NoColor)
    } else {
        Err("auto|truecolor|ansi256|ansi16|none")
    }
}

/// Reads a glyph mode by its spelling.
pub fn parse_glyphs(value: &str) -> (r: Result<GlyphMode, &'static str>)
    ensures
        match r {
            Ok(m) => glyph_name(m) == value@,
            Err(e) => e@ == "auto|unicode|ascii"@ && forall|m: GlyphMode| glyph_name(m) != value@,
        },
{
    if same_text(value, "auto") {
        Ok(GlyphMode::Auto)
    } else if same_text(value, "unicode") {
        Ok(GlyphMode::Unicode)
    } else if same_text(value, "ascii") {
        Ok(GlyphMode::Ascii)
    } else {
        Err("auto|unicode|ascii")
    }
}

/// Reads an editor mode by its spelling.
pub fn parse_editor(value: &str) -> (r: Result<EditorMode, &'static str>)
    ensures
        match r {
            Ok(m) => editor_name(m) == value@,
            Err(e) => e@ == "builtin|external"@ && forall|m: EditorMode| editor_name(m) != value@,
        },
{
    if same_text(value, "builtin") {
        Ok(EditorMode::Builtin)
    } else if same_text(value, "external") {
        Ok(EditorMode::External)
    } else {
        Err("builtin|external")
    }
}

/// Reads a search field by its spelling.
pub fn parse_field(value: &str) -> (r: Result<SearchField, &'static str>)
    ensures
        match r {
            Ok(m) => field_name(m) == value@,
            Err(e) => e@ == "title|content|mixed"@ && forall|m: SearchField| field_name(m) != value@,
        },
{
    if same_text(value, "title") {
        Ok(SearchField::Title)
    } else if same_text(value, "content") {
        Ok(SearchField::Content)
    } else if same_text(value, "mixed") {
        Ok(SearchField::Mixed)
    } else {
        Err("title|content|mixed")
    }
}

/// The least of three numbers.
pub open spec fn min3(a: nat, b: nat, c: nat) -> nat {
    if a <= b && a <= c {
        a
    } else if b <= c {
        b
    } else {
        c
    }
}

/// The Levenshtein distance between two texts: insertions, deletions and substitutions of
/// one character each.
pub open spec fn levenshtein(a: Seq<char>, b: Seq<char>) -> nat
    decreases a.len() + b.len(),
{
    if a.len() == 0 {
        b.len()
    } else if b.len() == 0 {
        a.len()
    } else {
        min3(
            levenshtein(a.drop_last(), b) + 1,
            levenshtein(a, b.drop_last()) + 1,
            levenshtein(a.drop_last(), b.drop_last()) + if a.last() == b.last() { 0nat } else { 1nat },
        )
    }
}

proof fn lemma_levenshtein_bound(a: Seq<char>, b: Seq<char>)
    ensures
        levenshtein(a, b) <= a.len() + b.len(),
    decreases a.len() + b.len(),
{
    if a.len() > 0 && b.len() > 0 {
        lemma_levenshtein_bound(a.drop_last(), b);
    }
}

/// The Levenshtein distance between two texts, by rows.
pub fn edit_distance(left: &str, right: &str) -> (d: usize)
    requires
        left@.len() + right@.len() < usize::MAX,
    ensures
        d == levenshtein(left@, right@),
{
    let l = crate::application::search::chars_of(left);
    let r = crate::application::search::chars_of(right);
    let n = r.len();
    let mut previous: Vec<usize> = Vec::new();
    let mut j: usize = 0;
    while j < n
        invariant
            n == r@.len(),
            0 <= j <= n,
            previous@.len() == j,
            forall|k: int| 0 <= k < j ==> #[trigger] previous@[k] == levenshtein(Seq::<char>::empty(), r@.take(k)),
            forall|k: int| 0 <= k < j ==> #[trigger] previous@[k] <= k,
        decreases n - j,
    {
        previous.push(j);
        proof {
            assert(r@.take(j as int).len() == j);
        }
        j = j + 1;
    }
    previous.push(n);
    proof {
        assert(r@.take(n as int).len() == n);
    }
    assert(previous@.len() == n + 1);
    let mut row: usize = 0;
    while row < l.len()
        invariant
            n == r@.len(),
            l@.len() + n < usize::MAX,
            0 <= row <= l@.len(),
            previous@.len() == n + 1,
            forall|k: int| 0 <= k <= n ==> #[trigger] previous@[k] == levenshtein(l@.take(row as int), r@.take(k)),
            forall|k: int| 0 <= k <= n ==> #[trigger] previous@[k] <= row + k,
        decreases l@.len() - row,
    {
        let mut current: Vec<usize> = Vec::new();
        current.push(row + 1);
        proof {
            assert(l@.take(row + 1).len() == row + 1);
            assert(r@.take(0) =~= Seq::<char>::empty());
        }
        let mut column: usize = 0;
        while column < n
            invariant
                n == r@.len(),
                l@.len() + n < usize::MAX,
                row < l@.len(),
                0 <= column <= n,
                previous@.len() == n + 1,
                forall|k: int| 0 <= k <= n ==> #[trigger] previous@[k] == levenshtein(l@.take(row as int), r@.take(k)),
                forall|k: int| 0 <= k <= n ==> #[trigger] previous@[k] <= row + k,
                current@.len() == column + 1,
                forall|k: int| 0 <= k <= column ==> #[trigger] current@[k] == levenshtein(l@.take(row + 1), r@.take(k)),
                forall|k: int| 0 <= k <= column ==> #[trigger] current@[k] <= row + 1 + k,
            decreases n - column,
        {
            let insert = current[column] + 1;
            let delete = previous[column + 1] + 1;
            let substitute = previous[column] + if l[row] != r[column] { 1 } else { 0 };
            let best = if insert <= delete && insert <= substitute {
                insert
            } else if delete <= substitute {
                delete
            } else {
                substitute
            };
            proof {
                let a = l@.take(row + 1);
                let b = r@.take(column + 1);
                assert(a.drop_last() =~= l@.take(row as int));
                assert(b.drop_last() =~= r@.take(column as int));
                assert(a.last() == l@[row as int]);
                assert(b.last() == r@[column as int]);
            }
            current.push(best);
            column = column + 1;
        }
        previous = current;
        row = row + 1;
    }
    proof {
        assert(l@.take(l@.len() as int) =~= l@);
        assert(r@.take(n as int) =~= r@);
    }
    previous[n]
}

/// The index of the first candidate among `es[0..n]` nearest to `a`.
pub open spec fn first_nearest(a: Seq<char>, es: Seq<Seq<char>>, n: int) -> int
    decreases n,
{
    if n <= 1 {
        0
    } else {
        let b = first_nearest(a, es, n - 1);
        if levenshtein(a, es[n - 1]) < levenshtein(a, es[b]) {
            n - 1
        } else {
            b
        }
    }
}

/// The first of the candidates nearest to `a`, when it is at most three edits away.
pub open spec fn suggestion(a: Seq<char>, es: Seq<Seq<char>>) -> Option<Seq<char>> {
    if es.len() == 0 {
        None
    } else {
        let b = first_nearest(a, es, es.len() as int);
        if levenshtein(a, es[b]) <= 3 {
            Some(es[b])
        } else {
            None
        }
    }
}

/// The texts of a list of string slices.
pub open spec fn texts(xs: Seq<&str>) -> Seq<Seq<char>> {
    xs.map_values(|x: &str| x@)
}

/// The first of the nearest candidates, when it is at most three edits away.
pub fn nearest<'a>(actual: &str, expected: &[&'a str]) -> (r: Option<&'a str>)
    requires
        forall|j: int| 0 <= j < expected@.len() ==> actual@.len() + (#[trigger] expected@[j])@.len() < usize::MAX,
    ensures
        match r {
            Some(c) => exists|i: int| 0 <= i < expected@.len() && expected@[i] == c
                && levenshtein(actual@, c@) <= 3
                && (forall|j: int| 0 <= j < expected@.len() ==> levenshtein(actual@, c@) <= levenshtein(actual@, #[trigger] expected@[j]@))
                && (forall|j: int| 0 <= j < i ==> levenshtein(actual@, c@) < levenshtein(actual@, #[trigger] expected@[j]@)),
            None => expected@.len() == 0 || exists|i: int| 0 <= i < expected@.len()
                && levenshtein(actual@, expected@[i]@) > 3
                && (forall|j: int| 0 <= j < expected@.len() ==> levenshtein(actual@, expected@[i]@) <= levenshtein(actual@, #[trigger] expected@[j]@)),
        },
        match r {
            Some(c) => suggestion(actual@, texts(expected@)) == Some(c@),
            None => suggestion(actual@, texts(expected@)) is None,
        },
{
    if expected.len() == 0 {
        return None;
    }
    let mut best: usize = 0;
    let mut best_distance = edit_distance(actual, expected[0]);
    let mut i: usize = 1;
    while i < expected.len()
        invariant
            1 <= i <= expected@.len(),
            forall|j: int| 0 <= j < expected@.len() ==> actual@.len() + (#[trigger] expected@[j])@.len() < usize::MAX,
            best < i,
            best_distance == levenshtein(actual@, expected@[best as int]@),
            forall|j: int| 0 <= j < i ==> best_distance <= levenshtein(actual@, #[trigger] expected@[j]@),
            forall|j: int| 0 <= j < best ==> best_distance < levenshtein(actual@, #[trigger] expected@[j]@),
            best == first_nearest(actual@, texts(expected@), i as int),
        decreases expected@.len() - i,
    {
        let d = edit_distance(actual, expected[i]);
        proof {
            assert(texts(expected@)[i as int] == expected@[i as int]@);
            assert(texts(expected@)[best as int] == expected@[best as int]@);
        }
        if d < best_distance {
            best = i;
            best_distance = d;
        }
        i = i + 1;
    }
    proof {
        assert(texts(expected@)[best as int] == expected@[best as int]@);
    }
    if best_distance <= 3 {
        Some(expected[best])
    } else {
        None
    }
}

} // verus!
