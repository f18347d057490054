//! User-owned node metadata: an optional description and an ordered tag set.

use vstd::prelude::*;
use vstd::std_specs::iter::IteratorSpec;
use vstd::string::StringSliceAdditionalSpecFns;

use super::error::DomainError;
use crate::order::{text_lt, text_order, Precedence};

verus! {

/// Characters with the Unicode `White_Space` property, which `str::trim` removes.
pub open spec fn unicode_whitespace(c: char) -> bool {
    let v = c as u32;
    (0x9 <= v <= 0xD) || v == 0x20 || v == 0x85 || v == 0xA0 || v == 0x1680 || (0x2000 <= v
        <= 0x200A) || v == 0x2028 || v == 0x2029 || v == 0x202F || v == 0x205F || v == 0x3000
}

/// A text is blank when it is empty or holds only white space.
pub open spec fn blank(s: Seq<char>) -> bool {
    forall|i: int| 0 <= i < s.len() ==> unicode_whitespace(#[trigger] s[i])
}

/// Whether a character has the Unicode `White_Space` property.
pub fn is_unicode_whitespace(c: char) -> (b: bool)
    ensures
        b == unicode_whitespace(c),
{
    let v = c as u32;
    (0x9 <= v && v <= 0xD) || v == 0x20 || v == 0x85 || v == 0xA0 || v == 0x1680 || (0x2000 <= v
        && v <= 0x200A) || v == 0x2028 || v == 0x2029 || v == 0x202F || v == 0x205F || v == 0x3000
}

/// Whether a text is empty or white space only.
pub fn is_blank(value: &str) -> (b: bool)
    ensures
        b == blank(value@),
{
    let mut it = value.chars();
    let ghost whole = value@;
    let ghost mut k: int = 0;
    broadcast use vstd::string::group_string_axioms;
    loop
        invariant
            whole == value@,
            0 <= k <= whole.len(),
            it.remaining() == whole.skip(k),
            forall|j: int| 0 <= j < k ==> unicode_whitespace(#[trigger] whole[j]),
        decreases whole.len() - k,
    {
        match it.next() {
            None => {
                assert(whole.skip(k).len() == 0);
                return true;
            },
            Some(c) => {
                assert(c == whole[k]);
                if !is_unicode_whitespace(c) {
                    return false;
                }
                proof {
                    k = k + 1;
                    assert(whole.skip(k) =~= whole.skip(k - 1).drop_first());
                }
            },
        }
    }
}

/// A tag, kept with its original spelling; never blank.
#[derive(Debug, PartialEq, Eq, PartialOrd, Ord, Hash)]
pub struct Tag {
    text: String,
}

impl View for Tag {
    type V = Seq<char>;

    closed spec fn view(&self) -> Seq<char> {
        self.text@
    }
}

impl Tag {
    #[verifier::type_invariant]
    spec fn not_blank(self) -> bool {
        !blank(self.text@)
    }


    /// Builds a tag; a blank text is refused.
    pub fn new(value: &str) -> (r: Result<Self, DomainError>)
        ensures
            !blank(value@) ==> (r matches Ok(t) && t@ == value@),
            blank(value@) ==> r == Err::<Self, DomainError>(DomainError::EmptyTag),
    {
        if is_blank(value) {
            return Err(DomainError::EmptyTag);
        }
        Ok(Tag { text: value.to_owned() })
    }

    fn duplicate(&self) -> (r: Tag)
        ensures
            r@ == self@,
    {
        proof {
            use_type_invariant(self);
        }
        Tag { text: self.text.clone() }
    }

    /// Borrows the tag text.
    pub fn as_str(&self) -> (s: &str)
        ensures
            s@ == self@,
    {
        self.text.as_str()
    }

    /// Returns the tag text.
    pub fn into_inner(self) -> (s: String)
        ensures
            s@ == self@,
    {
        self.text
    }
}

impl Clone for Tag {
    fn clone(&self) -> (r: Self)
        ensures
            r@ == self@,
    {
        self.duplicate()
    }
}

/// The texts of a sequence of tags.
pub open spec fn tag_texts(tags: Seq<Tag>) -> Seq<Seq<char>> {
    tags.map_values(|t: Tag| t@)
}

/// The set of texts of a sequence of tags.
pub open spec fn tag_set(tags: Seq<Tag>) -> Set<Seq<char>> {
    Set::new(|x: Seq<char>| exists|i: int| 0 <= i < tags.len() && (#[trigger] tags[i])@ == x)
}

/// Tags in strictly increasing bytewise order, hence without repetition.
pub open spec fn strictly_sorted(tags: Seq<Tag>) -> bool {
    forall|i: int, j: int| 0 <= i < j < tags.len() ==> text_lt(#[trigger] tags[i]@, #[trigger] tags[j]@)
}

/// An empty description counts as no description.
pub open spec fn normalized_description(d: Option<Seq<char>>) -> Option<Seq<char>> {
    match d {
        Some(s) => if s.len() == 0 { None } else { Some(s) },
        None => None,
    }
}

/// The view of an optional string.
pub open spec fn opt_view(d: Option<String>) -> Option<Seq<char>> {
    match d {
        Some(s) => Some(s@),
        None => None,
    }
}

/// Two metadata values hold the same description and the same tags.
pub open spec fn same_metadata(a: Metadata, b: Metadata) -> bool {
    &&& a.description_view() == b.description_view()
    &&& tag_texts(a.tag_seq()) == tag_texts(b.tag_seq())
}

/// User-owned metadata of a node.
#[derive(Debug, PartialEq, Eq)]
pub struct Metadata {
    description: Option<String>,
    tags: Vec<Tag>,
}

impl Metadata {
    #[verifier::type_invariant]
    spec fn well_formed(self) -> bool {
        &&& strictly_sorted(self.tags@)
        &&& normalized_description(opt_view(self.description)) == opt_view(self.description)
    }

    /// The description; never the empty text.
    pub closed spec fn description_view(&self) -> Option<Seq<char>> {
        opt_view(self.description)
    }

    /// The tags in bytewise order.
    pub closed spec fn tag_seq(&self) -> Seq<Tag> {
        self.tags@
    }


    /// Builds metadata: an empty description is dropped, and the tags are kept once each in
    /// bytewise order.
    pub fn new(description: Option<String>, tags: Vec<Tag>) -> (m: Self)
        ensures
            m.description_view() == normalized_description(opt_view(description)),
            tag_set(m.tag_seq()) == tag_set(tags@),
            strictly_sorted(m.tag_seq()),
    {
        let description = normalize(description);
        let sorted = sort_tags(tags);
        Metadata { description, tags: sorted }
    }

    /// Borrows the description.
    pub fn description(&self) -> (d: Option<&str>)
        ensures
            match d {
                Some(s) => self.description_view() == Some(s@) && s@.len() > 0,
                None => self.description_view().is_none(),
            },
    {
        proof {
            use_type_invariant(self);
        }
        match &self.description {
            Some(s) => Some(s.as_str()),
            None => None,
        }
    }

    /// The tags in bytewise order.
    pub fn tags(&self) -> (t: &[Tag])
        ensures
            t@ == self.tag_seq(),
            strictly_sorted(t@),
    {
        proof {
            use_type_invariant(self);
        }
        self.tags.as_slice()
    }

    /// Replaces the description; an empty text clears it.
    pub fn set_description(&mut self, description: Option<String>)
        ensures
            final(self).description_view() == normalized_description(opt_view(description)),
            final(self).tag_seq() == old(self).tag_seq(),
    {
        proof {
            use_type_invariant(&*self);
        }
        self.description = normalize(description);
    }

    /// Replaces the whole tag set.
    pub fn set_tags(&mut self, tags: Vec<Tag>)
        ensures
            final(self).description_view() == old(self).description_view(),
            tag_set(final(self).tag_seq()) == tag_set(tags@),
            strictly_sorted(final(self).tag_seq()),
    {
        proof {
            use_type_invariant(&*self);
        }
        self.tags = sort_tags(tags);
    }
}

impl Clone for Metadata {
    fn clone(&self) -> (r: Self)
        ensures
            r.description_view() == self.description_view(),
            tag_texts(r.tag_seq()) == tag_texts(self.tag_seq()),
    {
        proof {
            use_type_invariant(self);
        }
        let description = match &self.description {
            Some(d) => Some(d.clone()),
            None => None,
        };
        let mut tags: Vec<Tag> = Vec::new();
        let mut i: usize = 0;
        while i < self.tags.len()
            invariant
                0 <= i <= self.tags@.len(),
                tags@.len() == i,
                forall|j: int| 0 <= j < i ==> (#[trigger] tags@[j])@ == self.tags@[j]@,
            decreases self.tags@.len() - i,
        {
            tags.push(self.tags[i].duplicate());
            i = i + 1;
        }
        proof {
            assert(tag_texts(tags@) =~= tag_texts(self.tags@));
            assert forall|a: int, b: int| 0 <= a < b < tags@.len() implies text_lt(
                #[trigger] tags@[a]@,
                #[trigger] tags@[b]@,
            ) by {
                assert(text_lt(self.tags@[a]@, self.tags@[b]@));
            }
        }
        Metadata { description, tags }
    }
}

impl Default for Metadata {
    fn default() -> (m: Self)
        ensures
            m.description_view().is_none(),
            m.tag_seq().len() == 0,
    {
        Metadata { description: None, tags: Vec::new() }
    }
}

fn normalize(description: Option<String>) -> (d: Option<String>)
    ensures
        opt_view(d) == normalized_description(opt_view(description)),
{
    match description {
        Some(s) => {
            if s.as_str().is_empty() {
                None
            } else {
                Some(s)
            }
        },
        None => None,
    }
}

/// Sorts tags into bytewise order, keeping one tag per text.
fn sort_tags(tags: Vec<Tag>) -> (r: Vec<Tag>)
    ensures
        tag_set(r@) == tag_set(tags@),
        strictly_sorted(r@),
{
    let mut out: Vec<Tag> = Vec::new();
    let mut i: usize = 0;
    while i < tags.len()
        invariant
            0 <= i <= tags.len(),
            strictly_sorted(out@),
            tag_set(out@) == tag_set(tags@.take(i as int)),
        decreases tags.len() - i,
    {
        let t = tags[i].duplicate();
        insert_sorted(&mut out, t);
        proof {
            let a = tag_set(tags@.take(i + 1));
            let b = tag_set(tags@.take(i as int)).insert(tags@[i as int]@);
            assert forall|x: Seq<char>| a.contains(x) <==> b.contains(x) by {
                if a.contains(x) {
                    let j = choose|j: int| 0 <= j < i + 1 && (#[trigger] tags@.take(i + 1)[j])@ == x;
                    if j < i {
                        assert(tags@.take(i as int)[j] == tags@.take(i + 1)[j]);
                    }
                }
                if b.contains(x) {
                    if x != tags@[i as int]@ {
                        let j = choose|j: int| 0 <= j < i && (#[trigger] tags@.take(i as int)[j])@ == x;
                        assert(tags@.take(i + 1)[j] == tags@.take(i as int)[j]);
                    } else {
                        assert(tags@.take(i + 1)[i as int] == tags@[i as int]);
                    }
                }
            }
            assert(a =~= b);
        }
        i = i + 1;
    }
    assert(tags@.take(tags@.len() as int) =~= tags@);
    out
}

/// Inserts a tag at its place in a strictly ordered list, unless its text is already there.
fn insert_sorted(out: &mut Vec<Tag>, t: Tag)
    requires
        strictly_sorted(old(out)@),
    ensures
        strictly_sorted(final(out)@),
        tag_set(final(out)@) == tag_set(old(out)@).insert(t@),
{
    let mut pos: usize = 0;
    let n = out.len();
    let mut stop = false;
    while pos < n && !stop
        invariant
            0 <= pos <= n,
            n == out@.len(),
            out@ == old(out)@,
            strictly_sorted(out@),
            forall|j: int| 0 <= j < pos ==> text_lt(#[trigger] out@[j]@, t@),
            stop ==> pos < n && text_lt(t@, out@[pos as int]@),
        decreases 2 * (n - pos) + (if stop { 0int } else { 1int }),
    {
        let p = text_order(out[pos].as_str(), t.as_str());
        match p {
            Precedence::Before => {
                pos = pos + 1;
            },
            Precedence::Same => {
                proof {
                    let s = out@;
                    assert(tag_set(s).insert(t@) =~= tag_set(s)) by {
                        assert(s[pos as int]@ == t@);
                    }
                }
                return;
            },
            Precedence::After => {
                stop = true;
            },
        }
    }
    let ghost before = out@;
    proof {
        assert forall|j: int| pos <= j < n implies text_lt(t@, #[trigger] before[j]@) by {
            if j > pos {
                assert(text_lt(before[pos as int]@, before[j]@));
                crate::order::lemma_text_lt_transitive(t@, before[pos as int]@, before[j]@);
            }
        }
    }
    out.insert(pos, t);
    proof {
        let s = out@;
        assert(s =~= before.insert(pos as int, t));
        assert forall|i: int, j: int| 0 <= i < j < s.len() implies text_lt(
            #[trigger] s[i]@,
            #[trigger] s[j]@,
        ) by {
            if j < pos {
                assert(s[i] == before[i] && s[j] == before[j]);
            } else if j == pos {
                assert(s[i] == before[i]);
            } else if i == pos {
                assert(s[j] == before[j - 1]);
            } else if i < pos {
                assert(s[i] == before[i] && s[j] == before[j - 1]);
                crate::order::lemma_text_lt_transitive(s[i]@, t@, s[j]@);
            } else {
                assert(s[i] == before[i - 1] && s[j] == before[j - 1]);
            }
        }
        let a = tag_set(s);
        let b = tag_set(before).insert(t@);
        assert forall|x: Seq<char>| a.contains(x) <==> b.contains(x) by {
            if a.contains(x) {
                let j = choose|j: int| 0 <= j < s.len() && (#[trigger] s[j])@ == x;
                if j < pos {
                    assert(s[j] == before[j]);
                } else if j > pos {
                    assert(s[j] == before[j - 1]);
                }
            }
            if b.contains(x) && x != t@ {
                let j = choose|j: int| 0 <= j < before.len() && (#[trigger] before[j])@ == x;
                if j < pos {
                    assert(s[j] == before[j]);
                } else {
                    assert(s[j + 1] == before[j]);
                }
            } else if b.contains(x) {
                assert(s[pos as int] == t);
            }
        }
        assert(a =~= b);
    }
}

} // verus!
