//! Node identities, symbols, validated XML text and nodes.

use vstd::prelude::*;
use vstd::std_specs::iter::IteratorSpec;
use vstd::string::StringSliceAdditionalSpecFns;

use super::error::DomainError;
use super::metadata::Metadata;

verus! {

/// Stable, strictly positive internal node identity.
#[derive(Debug, Clone, Copy, PartialEq, Eq, PartialOrd, Ord, Hash)]
pub struct NodeId {
    value: i64,
}

impl NodeId {
    #[verifier::type_invariant]
    spec fn positive(self) -> bool {
        self.value > 0
    }

    /// The persistent integer of this identity.
    pub closed spec fn id(self) -> i64 {
        self.value
    }


    /// Builds an identity from a positive `i64`.
    pub fn new(value: i64) -> (r: Result<Self, DomainError>)
        ensures
            value > 0 ==> (r matches Ok(id) && id.id() == value),
            value <= 0 ==> r == Err::<Self, DomainError>(
                DomainError::InvalidPositiveInteger { kind: "node id", value: value as i128 },
            ),
    {
        if value > 0 {
            Ok(NodeId { value })
        } else {
            Err(DomainError::InvalidPositiveInteger { kind: "node id", value: value as i128 })
        }
    }

    /// Returns the persistent integer.
    pub fn get(self) -> (v: i64)
        ensures
            v == self.id(),
            v > 0,
    {
        proof {
            use_type_invariant(self);
        }
        self.value
    }
}

/// Two identities are equal exactly when their integers are equal.
pub proof fn lemma_node_id_ext(a: NodeId, b: NodeId)
    ensures
        (a == b) <==> (a.id() == b.id()),
{
}

/// Optimistic-concurrency revision of a node; always positive.
#[derive(Debug, Clone, Copy, PartialEq, Eq, PartialOrd, Ord, Hash)]
pub struct Revision {
    value: u64,
}

impl Revision {
    #[verifier::type_invariant]
    spec fn positive(self) -> bool {
        self.value > 0
    }

    /// The revision number.
    pub closed spec fn number(self) -> u64 {
        self.value
    }


    /// Builds a positive revision.
    pub fn new(value: u64) -> (r: Result<Self, DomainError>)
        ensures
            value > 0 ==> (r matches Ok(rev) && rev.number() == value),
            value == 0 ==> r == Err::<Self, DomainError>(
                DomainError::InvalidPositiveInteger { kind: "revision", value: 0 },
            ),
    {
        if value > 0 {
            Ok(Revision { value })
        } else {
            Err(DomainError::InvalidPositiveInteger { kind: "revision", value: 0 })
        }
    }

    /// Returns the revision number.
    pub fn get(self) -> (v: u64)
        ensures
            v == self.number(),
            v > 0,
    {
        proof {
            use_type_invariant(self);
        }
        self.value
    }

    /// The next revision, or `None` when it would overflow.
    pub fn checked_next(self) -> (r: Option<Self>)
        ensures
            self.number() < u64::MAX ==> (r matches Some(n) && n.number() == self.number() + 1),
            self.number() == u64::MAX ==> r.is_none(),
    {
        proof {
            use_type_invariant(self);
        }
        if self.value < u64::MAX {
            Some(Revision { value: self.value + 1 })
        } else {
            None
        }
    }
}

/// Two revisions are equal exactly when their numbers are equal.
pub proof fn lemma_revision_ext(a: Revision, b: Revision)
    ensures
        (a == b) <==> (a.number() == b.number()),
{
}

/// ASCII letter.
pub open spec fn is_ascii_alpha(b: u8) -> bool {
    (65u8 <= b <= 90u8) || (97u8 <= b <= 122u8)
}

/// ASCII decimal digit.
pub open spec fn is_ascii_digit(b: u8) -> bool {
    48u8 <= b <= 57u8
}

/// Byte allowed as the first byte of a symbol: `[A-Za-z_]`.
pub open spec fn symbol_first_byte(b: u8) -> bool {
    is_ascii_alpha(b) || b == 95u8
}

/// Byte allowed after the first byte of a symbol: `[A-Za-z0-9_-]`.
pub open spec fn symbol_rest_byte(b: u8) -> bool {
    is_ascii_alpha(b) || is_ascii_digit(b) || b == 95u8 || b == 45u8
}

/// The symbol rule `[A-Za-z_][A-Za-z0-9_-]*` over the UTF-8 bytes of a text.
pub open spec fn valid_symbol_bytes(bytes: Seq<u8>) -> bool {
    &&& bytes.len() > 0
    &&& symbol_first_byte(bytes[0])
    &&& forall|i: int| 1 <= i < bytes.len() ==> symbol_rest_byte(#[trigger] bytes[i])
}

/// The symbol rule over a character sequence.
pub open spec fn valid_symbol(s: Seq<char>) -> bool {
    valid_symbol_bytes(vstd::utf8::encode_utf8(s))
}

/// A name valid both in the DSL and as an XML tag.
#[derive(Debug, PartialEq, Eq, PartialOrd, Ord, Hash)]
pub struct Symbol {
    text: String,
}

impl View for Symbol {
    type V = Seq<char>;

    closed spec fn view(&self) -> Seq<char> {
        self.text@
    }
}

impl Symbol {
    #[verifier::type_invariant]
    spec fn well_formed(self) -> bool {
        valid_symbol(self.text@)
    }


    /// Checks the rule `[A-Za-z_][A-Za-z0-9_-]*` byte by byte and builds a symbol.
    pub fn new(value: &str) -> (r: Result<Self, DomainError>)
        ensures
            valid_symbol(value@) ==> (r matches Ok(s) && s@ == value@),
            !valid_symbol(value@) ==> (r matches Err(DomainError::InvalidSymbol(t)) && t@ == value@),
    {
        let bytes = value.as_bytes();
        let n = bytes.len();
        let mut ok = n > 0 && {
            let b = bytes[0];
            (65u8 <= b && b <= 90u8) || (97u8 <= b && b <= 122u8) || b == 95u8
        };
        let mut i: usize = 1;
        while ok && i < n
            invariant
                bytes@ == value.spec_bytes(),
                n == bytes@.len(),
                1 <= i <= n || (n == 0 && !ok),
                ok ==> n > 0 && symbol_first_byte(bytes@[0]),
                ok ==> forall|j: int| 1 <= j < i ==> symbol_rest_byte(#[trigger] bytes@[j]),
                !ok ==> !valid_symbol_bytes(bytes@),
            decreases n - i,
        {
            let b = bytes[i];
            if !((65u8 <= b && b <= 90u8) || (97u8 <= b && b <= 122u8) || (48u8 <= b && b <= 57u8)
                || b == 95u8 || b == 45u8) {
                ok = false;
            }
            i = i + 1;
        }
        if ok {
            Ok(Symbol { text: value.to_owned() })
        } else {
            Err(DomainError::InvalidSymbol(value.to_owned()))
        }
    }

    /// Borrows the symbol text, which satisfies the symbol rule.
    pub fn as_str(&self) -> (s: &str)
        ensures
            s@ == self@,
            valid_symbol(s@),
    {
        proof {
            use_type_invariant(self);
        }
        self.text.as_str()
    }

    /// Returns the symbol text.
    pub fn into_inner(self) -> (s: String)
        ensures
            s@ == self@,
    {
        self.text
    }
}

impl Clone for Symbol {
    fn clone(&self) -> (r: Self)
        ensures
            r@ == self@,
    {
        proof {
            use_type_invariant(self);
        }
        Symbol { text: self.text.clone() }
    }
}

/// Characters allowed in XML 1.0 (Fifth Edition) text.
pub open spec fn xml_char(c: char) -> bool {
    let v = c as u32;
    v == 0x9 || v == 0xA || v == 0xD || (0x20 <= v <= 0xD7FF) || (0xE000 <= v <= 0xFFFD) || (
    0x10000 <= v <= 0x10FFFF)
}

/// Byte offset, in UTF-8, of the character at index `k` of a text.
pub open spec fn byte_offset_of(s: Seq<char>, k: int) -> nat {
    vstd::utf8::encode_utf8(s.take(k)).len()
}

/// The encoding of a concatenation is the concatenation of the encodings.
pub proof fn lemma_encode_concat(a: Seq<char>, b: Seq<char>)
    ensures
        vstd::utf8::encode_utf8(a + b) == vstd::utf8::encode_utf8(a) + vstd::utf8::encode_utf8(b),
    decreases a.len(),
{
    if a.len() == 0 {
        assert(a + b =~= b);
        assert(vstd::utf8::encode_utf8(a) =~= Seq::<u8>::empty());
        assert(Seq::<u8>::empty() + vstd::utf8::encode_utf8(b) =~= vstd::utf8::encode_utf8(b));
    } else {
        lemma_encode_concat(a.drop_first(), b);
        assert((a + b).drop_first() =~= a.drop_first() + b);
        assert((a + b)[0] == a[0]);
        let e0 = vstd::utf8::encode_scalar(a[0] as u32);
        assert(vstd::utf8::encode_utf8(a + b) =~= e0 + vstd::utf8::encode_utf8(a.drop_first() + b));
        assert(e0 + (vstd::utf8::encode_utf8(a.drop_first()) + vstd::utf8::encode_utf8(b))
            =~= (e0 + vstd::utf8::encode_utf8(a.drop_first())) + vstd::utf8::encode_utf8(b));
    }
}

/// Whether a character is allowed by XML 1.0 Fifth Edition.
pub fn is_xml_10_char(character: char) -> (b: bool)
    ensures
        b == xml_char(character),
{
    let v = character as u32;
    v == 0x9 || v == 0xA || v == 0xD || (0x20 <= v && v <= 0xD7FF) || (0xE000 <= v && v <= 0xFFFD)
        || (0x10000 <= v && v <= 0x10FFFF)
}

fn char_utf8_width(c: char) -> (w: usize)
    ensures
        w == vstd::utf8::encode_utf8(seq![c]).len(),
{
    proof {
        vstd::utf8::char_is_scalar(c);
        assert(seq![c].drop_first() =~= Seq::<char>::empty());
        assert(vstd::utf8::encode_utf8(Seq::<char>::empty()) =~= Seq::<u8>::empty());
        assert(vstd::utf8::encode_utf8(seq![c]) =~= vstd::utf8::encode_scalar(c as u32));
    }
    let v = c as u32;
    if v <= 0x7F {
        1
    } else if v <= 0x7FF {
        2
    } else if v <= 0xFFFF {
        3
    } else {
        4
    }
}

/// Validated XML 1.0 text.
#[derive(Debug, PartialEq, Eq, Hash)]
pub struct XmlText {
    text: String,
}

impl View for XmlText {
    type V = Seq<char>;

    closed spec fn view(&self) -> Seq<char> {
        self.text@
    }
}

impl XmlText {
    #[verifier::type_invariant]
    spec fn well_formed(self) -> bool {
        forall|i: int| 0 <= i < self.text@.len() ==> xml_char(#[trigger] self.text@[i])
    }


    /// Validates a text and builds it; the error names the first forbidden character and
    /// its UTF-8 byte offset.
    pub fn new(value: &str) -> (r: Result<Self, DomainError>)
        ensures
            (forall|i: int| 0 <= i < value@.len() ==> xml_char(#[trigger] value@[i])) ==> (r matches Ok(t) && t@ == value@),
            !(forall|i: int| 0 <= i < value@.len() ==> xml_char(#[trigger] value@[i])) ==> exists|k: int|
                0 <= k < value@.len() && !xml_char(value@[k])
                && (forall|j: int| 0 <= j < k ==> xml_char(#[trigger] value@[j]))
                && r == Err::<Self, DomainError>(DomainError::InvalidXmlCharacter {
                    character: value@[k],
                    byte_offset: byte_offset_of(value@, k) as usize,
                }),
    {
        let total = value.as_bytes().len();
        let mut it = value.chars();
        let ghost whole = value@;
        let mut offset: usize = 0;
        let ghost mut k: int = 0;
        broadcast use vstd::string::group_string_axioms;
        assert(it.remaining() == whole);
        loop
            invariant
                whole == value@,
                0 <= k <= whole.len(),
                it.remaining() == whole.skip(k),
                forall|j: int| 0 <= j < k ==> xml_char(#[trigger] whole[j]),
                offset == byte_offset_of(whole, k),
                total == value.spec_bytes().len(),
                value.spec_bytes() == vstd::utf8::encode_utf8(whole),
            decreases whole.len() - k,
        {
            let next = it.next();
            match next {
                None => {
                    assert(whole.skip(k).len() == 0);
                    return Ok(XmlText { text: value.to_owned() });
                }
                Some(c) => {
                    assert(c == whole[k]);
                    if !is_xml_10_char(c) {
                        return Err(DomainError::InvalidXmlCharacter { character: c, byte_offset: offset });
                    }
                    let w = char_utf8_width(c);
                    proof {
                        assert(whole.take(k + 1) =~= whole.take(k) + seq![c]);
                        lemma_encode_concat(whole.take(k), seq![c]);
                        assert(whole =~= whole.take(k + 1) + whole.skip(k + 1));
                        lemma_encode_concat(whole.take(k + 1), whole.skip(k + 1));
                    }
                    offset = offset + w;
                    proof {
                        k = k + 1;
                        assert(whole.skip(k) =~= whole.skip(k - 1).drop_first());
                    }
                }
            }
        }
    }

    /// Borrows the text; every character of it is an XML 1.0 character.
    pub fn as_str(&self) -> (s: &str)
        ensures
            s@ == self@,
            forall|i: int| 0 <= i < s@.len() ==> xml_char(#[trigger] s@[i]),
    {
        proof {
            use_type_invariant(self);
        }
        self.text.as_str()
    }

    /// Returns the text.
    pub fn into_inner(self) -> (s: String)
        ensures
            s@ == self@,
    {
        self.text
    }
}

impl Clone for XmlText {
    fn clone(&self) -> (r: Self)
        ensures
            r@ == self@,
    {
        proof {
            use_type_invariant(self);
        }
        XmlText { text: self.text.clone() }
    }
}

impl Default for XmlText {
    fn default() -> (r: Self)
        ensures
            r@.len() == 0,
    {
        XmlText { text: String::new() }
    }
}

/// Node kind.
#[derive(Debug, Clone, Copy, PartialEq, Eq, Hash)]
pub enum NodeKind {
    /// A leaf holding XML text.
    Fragment,
    /// An ordered composition of other nodes.
    Prompt,
}

/// Ordered child list with at least one entry; duplicates are kept.
#[derive(Debug, PartialEq, Eq)]
pub struct NonEmptyChildren {
    ids: Vec<NodeId>,
}

impl View for NonEmptyChildren {
    type V = Seq<NodeId>;

    closed spec fn view(&self) -> Seq<NodeId> {
        self.ids@
    }
}

impl NonEmptyChildren {
    #[verifier::type_invariant]
    spec fn non_empty(self) -> bool {
        self.ids@.len() > 0
    }


    /// Builds a non-empty child list, preserving order and duplicates.
    pub fn new(children: Vec<NodeId>) -> (r: Result<Self, DomainError>)
        ensures
            children@.len() > 0 ==> (r matches Ok(c) && c@ == children@),
            children@.len() == 0 ==> r == Err::<Self, DomainError>(DomainError::EmptyChildren),
    {
        if children.len() == 0 {
            Err(DomainError::EmptyChildren)
        } else {
            Ok(NonEmptyChildren { ids: children })
        }
    }

    /// Borrows the children.
    pub fn as_slice(&self) -> (s: &[NodeId])
        ensures
            s@ == self@,
            s@.len() > 0,
    {
        proof {
            use_type_invariant(self);
        }
        self.ids.as_slice()
    }

    /// Returns the children.
    pub fn into_vec(self) -> (v: Vec<NodeId>)
        ensures
            v@ == self@,
    {
        self.ids
    }
}

impl Clone for NonEmptyChildren {
    fn clone(&self) -> (r: Self)
        ensures
            r@ == self@,
    {
        proof {
            use_type_invariant(self);
        }
        NonEmptyChildren { ids: self.ids.clone() }
    }
}

/// Node payload.
#[derive(Debug, Clone, PartialEq, Eq)]
pub enum NodeBody {
    /// Fragment text.
    Fragment(XmlText),
    /// Prompt children.
    Prompt(NonEmptyChildren),
}

impl NodeBody {
    /// The kind of a payload.
    pub open spec fn spec_kind(&self) -> NodeKind {
        match self {
            NodeBody::Fragment(_) => NodeKind::Fragment,
            NodeBody::Prompt(_) => NodeKind::Prompt,
        }
    }

    /// The children of a payload; a fragment has none.
    pub open spec fn children(&self) -> Seq<NodeId> {
        match self {
            NodeBody::Fragment(_) => Seq::empty(),
            NodeBody::Prompt(c) => c@,
        }
    }

    /// Returns the payload kind.
    #[verifier::when_used_as_spec(spec_kind)]
    pub fn kind(&self) -> (k: NodeKind)
        ensures
            k == self.spec_kind(),
    {
        match self {
            NodeBody::Fragment(_) => NodeKind::Fragment,
            NodeBody::Prompt(_) => NodeKind::Prompt,
        }
    }
}

/// Node identity, operational version, and metadata.
#[derive(Debug, Clone, PartialEq, Eq)]
pub struct NodeHeader {
    /// Stable identity.
    pub id: NodeId,
    /// Unique symbol.
    pub symbol: Symbol,
    /// Declared kind.
    pub kind: NodeKind,
    /// Revision.
    pub revision: Revision,
    /// User metadata.
    pub metadata: Metadata,
    /// Creation time in Unix milliseconds.
    pub created_at_ms: i64,
    /// Last update time in Unix milliseconds.
    pub updated_at_ms: i64,
}

/// Complete domain node.
#[derive(Debug, Clone, PartialEq, Eq)]
pub struct Node {
    /// Header.
    pub header: NodeHeader,
    /// Payload.
    pub body: NodeBody,
}

impl Node {
    /// A node is consistent when its declared kind matches its payload.
    pub open spec fn consistent(&self) -> bool {
        self.header.kind == self.body.spec_kind()
    }

    /// Rebuilds a node from its parts, checking that the declared kind matches the payload.
    pub fn from_parts(header: NodeHeader, body: NodeBody) -> (r: Result<Self, DomainError>)
        ensures
            header.kind == body.spec_kind() ==> r == Ok::<Node, DomainError>(
                Node { header, body },
            ),
            header.kind != body.spec_kind() ==> r == Err::<Node, DomainError>(
                DomainError::KindMismatch { declared: header.kind, actual: body.spec_kind() },
            ),
    {
        let actual = body.kind();
        if !kind_eq(header.kind, actual) {
            return Err(DomainError::KindMismatch { declared: header.kind, actual });
        }
        Ok(Node { header, body })
    }
}

/// Whether two kinds are equal.
pub fn kind_eq(a: NodeKind, b: NodeKind) -> (r: bool)
    ensures
        r == (a == b),
{
    match (a, b) {
        (NodeKind::Fragment, NodeKind::Fragment) => true,
        (NodeKind::Prompt, NodeKind::Prompt) => true,
        _ => false,
    }
}

} // verus!
