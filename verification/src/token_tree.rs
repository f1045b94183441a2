//! The concrete syntax tree and its builder.
//!
//! A tree is made of nodes, which have a kind and children, and of tokens,
//! which have a kind and text. A node knows its length and where it begins
//! within its parent; where it begins in the text is worked out while the
//! tree is walked.

use vstd::prelude::*;
use vstd::std_specs::convert::FromSpecImpl;
use vstd::string::{StringExecFns, StringSliceAdditionalSpecFns};
use vstd::utf8::{
    decode_utf8, encode_utf8, encode_utf8_decode_utf8, encode_utf8_valid_utf8, is_char_boundary,
    is_char_boundary_start_end_of_seq, valid_utf8,
};

use smol_str::SmolStr;

use crate::kind::Kind;
use crate::text::{
    lemma_boundary_at_ascii, smol_as_str, smol_chars, smol_new, substring, trim_end_hyphens,
    without_trailing_hyphens, HYPHEN,
};
use crate::types::glyph_map::IdentView;
use crate::types::GlyphMap;

verus! {

/// A node of the tree.
#[derive(Debug)]
pub struct Node {
    pub kind: Kind,
    /// Where the node begins, counted in bytes from the beginning of its
    /// parent.
    pub rel_pos: u32,
    /// The number of bytes of text that the node covers.
    pub text_len: u32,
    /// Whether an error was reported while this node was the innermost open
    /// node. An error in a child does not set it.
    pub error: bool,
    pub children: Vec<NodeOrToken>,
}

/// A token of the tree: a leaf with its text.
#[derive(Debug)]
pub struct Token {
    pub kind: Kind,
    pub text: SmolStr,
}

/// A child of a node.
#[derive(Debug)]
pub enum NodeOrToken {
    Node(Node),
    Token(Token),
}

/// Builds a tree from the bottom up: tokens are added as they come, and a
/// node that is finished takes the items added since it was begun as its
/// children.
#[derive(Debug)]
pub struct TreeBuilder {
    /// The kind of each open node, and how many items there were when it
    /// was begun.
    parents: Vec<(Kind, usize)>,
    children: Vec<NodeOrToken>,
}

/// The bytes of the text of an item: of a token its text, of a node the
/// text of its children in order.
pub open spec fn item_text(item: NodeOrToken) -> Seq<u8>
    decreases item,
{
    match item {
        NodeOrToken::Token(token) => encode_utf8(smol_chars(token.text)),
        NodeOrToken::Node(node) => items_text(node.children@),
    }
}

/// The bytes of the text of the items, in order.
pub open spec fn items_text(items: Seq<NodeOrToken>) -> Seq<u8>
    decreases items,
{
    if items.len() == 0 {
        Seq::empty()
    } else {
        items_text(items.drop_last()) + item_text(items.last())
    }
}

/// The number of bytes that an item says it covers.
pub open spec fn item_len(item: NodeOrToken) -> nat {
    match item {
        NodeOrToken::Node(node) => node.text_len as nat,
        NodeOrToken::Token(token) => encode_utf8(smol_chars(token.text)).len(),
    }
}

/// The number of bytes that the items say they cover together.
pub open spec fn items_len(items: Seq<NodeOrToken>) -> nat
    decreases items.len(),
{
    if items.len() == 0 {
        0
    } else {
        items_len(items.drop_last()) + item_len(items.last())
    }
}

/// Whether every node in the item covers as many bytes as its text has.
pub open spec fn item_wf(item: NodeOrToken) -> bool
    decreases item,
{
    match item {
        NodeOrToken::Token(_) => true,
        NodeOrToken::Node(node) => node.text_len == items_len(node.children@) && items_wf(
            node.children@,
        ),
    }
}

/// Whether every node in the items covers as many bytes as its text has.
pub open spec fn items_wf(items: Seq<NodeOrToken>) -> bool
    decreases items,
{
    if items.len() == 0 {
        true
    } else {
        items_wf(items.drop_last()) && item_wf(items.last())
    }
}

/// The item moved `by` bytes to the right within its parent. A token holds
/// no position and stays as it is.
pub open spec fn moved(item: NodeOrToken, by: nat) -> NodeOrToken {
    match item {
        NodeOrToken::Node(node) => NodeOrToken::Node(
            Node {
                kind: node.kind,
                rel_pos: (node.rel_pos + by) as u32,
                text_len: node.text_len,
                error: node.error,
                children: node.children,
            },
        ),
        NodeOrToken::Token(token) => NodeOrToken::Token(token),
    }
}

/// Whether each item can be moved to the place that the items before it
/// leave to it: no position and no length goes beyond 32 bits.
pub open spec fn can_place(items: Seq<NodeOrToken>) -> bool {
    &&& items_len(items) <= u32::MAX
    &&& forall|i: int|
        0 <= i < items.len() ==> ((#[trigger] items[i]) matches NodeOrToken::Node(node)
            ==> node.rel_pos + items_len(items.take(i)) <= u32::MAX)
}

/// The text of items is the text of the first of them followed by the text
/// of the rest, and so is the number of bytes that they say they cover.
pub proof fn lemma_items_concat(a: Seq<NodeOrToken>, b: Seq<NodeOrToken>)
    ensures
        items_text(a + b) == items_text(a) + items_text(b),
        items_len(a + b) == items_len(a) + items_len(b),
        items_wf(a + b) == (items_wf(a) && items_wf(b)),
    decreases b.len(),
{
    if b.len() == 0 {
        assert(a + b =~= a);
        assert(items_text(a) + items_text(b) =~= items_text(a));
    } else {
        lemma_items_concat(a, b.drop_last());
        assert((a + b).drop_last() =~= a + b.drop_last());
        assert((a + b).last() == b.last());
        assert(items_text(a + b) =~= items_text(a) + items_text(b));
    }
}

/// Items in which every node covers as many bytes as its text has cover as
/// many bytes as their text has.
pub proof fn lemma_wf_len(items: Seq<NodeOrToken>)
    requires
        items_wf(items),
    ensures
        items_len(items) == items_text(items).len(),
    decreases items,
{
    reveal_with_fuel(items_wf, 2);
    reveal_with_fuel(item_wf, 2);
    reveal_with_fuel(items_text, 2);
    reveal_with_fuel(item_text, 2);
    if items.len() > 0 {
        assert(items_wf(items.drop_last()));
        assert(item_wf(items.last()));
        lemma_wf_len(items.drop_last());
        match items.last() {
            NodeOrToken::Node(node) => {
                assert(items_wf(node.children@));
                lemma_wf_len(node.children@);
                assert(item_len(items.last()) == item_text(items.last()).len());
            },
            NodeOrToken::Token(_) => {
                assert(item_len(items.last()) == item_text(items.last()).len());
            },
        }
    }
}

/// Moving items within their parent changes neither their text nor their
/// lengths.
pub proof fn lemma_moved(item: NodeOrToken, by: nat)
    ensures
        item_text(moved(item, by)) == item_text(item),
        item_len(moved(item, by)) == item_len(item),
        item_wf(moved(item, by)) == item_wf(item),
{
}

impl Token {
    /// The token of the given kind and text.
    pub fn new(kind: Kind, text: SmolStr) -> (r: Token)
        ensures
            r.kind == kind,
            r.text == text,
    {
        Token { kind, text }
    }

    /// The text of the token.
    pub fn as_str(&self) -> (r: &str)
        ensures
            r@ == smol_chars(self.text),
    {
        smol_as_str(&self.text)
    }
}

impl NodeOrToken {
    /// Whether this is a token.
    pub fn is_token(&self) -> (r: bool)
        ensures
            r == self is Token,
    {
        match self {
            NodeOrToken::Token(_) => true,
            NodeOrToken::Node(_) => false,
        }
    }

    /// The text of a token; a node has none of its own.
    pub fn token_text(&self) -> (r: Option<&str>)
        ensures
            match self {
                NodeOrToken::Token(token) => r matches Some(text) && text@ == smol_chars(token.text),
                NodeOrToken::Node(_) => r is None,
            },
    {
        match self {
            NodeOrToken::Token(token) => Some(token.as_str()),
            NodeOrToken::Node(_) => None,
        }
    }

    /// The kind of the node or token.
    pub open spec fn spec_kind(&self) -> Kind {
        match self {
            NodeOrToken::Node(n) => n.kind,
            NodeOrToken::Token(t) => t.kind,
        }
    }

    /// The kind of the node or token.
    #[verifier::when_used_as_spec(spec_kind)]
    pub fn kind(&self) -> (r: Kind)
        ensures
            r == self.spec_kind(),
    {
        match self {
            NodeOrToken::Node(n) => n.kind,
            NodeOrToken::Token(t) => t.kind,
        }
    }

    /// Whether the kind of the node or token is among `kinds`.
    pub fn matches(&self, kinds: &[Kind]) -> (r: bool)
        ensures
            r == kinds@.contains(self.spec_kind()),
    {
        let kind = self.kind();
        let mut i: usize = 0;
        while i < kinds.len()
            invariant
                i <= kinds@.len(),
                kind == self.spec_kind(),
                forall|j: int| 0 <= j < i ==> kinds@[j] != kind,
            decreases kinds@.len() - i,
        {
            if kinds[i] == kind {
                assert(kinds@[i as int] == kind);
                return true;
            }
            i += 1;
        }
        false
    }

    /// The number of bytes of text that the node or token covers.
    pub fn text_len(&self) -> (r: usize)
        ensures
            r == item_len(*self),
    {
        match self {
            NodeOrToken::Node(n) => n.text_len as usize,
            NodeOrToken::Token(t) => t.as_str().as_bytes().len(),
        }
    }

    /// The node, if this is one.
    pub fn into_node(self) -> (r: Option<Node>)
        ensures
            r == match self {
                NodeOrToken::Node(node) => Some(node),
                NodeOrToken::Token(_) => None,
            },
    {
        match self {
            NodeOrToken::Node(node) => Some(node),
            NodeOrToken::Token(_) => None,
        }
    }

    /// The node, if this is one.
    pub fn as_node(&self) -> (r: Option<&Node>)
        ensures
            match self {
                NodeOrToken::Node(node) => r matches Some(found) && *found == *node,
                NodeOrToken::Token(_) => r is None,
            },
    {
        match self {
            NodeOrToken::Node(node) => Some(node),
            NodeOrToken::Token(_) => None,
        }
    }

    /// The token, if this is one.
    pub fn as_token(&self) -> (r: Option<&Token>)
        ensures
            match self {
                NodeOrToken::Node(_) => r is None,
                NodeOrToken::Token(token) => r matches Some(found) && *found == *token,
            },
    {
        match self {
            NodeOrToken::Node(_) => None,
            NodeOrToken::Token(token) => Some(token),
        }
    }
}

impl From<Node> for NodeOrToken {
    fn from(src: Node) -> (r: NodeOrToken) {
        NodeOrToken::Node(src)
    }
}

impl FromSpecImpl<Node> for NodeOrToken {
    open spec fn obeys_from_spec() -> bool {
        true
    }

    open spec fn from_spec(src: Node) -> NodeOrToken {
        NodeOrToken::Node(src)
    }
}

impl From<Token> for NodeOrToken {
    fn from(src: Token) -> (r: NodeOrToken) {
        NodeOrToken::Token(src)
    }
}

impl FromSpecImpl<Token> for NodeOrToken {
    open spec fn obeys_from_spec() -> bool {
        true
    }

    open spec fn from_spec(src: Token) -> NodeOrToken {
        NodeOrToken::Token(src)
    }
}

impl Node {
    /// The node of the given kind with the given children. Each child node
    /// is moved to the place that the children before it leave to it, and
    /// the node covers what its children cover together.
    pub fn new(kind: Kind, children: Vec<NodeOrToken>, error: bool) -> (r: Node)
        requires
            can_place(children@),
        ensures
            r.kind == kind,
            r.error == error,
            r.rel_pos == 0,
            r.text_len == items_len(children@),
            r.children@.len() == children@.len(),
            forall|i: int|
                0 <= i < children@.len() ==> #[trigger] r.children@[i] == moved(
                    children@[i],
                    items_len(children@.take(i)),
                ),
    {
        let mut children = children;
        let ghost given = children@;
        let mut text_len: u32 = 0;
        let mut i: usize = 0;
        while i < children.len()
            invariant
                i <= children@.len(),
                children@.len() == given.len(),
                can_place(given),
                text_len == items_len(given.take(i as int)),
                forall|k: int|
                    0 <= k < i ==> #[trigger] children@[k] == moved(
                        given[k],
                        items_len(given.take(k)),
                    ),
                forall|k: int| i <= k < children@.len() ==> children@[k] == given[k],
            decreases children@.len() - i,
        {
            proof {
                let next = given.take(i + 1);
                assert(next.drop_last() =~= given.take(i as int));
                assert(next.last() == given[i as int]);
                lemma_items_concat(given.take(i + 1), given.skip(i + 1));
                assert(given.take(i + 1) + given.skip(i + 1) =~= given);
            }
            let child = &mut children[i];
            let len = child.text_len();
            match child {
                NodeOrToken::Node(n) => {
                    n.rel_pos = n.rel_pos + text_len;
                },
                NodeOrToken::Token(_) => {},
            }
            text_len = text_len + len as u32;
            i += 1;
        }
        assert(given.take(i as int) =~= given);
        Node { kind, rel_pos: 0, text_len, error, children }
    }

    /// The kind of the node.
    pub fn kind(&self) -> (r: Kind)
        ensures
            r == self.kind,
    {
        self.kind
    }

    /// The number of bytes of text that the node covers.
    pub fn text_len(&self) -> (r: usize)
        ensures
            r == self.text_len,
    {
        self.text_len as usize
    }

    /// The children of the node, in order.
    pub fn children(&self) -> (r: &[NodeOrToken])
        ensures
            r@ == self.children@,
    {
        self.children.as_slice()
    }
}

/// Moving each item within its parent changes neither the text of the items
/// nor what they say they cover.
pub proof fn lemma_placed_items(placed: Seq<NodeOrToken>, given: Seq<NodeOrToken>)
    requires
        placed.len() == given.len(),
        forall|i: int|
            0 <= i < given.len() ==> #[trigger] placed[i] == moved(
                given[i],
                items_len(given.take(i)),
            ),
    ensures
        items_text(placed) == items_text(given),
        items_len(placed) == items_len(given),
        items_wf(placed) == items_wf(given),
    decreases given.len(),
{
    if given.len() > 0 {
        let n = given.len() - 1;
        assert forall|i: int| 0 <= i < n implies #[trigger] placed.drop_last()[i] == moved(
            given.drop_last()[i],
            items_len(given.drop_last().take(i)),
        ) by {
            assert(placed.drop_last()[i] == placed[i]);
            assert(given.drop_last().take(i) =~= given.take(i));
        }
        lemma_placed_items(placed.drop_last(), given.drop_last());
        assert(placed.last() == placed[n]);
        lemma_moved(given[n], items_len(given.take(n)));
    }
}

impl TreeBuilder {
    /// The kind of each open node and the number of items there were when it
    /// was begun, the outermost node first.
    pub closed spec fn parents(&self) -> Seq<(Kind, usize)> {
        self.parents@
    }

    /// The items that have no parent yet, in order.
    pub closed spec fn items(&self) -> Seq<NodeOrToken> {
        self.children@
    }

    /// Whether each open node was begun when there were no more items than
    /// there are now, and no later node was begun with fewer.
    pub open spec fn wf(&self) -> bool {
        &&& forall|i: int|
            0 <= i < self.parents().len() ==> (#[trigger] self.parents()[i]).1
                <= self.items().len()
        &&& forall|i: int, j: int|
            0 <= i < j < self.parents().len() ==> (#[trigger] self.parents()[i]).1 <= (
            #[trigger] self.parents()[j]).1
    }

    /// A builder without items and without open nodes.
    pub fn new() -> (r: TreeBuilder)
        ensures
            r.parents().len() == 0,
            r.items().len() == 0,
            r.wf(),
    {
        TreeBuilder { parents: Vec::new(), children: Vec::new() }
    }

    /// Begins a node of the given kind. The items added from now on become
    /// its children when it is finished.
    pub fn start_node(&mut self, kind: Kind)
        ensures
            final(self).parents() == old(self).parents().push((kind, old(self).items().len() as usize)),
            final(self).items() == old(self).items(),
            old(self).wf() ==> final(self).wf(),
    {
        let len = self.children.len();
        self.parents.push((kind, len));
        proof {
            if old(self).wf() {
                assert forall|i: int, j: int| 0 <= i < j < self.parents().len() implies (
                #[trigger] self.parents()[i]).1 <= (#[trigger] self.parents()[j]).1 by {
                    assert(self.parents()[i] == old(self).parents()[i]);
                    if j < old(self).parents().len() {
                        assert(self.parents()[j] == old(self).parents()[j]);
                    }
                }
                assert forall|i: int| 0 <= i < self.parents().len() implies (
                #[trigger] self.parents()[i]).1 <= self.items().len() by {
                    if i < old(self).parents().len() {
                        assert(self.parents()[i] == old(self).parents()[i]);
                    }
                }
            }
        }
    }

    /// Adds a token of the given kind and text.
    pub fn token(&mut self, kind: Kind, text: &str)
        ensures
            final(self).parents() == old(self).parents(),
            final(self).items().len() == old(self).items().len() + 1,
            final(self).items().drop_last() == old(self).items(),
            final(self).items().last() matches NodeOrToken::Token(t) && t.kind == kind && smol_chars(t.text)
                == text@,
            old(self).wf() ==> final(self).wf(),
    {
        let token = Token::new(kind, smol_new(text));
        self.push_raw(NodeOrToken::Token(token));
        assert(self.items().drop_last() =~= old(self).items());
    }

    /// Adds an item.
    pub fn push_raw(&mut self, item: NodeOrToken)
        ensures
            final(self).parents() == old(self).parents(),
            final(self).items() == old(self).items().push(item),
            old(self).wf() ==> final(self).wf(),
    {
        self.children.push(item);
        proof {
            if old(self).wf() {
                assert forall|i: int| 0 <= i < self.parents().len() implies (
                #[trigger] self.parents()[i]).1 <= self.items().len() by {
                    assert(old(self).parents()[i].1 <= old(self).items().len());
                }
                assert forall|i: int, j: int| 0 <= i < j < self.parents().len() implies (
                #[trigger] self.parents()[i]).1 <= (#[trigger] self.parents()[j]).1 by {
                    assert(old(self).parents()[i].1 <= old(self).parents()[j].1);
                }
            }
        }
    }

    /// Whether `node` is the node of the given kind made of the items
    /// `children`: each child at the place that the children before it leave
    /// to it, and the node as long as they are together.
    pub open spec fn is_node_of(node: Node, kind: Kind, children: Seq<NodeOrToken>, error: bool) -> bool {
        &&& node.kind == kind
        &&& node.error == error
        &&& node.rel_pos == 0
        &&& node.text_len == items_len(children)
        &&& node.children@.len() == children.len()
        &&& forall|i: int|
            0 <= i < children.len() ==> #[trigger] node.children@[i] == moved(
                children[i],
                items_len(children.take(i)),
            )
    }

    /// Finishes the innermost open node: the items added since it was begun
    /// become its children, and the node takes their place.
    #[verifier::rlimit(40)]
    pub fn finish_node(&mut self, error: bool)
        requires
            old(self).wf(),
            old(self).parents().len() > 0,
            can_place(old(self).items().skip(old(self).parents().last().1 as int)),
        ensures
            final(self).wf(),
            final(self).parents() == old(self).parents().drop_last(),
            final(self).items().len() == old(self).parents().last().1 + 1,
            final(self).items().drop_last() == old(self).items().take(
                old(self).parents().last().1 as int,
            ),
            final(self).items().last() matches NodeOrToken::Node(node) && Self::is_node_of(
                node,
                old(self).parents().last().0,
                old(self).items().skip(old(self).parents().last().1 as int),
                error,
            ),
            items_text(final(self).items()) == items_text(old(self).items()),
            items_len(final(self).items()) == items_len(old(self).items()),
            items_wf(old(self).items()) ==> items_wf(final(self).items()),
    {
        let ghost before = self.children@;
        let ghost opened = self.parents@;
        let (kind, first_child) = self.parents.pop().unwrap();
        assert(opened[opened.len() - 1] == (kind, first_child));
        assert(first_child <= before.len());
        let children = self.children.split_off(first_child);
        assert(children@ =~= before.skip(first_child as int));
        assert(self.children@ =~= before.take(first_child as int));
        let node = Node::new(kind, children, error);
        self.push_raw(NodeOrToken::Node(node));
        proof {
            let head = before.take(first_child as int);
            let tail = before.skip(first_child as int);
            assert(self.items().drop_last() =~= head);
            assert(head + tail =~= before);
            lemma_items_concat(head, tail);
            lemma_placed_items(node.children@, tail);
            lemma_items_concat(head, seq![NodeOrToken::Node(node)]);
            assert(head + seq![NodeOrToken::Node(node)] =~= self.items());
            reveal_with_fuel(items_text, 2);
            reveal_with_fuel(items_len, 2);
            reveal_with_fuel(items_wf, 2);
            assert(seq![NodeOrToken::Node(node)].drop_last() =~= Seq::<NodeOrToken>::empty());
            assert(items_text(seq![NodeOrToken::Node(node)]) =~= items_text(node.children@));
            assert(items_len(seq![NodeOrToken::Node(node)]) == node.text_len);
            assert forall|i: int| 0 <= i < self.parents().len() implies (
            #[trigger] self.parents()[i]).1 <= self.items().len() by {
                assert(opened[i].1 <= opened[opened.len() - 1].1);
            }
        }
    }

    /// The tree. There must be one item left, and it must be a node.
    pub fn finish(self) -> (r: Node)
        requires
            self.items().len() == 1,
            self.items()[0] is Node,
        ensures
            NodeOrToken::Node(r) == self.items()[0],
    {
        let mut children = self.children;
        match children.pop().unwrap() {
            NodeOrToken::Node(node) => node,
            NodeOrToken::Token(_) => vstd::pervasive::unreached(),
        }
    }
}

/// A complaint about the text between two positions.
#[derive(Debug)]
pub struct SyntaxError {
    pub message: String,
    pub start: usize,
    pub end: usize,
}

/// Whether the glyph map holds a glyph whose name these bytes spell.
pub open spec fn knows(map: Seq<IdentView>, name: Seq<u8>) -> bool {
    map.contains(IdentView::Name(decode_utf8(name)))
}

/// Whether the name can be read as a range of glyphs split at `at`: there is
/// a hyphen at `at`, what stands before it names a glyph, and what stands
/// after it names a glyph.
pub open spec fn is_range_split(name: Seq<u8>, map: Seq<IdentView>, at: int) -> bool {
    &&& 0 <= at < name.len()
    &&& name[at] == HYPHEN
    &&& knows(map, name.subrange(0, at))
    &&& knows(map, name.subrange(at + 1, name.len() as int))
}

/// The first place at or after `from` at which the name can be split into
/// a range, if there is one.
pub open spec fn next_split(name: Seq<u8>, map: Seq<IdentView>, from: int) -> Option<int>
    decreases name.len() - from,
{
    if from < 0 || from >= name.len() {
        None
    } else if is_range_split(name, map, from) {
        Some(from)
    } else {
        next_split(name, map, from + 1)
    }
}

/// In how many ways a name can be read as a range of glyphs.
pub enum Split {
    /// In none.
    Unsplit,
    /// In one way, split at this place.
    One(int),
    /// In more than one way; these are the first two places.
    Many(int, int),
}

/// In how many ways the name can be read as a range of glyphs.
pub open spec fn range_split(name: Seq<u8>, map: Seq<IdentView>) -> Split {
    match next_split(name, map, 0) {
        None => Split::Unsplit,
        Some(first) => match next_split(name, map, first + 1) {
            None => Split::One(first),
            Some(second) => Split::Many(first, second),
        },
    }
}

/// What is said of a name that is neither a glyph nor a range.
pub open spec fn message_unknown(name: Seq<char>) -> Seq<char> {
    "'"@ + name + "' is neither a known glyph or a range of known glyphs"@
}

/// One way to read a name as a range, as it is shown in a message: what
/// stands before the hyphen, and what stands from the hyphen on, without the
/// hyphens at its end.
pub open spec fn shown_range(name: Seq<u8>, at: int) -> Seq<char> {
    decode_utf8(name.subrange(0, at)) + " to "@ + decode_utf8(
        without_trailing_hyphens(name.subrange(at, name.len() as int)),
    )
}

/// What is said of a name that can be read as a range in two ways.
pub open spec fn message_ambiguous(name: Seq<u8>, first: int, second: int) -> Seq<char> {
    "the name '"@ + decode_utf8(name) + "' contains multiple possible glyph ranges ("@
        + shown_range(name, first) + " and "@ + shown_range(name, second)
        + "). Please insert spaces around the '-' to clarify your intent."@
}

/// Whether `node` is the range of glyphs that the name gives when it is
/// split at `at`: a node of three tokens, which are the name of the first
/// glyph, the hyphen at `at`, and the name of the last glyph. Together they
/// hold every byte of the name.
pub open spec fn is_range_node(node: Node, name: Seq<u8>, at: int) -> bool {
    &&& node.kind == Kind::GlyphRange
    &&& !node.error
    &&& node.rel_pos == 0
    &&& node.children@.len() == 3
    &&& node.children@[0] matches NodeOrToken::Token(head) && head.kind == Kind::GlyphName
        && smol_chars(head.text) == decode_utf8(name.subrange(0, at)) && encode_utf8(
        smol_chars(head.text),
    ) == name.subrange(0, at)
    &&& node.children@[1] matches NodeOrToken::Token(hyphen) && hyphen.kind == Kind::Hyphen
        && smol_chars(hyphen.text) == "-"@ && encode_utf8(smol_chars(hyphen.text)) == seq![HYPHEN]
    &&& node.children@[2] matches NodeOrToken::Token(tail) && tail.kind == Kind::GlyphName
        && smol_chars(tail.text) == decode_utf8(name.subrange(at + 1, name.len() as int))
        && encode_utf8(smol_chars(tail.text)) == name.subrange(at + 1, name.len() as int)
    &&& node.text_len == name.len()
}

/// A list of one item has the text, the length and the well-formedness of
/// the item.
pub proof fn lemma_single_item(item: NodeOrToken)
    ensures
        items_text(seq![item]) == item_text(item),
        items_len(seq![item]) == item_len(item),
        items_wf(seq![item]) == item_wf(item),
{
    let one = seq![item];
    assert(one.drop_last() =~= Seq::<NodeOrToken>::empty());
    assert(one.last() == item);
    assert(items_text(one.drop_last()) =~= Seq::<u8>::empty());
    assert(items_text(one) =~= item_text(item));
    assert(items_len(one.drop_last()) == 0);
    assert(items_wf(one.drop_last()));
}

/// The node of a range of glyphs holds the text of the name byte for byte,
/// and covers as many bytes as the name has.
pub proof fn lemma_range_node(node: Node, name: Seq<u8>, at: int)
    requires
        is_range_node(node, name, at),
        0 <= at < name.len(),
        name[at] == HYPHEN,
    ensures
        item_text(NodeOrToken::Node(node)) == name,
        item_len(NodeOrToken::Node(node)) == name.len(),
        item_wf(NodeOrToken::Node(node)),
{
    let items = node.children@;
    let a = seq![items[0]];
    let b = seq![items[1]];
    let c = seq![items[2]];
    assert(items =~= a + b + c);
    lemma_single_item(items[0]);
    lemma_single_item(items[1]);
    lemma_single_item(items[2]);
    lemma_items_concat(a, b);
    lemma_items_concat(a + b, c);
    assert(item_wf(items[0]) && item_wf(items[1]) && item_wf(items[2]));
    assert(name.subrange(0, at) + seq![HYPHEN] + name.subrange(at + 1, name.len() as int)
        =~= name);
    assert(items_text(items) =~= name);
}

/// `next_split` names the first place at which the name can be split.
pub proof fn lemma_next_split(name: Seq<u8>, map: Seq<IdentView>, from: int)
    requires
        0 <= from,
    ensures
        match next_split(name, map, from) {
            Some(at) => from <= at < name.len() && is_range_split(name, map, at) && forall|i: int|
                from <= i < at ==> !is_range_split(name, map, i),
            None => forall|i: int| from <= i < name.len() ==> !is_range_split(name, map, i),
        },
    decreases name.len() - from,
{
    if from < name.len() && !is_range_split(name, map, from) {
        lemma_next_split(name, map, from + 1);
    }
}

/// The characters of a piece of text are what its bytes decode to.
pub proof fn lemma_chars_of(text: &str)
    ensures
        text@ == decode_utf8(text.spec_bytes()),
        valid_utf8(text.spec_bytes()),
{
    encode_utf8_decode_utf8(text@);
    encode_utf8_valid_utf8(text@);
}

/// One way to read `text` as a range, as it is shown in a message.
fn show_range(message: &mut String, text: &str, at: usize)
    requires
        at < text.spec_bytes().len(),
        text.spec_bytes()[at as int] == HYPHEN,
    ensures
        final(message)@ == old(message)@ + shown_range(text.spec_bytes(), at as int),
{
    let size = text.as_bytes().len();
    proof {
        lemma_chars_of(text);
        lemma_boundary_at_ascii(text.spec_bytes(), at as int);
        is_char_boundary_start_end_of_seq(text.spec_bytes());
    }
    let head = substring(text, 0, at);
    let tail = trim_end_hyphens(substring(text, at, size));
    proof {
        lemma_chars_of(head);
        lemma_chars_of(tail);
    }
    message.append(head);
    message.append(" to ");
    message.append(tail);
    assert(message@ =~= old(message)@ + shown_range(text.spec_bytes(), at as int));
}

/// Reads a name with hyphens as a range of glyphs, if it can be read so in
/// exactly one way. Otherwise the result is what to tell the user.
#[verifier::rlimit(40)]
pub fn try_split_range(text: &str, glyph_map: &GlyphMap) -> (r: Result<Node, String>)
    requires
        text.spec_bytes().len() <= u32::MAX,
    ensures
        match range_split(text.spec_bytes(), glyph_map@) {
            Split::Unsplit => r matches Err(message) && message@ == message_unknown(text@),
            Split::One(at) => r matches Ok(node) && is_range_node(node, text.spec_bytes(), at),
            Split::Many(first, second) => r matches Err(message) && message@ == message_ambiguous(
                text.spec_bytes(),
                first,
                second,
            ),
        },
{
    let bytes = text.as_bytes();
    let size = bytes.len();
    let ghost name = text.spec_bytes();
    let ghost map = glyph_map@;
    proof {
        lemma_chars_of(text);
        is_char_boundary_start_end_of_seq(name);
    }
    let mut solution: Option<usize> = None;
    let mut idx: usize = 0;
    // every hyphen is tried
    while idx < size
        invariant
            idx <= size,
            size == name.len(),
            bytes@ == name,
            name == text.spec_bytes(),
            map == glyph_map@,
            valid_utf8(name),
            is_char_boundary(name, size as int),
            text@ == decode_utf8(name),
            match solution {
                None => next_split(name, map, 0) == next_split(name, map, idx as int),
                Some(found) => found < idx && next_split(name, map, 0) == Some(found as int)
                    && next_split(name, map, found + 1) == next_split(name, map, idx as int),
            },
        decreases size - idx,
    {
        if bytes[idx] == HYPHEN {
            proof {
                lemma_boundary_at_ascii(name, idx as int);
            }
            let head = substring(text, 0, idx);
            let last = substring(text, idx + 1, size);
            proof {
                lemma_chars_of(head);
                lemma_chars_of(last);
            }
            if glyph_map.contains(head) && glyph_map.contains(last) {
                assert(is_range_split(name, map, idx as int));
                match solution {
                    Some(found) => {
                        proof {
                            lemma_next_split(name, map, 0);
                        }
                        let mut message = "the name '".to_owned();
                        message.append(text);
                        message.append("' contains multiple possible glyph ranges (");
                        show_range(&mut message, text, found);
                        message.append(" and ");
                        show_range(&mut message, text, idx);
                        message.append(
                            "). Please insert spaces around the '-' to clarify your intent.",
                        );
                        assert(message@ =~= message_ambiguous(name, found as int, idx as int));
                        return Err(message);
                    },
                    None => {
                        solution = Some(idx);
                    },
                }
            } else {
                assert(!is_range_split(name, map, idx as int));
            }
        } else {
            assert(!is_range_split(name, map, idx as int));
        }
        idx += 1;
    }
    match solution {
        Some(found) => {
            proof {
                lemma_next_split(name, map, 0);
                lemma_boundary_at_ascii(name, found as int);
            }
            let head = substring(text, 0, found);
            let last = substring(text, found + 1, size);
            proof {
                lemma_chars_of(head);
                lemma_chars_of(last);
                lemma_chars_of("-");
                reveal_strlit("-");
            }
            let mut builder = TreeBuilder::new();
            builder.start_node(Kind::GlyphRange);
            builder.token(Kind::GlyphName, head);
            let ghost one = builder.items();
            builder.token(Kind::Hyphen, "-");
            let ghost two = builder.items();
            builder.token(Kind::GlyphName, last);
            let ghost items = builder.items();
            proof {
                assert(one =~= seq![one[0]]);
                assert(two.drop_last() == one);
                assert(items.drop_last() == two);
                assert(two[0] == one[0]);
                assert(items[0] == two[0] && items[1] == two[1]);
                assert(one.drop_last() =~= Seq::<NodeOrToken>::empty());
                assert(items_len(one) == item_len(one[0])) by {
                    reveal_with_fuel(items_len, 2);
                }
                assert(items_len(two) == items_len(one) + item_len(two[1]));
                assert(items_len(items) == items_len(two) + item_len(items[2]));
                vstd::utf8::is_ascii_chars_encode_utf8("-"@);
                assert(item_len(items[1]) == 1);
                assert(item_len(items[0]) == head.spec_bytes().len());
                assert(item_len(items[2]) == last.spec_bytes().len());
                assert(items_len(items) == name.len());
                assert(items.skip(0) =~= items);
                assert(builder.parents().last() == (Kind::GlyphRange, 0usize));
            }
            builder.finish_node(false);
            let node = builder.finish();
            proof {
                assert(node.children@[0] == moved(items[0], items_len(items.take(0))));
                assert(node.children@[1] == moved(items[1], items_len(items.take(1))));
                assert(node.children@[2] == moved(items[2], items_len(items.take(2))));
                lemma_placed_items(node.children@, items);
                assert(encode_utf8("-"@) =~= seq![HYPHEN]);
            }
            Ok(node)
        },
        None => {
            let mut message = "'".to_owned();
            message.append(text);
            message.append("' is neither a known glyph or a range of known glyphs");
            assert(message@ =~= message_unknown(text@));
            Err(message)
        },
    }
}

/// What checking a token against the glyph map gives.
pub enum Checked {
    /// A token of this kind.
    Plain(Kind),
    /// A range of glyphs, split at this place.
    Range(int),
    /// A token of the kind that was given, and this complaint.
    Unknown(Seq<char>),
}

/// What checking a token of the given kind and text gives. Only a token
/// that is a glyph name or a range is checked, and only where there is a
/// glyph map: it is a glyph name if the map holds it, else a range if it can
/// be read as one in exactly one way, and else a complaint is due.
pub open spec fn checked(map: Option<Seq<IdentView>>, kind: Kind, name: Seq<u8>) -> Checked {
    match map {
        Some(glyphs) => if kind != Kind::GlyphNameOrRange {
            Checked::Plain(kind)
        } else if knows(glyphs, name) {
            Checked::Plain(Kind::GlyphName)
        } else {
            match range_split(name, glyphs) {
                Split::One(at) => Checked::Range(at),
                Split::Unsplit => Checked::Unknown(message_unknown(decode_utf8(name))),
                Split::Many(first, second) => Checked::Unknown(
                    message_ambiguous(name, first, second),
                ),
            }
        },
        None => Checked::Plain(kind),
    }
}

/// Whether `item` is what checking a token of the given kind and text gives.
pub open spec fn is_checked(item: NodeOrToken, map: Option<Seq<IdentView>>, kind: Kind, name: Seq<u8>) -> bool {
    match checked(map, kind, name) {
        Checked::Plain(k) => item matches NodeOrToken::Token(t) && t.kind == k && encode_utf8(smol_chars(t.text))
            == name,
        Checked::Range(at) => item matches NodeOrToken::Node(n) && is_range_node(n, name, at),
        Checked::Unknown(_) => item matches NodeOrToken::Token(t) && t.kind == kind && encode_utf8(
            smol_chars(t.text),
        ) == name,
    }
}

/// Receives tokens and the begin and end of nodes, and builds the tree from
/// them. Tokens are given by their length: their text is taken from the
/// source, which they must cover from its beginning without gaps.
pub struct AstSink<'a> {
    text: &'a str,
    text_pos: usize,
    builder: TreeBuilder,
    glyph_map: Option<&'a GlyphMap>,
    errors: Vec<SyntaxError>,
    cur_node_contains_error: bool,
}

impl<'a> AstSink<'a> {
    /// The bytes of the source.
    pub closed spec fn source(&self) -> Seq<u8> {
        self.text.spec_bytes()
    }

    /// The position in the source up to which tokens were received.
    pub closed spec fn pos(&self) -> int {
        self.text_pos as int
    }

    /// The tree as far as it is built.
    pub closed spec fn tree(&self) -> TreeBuilder {
        self.builder
    }

    /// The glyph map that glyph names are checked against, if there is one.
    pub closed spec fn map(&self) -> Option<Seq<IdentView>> {
        match self.glyph_map {
            Some(map) => Some(map@),
            None => None,
        }
    }

    /// The complaints so far, in order.
    pub closed spec fn errors(&self) -> Seq<SyntaxError> {
        self.errors@
    }

    /// Whether a complaint was made since the innermost open node was begun
    /// or a node was finished.
    pub closed spec fn flagged(&self) -> bool {
        self.cur_node_contains_error
    }

    /// The sink is well formed: the position lies in the source where a
    /// character begins, the source is short enough for positions of 32
    /// bits, and the items without parent are well formed, lie where they
    /// were made and hold the source up to the position, byte for byte.
    pub open spec fn wf(&self) -> bool {
        &&& 0 <= self.pos() <= self.source().len() <= u32::MAX
        &&& is_char_boundary(self.source(), self.pos())
        &&& self.tree().wf()
        &&& items_wf(self.tree().items())
        &&& items_len(self.tree().items()) == self.pos()
        &&& items_text(self.tree().items()) == self.source().subrange(0, self.pos())
        &&& forall|i: int|
            0 <= i < self.tree().items().len() ==> ((#[trigger] self.tree().items()[i]) matches NodeOrToken::Node(
                n,
            ) ==> n.rel_pos == 0)
    }

    /// Whether everything but the tree is as in `before`.
    pub open spec fn same_input(&self, before: &AstSink<'a>) -> bool {
        &&& self.source() == before.source()
        &&& self.pos() == before.pos()
        &&& self.map() == before.map()
    }

    /// A sink for the given source. With a glyph map, names that may be
    /// ranges of glyphs are told apart as they arrive.
    pub fn new(text: &'a str, glyph_map: Option<&'a GlyphMap>) -> (r: Self)
        requires
            text.spec_bytes().len() <= u32::MAX,
        ensures
            r.source() == text.spec_bytes(),
            r.pos() == 0,
            r.map() == (match glyph_map {
                Some(map) => Some(map@),
                None => None,
            }),
            r.errors().len() == 0,
            !r.flagged(),
            r.tree().items().len() == 0,
            r.tree().parents().len() == 0,
            r.wf(),
    {
        proof {
            lemma_chars_of(text);
            is_char_boundary_start_end_of_seq(text.spec_bytes());
        }
        let r = AstSink {
            text,
            text_pos: 0,
            builder: TreeBuilder::new(),
            glyph_map,
            errors: Vec::new(),
            cur_node_contains_error: false,
        };
        assert(items_text(r.tree().items()) =~= r.source().subrange(0, 0));
        r
    }

    /// Checks a token before it is added, and gives the item to add. A name
    /// that may be a range of glyphs is looked up in the glyph map.
    fn validate_token(&mut self, kind: Kind, text: &str) -> (r: NodeOrToken)
        requires
            text.spec_bytes().len() <= u32::MAX,
            old(self).pos() + text.spec_bytes().len() <= usize::MAX,
        ensures
            final(self).same_input(old(self)),
            final(self).tree() == old(self).tree(),
            is_checked(r, old(self).map(), kind, text.spec_bytes()),
            match checked(old(self).map(), kind, text.spec_bytes()) {
                Checked::Unknown(message) => final(self).flagged() && final(self).errors().len()
                    == old(self).errors().len() + 1 && final(self).errors().drop_last() == old(self).errors() && final(self).errors().last().message@ == message && final(self).errors().last().start == old(self).pos() && final(self).errors().last().end
                    == old(self).pos() + text.spec_bytes().len(),
                _ => final(self).flagged() == old(self).flagged() && final(self).errors() == old(self).errors(),
            },
    {
        proof {
            lemma_chars_of(text);
        }
        if kind == Kind::GlyphNameOrRange {
            if let Some(map) = self.glyph_map {
                if map.contains(text) {
                    return NodeOrToken::Token(Token::new(Kind::GlyphName, smol_new(text)));
                }
                match try_split_range(text, map) {
                    Ok(node) => {
                        return NodeOrToken::Node(node);
                    },
                    Err(message) => {
                        let start = self.text_pos;
                        let end = self.text_pos + text.as_bytes().len();
                        self.error(SyntaxError { message, start, end });
                    },
                }
            }
        }
        NodeOrToken::Token(Token::new(kind, smol_new(text)))
    }

    /// Takes the next `len` bytes of the source as a token of the given
    /// kind.
    #[verifier::rlimit(40)]
    pub fn token(&mut self, kind: Kind, len: usize)
        requires
            old(self).wf(),
            old(self).pos() + len <= old(self).source().len(),
            is_char_boundary(old(self).source(), old(self).pos() + len),
        ensures
            final(self).wf(),
            final(self).source() == old(self).source(),
            final(self).map() == old(self).map(),
            final(self).pos() == old(self).pos() + len,
            final(self).tree().parents() == old(self).tree().parents(),
            final(self).tree().items().len() == old(self).tree().items().len() + 1,
            final(self).tree().items().drop_last() == old(self).tree().items(),
            is_checked(
                final(self).tree().items().last(),
                old(self).map(),
                kind,
                old(self).source().subrange(old(self).pos(), old(self).pos() + len),
            ),
            item_text(final(self).tree().items().last()) == old(self).source().subrange(
                old(self).pos(),
                old(self).pos() + len,
            ),
            item_len(final(self).tree().items().last()) == len,
            match checked(
                old(self).map(),
                kind,
                old(self).source().subrange(old(self).pos(), old(self).pos() + len),
            ) {
                Checked::Unknown(message) => final(self).flagged() && final(self).errors().len()
                    == old(self).errors().len() + 1 && final(self).errors().drop_last() == old(self).errors() && final(self).errors().last().message@ == message && final(self).errors().last().start == old(self).pos() && final(self).errors().last().end
                    == old(self).pos() + len,
                _ => final(self).flagged() == old(self).flagged() && final(self).errors() == old(self).errors(),
            },
    {
        let token_text = substring(self.text, self.text_pos, self.text_pos + len);
        let ghost name = token_text.spec_bytes();
        let to_add = self.validate_token(kind, token_text);
        let ghost before = self.builder.items();
        self.builder.push_raw(to_add);
        self.text_pos += len;
        proof {
            let items = self.builder.items();
            assert(items.drop_last() =~= before);
            reveal_with_fuel(items_text, 2);
            reveal_with_fuel(items_len, 2);
            reveal_with_fuel(items_wf, 2);
            match checked(old(self).map(), kind, name) {
                Checked::Range(at) => {
                    lemma_next_split(name, old(self).map().unwrap(), 0);
                    lemma_range_node(to_add->Node_0, name, at);
                },
                _ => {},
            }
            assert(item_text(to_add) == name);
            assert(item_len(to_add) == len);
            assert(old(self).source().subrange(0, old(self).pos()) + name =~= self.source().subrange(
                0,
                self.pos(),
            ));
            assert forall|i: int| 0 <= i < items.len() implies ((#[trigger] items[i]) matches NodeOrToken::Node(
                n,
            ) ==> n.rel_pos == 0) by {
                if i < before.len() {
                    assert(items[i] == old(self).tree().items()[i]);
                }
            }
        }
    }

    /// Begins a node of the given kind.
    pub fn start_node(&mut self, kind: Kind)
        requires
            old(self).wf(),
        ensures
            final(self).wf(),
            final(self).same_input(old(self)),
            final(self).errors() == old(self).errors(),
            final(self).flagged() == old(self).flagged(),
            final(self).tree().items() == old(self).tree().items(),
            final(self).tree().parents() == old(self).tree().parents().push(
                (kind, old(self).tree().items().len() as usize),
            ),
    {
        self.builder.start_node(kind);
    }

    /// Finishes the innermost open node. The node is marked if a complaint
    /// was made while it was the innermost open node.
    pub fn finish_node(&mut self)
        requires
            old(self).wf(),
            old(self).tree().parents().len() > 0,
        ensures
            final(self).wf(),
            final(self).same_input(old(self)),
            final(self).errors() == old(self).errors(),
            !final(self).flagged(),
            final(self).tree().parents() == old(self).tree().parents().drop_last(),
            final(self).tree().items().len() == old(self).tree().parents().last().1 + 1,
            final(self).tree().items().drop_last() == old(self).tree().items().take(
                old(self).tree().parents().last().1 as int,
            ),
            final(self).tree().items().last() matches NodeOrToken::Node(node)
                && TreeBuilder::is_node_of(
                node,
                old(self).tree().parents().last().0,
                old(self).tree().items().skip(old(self).tree().parents().last().1 as int),
                old(self).flagged(),
            ),
            items_text(final(self).tree().items()) == items_text(old(self).tree().items()),
    {
        proof {
            let items = self.builder.items();
            let first = self.builder.parents().last().1 as int;
            let head = items.take(first);
            let tail = items.skip(first);
            assert(head + tail =~= items);
            lemma_items_concat(head, tail);
            lemma_rooted_can_place(tail);
            assert forall|i: int| 0 <= i < tail.len() implies ((#[trigger] tail[i]) matches NodeOrToken::Node(
                n,
            ) ==> n.rel_pos == 0) by {
                assert(tail[i] == items[first + i]);
            }
        }
        let ghost before = self.builder.items();
        self.builder.finish_node(self.cur_node_contains_error);
        self.cur_node_contains_error = false;
        proof {
            let items = self.builder.items();
            assert forall|i: int| 0 <= i < items.len() implies ((#[trigger] items[i]) matches NodeOrToken::Node(
                n,
            ) ==> n.rel_pos == 0) by {
                if i < items.len() - 1 {
                    assert(items[i] == items.drop_last()[i]);
                    assert(items[i] == before[i]);
                }
            }
        }
    }

    /// Records a complaint. The innermost open node will be marked.
    pub fn error(&mut self, error: SyntaxError)
        ensures
            final(self).same_input(old(self)),
            final(self).tree() == old(self).tree(),
            final(self).errors() == old(self).errors().push(error),
            final(self).flagged(),
            old(self).wf() ==> final(self).wf(),
    {
        self.errors.push(error);
        self.cur_node_contains_error = true;
    }

    /// The tree and the complaints. Exactly one node must be left, with no
    /// node open. The texts of the tokens of the tree, put one after the
    /// other, are the source up to the position that the sink has reached.
    pub fn finish(self) -> (r: (Node, Vec<SyntaxError>))
        requires
            self.tree().items().len() == 1,
            self.tree().items()[0] is Node,
        ensures
            NodeOrToken::Node(r.0) == self.tree().items()[0],
            r.1@ == self.errors(),
            self.wf() ==> {
                &&& item_wf(NodeOrToken::Node(r.0))
                &&& r.0.rel_pos == 0
                &&& r.0.text_len == self.pos()
                &&& items_text(r.0.children@) == self.source().subrange(0, self.pos())
                &&& tokens_text(items_tokens(r.0.children@)) == self.source().subrange(
                    0,
                    self.pos(),
                )
            },
    {
        proof {
            if self.wf() {
                lemma_items_wf_each(self.tree().items(), 0);
                lemma_single_item(self.tree().items()[0]);
                assert(self.tree().items() =~= seq![self.tree().items()[0]]);
                lemma_tokens_spell_text(self.tree().items()[0]->Node_0.children@);
            }
        }
        let node = self.builder.finish();
        (node, self.errors)
    }
}

/// Items that lie where they were made and cover no more than 32 bits can
/// tell can be given their places under a parent.
pub proof fn lemma_rooted_can_place(items: Seq<NodeOrToken>)
    requires
        items_len(items) <= u32::MAX,
        forall|i: int|
            0 <= i < items.len() ==> ((#[trigger] items[i]) matches NodeOrToken::Node(n)
                ==> n.rel_pos == 0),
    ensures
        can_place(items),
{
    assert forall|i: int| 0 <= i < items.len() implies ((#[trigger] items[i]) matches NodeOrToken::Node(
        node,
    ) ==> node.rel_pos + items_len(items.take(i)) <= u32::MAX) by {
        lemma_items_concat(items.take(i), items.skip(i));
        assert(items.take(i) + items.skip(i) =~= items);
    }
}

/// The tokens of an item, in order: a token itself, a node the tokens of
/// its children.
pub open spec fn item_tokens(item: NodeOrToken) -> Seq<Token>
    decreases item,
{
    match item {
        NodeOrToken::Token(token) => seq![token],
        NodeOrToken::Node(node) => items_tokens(node.children@),
    }
}

/// The tokens of the items, in order.
pub open spec fn items_tokens(items: Seq<NodeOrToken>) -> Seq<Token>
    decreases items,
{
    if items.len() == 0 {
        Seq::empty()
    } else {
        items_tokens(items.drop_last()) + item_tokens(items.last())
    }
}

/// The bytes of the texts of the tokens, one after the other.
pub open spec fn tokens_text(tokens: Seq<Token>) -> Seq<u8>
    decreases tokens.len(),
{
    if tokens.len() == 0 {
        Seq::empty()
    } else {
        tokens_text(tokens.drop_last()) + encode_utf8(smol_chars(tokens.last().text))
    }
}

/// The tokens that the references point to.
pub open spec fn token_referents(refs: Seq<&Token>) -> Seq<Token> {
    Seq::new(refs.len(), |i: int| *refs[i])
}

/// The texts of two lists of tokens, one after the other, are the text of
/// the lists put together.
pub proof fn lemma_tokens_text_concat(a: Seq<Token>, b: Seq<Token>)
    ensures
        tokens_text(a + b) == tokens_text(a) + tokens_text(b),
    decreases b.len(),
{
    if b.len() == 0 {
        assert(a + b =~= a);
        assert(tokens_text(a) + tokens_text(b) =~= tokens_text(a));
    } else {
        lemma_tokens_text_concat(a, b.drop_last());
        assert((a + b).drop_last() =~= a + b.drop_last());
        assert((a + b).last() == b.last());
        assert(tokens_text(a + b) =~= tokens_text(a) + tokens_text(b));
    }
}

/// Putting the texts of the tokens of a tree one after the other gives the
/// text of the tree.
pub proof fn lemma_tokens_spell_text(items: Seq<NodeOrToken>)
    ensures
        tokens_text(items_tokens(items)) == items_text(items),
    decreases items,
{
    reveal_with_fuel(items_tokens, 2);
    reveal_with_fuel(item_tokens, 2);
    reveal_with_fuel(items_text, 2);
    reveal_with_fuel(item_text, 2);
    if items.len() > 0 {
        lemma_tokens_spell_text(items.drop_last());
        lemma_tokens_text_concat(items_tokens(items.drop_last()), item_tokens(items.last()));
        match items.last() {
            NodeOrToken::Node(node) => {
                lemma_tokens_spell_text(node.children@);
            },
            NodeOrToken::Token(token) => {
                reveal_with_fuel(tokens_text, 2);
                assert(seq![token].drop_last() =~= Seq::<Token>::empty());
                assert(seq![token].last() == token);
                assert(tokens_text(seq![token]) =~= encode_utf8(smol_chars(token.text)));
            },
        }
    }
}

/// Appends the tokens of an item to `out`.
fn push_tokens<'a>(item: &'a NodeOrToken, out: &mut Vec<&'a Token>)
    ensures
        token_referents(final(out)@) == token_referents(old(out)@) + item_tokens(*item),
    decreases item,
{
    match item {
        NodeOrToken::Token(token) => {
            out.push(token);
            assert(token_referents(out@) =~= token_referents(old(out)@) + seq![*token]);
        },
        NodeOrToken::Node(node) => {
            let mut i: usize = 0;
            assert(token_referents(out@) + items_tokens(node.children@.take(0)) =~= token_referents(
                out@,
            ));
            while i < node.children.len()
                invariant
                    i <= node.children@.len(),
                    *item == NodeOrToken::Node(*node),
                    token_referents(out@) == token_referents(old(out)@) + items_tokens(
                        node.children@.take(i as int),
                    ),
                decreases node.children@.len() - i,
            {
                proof {
                    let next = node.children@.take(i + 1);
                    assert(next.drop_last() =~= node.children@.take(i as int));
                    assert(next.last() == node.children@[i as int]);
                }
                proof {
                    vstd::std_specs::vec::axiom_vec_index_decreases(node.children, i as int);
                    assert(decreases_to!(node.children => node.children[i as int]));
                    assert(decreases_to!(*node => node.children));
                    assert(item->Node_0 == *node);
                    assert(decreases_to!(*item => item->Node_0));
                    assert(decreases_to!(*item => node.children[i as int]));
                }
                push_tokens(&node.children[i], out);
                assert(token_referents(out@) =~= token_referents(old(out)@) + items_tokens(
                    node.children@.take(i + 1),
                ));
                i += 1;
            }
            assert(node.children@.take(i as int) =~= node.children@);
        },
    }
}

impl Node {
    /// The tokens of the node, in order.
    pub fn iter_tokens(&self) -> (r: Vec<&Token>)
        ensures
            token_referents(r@) == items_tokens(self.children@),
    {
        let mut out: Vec<&Token> = Vec::new();
        let mut i: usize = 0;
        assert(token_referents(out@) =~= items_tokens(self.children@.take(0)));
        while i < self.children.len()
            invariant
                i <= self.children@.len(),
                token_referents(out@) == items_tokens(self.children@.take(i as int)),
            decreases self.children@.len() - i,
        {
            proof {
                let next = self.children@.take(i + 1);
                assert(next.drop_last() =~= self.children@.take(i as int));
                assert(next.last() == self.children@[i as int]);
            }
            push_tokens(&self.children[i], &mut out);
            i += 1;
        }
        assert(self.children@.take(i as int) =~= self.children@);
        out
    }
}

/// A stop on the way through a tree, with the place in the text of what is
/// met there.
#[derive(Debug, Clone, Copy, PartialEq, Eq, Structural)]
pub enum Event {
    /// A node begins.
    Enter { kind: Kind, start: usize, end: usize },
    /// A token.
    Leaf { kind: Kind, start: usize, end: usize },
    /// The node that began last and has not ended yet ends.
    Leave,
}

/// The stops on the way through an item that begins at `at`.
pub open spec fn item_events(item: NodeOrToken, at: int) -> Seq<Event>
    decreases item,
{
    match item {
        NodeOrToken::Token(token) => seq![
            Event::Leaf {
                kind: token.kind,
                start: at as usize,
                end: (at + item_len(item)) as usize,
            },
        ],
        NodeOrToken::Node(node) => seq![
            Event::Enter {
                kind: node.kind,
                start: at as usize,
                end: (at + node.text_len) as usize,
            },
        ] + items_events(node.children@, at) + seq![Event::Leave],
    }
}

/// The stops on the way through items that follow one another from `at` on.
pub open spec fn items_events(items: Seq<NodeOrToken>, at: int) -> Seq<Event>
    decreases items,
{
    if items.len() == 0 {
        Seq::empty()
    } else {
        items_events(items.drop_last(), at) + item_events(
            items.last(),
            at + items_len(items.drop_last()),
        )
    }
}

/// Where items are well formed, each of them is.
pub proof fn lemma_items_wf_each(items: Seq<NodeOrToken>, i: int)
    requires
        items_wf(items),
        0 <= i < items.len(),
    ensures
        item_wf(items[i]),
        items_wf(items.take(i)),
        items_len(items.take(i)) + item_len(items[i]) <= items_len(items),
    decreases items.len(),
{
    if i == items.len() - 1 {
        assert(items.take(i) =~= items.drop_last());
    } else {
        lemma_items_wf_each(items.drop_last(), i);
        assert(items.drop_last().take(i) =~= items.take(i));
        assert(items.drop_last()[i] == items[i]);
    }
}

/// Appends to `out` the stops on the way through an item that begins at
/// `at`.
fn push_events(item: &NodeOrToken, at: usize, out: &mut Vec<Event>)
    requires
        item_wf(*item),
        at + item_len(*item) <= usize::MAX,
    ensures
        final(out)@ == old(out)@ + item_events(*item, at as int),
    decreases item,
{
    match item {
        NodeOrToken::Token(token) => {
            let end = at + item.text_len();
            out.push(Event::Leaf { kind: token.kind, start: at, end });
            assert(out@ =~= old(out)@ + item_events(*item, at as int));
        },
        NodeOrToken::Node(node) => {
            out.push(Event::Enter { kind: node.kind, start: at, end: at + node.text_len as usize });
            let ghost entered = out@;
            let mut pos: usize = at;
            let mut i: usize = 0;
            assert(out@ =~= entered + items_events(node.children@.take(0), at as int));
            while i < node.children.len()
                invariant
                    i <= node.children@.len(),
                    *item == NodeOrToken::Node(*node),
                    item_wf(*item),
                    at + node.text_len <= usize::MAX,
                    pos == at + items_len(node.children@.take(i as int)),
                    pos <= at + node.text_len,
                    out@ == entered + items_events(node.children@.take(i as int), at as int),
                decreases node.children@.len() - i,
            {
                proof {
                    let next = node.children@.take(i + 1);
                    assert(next.drop_last() =~= node.children@.take(i as int));
                    assert(next.last() == node.children@[i as int]);
                    lemma_items_wf_each(node.children@, i as int);
                    vstd::std_specs::vec::axiom_vec_index_decreases(node.children, i as int);
                    assert(item->Node_0 == *node);
                    assert(decreases_to!(*item => item->Node_0));
                    assert(decreases_to!(*item => node.children[i as int]));
                }
                let child = &node.children[i];
                push_events(child, pos, out);
                assert(out@ =~= entered + items_events(node.children@.take(i + 1), at as int));
                pos = pos + child.text_len();
                i += 1;
            }
            assert(node.children@.take(i as int) =~= node.children@);
            out.push(Event::Leave);
            assert(out@ =~= old(out)@ + item_events(*item, at as int));
        },
    }
}

/// Where one of the items is not well formed, the items are not.
pub proof fn lemma_items_wf_fails(items: Seq<NodeOrToken>, i: int)
    requires
        0 <= i < items.len(),
        !item_wf(items[i]),
    ensures
        !items_wf(items),
{
    if items_wf(items) {
        lemma_items_wf_each(items, i);
    }
}

/// The first items of a list cover no more than the whole list.
pub proof fn lemma_items_len_grows(items: Seq<NodeOrToken>, upto: int)
    requires
        0 <= upto <= items.len(),
    ensures
        items_len(items.take(upto)) <= items_len(items),
{
    lemma_items_concat(items.take(upto), items.skip(upto));
    assert(items.take(upto) + items.skip(upto) =~= items);
}

impl Node {
    /// Whether every node in this node, itself included, covers as many
    /// bytes as its text has.
    pub fn is_wf(&self) -> (r: bool)
        ensures
            r == item_wf(NodeOrToken::Node(*self)),
        decreases self,
    {
        let mut sum: usize = 0;
        let mut i: usize = 0;
        assert(items_wf(self.children@.take(0)));
        while i < self.children.len()
            invariant
                i <= self.children@.len(),
                sum == items_len(self.children@.take(i as int)),
                sum <= u32::MAX,
                items_wf(self.children@.take(i as int)),
            decreases self.children@.len() - i,
        {
            proof {
                let next = self.children@.take(i + 1);
                assert(next.drop_last() =~= self.children@.take(i as int));
                assert(next.last() == self.children@[i as int]);
                lemma_items_len_grows(self.children@, i + 1);
            }
            let child = &self.children[i];
            match child {
                NodeOrToken::Node(node) => {
                    proof {
                        vstd::std_specs::vec::axiom_vec_index_decreases(self.children, i as int);
                        assert(child->Node_0 == *node);
                        assert(decreases_to!(*child => child->Node_0));
                        assert(decreases_to!(*self => *node));
                    }
                    if !node.is_wf() {
                        proof {
                            lemma_items_wf_fails(self.children@, i as int);
                        }
                        return false;
                    }
                },
                NodeOrToken::Token(_) => {},
            }
            assert(item_wf(self.children@[i as int]));
            assert(items_wf(self.children@.take(i + 1)));
            let len = child.text_len();
            if len > 0xFFFF_FFFF - sum {
                // the children cover more than a node can say it covers
                return false;
            }
            sum = sum + len;
            i += 1;
        }
        assert(self.children@.take(i as int) =~= self.children@);
        sum == self.text_len as usize
    }

    /// The way through the node, every place worked out: the node begins at
    /// `start`, each child begins where the child before it ends, and a node
    /// ends after its last child.
    pub fn walk(&self, start: usize) -> (r: Vec<Event>)
        requires
            item_wf(NodeOrToken::Node(*self)),
            start + self.text_len <= usize::MAX,
        ensures
            r@ == seq![
                Event::Enter {
                    kind: self.kind,
                    start,
                    end: (start + self.text_len) as usize,
                },
            ] + items_events(self.children@, start as int) + seq![Event::Leave],
    {
        let mut out: Vec<Event> = Vec::new();
        out.push(Event::Enter { kind: self.kind, start, end: start + self.text_len as usize });
        let ghost entered = out@;
        let mut pos: usize = start;
        let mut i: usize = 0;
        assert(out@ =~= entered + items_events(self.children@.take(0), start as int));
        while i < self.children.len()
            invariant
                i <= self.children@.len(),
                item_wf(NodeOrToken::Node(*self)),
                start + self.text_len <= usize::MAX,
                pos == start + items_len(self.children@.take(i as int)),
                pos <= start + self.text_len,
                out@ == entered + items_events(self.children@.take(i as int), start as int),
            decreases self.children@.len() - i,
        {
            proof {
                let next = self.children@.take(i + 1);
                assert(next.drop_last() =~= self.children@.take(i as int));
                assert(next.last() == self.children@[i as int]);
                lemma_items_wf_each(self.children@, i as int);
            }
            let child = &self.children[i];
            push_events(child, pos, &mut out);
            assert(out@ =~= entered + items_events(self.children@.take(i + 1), start as int));
            pos = pos + child.text_len();
            i += 1;
        }
        assert(self.children@.take(i as int) =~= self.children@);
        out.push(Event::Leave);
        out
    }
}

} // verus!
