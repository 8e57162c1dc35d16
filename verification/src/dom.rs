//! Parsed markup: the node table of a document, what is assumed of the
//! `select` crate that builds and queries it, and the handles that the
//! extractors work with.
//!
//! A document is modelled by its node table, row for row as the parser lays
//! it out. Every query is a function of that table and of a position in it.
//! What a query returns is spelled out where a few lines can do so, and is
//! given a name where it takes a walk of the tree or a serialiser to say.

use crate::text::white_space;
use select::predicate::{Class, Comment, Name};
use vstd::prelude::*;
use vstd::utf8::encode_utf8;

verus! {

#[verifier::external_type_specification]
#[verifier::external_body]
pub struct ExTree(select::document::Document);

/// A name with its optional prefix and its namespace.
pub struct QualifiedName {
    pub prefix: Option<Seq<char>>,
    pub namespace: Seq<char>,
    pub local: Seq<char>,
}

/// What one node holds.
pub enum Content {
    Text(Seq<char>),
    Element { name: QualifiedName, attributes: Seq<(QualifiedName, Seq<char>)> },
    Comment(Seq<char>),
}

/// One row of a node table: a node's position, its links to the rows around
/// it and its content.
pub struct Entry {
    pub index: usize,
    pub parent: Option<usize>,
    pub prev: Option<usize>,
    pub next: Option<usize>,
    pub first_child: Option<usize>,
    pub last_child: Option<usize>,
    pub content: Content,
}

/// The rows that a `select::document::Document` holds in its `nodes`, in
/// order, each `select::node::Raw` written as an `Entry`.
pub uninterp spec fn entries(tree: select::document::Document) -> Seq<Entry>;

/// The node table that `select::document::Document::from` builds from a text.
pub uninterp spec fn parsed(html: Seq<char>) -> Seq<Entry>;

/// The nodes that `select::node::Node::descendants` walks below a node, in
/// document order.
pub uninterp spec fn descendants(table: Seq<Entry>, node: usize) -> Seq<usize>;

/// The nodes that `select::node::Node::children` walks: the direct children of
/// a node, in document order.
pub uninterp spec fn children(table: Seq<Entry>, node: usize) -> Seq<usize>;

/// What `select::node::Node::text` returns: the text of a node and of all
/// nodes below it, joined in document order.
pub uninterp spec fn text_of(table: Seq<Entry>, node: usize) -> Seq<char>;

/// What `select::node::Node::html` returns: the node, serialised as markup.
pub uninterp spec fn html_of(table: Seq<Entry>, node: usize) -> Seq<char>;

/// The longest text, in bytes, that is handed to the parser. The parser
/// keeps text in buffers that cannot grow beyond two to the power of 31
/// bytes, and fills them with up to three bytes for one byte that it reads;
/// a text within this limit cannot fill a buffer that far.
pub const TEXT_LIMIT: usize = 0x2000_0000;

/// The text is short enough for the parser: its UTF-8 form has no more than
/// `TEXT_LIMIT` bytes.
pub open spec fn fits(html: Seq<char>) -> bool {
    encode_utf8(html).len() <= TEXT_LIMIT
}

/// The table of the document that a text is loaded as: what the parser
/// builds from the text where the text fits, and what it builds from the
/// empty text where it does not.
pub open spec fn loaded(html: Seq<char>) -> Seq<Entry> {
    if fits(html) {
        parsed(html)
    } else {
        parsed(Seq::empty())
    }
}

/// A table that the parser built from some text that fits. Only such tables
/// are handed to the queries.
pub open spec fn built(table: Seq<Entry>) -> bool {
    exists|html: Seq<char>| fits(html) && table == #[trigger] parsed(html)
}

/// The node is a comment.
pub open spec fn is_comment(table: Seq<Entry>, node: usize) -> bool {
    table[node as int].content is Comment
}

/// The node is an element with the local name `name`.
pub open spec fn has_name(table: Seq<Entry>, node: usize, name: Seq<char>) -> bool {
    match table[node as int].content {
        Content::Element { name: own, .. } => own.local == name,
        _ => false,
    }
}

/// The value of the first attribute in `attributes` whose local name is `name`.
pub open spec fn first_value(
    attributes: Seq<(QualifiedName, Seq<char>)>,
    name: Seq<char>,
) -> Option<Seq<char>>
    decreases attributes.len(),
{
    if attributes.len() == 0 {
        None
    } else if attributes[0].0.local == name {
        Some(attributes[0].1)
    } else {
        first_value(attributes.drop_first(), name)
    }
}

/// The value of the attribute `name` of a node: that of the first attribute
/// of that name where the node is an element that has one.
pub open spec fn attribute(table: Seq<Entry>, node: usize, name: Seq<char>) -> Option<Seq<char>> {
    match table[node as int].content {
        Content::Element { attributes, .. } => first_value(attributes, name),
        _ => None,
    }
}

/// `word` is one of the words of `text`: a run of characters that are not
/// whitespace, with whitespace or an end of the text on either side.
pub open spec fn is_word_of(word: Seq<char>, text: Seq<char>) -> bool {
    &&& word.len() > 0
    &&& forall|k: int| 0 <= k < word.len() ==> !white_space(#[trigger] word[k])
    &&& exists|from: int|
        {
            &&& 0 <= from && from + word.len() <= text.len()
            &&& #[trigger] text.subrange(from, from + word.len()) == word
            &&& from == 0 || white_space(text[from - 1])
            &&& from + word.len() == text.len() || white_space(text[from + word.len()])
        }
}

/// The node carries `class`: it is an element, and `class` is one of the
/// words of its `class` attribute.
pub open spec fn carries_class(table: Seq<Entry>, node: usize, class: Seq<char>) -> bool {
    match attribute(table, node, "class"@) {
        Some(value) => is_word_of(class, value),
        None => false,
    }
}

/// A comment as it is written in markup: its text between the two comment
/// markers.
pub open spec fn comment_markup(inner: Seq<char>) -> Seq<char> {
    "<!--"@ + inner + "-->"@
}

/// The positions of a table, in order.
pub open spec fn positions(table: Seq<Entry>) -> Seq<usize> {
    Seq::new(table.len(), |i: int| i as usize)
}

/// All nodes of a table that carry `class`, in document order.
pub open spec fn classed(table: Seq<Entry>, class: Seq<char>) -> Seq<usize> {
    positions(table).filter(|n: usize| carries_class(table, n, class))
}

/// The nodes below `node` that carry `class`, in document order.
pub open spec fn classed_below(table: Seq<Entry>, node: usize, class: Seq<char>) -> Seq<usize> {
    descendants(table, node).filter(|n: usize| carries_class(table, n, class))
}

/// The elements below `node` with the local name `name`, in document order.
pub open spec fn named_below(table: Seq<Entry>, node: usize, name: Seq<char>) -> Seq<usize> {
    descendants(table, node).filter(|n: usize| has_name(table, n, name))
}

/// The direct children of `node` that are comments, in document order.
pub open spec fn comment_children(table: Seq<Entry>, node: usize) -> Seq<usize> {
    children(table, node).filter(|n: usize| is_comment(table, n))
}

/// Every index of `found` is a position of `table`.
pub open spec fn within(found: Seq<usize>, table: Seq<Entry>) -> bool {
    forall|k: int| 0 <= k < found.len() ==> #[trigger] found[k] < table.len()
}

/// Parses a text with `select::document::Document::from`. The parser refuses
/// no markup, and the table it builds depends on the text alone. A text that
/// does not fit is left out: the parser panics where one of its buffers
/// would pass its greatest size. Memory and stack set their own limits: the
/// tree is copied by a function that calls itself once for each level of
/// nesting, and the parser sets no limit to nesting, so markup that is
/// nested deeply enough exhausts the stack as a text that is large enough
/// exhausts memory.
#[verifier::external_body]
fn parse(html: &str) -> (tree: select::document::Document)
    requires
        encode_utf8(html@).len() <= TEXT_LIMIT,
    ensures
        entries(tree) == parsed(html@),
{
    select::document::Document::from(html)
}

/// `select::document::Document::find` with `select::predicate::Class`: it
/// tries every node of the table in order and yields those that the predicate
/// matches. The predicate matches a node that has a `class` attribute of
/// which, split at whitespace, the class is one piece.
#[verifier::external_body]
fn find_class_in(tree: &select::document::Document, class: &str) -> (found: Vec<usize>)
    requires
        built(entries(*tree)),
    ensures
        found@ == positions(entries(*tree)).filter(
            |n: usize| carries_class(entries(*tree), n, class@),
        ),
{
    tree.find(Class(class)).map(|node| node.index()).collect()
}

/// `select::node::Node::find` with `select::predicate::Class`: it walks the
/// descendants of the node and yields those that the predicate matches. Each
/// is a node of the same table.
#[verifier::external_body]
fn find_class_below(tree: &select::document::Document, node: usize, class: &str) -> (found: Vec<
    usize,
>)
    requires
        built(entries(*tree)),
        node < entries(*tree).len(),
    ensures
        found@ == descendants(entries(*tree), node).filter(
            |n: usize| carries_class(entries(*tree), n, class@),
        ),
        within(found@, entries(*tree)),
{
    tree.nth(node).unwrap().find(Class(class)).map(|node| node.index()).collect()
}

/// `select::node::Node::find` with `select::predicate::Name`, which matches
/// the elements whose local name is the given one. Each node found is a node
/// of the same table.
#[verifier::external_body]
fn find_name_below(tree: &select::document::Document, node: usize, name: &str) -> (found: Vec<
    usize,
>)
    requires
        built(entries(*tree)),
        node < entries(*tree).len(),
    ensures
        found@ == descendants(entries(*tree), node).filter(
            |n: usize| has_name(entries(*tree), n, name@),
        ),
        within(found@, entries(*tree)),
{
    tree.nth(node).unwrap().find(Name(name)).map(|node| node.index()).collect()
}

/// `select::node::Node::children`: the direct children of the node, from the
/// first to the last. Each is a node of the same table.
#[verifier::external_body]
fn children_of(tree: &select::document::Document, node: usize) -> (found: Vec<usize>)
    requires
        built(entries(*tree)),
        node < entries(*tree).len(),
    ensures
        found@ == children(entries(*tree), node),
        within(found@, entries(*tree)),
{
    tree.nth(node).unwrap().children().map(|node| node.index()).collect()
}

/// `select::node::Node::is` with `select::predicate::Comment`, which matches
/// the nodes whose content is a comment.
#[verifier::external_body]
fn comment_at(tree: &select::document::Document, node: usize) -> (answer: bool)
    requires
        built(entries(*tree)),
        node < entries(*tree).len(),
    ensures
        answer == is_comment(entries(*tree), node),
{
    tree.nth(node).unwrap().is(Comment)
}

/// `select::node::Node::text`. It calls itself once for each level of
/// nesting below the node.
#[verifier::external_body]
fn text_at(tree: &select::document::Document, node: usize) -> (text: String)
    requires
        built(entries(*tree)),
        node < entries(*tree).len(),
    ensures
        text@ == text_of(entries(*tree), node),
{
    tree.nth(node).unwrap().text()
}

/// `select::node::Node::html`. A comment is serialised as its text between
/// the two comment markers. The serialiser calls itself once for each level
/// of nesting below the node.
#[verifier::external_body]
fn html_at(tree: &select::document::Document, node: usize) -> (html: String)
    requires
        built(entries(*tree)),
        node < entries(*tree).len(),
    ensures
        html@ == html_of(entries(*tree), node),
        entries(*tree)[node as int].content matches Content::Comment(inner) ==> html@
            == comment_markup(inner),
{
    tree.nth(node).unwrap().html()
}

/// `select::node::Node::attr`: for an element, the value of the first
/// attribute whose local name is `name`; nothing for another node or where no
/// attribute has that name.
#[verifier::external_body]
fn attr_at(tree: &select::document::Document, node: usize, name: &str) -> (value: Option<String>)
    requires
        built(entries(*tree)),
        node < entries(*tree).len(),
    ensures
        match value {
            Some(text) => attribute(entries(*tree), node, name@) == Some(text@),
            None => attribute(entries(*tree), node, name@) is None,
        },
{
    tree.nth(node).unwrap().attr(name).map(String::from)
}

/// A parsed document. It owns its tree: a document parsed from a fragment of
/// another shares nothing with it.
pub struct Dom {
    tree: select::document::Document,
}

impl View for Dom {
    type V = Seq<Entry>;

    closed spec fn view(&self) -> Seq<Entry> {
        entries(self.tree)
    }
}

/// The tables of `documents`, in order.
pub open spec fn tables(documents: Seq<Dom>) -> Seq<Seq<Entry>> {
    documents.map_values(|d: Dom| d@)
}

/// A node of a document: a reference to the document and a position in its
/// table.
#[derive(Clone, Copy)]
pub struct Node<'a> {
    dom: &'a Dom,
    index: usize,
}

/// `nodes` are handles to the positions `found` of `table`, one for one, and
/// each of these is a position of the table.
pub open spec fn located(nodes: Seq<Node>, table: Seq<Entry>, found: Seq<usize>) -> bool {
    &&& nodes.len() == found.len()
    &&& forall|k: int|
        0 <= k < nodes.len() ==> (#[trigger] nodes[k]).table() == table && nodes[k].index()
            == found[k] && found[k] < table.len()
}

impl Dom {
    #[verifier::type_invariant]
    spec fn sound(self) -> bool {
        built(entries(self.tree))
    }

    /// Parses `html`. Malformed markup is never refused: it yields whatever
    /// tree the parser recovers from it. A text of more than `TEXT_LIMIT`
    /// bytes is not handed to the parser: it yields the tree of the empty
    /// text.
    pub fn load(html: &str) -> (document: Dom)
        ensures
            document@ == loaded(html@),
    {
        if html.as_bytes().len() <= TEXT_LIMIT {
            Dom { tree: parse(html) }
        } else {
            proof {
                reveal_strlit("");
                assert(""@ =~= Seq::<char>::empty());
            }
            Dom { tree: parse("") }
        }
    }

    /// Handles to the given positions of this document.
    fn handles<'a>(&'a self, found: &Vec<usize>) -> (nodes: Vec<Node<'a>>)
        requires
            within(found@, self@),
        ensures
            located(nodes@, self@, found@),
    {
        proof {
            use_type_invariant(self);
        }
        let mut nodes: Vec<Node<'a>> = Vec::new();
        let mut k: usize = 0;
        while k < found.len()
            invariant
                k <= found.len(),
                within(found@, self@),
                built(self@),
                located(nodes@, self@, found@.take(k as int)),
            decreases found.len() - k,
        {
            nodes.push(Node { dom: self, index: found[k] });
            k += 1;
        }
        nodes
    }

    /// All nodes of the document that carry `class`, in document order.
    pub fn find_class<'a>(&'a self, class: &str) -> (nodes: Vec<Node<'a>>)
        ensures
            located(nodes@, self@, classed(self@, class@)),
    {
        proof {
            use_type_invariant(self);
        }
        let found = find_class_in(&self.tree, class);
        proof {
            let keep = |n: usize| carries_class(self@, n, class@);
            assert forall|k: int| 0 <= k < found.len() implies #[trigger] found[k]
                < self@.len() by {
                positions(self@).lemma_filter_contains_rev(keep, found[k]);
            }
        }
        self.handles(&found)
    }
}

impl<'a> Node<'a> {
    #[verifier::type_invariant]
    spec fn sound(self) -> bool {
        built(self.dom@) && self.index < self.dom@.len()
    }

    /// The table of the document that the node belongs to.
    pub closed spec fn table(&self) -> Seq<Entry> {
        self.dom@
    }

    /// The node's position in that table.
    pub closed spec fn index(&self) -> usize {
        self.index
    }

    /// The nodes below this one that carry `class`, in document order.
    pub fn find_class(&self, class: &str) -> (nodes: Vec<Node<'a>>)
        ensures
            located(nodes@, self.table(), classed_below(self.table(), self.index(), class@)),
    {
        proof {
            use_type_invariant(self);
        }
        let found = find_class_below(&self.dom.tree, self.index, class);
        self.dom.handles(&found)
    }

    /// The elements below this one with the local name `name`, in document
    /// order.
    pub fn find_name(&self, name: &str) -> (nodes: Vec<Node<'a>>)
        ensures
            located(nodes@, self.table(), named_below(self.table(), self.index(), name@)),
    {
        proof {
            use_type_invariant(self);
        }
        let found = find_name_below(&self.dom.tree, self.index, name);
        self.dom.handles(&found)
    }

    /// The direct children of this node that are comments, in document order.
    pub fn comments(&self) -> (nodes: Vec<Node<'a>>)
        ensures
            located(nodes@, self.table(), comment_children(self.table(), self.index())),
    {
        proof {
            use_type_invariant(self);
        }
        let all = children_of(&self.dom.tree, self.index);
        let ghost keep = |n: usize| is_comment(self.table(), n);
        let mut found: Vec<usize> = Vec::new();
        let mut k: usize = 0;
        proof {
            reveal(Seq::filter);
            assert(all@.take(0).filter(keep) =~= Seq::<usize>::empty());
        }
        while k < all.len()
            invariant
                k <= all.len(),
                built(self.dom@),
                within(all@, self.dom@),
                keep == |n: usize| is_comment(self.dom@, n),
                found@ == all@.take(k as int).filter(keep),
                within(found@, self.dom@),
            decreases all.len() - k,
        {
            let child = all[k];
            proof {
                assert(all@.take(k + 1) =~= all@.take(k as int).push(child));
                all@.take(k as int).lemma_filter_push(child, keep);
            }
            if comment_at(&self.dom.tree, child) {
                found.push(child);
            }
            k += 1;
        }
        proof {
            assert(all@.take(k as int) =~= all@);
        }
        self.dom.handles(&found)
    }

    /// The text of this node and of all nodes below it, joined in document
    /// order.
    pub fn text(&self) -> (text: String)
        ensures
            text@ == text_of(self.table(), self.index()),
    {
        proof {
            use_type_invariant(self);
        }
        text_at(&self.dom.tree, self.index)
    }

    /// This node, serialised as markup.
    pub fn html(&self) -> (html: String)
        ensures
            self.index() < self.table().len(),
            html@ == html_of(self.table(), self.index()),
            self.table()[self.index() as int].content matches Content::Comment(inner) ==> html@
                == comment_markup(inner),
    {
        proof {
            use_type_invariant(self);
        }
        html_at(&self.dom.tree, self.index)
    }

    /// The value of the attribute `name`, where the node is an element that
    /// has one.
    pub fn attr(&self, name: &str) -> (value: Option<String>)
        ensures
            match value {
                Some(text) => attribute(self.table(), self.index(), name@) == Some(text@),
                None => attribute(self.table(), self.index(), name@) is None,
            },
    {
        proof {
            use_type_invariant(self);
        }
        attr_at(&self.dom.tree, self.index, name)
    }
}

} // verus!
