//! Rust source text as the `tree-sitter` parser (with the `tree-sitter-rust`
//! grammar) sees it.
//!
//! A node of a parsed text is named by the text and by the path that leads
//! to it from the root: a sequence of steps, each the `i`-th named child or
//! the child in a named field. What the parser reports of a node is a
//! function of that pair, so the library states it with names over the pair.
use vstd::prelude::*;
use tree_sitter::{Node, Parser, Tree};

verus! {

#[verifier::external_type_specification]
#[verifier::external_body]
pub struct ExTree(Tree);

#[verifier::external_type_specification]
#[verifier::external_body]
pub struct ExNode<'a>(Node<'a>);

/// One step from a node to one of its children.
pub enum Step {
    /// The `i`-th named child.
    Named(nat),
    /// The first child in the field of that name.
    Field(Seq<char>),
}

/// A Rust source text together with its syntax tree.
pub struct SyntaxTree {
    src: String,
    tree: Tree,
}

impl SyntaxTree {
    /// The text the tree was parsed from.
    pub closed spec fn source(&self) -> Seq<char> {
        self.src@
    }
}

/// A node of a syntax tree, with the text it was parsed from and its path
/// from the root.
pub struct SyntaxNode<'t> {
    node: Node<'t>,
    src: &'t str,
    path: Ghost<Seq<Step>>,
}

impl<'t> SyntaxNode<'t> {
    /// The source text of the tree.
    pub closed spec fn source(&self) -> Seq<char> {
        self.src@
    }

    /// The path from the root to this node.
    pub closed spec fn path(&self) -> Seq<Step> {
        self.path@
    }
}

/// Whether the parser, set to the Rust grammar, produces a tree for `src`.
pub uninterp spec fn ts_parse_ok(src: Seq<char>) -> bool;

/// The grammar kind of the node (`Node::kind`).
pub uninterp spec fn ts_kind(src: Seq<char>, path: Seq<Step>) -> Seq<char>;

/// The number of named children (`Node::named_child_count`).
pub uninterp spec fn ts_named_count(src: Seq<char>, path: Seq<Step>) -> nat;

/// Whether the node has a child in the field (`Node::child_by_field_name`).
pub uninterp spec fn ts_has_field(src: Seq<char>, path: Seq<Step>, field: Seq<char>) -> bool;

/// The number of nodes in the subtree of the node, itself included
/// (`Node::descendant_count`).
pub uninterp spec fn ts_descendants(src: Seq<char>, path: Seq<Step>) -> nat;

/// The zero-based row on which the node starts (`Node::start_position`).
pub uninterp spec fn ts_start_row(src: Seq<char>, path: Seq<Step>) -> nat;

/// The zero-based row on which the node ends (`Node::end_position`).
pub uninterp spec fn ts_end_row(src: Seq<char>, path: Seq<Step>) -> nat;

/// The source text the node spans (`Node::utf8_text`).
pub uninterp spec fn ts_text(src: Seq<char>, path: Seq<Step>) -> Seq<char>;

/// Parses `src` with a `Parser` set to `tree_sitter_rust::language()`
/// (`Parser::new`, `Parser::set_language`, `Parser::parse` without an old
/// tree). Whether a tree comes back is the name `ts_parse_ok` of the text.
#[verifier::external_body]
pub(crate) fn parse_rust_tree(src: &str) -> (r: Option<SyntaxTree>)
    ensures
        r is Some <==> ts_parse_ok(src@),
        r matches Some(t) ==> t.source() == src@,
{
    let mut parser = Parser::new();
    parser.set_language(&tree_sitter_rust::language()).ok()?;
    let tree = parser.parse(src, None)?;
    Some(SyntaxTree { src: src.to_string(), tree })
}

/// The root node of a tree (`Tree::root_node`): the empty path.
#[verifier::external_body]
pub(crate) fn root_node<'t>(t: &'t SyntaxTree) -> (n: SyntaxNode<'t>)
    ensures
        n.source() == t.source(),
        n.path() == Seq::<Step>::empty(),
{
    SyntaxNode { node: t.tree.root_node(), src: t.src.as_str(), path: Ghost(Seq::empty()) }
}

/// `Node::kind`.
#[verifier::external_body]
pub(crate) fn node_kind(n: &SyntaxNode) -> (r: &'static str)
    ensures
        r@ == ts_kind(n.source(), n.path()),
{
    n.node.kind()
}

/// `Node::named_child_count`.
#[verifier::external_body]
pub(crate) fn named_child_count(n: &SyntaxNode) -> (r: usize)
    ensures
        r == ts_named_count(n.source(), n.path()),
{
    n.node.named_child_count()
}

/// `Node::named_child` at an index below the count: there is such a child,
/// and its subtree is smaller than its parent's. The index reaches the C
/// library as a `u32`, which every index below the count fits, as the count
/// itself comes from a `u32`.
#[verifier::external_body]
pub(crate) fn named_child<'t>(n: &SyntaxNode<'t>, i: usize) -> (r: Option<SyntaxNode<'t>>)
    requires
        i < ts_named_count(n.source(), n.path()),
    ensures
        r is Some,
        r matches Some(c) ==> {
            &&& c.source() == n.source()
            &&& c.path() == n.path().push(Step::Named(i as nat))
            &&& ts_descendants(c.source(), c.path()) < ts_descendants(n.source(), n.path())
        },
{
    match n.node.named_child(i) {
        Some(c) => Some(
            SyntaxNode { node: c, src: n.src, path: Ghost(n.path@.push(Step::Named(i as nat))) },
        ),
        None => None,
    }
}

/// `Node::child_by_field_name`; a child's subtree is smaller than its
/// parent's.
#[verifier::external_body]
pub(crate) fn child_by_field<'t>(n: &SyntaxNode<'t>, field: &str) -> (r: Option<SyntaxNode<'t>>)
    ensures
        r is Some <==> ts_has_field(n.source(), n.path(), field@),
        r matches Some(c) ==> {
            &&& c.source() == n.source()
            &&& c.path() == n.path().push(Step::Field(field@))
            &&& ts_descendants(c.source(), c.path()) < ts_descendants(n.source(), n.path())
        },
{
    match n.node.child_by_field_name(field) {
        Some(c) => Some(
            SyntaxNode { node: c, src: n.src, path: Ghost(n.path@.push(Step::Field(field@))) },
        ),
        None => None,
    }
}

/// `Node::start_position().row`.
#[verifier::external_body]
pub(crate) fn start_row(n: &SyntaxNode) -> (r: usize)
    ensures
        r == ts_start_row(n.source(), n.path()),
{
    n.node.start_position().row
}

/// `Node::end_position().row`. A node never ends on a row before the one it
/// starts on: its end point follows its start point in the source.
#[verifier::external_body]
pub(crate) fn end_row(n: &SyntaxNode) -> (r: usize)
    ensures
        r == ts_end_row(n.source(), n.path()),
        ts_start_row(n.source(), n.path()) <= r,
{
    n.node.end_position().row
}

/// `Node::utf8_text` on the source the node was parsed from (empty where
/// that text is not valid UTF-8, which a node of a `str` never spans).
#[verifier::external_body]
pub(crate) fn node_text(n: &SyntaxNode) -> (r: String)
    ensures
        r@ == ts_text(n.source(), n.path()),
{
    match n.node.utf8_text(n.src.as_bytes()) {
        Ok(t) => t.to_string(),
        Err(_) => String::new(),
    }
}

} // verus!
