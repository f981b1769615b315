//! The syntax tree provider: parsing a text with tree-sitter and making the
//! library's own `SyntaxNode`s of the tree it yields. The parser's tree
//! comes in as plain values, node for node; nothing of it is taken on
//! trust: names are cut from the text and spans are checked before a tree is
//! handed out.

use vstd::prelude::*;
use crate::language::{name_field, LanguageTag};
use crate::text::{occurs_at, slice_copy};
use crate::tree::{SyntaxNode, TreeView};

verus! {

#[verifier::external_type_specification]
#[verifier::external_body]
pub struct ExLanguageError(tree_sitter::LanguageError);

#[verifier::external_type_specification]
#[verifier::external_body]
pub struct ExNode<'tree>(tree_sitter::Node<'tree>);

/// Why a text could not be turned into a syntax tree.
#[derive(Clone, Copy, Debug, PartialEq, Eq, Structural)]
pub enum ParseFailure {
    /// The parser did not accept the grammar.
    LanguageRejected,
    /// The parser returned no tree.
    NoTree,
    /// The parser reported a name field outside its node, or spans that do
    /// not nest within the text.
    Malformed,
}

/// A node as the parser reports it: its kind, its span, whether it is an
/// extra, the span of its name field (if it has one), and its children in
/// order. Nothing is known of these values but that the parser gave them.
#[derive(Debug)]
pub struct RawNode {
    pub kind: Vec<u8>,
    pub start_byte: usize,
    pub end_byte: usize,
    pub extra: bool,
    pub name_span: Option<(usize, usize)>,
    pub children: Vec<RawNode>,
}

/// The mathematical model of a node as the parser reports it.
pub struct RawView {
    pub kind: Seq<u8>,
    pub start: int,
    pub end: int,
    pub extra: bool,
    pub name_span: Option<(int, int)>,
    pub children: Seq<RawView>,
}

/// The model of a reported node: its own fields, and the models of its
/// children in order.
pub open spec fn raw_of(node: RawNode) -> RawView
    decreases node,
{
    RawView {
        kind: node.kind@,
        start: node.start_byte as int,
        end: node.end_byte as int,
        extra: node.extra,
        name_span: match node.name_span {
            Some((start, end)) => Some((start as int, end as int)),
            None => None,
        },
        children: Seq::new(
            node.children@.len(),
            |i: int|
                if 0 <= i < node.children@.len() {
                    raw_of(node.children@[i])
                } else {
                    arbitrary()
                },
        ),
    }
}

impl View for RawNode {
    type V = RawView;

    open spec fn view(&self) -> RawView {
        raw_of(*self)
    }
}

impl RawNode {
    /// The model of the `i`-th child is the `i`-th child of the model.
    pub proof fn lemma_child_view(&self, i: int)
        requires
            0 <= i < self.children@.len(),
        ensures
            self@.children.len() == self.children@.len(),
            self@.children[i] == self.children@[i]@,
    {
    }
}

/// The model of a tree that may be missing.
pub open spec fn raw_tree_view(tree: Option<RawNode>) -> Option<RawView> {
    match tree {
        Some(root) => Some(root@),
        None => None,
    }
}

/// What tree-sitter yields for `source` with the grammar of `language`:
/// `Err` where `tree_sitter::Parser::set_language` refuses the grammar,
/// `Ok(None)` where `tree_sitter::Parser::parse` returns no tree, and else
/// the tree, node for node, with the span of the child that each node has in
/// the field `field`.
pub uninterp spec fn parser_tree(source: Seq<u8>, language: LanguageTag, field: Seq<char>) -> Result<
    Option<RawView>,
    (),
>;

/// What `tree_sitter::Node` tells of a node, as plain values: `kind`,
/// `start_byte`, `end_byte`, `is_extra`, the span of `child_by_field_name`,
/// and the same of each of `children`, in order. It changes types only, and
/// claims nothing; `parse_raw` names the whole.
#[verifier::external_body]
fn raw_node(node: tree_sitter::Node, field: &str) -> RawNode {
    let mut cursor = node.walk();
    RawNode {
        kind: node.kind().as_bytes().to_vec(),
        start_byte: node.start_byte(),
        end_byte: node.end_byte(),
        extra: node.is_extra(),
        name_span: node.child_by_field_name(field).map(|name| (name.start_byte(), name.end_byte())),
        children: node.children(&mut cursor).map(|child| raw_node(child, field)).collect(),
    }
}

/// Parses `source` with tree-sitter: `Parser::new`, `Parser::set_language`
/// with the grammar crate of `language`, `Parser::parse`, and
/// `Tree::root_node`, whose nodes are handed out as plain values. The
/// contract names the outcome `parser_tree`; it claims no more than that the
/// outcome is determined by the text, the language and the field.
#[verifier::external_body]
fn parse_raw(source: &[u8], language: LanguageTag, field: &str) -> (raw: Result<
    Option<RawNode>,
    tree_sitter::LanguageError,
>)
    ensures
        match raw {
            Ok(tree) => parser_tree(source@, language, field@) == Ok::<_, ()>(raw_tree_view(tree)),
            Err(_) => parser_tree(source@, language, field@) is Err,
        },
{
    let grammar = match language {
        LanguageTag::Rust => tree_sitter::Language::new(tree_sitter_rust::LANGUAGE),
        LanguageTag::Python => tree_sitter::Language::new(tree_sitter_python::LANGUAGE),
        LanguageTag::Ruby => tree_sitter::Language::new(tree_sitter_ruby::LANGUAGE),
    };
    let mut parser = tree_sitter::Parser::new();
    parser.set_language(&grammar)?;
    Ok(parser.parse(source, None).map(|tree| raw_node(tree.root_node(), field)))
}

/// The name field `[start, end)` lies within the span `[node_start,
/// node_end)` of its node and within a text of `len` bytes.
pub open spec fn name_lies_within(start: int, end: int, node_start: int, node_end: int, len: int) -> bool {
    node_start <= start <= end <= node_end && end <= len
}

impl RawView {
    /// Every name field of the reported tree lies within its node and
    /// within a text of `len` bytes.
    pub open spec fn well_named(self, len: int) -> bool
        decreases self,
    {
        &&& match self.name_span {
            Some((start, end)) => name_lies_within(start, end, self.start, self.end, len),
            None => true,
        }
        &&& forall|i: int|
            0 <= i < self.children.len() ==> (#[trigger] self.children[i]).well_named(len)
    }

    /// The syntax tree that a reported tree stands for over `source`: node
    /// for node the same, with the name of each node cut from `source` at
    /// the span of its name field.
    pub open spec fn named(self, source: Seq<u8>) -> TreeView
        decreases self,
    {
        TreeView {
            kind: self.kind,
            start: self.start,
            end: self.end,
            name: match self.name_span {
                Some((start, end)) => Some(source.subrange(start, end)),
                None => None,
            },
            extra: self.extra,
            children: Seq::new(
                self.children.len(),
                |i: int|
                    if 0 <= i < self.children.len() {
                        self.children[i].named(source)
                    } else {
                        arbitrary()
                    },
            ),
        }
    }
}

/// The syntax tree of `source` in `language`, or why there is none: the
/// tree that the parser yields, with its names cut from `source`, if every
/// name field lies within its node and the spans nest within `source`.
pub open spec fn parsed_tree(source: Seq<u8>, language: LanguageTag) -> Result<
    TreeView,
    ParseFailure,
> {
    match parser_tree(source, language, "name"@) {
        Err(_) => Err(ParseFailure::LanguageRejected),
        Ok(None) => Err(ParseFailure::NoTree),
        Ok(Some(raw)) => if raw.well_named(source.len() as int) && raw.named(source).fits(
            source.len() as int,
        ) {
            Ok(raw.named(source))
        } else {
            Err(ParseFailure::Malformed)
        },
    }
}

/// Makes one node of what the parser reports of it: its kind, its span,
/// whether it is an extra, the span of its name field (if it has one), and
/// the copies of its children. The name is the text of `source` that the
/// name field spans. A name field that does not lie within the span of its
/// node, or not within `source`, makes the tree malformed.
pub fn assemble(
    kind: Vec<u8>,
    start_byte: usize,
    end_byte: usize,
    extra: bool,
    name_span: Option<(usize, usize)>,
    children: Vec<SyntaxNode>,
    source: &[u8],
) -> (assembled: Result<SyntaxNode, ParseFailure>)
    ensures
        match assembled {
            Ok(node) => {
                &&& node.kind == kind
                &&& node.start_byte == start_byte
                &&& node.end_byte == end_byte
                &&& node.extra == extra
                &&& node.children == children
                &&& match name_span {
                    Some((start, end)) => {
                        &&& name_lies_within(
                            start as int,
                            end as int,
                            start_byte as int,
                            end_byte as int,
                            source@.len() as int,
                        )
                        &&& node.name matches Some(name)
                        &&& name@ == source@.subrange(start as int, end as int)
                    },
                    None => node.name is None,
                }
            },
            Err(failure) => {
                &&& failure == ParseFailure::Malformed
                &&& name_span matches Some((start, end))
                &&& !name_lies_within(
                    start as int,
                    end as int,
                    start_byte as int,
                    end_byte as int,
                    source@.len() as int,
                )
            },
        },
{
    let name = match name_span {
        Some((start, end)) => {
            if start_byte <= start && start <= end && end <= end_byte && end <= source.len() {
                Some(slice_copy(source, start, end))
            } else {
                return Err(ParseFailure::Malformed);
            }
        },
        None => None,
    };
    Ok(SyntaxNode { kind, start_byte, end_byte, name, extra, children })
}

/// Makes the syntax tree of a reported tree: each node is assembled of what
/// is reported of it, its name cut from `source`. The tree is malformed if
/// and only if some name field does not lie within its node and within
/// `source`.
pub fn copy_node(raw: &RawNode, source: &[u8]) -> (copied: Result<SyntaxNode, ParseFailure>)
    ensures
        match copied {
            Ok(copy) => {
                &&& raw@.well_named(source@.len() as int)
                &&& copy@ == raw@.named(source@)
                &&& copy@.names_within(source@)
            },
            Err(failure) => failure == ParseFailure::Malformed && !raw@.well_named(
                source@.len() as int,
            ),
        },
    decreases raw,
{
    let mut children: Vec<SyntaxNode> = Vec::new();
    let mut index: usize = 0;
    while index < raw.children.len()
        invariant
            index <= raw.children.len(),
            children@.len() == index,
            forall|k: int|
                0 <= k < index ==> {
                    &&& (#[trigger] raw@.children[k]).well_named(source@.len() as int)
                    &&& children@[k]@ == raw@.children[k].named(source@)
                    &&& children@[k]@.names_within(source@)
                },
        decreases raw.children.len() - index,
    {
        proof {
            raw.lemma_child_view(index as int);
        }
        match copy_node(&raw.children[index], source) {
            Ok(copy) => children.push(copy),
            Err(failure) => {
                return Err(failure);
            },
        }
        index += 1;
    }
    let kind = slice_copy(raw.kind.as_slice(), 0, raw.kind.len());
    assert(kind@ =~= raw.kind@);
    let assembled = assemble(
        kind,
        raw.start_byte,
        raw.end_byte,
        raw.extra,
        raw.name_span,
        children,
        source,
    );
    proof {
        if assembled is Ok {
            let copy = assembled->Ok_0;
            assert forall|i: int| 0 <= i < copy@.children.len() implies (
            #[trigger] copy@.children[i]) == raw@.children[i].named(source@)
                && copy@.children[i].names_within(source@) by {
                copy.lemma_child_view(i);
            }
            assert(copy@.children =~= raw@.named(source@).children);
            if raw.name_span is Some {
                copy@.lemma_holds_name_at(source@, raw.name_span->Some_0.0 as int);
            } else {
                assert(copy@.name is None);
                assert(copy@.holds_name(source@));
            }
            assert(copy@ == raw@.named(source@));
        }
    }
    assembled
}

/// Parses `source` with the grammar of `language` and returns its syntax
/// tree: see `parsed_tree`. A tree that is handed out has spans that nest
/// and lie within `source`, and each name in it stands in `source` within
/// the span of its node.
pub fn parse_source(source: &[u8], language: LanguageTag) -> (parsed: Result<
    SyntaxNode,
    ParseFailure,
>)
    ensures
        match parsed_tree(source@, language) {
            Ok(tree) => parsed matches Ok(root) && root@ == tree,
            Err(failure) => parsed == Err::<SyntaxNode, _>(failure),
        },
        parsed matches Ok(root) ==> root@.fits(source@.len() as int) && root@.names_within(
            source@,
        ),
{
    match parse_raw(source, language, name_field()) {
        Err(_) => Err(ParseFailure::LanguageRejected),
        Ok(None) => Err(ParseFailure::NoTree),
        Ok(Some(raw)) => checked_copy(copy_node(&raw, source), source.len()),
    }
}

/// What becomes of the tree made of the parser's: a failure to make it is
/// passed on; a tree is handed out if its spans nest and lie within a text
/// of `len` bytes, and is reported as malformed if they do not.
pub fn checked_copy(copied: Result<SyntaxNode, ParseFailure>, len: usize) -> (checked: Result<
    SyntaxNode,
    ParseFailure,
>)
    ensures
        match copied {
            Ok(copy) => if copy@.fits(len as int) {
                checked == Ok::<_, ParseFailure>(copy)
            } else {
                checked == Err::<SyntaxNode, _>(ParseFailure::Malformed)
            },
            Err(failure) => checked == Err::<SyntaxNode, _>(failure),
        },
{
    match copied {
        Ok(copy) => checked_tree(copy, len),
        Err(failure) => Err(failure),
    }
}

/// Hands a copied tree out if its spans nest and lie within a text of `len`
/// bytes, and reports it as malformed if they do not.
pub fn checked_tree(root: SyntaxNode, len: usize) -> (checked: Result<SyntaxNode, ParseFailure>)
    ensures
        match checked {
            Ok(tree) => tree == root && root@.fits(len as int),
            Err(failure) => failure == ParseFailure::Malformed && !root@.fits(len as int),
        },
{
    if root.check_fits(len) {
        Ok(root)
    } else {
        Err(ParseFailure::Malformed)
    }
}

} // verus!
