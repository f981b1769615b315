//! The anchor finder: the program's entry point, an existing test container,
//! the last top-level structure, and the leading documentation of a tree.
//! These are the reference points of the edits that insert rather than
//! replace.

use vstd::prelude::*;
use vstd::slice::slice_subrange;
use vstd::string::StringSliceAdditionalSpecFns;
use crate::language::{is_structure_kind, structure_kind, LanguageTag};
use crate::text::{bytes_eq, contains, find};
use crate::tree::{SyntaxNode, TreeView};

verus! {

/// The predicate "has kind `kind`".
pub open spec fn of_kind(kind: Seq<u8>) -> spec_fn(TreeView) -> bool {
    |tree: TreeView| tree.kind == kind
}

/// The predicate "is a structure of `language`".
pub open spec fn structure_of(language: LanguageTag) -> spec_fn(TreeView) -> bool {
    |tree: TreeView| is_structure_kind(language, tree.kind)
}

/// `kind` is a node kind that can be the entry point of a program in
/// `language`: a function in Rust; a function, class or method definition in
/// Python and Ruby.
pub open spec fn is_entry_kind(language: LanguageTag, kind: Seq<u8>) -> bool {
    match language {
        LanguageTag::Rust => kind == "function_item".spec_bytes(),
        _ => {
            ||| kind == "function_definition".spec_bytes()
            ||| kind == "class_definition".spec_bytes()
            ||| kind == "method_definition".spec_bytes()
            ||| kind == "method".spec_bytes()
        },
    }
}

/// The canonical name of the entry point.
pub open spec fn entry_name() -> Seq<u8> {
    "main".spec_bytes()
}

/// The node is an entry point of `language`: one of its entry kinds, with
/// the canonical name.
pub open spec fn is_entry_point(tree: TreeView, language: LanguageTag) -> bool {
    is_entry_kind(language, tree.kind) && tree.name == Some(entry_name())
}

/// The predicate "is an entry point of `language`".
pub open spec fn entry_of(language: LanguageTag) -> spec_fn(TreeView) -> bool {
    |tree: TreeView| is_entry_point(tree, language)
}

/// The kinds of nodes that count as documentation at the head of a file.
pub open spec fn is_doc_kind(kind: Seq<u8>) -> bool {
    ||| kind == "comment".spec_bytes()
    ||| kind == "doc_string".spec_bytes()
    ||| kind == "block_comment".spec_bytes()
    ||| kind == "documentation".spec_bytes()
    ||| kind == "expression_statement".spec_bytes()
}

/// The predicate "is a documentation node".
pub open spec fn doc_node() -> spec_fn(TreeView) -> bool {
    |tree: TreeView| is_doc_kind(tree.kind)
}

/// The predicate "ends the documentation at the head of a file": a node that
/// is neither documentation nor extra.
pub open spec fn ends_docs() -> spec_fn(TreeView) -> bool {
    |tree: TreeView| !is_doc_kind(tree.kind) && !tree.extra
}

/// The bytes of `source` that the node spans.
pub open spec fn node_text(source: Seq<u8>, tree: TreeView) -> Seq<u8> {
    source.subrange(tree.start, tree.end)
}

/// The span of the entry point of `tree`: of the first of its direct
/// children, the top-level declarations, that is an entry point of
/// `language`.
pub open spec fn entry_span(tree: TreeView, language: LanguageTag) -> Option<(int, int)> {
    let first = tree.first_child(0, entry_of(language));
    if first < tree.children.len() {
        Some(tree.children[first].span())
    } else {
        None
    }
}

/// The documentation at the head of a tree: from the start of the first
/// documentation node to the end of the last one, among the children that
/// come before the first child that is neither documentation nor extra.
/// Without such documentation the range is empty, at offset 0.
pub open spec fn leading_doc_range(tree: TreeView) -> (int, int) {
    let stop = tree.first_child(0, ends_docs());
    let first = tree.first_child(0, doc_node());
    let last = tree.last_child(stop, doc_node());
    if first < stop {
        (tree.children[first].start, tree.children[last].end)
    } else {
        (0, 0)
    }
}

/// The end of the run of comments that the children of a tree begin with, or
/// 0 when the first child is no comment.
pub open spec fn leading_comments_end(tree: TreeView) -> int {
    let stop = tree.first_child(0, |t: TreeView| t.kind != "comment".spec_bytes());
    if stop > 0 {
        tree.children[stop - 1].end
    } else {
        0
    }
}

/// The child at `i` is an attribute whose text holds `marker`, and the child
/// after it is a module: the module is a container marked by `marker`.
pub open spec fn is_marked_container(
    tree: TreeView,
    source: Seq<u8>,
    marker: Seq<u8>,
    i: int,
) -> bool {
    &&& 0 <= i
    &&& i + 1 < tree.children.len()
    &&& tree.children[i].kind == "attribute_item".spec_bytes()
    &&& contains(node_text(source, tree.children[i]), marker)
    &&& tree.children[i + 1].kind == "mod_item".spec_bytes()
}

/// The index of the first marker attribute, at or after `from`, that marks a
/// container.
pub open spec fn first_marked_container(
    tree: TreeView,
    source: Seq<u8>,
    marker: Seq<u8>,
    from: int,
) -> Option<int>
    decreases tree.children.len() - from,
{
    if 0 <= from < tree.children.len() {
        if is_marked_container(tree, source, marker, from) {
            Some(from)
        } else {
            first_marked_container(tree, source, marker, from + 1)
        }
    } else {
        None
    }
}

/// The span of the first container marked by `marker` among the children of
/// `tree`.
pub open spec fn container_span(tree: TreeView, source: Seq<u8>, marker: Seq<u8>) -> Option<
    (int, int),
> {
    match first_marked_container(tree, source, marker, 0) {
        Some(i) => Some(tree.children[i + 1].span()),
        None => None,
    }
}

/// The span of the last direct child that is a structure of `language`.
pub open spec fn last_structure_span(tree: TreeView, language: LanguageTag) -> Option<(int, int)> {
    let last = tree.last_child(tree.children.len() as int, structure_of(language));
    if last >= 0 {
        Some(tree.children[last].span())
    } else {
        None
    }
}

/// Kinds of the tokens that close a bracket or end a statement.
pub open spec fn is_terminator_kind(kind: Seq<u8>) -> bool {
    ||| kind == "]".spec_bytes()
    ||| kind == ")".spec_bytes()
    ||| kind == "}".spec_bytes()
    ||| kind == ";".spec_bytes()
}

/// Where to insert in front of the identifier of a node: behind the child
/// that precedes the first identifier (or behind the last child, when there
/// is no identifier) if that child is a terminator, else at the start of the
/// node.
pub open spec fn insert_position(tree: TreeView) -> int {
    let ident = tree.first_child(0, of_kind("identifier".spec_bytes()));
    if ident > 0 && is_terminator_kind(tree.children[ident - 1].kind) {
        tree.children[ident - 1].end
    } else {
        tree.start
    }
}

/// The index of the documentation block of the first function among the
/// children: the last block comment before the first function, or -1 when
/// there is no function or no block comment before it.
pub open spec fn doc_node_index(tree: TreeView) -> int {
    let function = tree.first_child(0, of_kind("function_item".spec_bytes()));
    if function < tree.children.len() {
        tree.last_child(function, of_kind("block_comment".spec_bytes()))
    } else {
        -1
    }
}

/// The range of the block comments in front of the first function among the
/// children (or of all block comments, when there is no function): from the
/// start of the first to the end of the last.
pub open spec fn block_doc_range(tree: TreeView) -> Option<(int, int)> {
    let function = tree.first_child(0, of_kind("function_item".spec_bytes()));
    let first = tree.first_child(0, of_kind("block_comment".spec_bytes()));
    let last = tree.last_child(function, of_kind("block_comment".spec_bytes()));
    if first < function {
        Some((tree.children[first].start, tree.children[last].end))
    } else {
        None
    }
}

/// Is the node's kind one of the entry kinds of `language`, and its name the
/// canonical entry name?
pub fn entry_point(node: &SyntaxNode, language: LanguageTag) -> (hit: bool)
    ensures
        hit == is_entry_point(node@, language),
{
    let kind = node.kind.as_slice();
    let kind_listed = match language {
        LanguageTag::Rust => bytes_eq(kind, "function_item".as_bytes()),
        _ => bytes_eq(kind, "function_definition".as_bytes()) || bytes_eq(
            kind,
            "class_definition".as_bytes(),
        ) || bytes_eq(kind, "method_definition".as_bytes()) || bytes_eq(kind, "method".as_bytes()),
    };
    if !kind_listed {
        return false;
    }
    match &node.name {
        Some(name) => bytes_eq(name.as_slice(), "main".as_bytes()),
        None => false,
    }
}

/// Finds the entry point of the program whose tree is `node`: the first
/// top-level declaration, that is the first direct child of `node`, whose
/// kind is an entry kind of `language` and whose name is `main`. Returns its
/// span.
pub fn find_entry_point(node: &SyntaxNode, language: LanguageTag) -> (span: Option<(usize, usize)>)
    ensures
        match span {
            Some((start, end)) => entry_span(node@, language) == Some((start as int, end as int)),
            None => entry_span(node@, language) is None,
        },
{
    let ghost wanted = entry_of(language);
    let mut i: usize = 0;
    while i < node.children.len()
        invariant
            i <= node.children.len(),
            wanted == entry_of(language),
            node@.first_child(0, wanted) == node@.first_child(i as int, wanted),
        decreases node.children.len() - i,
    {
        proof {
            node.lemma_child_view(i as int);
        }
        let child = &node.children[i];
        if entry_point(child, language) {
            return Some((child.start_byte, child.end_byte));
        }
        i += 1;
    }
    None
}

/// The span of the top-level function `main` of a Rust program.
pub fn find_main_function(node: &SyntaxNode) -> (span: Option<(usize, usize)>)
    ensures
        match span {
            Some((start, end)) => entry_span(node@, LanguageTag::Rust) == Some(
                (start as int, end as int),
            ),
            None => entry_span(node@, LanguageTag::Rust) is None,
        },
{
    find_entry_point(node, LanguageTag::Rust)
}

/// The start of the top-level definition named `main` of a Python or Ruby
/// program.
pub fn find_main_function_start(node: &SyntaxNode) -> (start: Option<usize>)
    ensures
        match start {
            Some(s) => entry_span(node@, LanguageTag::Python) matches Some(span) && span.0 == s,
            None => entry_span(node@, LanguageTag::Python) is None,
        },
{
    match find_entry_point(node, LanguageTag::Python) {
        Some((start, _)) => Some(start),
        None => None,
    }
}

/// Finds an existing container marked by `marker`: the module that follows
/// the first top-level attribute whose text holds `marker`. Returns the
/// module's full span, from its first byte through its closing delimiter.
pub fn find_cfg_test_block(root: &SyntaxNode, source: &[u8], marker: &[u8]) -> (span: Option<
    (usize, usize),
>)
    requires
        root@.fits(source@.len() as int),
    ensures
        match span {
            Some((start, end)) => container_span(root@, source@, marker@) == Some(
                (start as int, end as int),
            ),
            None => container_span(root@, source@, marker@) is None,
        },
{
    let mut i: usize = 0;
    while i < root.children.len()
        invariant
            i <= root.children.len(),
            root@.fits(source@.len() as int),
            first_marked_container(root@, source@, marker@, 0) == first_marked_container(
                root@,
                source@,
                marker@,
                i as int,
            ),
        decreases root.children.len() - i,
    {
        proof {
            root.lemma_child_view(i as int);
        }
        let child = &root.children[i];
        if bytes_eq(child.kind.as_slice(), "attribute_item".as_bytes()) {
            assert(child@.well_formed());
            let text = slice_subrange(source, child.start_byte, child.end_byte);
            if find(text, marker).is_some() && i + 1 < root.children.len() {
                proof {
                    root.lemma_child_view(i + 1);
                }
                let sibling = &root.children[i + 1];
                if bytes_eq(sibling.kind.as_slice(), "mod_item".as_bytes()) {
                    return Some((sibling.start_byte, sibling.end_byte));
                }
            }
        }
        i += 1;
    }
    None
}

/// The span of the last top-level structure of `language`: the fallback
/// anchor when there is no container to insert into.
pub fn find_last_function(root: &SyntaxNode, language: LanguageTag) -> (span: Option<
    (usize, usize),
>)
    ensures
        match span {
            Some((start, end)) => last_structure_span(root@, language) == Some(
                (start as int, end as int),
            ),
            None => last_structure_span(root@, language) is None,
        },
{
    let ghost wanted = structure_of(language);
    let mut last: Option<(usize, usize)> = None;
    let mut i: usize = 0;
    while i < root.children.len()
        invariant
            i <= root.children.len(),
            wanted == structure_of(language),
            -1 <= root@.last_child(i as int, wanted) < i,
            match last {
                Some((start, end)) => root@.last_child(i as int, wanted) >= 0
                    && root@.children[root@.last_child(i as int, wanted)].span() == (
                    start as int,
                    end as int,
                ),
                None => root@.last_child(i as int, wanted) == -1,
            },
        decreases root.children.len() - i,
    {
        proof {
            root.lemma_child_view(i as int);
        }
        let child = &root.children[i];
        if structure_kind(language, child.kind.as_slice()) {
            last = Some((child.start_byte, child.end_byte));
        }
        i += 1;
    }
    last
}

/// Is the node's kind a documentation kind?
pub fn doc_kind(kind: &[u8]) -> (doc: bool)
    ensures
        doc == is_doc_kind(kind@),
{
    bytes_eq(kind, "comment".as_bytes()) || bytes_eq(kind, "doc_string".as_bytes()) || bytes_eq(
        kind,
        "block_comment".as_bytes(),
    ) || bytes_eq(kind, "documentation".as_bytes()) || bytes_eq(
        kind,
        "expression_statement".as_bytes(),
    )
}

/// The range of the documentation at the head of a parsed file, found in the
/// tree: see `leading_doc_range`. An empty range at offset 0 says that there
/// is none, so that new documentation is to be inserted, not substituted.
pub fn find_doc_range_tree_sitter(root: &SyntaxNode) -> (range: (usize, usize))
    ensures
        (range.0 as int, range.1 as int) == leading_doc_range(root@),
{
    let mut doc_start: Option<usize> = None;
    let mut doc_end: usize = 0;
    let mut i: usize = 0;
    while i < root.children.len()
        invariant
            i <= root.children.len(),
            root@.first_child(0, ends_docs()) == root@.first_child(i as int, ends_docs()),
            -1 <= root@.last_child(i as int, doc_node()) < i,
            match doc_start {
                Some(start) => {
                    &&& root@.first_child(0, doc_node()) < i
                    &&& root@.children[root@.first_child(0, doc_node())].start == start
                    &&& root@.last_child(i as int, doc_node()) >= 0
                    &&& root@.children[root@.last_child(i as int, doc_node())].end == doc_end
                },
                None => root@.first_child(0, doc_node()) == root@.first_child(
                    i as int,
                    doc_node(),
                ),
            },
        ensures
            i < root.children.len() ==> ends_docs()(root@.children[i as int]),
        decreases root.children.len() - i,
    {
        proof {
            root.lemma_child_view(i as int);
        }
        let child = &root.children[i];
        if doc_kind(child.kind.as_slice()) {
            if doc_start.is_none() {
                doc_start = Some(child.start_byte);
            }
            doc_end = child.end_byte;
        } else if !child.extra {
            break ;
        }
        i += 1;
    }
    proof {
        root@.lemma_first_child(i as int, ends_docs());
        root@.lemma_first_child(i as int, doc_node());
        root@.lemma_first_child(0, doc_node());
    }
    match doc_start {
        Some(start) => (start, doc_end),
        None => (0, 0),
    }
}

/// The end of the comments that a parsed file begins with, or 0 when it does
/// not begin with a comment.
pub fn find_doc_end_tree_sitter(root: &SyntaxNode) -> (doc_end: usize)
    ensures
        doc_end == leading_comments_end(root@),
{
    let ghost other = |t: TreeView| t.kind != "comment".spec_bytes();
    let mut doc_end: usize = 0;
    let mut i: usize = 0;
    while i < root.children.len()
        invariant
            i <= root.children.len(),
            other == (|t: TreeView| t.kind != "comment".spec_bytes()),
            root@.first_child(0, other) == root@.first_child(i as int, other),
            i == 0 ==> doc_end == 0,
            i > 0 ==> doc_end == root@.children[i - 1].end,
        ensures
            i < root.children.len() ==> other(root@.children[i as int]),
        decreases root.children.len() - i,
    {
        proof {
            root.lemma_child_view(i as int);
        }
        let child = &root.children[i];
        if bytes_eq(child.kind.as_slice(), "comment".as_bytes()) {
            doc_end = child.end_byte;
        } else {
            break ;
        }
        i += 1;
    }
    proof {
        root@.lemma_first_child(i as int, other);
    }
    doc_end
}

/// Does the node close a bracket or end a statement?
pub fn is_terminating_node(node: &SyntaxNode) -> (terminating: bool)
    ensures
        terminating == is_terminator_kind(node@.kind),
{
    let kind = node.kind.as_slice();
    bytes_eq(kind, "]".as_bytes()) || bytes_eq(kind, ")".as_bytes()) || bytes_eq(
        kind,
        "}".as_bytes(),
    ) || bytes_eq(kind, ";".as_bytes())
}

/// Where new text goes in front of the identifier of `node`: see
/// `insert_position`.
pub fn find_insert_position(node: &SyntaxNode) -> (position: usize)
    ensures
        position == insert_position(node@),
{
    let ghost ident = of_kind("identifier".spec_bytes());
    let mut i: usize = 0;
    while i < node.children.len()
        invariant
            i <= node.children.len(),
            ident == of_kind("identifier".spec_bytes()),
            node@.first_child(0, ident) == node@.first_child(i as int, ident),
        ensures
            i < node.children.len() ==> ident(node@.children[i as int]),
        decreases node.children.len() - i,
    {
        proof {
            node.lemma_child_view(i as int);
        }
        if bytes_eq(node.children[i].kind.as_slice(), "identifier".as_bytes()) {
            break ;
        }
        i += 1;
    }
    proof {
        node@.lemma_first_child(i as int, ident);
    }
    if i > 0 {
        proof {
            node.lemma_child_view(i - 1);
        }
        let previous = &node.children[i - 1];
        if is_terminating_node(previous) {
            return previous.end_byte;
        }
    }
    node.start_byte
}

/// The byte at which a structure starts.
pub fn find_struct_start(node: &SyntaxNode) -> (start: usize)
    ensures
        start == node@.start,
{
    node.start_byte
}

/// The documentation block of the first function among the children of
/// `node`: the last block comment in front of it, if there is one.
pub fn find_doc_node(node: &SyntaxNode) -> (doc: Option<&SyntaxNode>)
    ensures
        match doc {
            Some(found) => doc_node_index(node@) >= 0 && found@ == node@.children[doc_node_index(
                node@,
            )],
            None => doc_node_index(node@) == -1,
        },
{
    let ghost function = of_kind("function_item".spec_bytes());
    let ghost block = of_kind("block_comment".spec_bytes());
    let mut previous: Option<&SyntaxNode> = None;
    let mut i: usize = 0;
    while i < node.children.len()
        invariant
            i <= node.children.len(),
            function == of_kind("function_item".spec_bytes()),
            block == of_kind("block_comment".spec_bytes()),
            node@.first_child(0, function) == node@.first_child(i as int, function),
            -1 <= node@.last_child(i as int, block) < i,
            match previous {
                Some(found) => node@.last_child(i as int, block) >= 0 && found@
                    == node@.children[node@.last_child(i as int, block)],
                None => node@.last_child(i as int, block) == -1,
            },
        decreases node.children.len() - i,
    {
        proof {
            node.lemma_child_view(i as int);
        }
        let child = &node.children[i];
        if bytes_eq(child.kind.as_slice(), "function_item".as_bytes()) {
            return previous;
        } else if bytes_eq(child.kind.as_slice(), "block_comment".as_bytes()) {
            previous = Some(child);
        }
        i += 1;
    }
    proof {
        node@.lemma_first_child(i as int, function);
    }
    None
}

/// The range of the block comments in front of the first function among the
/// children of `node`: see `block_doc_range`.
pub fn find_doc_range(node: &SyntaxNode) -> (range: Option<(usize, usize)>)
    ensures
        match range {
            Some((start, end)) => block_doc_range(node@) == Some((start as int, end as int)),
            None => block_doc_range(node@) is None,
        },
{
    let ghost function = of_kind("function_item".spec_bytes());
    let ghost block = of_kind("block_comment".spec_bytes());
    let mut doc_start: Option<usize> = None;
    let mut doc_end: usize = 0;
    let mut i: usize = 0;
    while i < node.children.len()
        invariant
            i <= node.children.len(),
            function == of_kind("function_item".spec_bytes()),
            block == of_kind("block_comment".spec_bytes()),
            node@.first_child(0, function) == node@.first_child(i as int, function),
            -1 <= node@.last_child(i as int, block) < i,
            match doc_start {
                Some(start) => {
                    &&& node@.first_child(0, block) < i
                    &&& node@.children[node@.first_child(0, block)].start == start
                    &&& node@.last_child(i as int, block) >= 0
                    &&& node@.children[node@.last_child(i as int, block)].end == doc_end
                },
                None => node@.first_child(0, block) == node@.first_child(i as int, block),
            },
        ensures
            i < node.children.len() ==> function(node@.children[i as int]),
        decreases node.children.len() - i,
    {
        proof {
            node.lemma_child_view(i as int);
        }
        let child = &node.children[i];
        if bytes_eq(child.kind.as_slice(), "function_item".as_bytes()) {
            break ;
        } else if bytes_eq(child.kind.as_slice(), "block_comment".as_bytes()) {
            if doc_start.is_none() {
                doc_start = Some(child.start_byte);
            }
            doc_end = child.end_byte;
        }
        i += 1;
    }
    proof {
        node@.lemma_first_child(i as int, function);
        node@.lemma_first_child(i as int, block);
        node@.lemma_first_child(0, block);
    }
    match doc_start {
        Some(start) => Some((start, doc_end)),
        None => None,
    }
}

} // verus!
