//! The splice engine: turning a located range or anchor, an edit kind and
//! new content into the edited text, with every byte outside the affected
//! region kept as it was.

use vstd::prelude::*;
use vstd::string::StringSliceAdditionalSpecFns;
use crate::anchor::{
    container_span, find_cfg_test_block, find_doc_range_tree_sitter, find_last_function,
    last_structure_span, leading_doc_range,
};
use crate::extent::{
    documentation_range, find_documentation_range, lemma_documentation_range_ordered,
};
use crate::language::LanguageTag;
use crate::lines::{trim, trimmed};
use crate::text::{append, slice_copy, splice, spliced};
use crate::tree::{SyntaxNode, TreeView};

verus! {

/// One edit of a document. Exactly one variant is applied per attempt.
#[derive(Debug)]
pub enum EditOperation {
    /// Replace the bytes `[start, end)` by `content`.
    ReplaceRange { start: usize, end: usize, content: Vec<u8> },
    /// Insert `content`, set off by blank lines, behind an anchor.
    InsertAfter { anchor_end: usize, content: Vec<u8> },
    /// Insert `content`, set off by blank lines, in front of an anchor.
    InsertBefore { anchor_start: usize, content: Vec<u8> },
    /// Insert `content` into the container marked by `marker`, or create
    /// that container.
    InsertOrCreateContainer { marker: Vec<u8>, content: Vec<u8> },
}

/// `piece` inserted into `text` at `at`.
pub open spec fn inserted(text: Seq<u8>, at: int, piece: Seq<u8>) -> Seq<u8> {
    spliced(text, at, at, piece)
}

/// Content set off from its surroundings by a blank line on either side.
pub open spec fn separated(content: Seq<u8>) -> Seq<u8> {
    "\n\n".spec_bytes() + content + "\n\n".spec_bytes()
}

/// Content as it is put at the end of an existing container.
pub open spec fn contained(content: Seq<u8>) -> Seq<u8> {
    "\n\n".spec_bytes() + content + "\n".spec_bytes()
}

/// A newly made container that holds `content`, under its marker.
pub open spec fn new_container(marker: Seq<u8>, content: Seq<u8>) -> Seq<u8> {
    "\n\n".spec_bytes() + marker + "\nmod tests {\n".spec_bytes() + content + "\n}\n".spec_bytes()
}

/// Where the closing delimiter of a container with span `[start, end)`
/// stands: at its last byte.
pub open spec fn closing_position(start: int, end: int) -> int {
    if end > start {
        end - 1
    } else {
        end
    }
}

/// The text with `content` put into the container marked by `marker`: just
/// in front of the closing delimiter of an existing container; else as a new
/// container behind the last top-level structure; else as a new container
/// at the end of the text.
pub open spec fn with_container(
    source: Seq<u8>,
    tree: TreeView,
    language: LanguageTag,
    marker: Seq<u8>,
    content: Seq<u8>,
) -> Seq<u8> {
    match container_span(tree, source, marker) {
        Some((start, end)) => inserted(source, closing_position(start, end), contained(content)),
        None => match last_structure_span(tree, language) {
            Some((_, end)) => inserted(source, end, new_container(marker, content)),
            None => inserted(source, source.len() as int, new_container(marker, content)),
        },
    }
}

/// The text after a documentation block has been put above the structure
/// that starts at `struct_start`: in place of the block that stands there,
/// or, where there is none, inserted in front of the structure and set off
/// by blank lines.
pub open spec fn documented(source: Seq<u8>, struct_start: int, doc: Seq<u8>) -> Seq<u8> {
    let (start, end) = documentation_range(source, struct_start);
    if start != end {
        spliced(source, start, end, doc)
    } else {
        inserted(source, struct_start, separated(doc))
    }
}

/// New documentation as it is put at the head of a file that has none.
pub open spec fn headed(doc: Seq<u8>) -> Seq<u8> {
    doc + "\n\n".spec_bytes()
}

/// The text after documentation has been put at the head of the file: in
/// place of the documentation that the tree shows there, or, where there is
/// none, inserted at the very start, followed by a blank line.
pub open spec fn file_documented(source: Seq<u8>, tree: TreeView, doc: Seq<u8>) -> Seq<u8> {
    let (start, end) = leading_doc_range(tree);
    if start != end {
        spliced(source, start, end, doc)
    } else {
        inserted(source, 0, headed(doc))
    }
}

/// A documentation block made of `text`, trimmed, between the opening and
/// the closing marker, each on a line of its own.
pub open spec fn doc_block(text: Seq<u8>) -> Seq<u8> {
    let (start, end) = trimmed(text, 0, text.len() as int);
    "/**\n".spec_bytes() + text.subrange(start, end) + "\n*/".spec_bytes()
}

impl EditOperation {
    /// The offsets of the operation lie within a text of `len` bytes.
    pub open spec fn in_bounds(self, len: int) -> bool {
        match self {
            EditOperation::ReplaceRange { start, end, .. } => start <= end <= len,
            EditOperation::InsertAfter { anchor_end, .. } => anchor_end <= len,
            EditOperation::InsertBefore { anchor_start, .. } => anchor_start <= len,
            EditOperation::InsertOrCreateContainer { .. } => true,
        }
    }

    /// The text that the operation makes of `source`, whose tree is `tree`.
    pub open spec fn applied(self, source: Seq<u8>, tree: TreeView, language: LanguageTag) -> Seq<u8> {
        match self {
            EditOperation::ReplaceRange { start, end, content } => spliced(
                source,
                start as int,
                end as int,
                content@,
            ),
            EditOperation::InsertAfter { anchor_end, content } => inserted(
                source,
                anchor_end as int,
                separated(content@),
            ),
            EditOperation::InsertBefore { anchor_start, content } => inserted(
                source,
                anchor_start as int,
                separated(content@),
            ),
            EditOperation::InsertOrCreateContainer { marker, content } => with_container(
                source,
                tree,
                language,
                marker@,
                content@,
            ),
        }
    }
}

/// Joins three pieces.
pub fn join3(a: &[u8], b: &[u8], c: &[u8]) -> (out: Vec<u8>)
    ensures
        out@ == a@ + b@ + c@,
{
    let mut out = slice_copy(a, 0, a.len());
    assert(out@ =~= a@);
    append(&mut out, b);
    append(&mut out, c);
    out
}

/// Inserts `piece` into `text` at `at`.
pub fn insert_at(text: &[u8], at: usize, piece: &[u8]) -> (out: Vec<u8>)
    requires
        at <= text.len(),
    ensures
        out@ == inserted(text@, at as int, piece@),
{
    splice(text, at, at, piece)
}

/// Puts test functions into the container marked by `marker`: see
/// `with_container`. Insertion never fails for want of an anchor; it falls
/// back to the end of the text.
pub fn insert_test_functions(
    source_code: &[u8],
    root: &SyntaxNode,
    language: LanguageTag,
    marker: &[u8],
    test_functions: &[u8],
) -> (updated: Vec<u8>)
    requires
        root@.fits(source_code@.len() as int),
    ensures
        updated@ == with_container(source_code@, root@, language, marker@, test_functions@),
{
    match find_cfg_test_block(root, source_code, marker) {
        Some((start, end)) => {
            proof {
                lemma_container_within(root@, source_code@, marker@);
            }
            let at = if end > start {
                end - 1
            } else {
                end
            };
            let piece = join3("\n\n".as_bytes(), test_functions, "\n".as_bytes());
            insert_at(source_code, at, piece.as_slice())
        },
        None => {
            let mut piece = join3("\n\n".as_bytes(), marker, "\nmod tests {\n".as_bytes());
            append(&mut piece, test_functions);
            append(&mut piece, "\n}\n".as_bytes());
            match find_last_function(root, language) {
                Some((_, end)) => {
                    proof {
                        lemma_last_structure_within(root@, language);
                    }
                    insert_at(source_code, end, piece.as_slice())
                },
                None => insert_at(source_code, source_code.len(), piece.as_slice()),
            }
        },
    }
}

/// Applies one edit to a text whose tree is `root`. Bytes outside the
/// affected region are reproduced as they are.
pub fn apply(
    source_text: &[u8],
    root: &SyntaxNode,
    language: LanguageTag,
    operation: &EditOperation,
) -> (new_text: Vec<u8>)
    requires
        root@.fits(source_text@.len() as int),
        operation.in_bounds(source_text@.len() as int),
    ensures
        new_text@ == operation.applied(source_text@, root@, language),
{
    match operation {
        EditOperation::ReplaceRange { start, end, content } => splice(
            source_text,
            *start,
            *end,
            content.as_slice(),
        ),
        EditOperation::InsertAfter { anchor_end, content } => {
            let piece = join3("\n\n".as_bytes(), content.as_slice(), "\n\n".as_bytes());
            insert_at(source_text, *anchor_end, piece.as_slice())
        },
        EditOperation::InsertBefore { anchor_start, content } => {
            let piece = join3("\n\n".as_bytes(), content.as_slice(), "\n\n".as_bytes());
            insert_at(source_text, *anchor_start, piece.as_slice())
        },
        EditOperation::InsertOrCreateContainer { marker, content } => insert_test_functions(
            source_text,
            root,
            language,
            marker.as_slice(),
            content.as_slice(),
        ),
    }
}

/// Puts `doc` above the structure that starts at `struct_start`: see
/// `documented`.
pub fn document_structure(source_code: &[u8], struct_start: usize, doc: &[u8]) -> (updated: Vec<u8>)
    requires
        struct_start <= source_code@.len(),
    ensures
        updated@ == documented(source_code@, struct_start as int, doc@),
{
    let (start, end) = find_documentation_range(source_code, struct_start);
    if start != end {
        splice(source_code, start, end, doc)
    } else {
        let piece = join3("\n\n".as_bytes(), doc, "\n\n".as_bytes());
        insert_at(source_code, struct_start, piece.as_slice())
    }
}

/// Puts `doc` at the head of the file: see `file_documented`.
pub fn document_file(source_code: &[u8], root: &SyntaxNode, doc: &[u8]) -> (updated: Vec<u8>)
    requires
        root@.fits(source_code@.len() as int),
    ensures
        updated@ == file_documented(source_code@, root@, doc@),
{
    let (start, end) = find_doc_range_tree_sitter(root);
    if start != end {
        proof {
            lemma_leading_docs_within(root@);
        }
        splice(source_code, start, end, doc)
    } else {
        let mut piece = slice_copy(doc, 0, doc.len());
        assert(piece@ =~= doc@);
        append(&mut piece, "\n\n".as_bytes());
        insert_at(source_code, 0, piece.as_slice())
    }
}

/// Writes `improved_structure` as the documentation block of the structure
/// with span `struct_range`: the text is trimmed and set between the block
/// markers, and the block takes the place of the documentation range above
/// the structure (which is empty, at the structure's start, where there is
/// none).
pub fn update_documentation(
    source_code: &[u8],
    struct_range: (usize, usize),
    improved_structure: &[u8],
) -> (updated: Vec<u8>)
    requires
        struct_range.0 <= source_code@.len(),
    ensures
        updated@ == ({
            let (start, end) = documentation_range(source_code@, struct_range.0 as int);
            spliced(source_code@, start, end, doc_block(improved_structure@))
        }),
{
    let (lo, hi) = trim(improved_structure, 0, improved_structure.len());
    let body = vstd::slice::slice_subrange(improved_structure, lo, hi);
    let doc_comment = join3("/**\n".as_bytes(), body, "\n*/".as_bytes());
    let (start, end) = find_documentation_range(source_code, struct_range.0);
    splice(source_code, start, end, doc_comment.as_slice())
}

/// A marked container lies within the text of its tree.
pub proof fn lemma_container_within(tree: TreeView, source: Seq<u8>, marker: Seq<u8>)
    requires
        tree.well_formed(),
        container_span(tree, source, marker) is Some,
    ensures
        ({
            let (start, end) = container_span(tree, source, marker)->Some_0;
            tree.start <= start <= end <= tree.end
        }),
{
    lemma_first_marked_container(tree, source, marker, 0);
    let i = crate::anchor::first_marked_container(tree, source, marker, 0)->Some_0;
    assert(tree.children[i + 1].well_formed());
}

/// The first marked container, where there is one, is an index of a child
/// that has a next sibling.
pub proof fn lemma_first_marked_container(tree: TreeView, source: Seq<u8>, marker: Seq<u8>, from: int)
    requires
        0 <= from,
        crate::anchor::first_marked_container(tree, source, marker, from) is Some,
    ensures
        ({
            let i = crate::anchor::first_marked_container(tree, source, marker, from)->Some_0;
            from <= i && i + 1 < tree.children.len()
        }),
    decreases tree.children.len() - from,
{
    if !crate::anchor::is_marked_container(tree, source, marker, from) {
        lemma_first_marked_container(tree, source, marker, from + 1);
    }
}

/// The last top-level structure lies within the text of its tree.
pub proof fn lemma_last_structure_within(tree: TreeView, language: LanguageTag)
    requires
        tree.well_formed(),
        last_structure_span(tree, language) is Some,
    ensures
        ({
            let (start, end) = last_structure_span(tree, language)->Some_0;
            tree.start <= start <= end <= tree.end
        }),
{
    tree.lemma_last_child(tree.children.len() as int, crate::anchor::structure_of(language));
    let last = tree.last_child(tree.children.len() as int, crate::anchor::structure_of(language));
    assert(tree.children[last].well_formed());
}

/// The documentation at the head of a well-formed tree is a range within
/// the tree.
pub proof fn lemma_leading_docs_within(tree: TreeView)
    requires
        tree.well_formed(),
    ensures
        0 <= leading_doc_range(tree).0 <= leading_doc_range(tree).1 <= tree.end,
{
    let stop = tree.first_child(0, crate::anchor::ends_docs());
    let first = tree.first_child(0, crate::anchor::doc_node());
    tree.lemma_first_child(0, crate::anchor::ends_docs());
    tree.lemma_first_child(0, crate::anchor::doc_node());
    tree.lemma_last_child(stop, crate::anchor::doc_node());
    if first < stop {
        let last = tree.last_child(stop, crate::anchor::doc_node());
        assert(first <= last) by {
            if last < first {
                assert(!crate::anchor::doc_node()(tree.children[first]));
            }
        }
        assert(tree.children[first].well_formed());
        assert(tree.children[last].well_formed());
        if first < last {
            assert(tree.children[first].end <= tree.children[last].start);
        }
    }
}

/// Outside-range preservation: a replacement reproduces the text in front
/// of the range and the text behind it byte for byte, and holds the new
/// content between them.
pub proof fn lemma_replace_preserves_outside(
    source: Seq<u8>,
    start: int,
    end: int,
    content: Seq<u8>,
)
    requires
        0 <= start <= end <= source.len(),
    ensures
        ({
            let new_text = spliced(source, start, end, content);
            &&& new_text.len() == source.len() - (end - start) + content.len()
            &&& new_text.subrange(0, start) == source.subrange(0, start)
            &&& new_text.subrange(start, start + content.len()) == content
            &&& new_text.subrange(start + content.len(), new_text.len() as int) == source.subrange(
                end,
                source.len() as int,
            )
        }),
{
    let new_text = spliced(source, start, end, content);
    assert(new_text.subrange(0, start) =~= source.subrange(0, start));
    assert(new_text.subrange(start, start + content.len()) =~= content);
    assert(new_text.subrange(start + content.len(), new_text.len() as int) =~= source.subrange(
        end,
        source.len() as int,
    ));
}

/// Replacing a range by the content that it already holds changes nothing.
pub proof fn lemma_replace_by_same(text: Seq<u8>, start: int, content: Seq<u8>)
    requires
        0 <= start,
        start + content.len() <= text.len(),
        text.subrange(start, start + content.len()) == content,
    ensures
        spliced(text, start, start + content.len(), content) == text,
{
    assert(spliced(text, start, start + content.len(), content) =~= text);
}

/// Where a documentation block stands after `documented` has put it above
/// the structure at `struct_start`.
pub open spec fn documented_at(source: Seq<u8>, struct_start: int) -> int {
    let (start, end) = documentation_range(source, struct_start);
    if start != end {
        start
    } else {
        struct_start + 2
    }
}

/// Where the structure starts after `documented` has put `doc` above it.
pub open spec fn documented_struct_start(source: Seq<u8>, struct_start: int, doc: Seq<u8>) -> int {
    let (start, end) = documentation_range(source, struct_start);
    if start != end {
        struct_start - (end - start) + doc.len()
    } else {
        struct_start + doc.len() + 4
    }
}

/// Documentation replacement is idempotent: when the block that a first run
/// has written is found again as the documentation of the structure, a
/// second run with the same content leaves the text as the first run left
/// it. The block is replaced, never appended once more.
pub proof fn lemma_documentation_idempotent(source: Seq<u8>, struct_start: int, doc: Seq<u8>)
    requires
        0 <= struct_start <= source.len(),
        doc.len() > 0,
        ({
            let once = documented(source, struct_start, doc);
            let at = documented_at(source, struct_start);
            documentation_range(once, documented_struct_start(source, struct_start, doc)) == (
                at,
                at + doc.len(),
            )
        }),
    ensures
        ({
            let once = documented(source, struct_start, doc);
            documented(once, documented_struct_start(source, struct_start, doc), doc) == once
        }),
{
    let once = documented(source, struct_start, doc);
    let at = documented_at(source, struct_start);
    let (start, end) = documentation_range(source, struct_start);
    lemma_documentation_range_ordered(source, struct_start);
    reveal_strlit("\n\n");
    vstd::string::is_ascii_spec_bytes("\n\n");
    if start != end {
        lemma_replace_preserves_outside(source, start, end, doc);
    } else {
        lemma_replace_preserves_outside(source, struct_start, struct_start, separated(doc));
        assert(once.subrange(at, at + doc.len()) =~= doc);
    }
    lemma_replace_by_same(once, at, doc);
}

/// Where the documentation stands after `file_documented` has put it at
/// the head of the file.
pub open spec fn file_documented_at(tree: TreeView) -> int {
    let (start, end) = leading_doc_range(tree);
    if start != end {
        start
    } else {
        0
    }
}

/// Whole-file documentation replacement is idempotent: when the tree of the
/// text that a first run has produced shows the documentation just written
/// as the documentation at its head, a second run with the same content
/// leaves the text as it is.
pub proof fn lemma_file_documentation_idempotent(
    source: Seq<u8>,
    tree: TreeView,
    doc: Seq<u8>,
    tree_after: TreeView,
)
    requires
        tree.well_formed(),
        tree.end <= source.len(),
        doc.len() > 0,
        leading_doc_range(tree_after) == (
            file_documented_at(tree),
            file_documented_at(tree) + doc.len(),
        ),
    ensures
        ({
            let once = file_documented(source, tree, doc);
            file_documented(once, tree_after, doc) == once
        }),
{
    let once = file_documented(source, tree, doc);
    let (start, end) = leading_doc_range(tree);
    lemma_leading_docs_within(tree);
    if start != end {
        lemma_replace_preserves_outside(source, start, end, doc);
    } else {
        lemma_replace_preserves_outside(source, 0, 0, headed(doc));
        assert(once.subrange(0, doc.len() as int) =~= doc);
    }
    lemma_replace_by_same(once, file_documented_at(tree), doc);
}

} // verus!
