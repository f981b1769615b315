//! The syntax tree the engine works on: typed nodes with byte spans, an
//! optional name and ordered children, together with its mathematical model.

use vstd::prelude::*;
use crate::search::{first_index, last_index, lemma_first_index, lemma_last_index};
use crate::text::{occurs_at, slice_copy};

verus! {

/// The mathematical model of a syntax tree node.
pub struct TreeView {
    pub kind: Seq<u8>,
    pub start: int,
    pub end: int,
    pub name: Option<Seq<u8>>,
    pub extra: bool,
    pub children: Seq<TreeView>,
}

/// A node of a parsed document. `start_byte..end_byte` is the span of the
/// node in the text the tree was parsed from; `name` is the text of the
/// node's name field, where it has one; `extra` marks nodes, such as
/// comments, that the grammar allows anywhere.
#[derive(Debug)]
pub struct SyntaxNode {
    pub kind: Vec<u8>,
    pub start_byte: usize,
    pub end_byte: usize,
    pub name: Option<Vec<u8>>,
    pub extra: bool,
    pub children: Vec<SyntaxNode>,
}

/// The model of an optional byte string.
pub open spec fn opt_view(bytes: Option<Vec<u8>>) -> Option<Seq<u8>> {
    match bytes {
        Some(b) => Some(b@),
        None => None,
    }
}

/// The model of a node: its own fields by their views, and the models of
/// its children in order.
pub open spec fn tree_of(node: SyntaxNode) -> TreeView
    decreases node,
{
    TreeView {
        kind: node.kind@,
        start: node.start_byte as int,
        end: node.end_byte as int,
        name: opt_view(node.name),
        extra: node.extra,
        children: Seq::new(
            node.children@.len(),
            |i: int|
                if 0 <= i < node.children@.len() {
                    tree_of(node.children@[i])
                } else {
                    arbitrary()
                },
        ),
    }
}

impl View for SyntaxNode {
    type V = TreeView;

    open spec fn view(&self) -> TreeView {
        tree_of(*self)
    }
}

impl TreeView {
    /// The span of the node as a pair.
    pub open spec fn span(self) -> (int, int) {
        (self.start, self.end)
    }

    /// Spans are ordered and nest: a node's span is a range, each child lies
    /// within its parent, and siblings follow one another in source order
    /// without overlapping.
    pub open spec fn well_formed(self) -> bool
        decreases self,
    {
        &&& 0 <= self.start <= self.end
        &&& forall|i: int|
            0 <= i < self.children.len() ==> {
                &&& (#[trigger] self.children[i]).well_formed()
                &&& self.start <= self.children[i].start
                &&& self.children[i].end <= self.end
            }
        &&& forall|i: int, j: int|
            0 <= i < j < self.children.len() ==> (#[trigger] self.children[i]).end <= (
            #[trigger] self.children[j]).start
    }

    /// The tree is well formed and lies within a text of `len` bytes.
    pub open spec fn fits(self, len: int) -> bool {
        self.well_formed() && self.end <= len
    }

    /// The node's name, if it has one, stands in `source` within the node's
    /// own span.
    pub open spec fn holds_name(self, source: Seq<u8>) -> bool {
        match self.name {
            Some(name) => exists|at: int|
                self.start <= at && at + name.len() <= self.end && #[trigger] occurs_at(
                    source,
                    at,
                    name,
                ),
            None => true,
        }
    }

    /// A node whose name occurs in `source` at `at`, within the node's span,
    /// holds its name.
    pub proof fn lemma_holds_name_at(self, source: Seq<u8>, at: int)
        requires
            self.name is Some,
            self.start <= at,
            at + self.name->Some_0.len() <= self.end,
            occurs_at(source, at, self.name->Some_0),
        ensures
            self.holds_name(source),
    {
    }

    /// Every name in the tree is text of `source` within its node: each node
    /// that has a name holds it within its own span.
    pub open spec fn names_within(self, source: Seq<u8>) -> bool
        decreases self,
    {
        &&& self.holds_name(source)
        &&& forall|i: int|
            0 <= i < self.children.len() ==> (#[trigger] self.children[i]).names_within(source)
    }

    /// `path` leads from this node down to one of its descendants (or, when
    /// empty, to the node itself), each entry being a child index.
    pub open spec fn has_path(self, path: Seq<int>) -> bool
        decreases path.len(),
    {
        path.len() == 0 || {
            &&& 0 <= path[0] < self.children.len()
            &&& self.children[path[0]].has_path(path.drop_first())
        }
    }

    /// The node that `path` leads to.
    pub open spec fn at(self, path: Seq<int>) -> TreeView
        decreases path.len(),
    {
        if path.len() == 0 || !(0 <= path[0] < self.children.len()) {
            self
        } else {
            self.children[path[0]].at(path.drop_first())
        }
    }

    /// The path to the first node, in pre-order, of which `wanted` holds: the
    /// node itself if it holds there, else the first hit among its children
    /// from left to right.
    pub open spec fn first_where(self, wanted: spec_fn(TreeView) -> bool) -> Option<Seq<int>>
        decreases self, self.children.len() + 1,
    {
        if wanted(self) {
            Some(Seq::empty())
        } else {
            self.first_below(0, wanted)
        }
    }

    /// The path, from this node, to the first hit in the subtrees of its
    /// children `from`, `from + 1`, ...
    pub open spec fn first_below(self, from: int, wanted: spec_fn(TreeView) -> bool) -> Option<
        Seq<int>,
    >
        decreases self, self.children.len() - from,
    {
        if 0 <= from < self.children.len() {
            match self.children[from].first_where(wanted) {
                Some(path) => Some(seq![from] + path),
                None => self.first_below(from + 1, wanted),
            }
        } else {
            None
        }
    }

    /// The index of the first child at or after `from` of which `wanted`
    /// holds, or the number of children when there is none.
    pub open spec fn first_child(self, from: int, wanted: spec_fn(TreeView) -> bool) -> int {
        first_index(self.children, from, wanted)
    }

    /// The index of the last child before `upto` of which `wanted` holds, or
    /// -1 when there is none.
    pub open spec fn last_child(self, upto: int, wanted: spec_fn(TreeView) -> bool) -> int {
        last_index(self.children, upto, wanted)
    }

    /// `first_child` is the least index at or after `from` where `wanted`
    /// holds.
    pub proof fn lemma_first_child(self, from: int, wanted: spec_fn(TreeView) -> bool)
        requires
            0 <= from <= self.children.len(),
        ensures
            from <= self.first_child(from, wanted) <= self.children.len(),
            self.first_child(from, wanted) < self.children.len() ==> wanted(
                self.children[self.first_child(from, wanted)],
            ),
            forall|k: int|
                from <= k < self.first_child(from, wanted) ==> !wanted(#[trigger] self.children[k]),
    {
        lemma_first_index(self.children, from, wanted);
    }

    /// `last_child` is the greatest index before `upto` where `wanted` holds.
    pub proof fn lemma_last_child(self, upto: int, wanted: spec_fn(TreeView) -> bool)
        requires
            0 <= upto <= self.children.len(),
        ensures
            -1 <= self.last_child(upto, wanted) < upto,
            self.last_child(upto, wanted) >= 0 ==> wanted(
                self.children[self.last_child(upto, wanted)],
            ),
            forall|k: int|
                self.last_child(upto, wanted) < k < upto ==> !wanted(#[trigger] self.children[k]),
    {
        lemma_last_index(self.children, upto, wanted);
    }
}

impl SyntaxNode {
    /// A node from its parts; `kind` and `name` are copied.
    pub fn new(
        kind: &[u8],
        start_byte: usize,
        end_byte: usize,
        name: Option<&[u8]>,
        extra: bool,
        children: Vec<SyntaxNode>,
    ) -> (node: SyntaxNode)
        ensures
            node.kind@ == kind@,
            node.start_byte == start_byte,
            node.end_byte == end_byte,
            match name {
                Some(n) => node.name matches Some(m) && m@ == n@,
                None => node.name is None,
            },
            node.extra == extra,
            node.children == children,
    {
        let name = match name {
            Some(n) => Some(slice_copy(n, 0, n.len())),
            None => None,
        };
        SyntaxNode { kind: slice_copy(kind, 0, kind.len()), start_byte, end_byte, name, extra, children }
    }

    /// The model of the `i`-th child is the `i`-th child of the model.
    pub proof fn lemma_child_view(&self, i: int)
        requires
            0 <= i < self.children@.len(),
        ensures
            self@.children.len() == self.children@.len(),
            self@.children[i] == self.children@[i]@,
    {
    }

    /// Checks at run time that the tree is well formed and lies within a text
    /// of `len` bytes.
    pub fn check_fits(&self, len: usize) -> (ok: bool)
        ensures
            ok == self@.fits(len as int),
    {
        self.check_well_formed() && self.end_byte <= len
    }

    /// Checks at run time that spans are ordered and nest.
    pub fn check_well_formed(&self) -> (ok: bool)
        ensures
            ok == self@.well_formed(),
        decreases self,
    {
        if self.start_byte > self.end_byte {
            return false;
        }
        let mut i: usize = 0;
        let mut floor: usize = self.start_byte;
        while i < self.children.len()
            invariant
                i <= self.children.len(),
                self.start_byte <= floor <= self.end_byte,
                i == 0 ==> floor == self.start_byte,
                i > 0 ==> floor == self@.children[i - 1].end,
                forall|k: int|
                    0 <= k < i ==> {
                        &&& (#[trigger] self@.children[k]).well_formed()
                        &&& self.start_byte <= self@.children[k].start
                        &&& self@.children[k].end <= floor
                    },
                forall|k: int, j: int|
                    0 <= k < j < i ==> (#[trigger] self@.children[k]).end <= (
                    #[trigger] self@.children[j]).start,
            decreases self.children.len() - i,
        {
            let child = &self.children[i];
            proof {
                self.lemma_child_view(i as int);
            }
            if !child.check_well_formed() || child.start_byte < floor || child.end_byte
                > self.end_byte {
                proof {
                    if i > 0 && child.start_byte < floor {
                        assert(self@.children[i - 1].end > self@.children[i as int].start);
                    }
                }
                return false;
            }
            floor = child.end_byte;
            i += 1;
        }
        true
    }
}

} // verus!
