//! The structure locator: a depth-first, pre-order search of the syntax tree
//! for the first structure with a given name, and the laws that hold of what
//! it finds.

use vstd::prelude::*;
use vstd::string::StringSliceAdditionalSpecFns;
use crate::language::{is_structure_kind, structure_kind, LanguageTag};
use crate::splice::join3;
use crate::text::{bytes_eq, occurs_at, slice_copy};
use crate::tree::{SyntaxNode, TreeView};

verus! {

/// What a successful search reports of the structure it found.
#[derive(Debug)]
pub struct StructureDescriptor {
    pub kind: Vec<u8>,
    pub name: Vec<u8>,
    pub start_byte: usize,
    pub end_byte: usize,
}

impl StructureDescriptor {
    /// The descriptor carries the kind, name and span of `tree`.
    pub open spec fn describes(self, tree: TreeView) -> bool {
        &&& self.kind@ == tree.kind
        &&& tree.name == Some(self.name@)
        &&& self.start_byte == tree.start
        &&& self.end_byte == tree.end
    }
}

/// The node is a structure of `language` whose name is exactly `name`.
pub open spec fn is_named(tree: TreeView, language: LanguageTag, name: Seq<u8>) -> bool {
    is_structure_kind(language, tree.kind) && tree.name == Some(name)
}

/// The predicate "is a structure of `language` named `name`".
pub open spec fn named(language: LanguageTag, name: Seq<u8>) -> spec_fn(TreeView) -> bool {
    |tree: TreeView| is_named(tree, language, name)
}

/// The path to the first node, in pre-order, that is a structure named
/// `name`.
pub open spec fn first_match(tree: TreeView, language: LanguageTag, name: Seq<u8>) -> Option<Seq<int>> {
    tree.first_where(named(language, name))
}

/// The span of the structure that the locator finds for `name`.
pub open spec fn located_span(tree: TreeView, language: LanguageTag, name: Seq<u8>) -> Option<
    (int, int),
> {
    match first_match(tree, language, name) {
        Some(path) => Some(tree.at(path).span()),
        None => None,
    }
}

/// `a` is a prefix of `b`: the node at `a` is the node at `b` or one of its
/// ancestors.
pub open spec fn is_prefix(a: Seq<int>, b: Seq<int>) -> bool {
    a.len() <= b.len() && b.subrange(0, a.len() as int) == a
}

/// `a` comes before `b` in pre-order: `a` is a proper prefix of `b`, or at
/// the first place where they differ `a` takes the earlier child.
pub open spec fn precedes(a: Seq<int>, b: Seq<int>) -> bool
    decreases a.len(),
{
    if b.len() == 0 {
        false
    } else if a.len() == 0 {
        true
    } else if a[0] != b[0] {
        a[0] < b[0]
    } else {
        precedes(a.drop_first(), b.drop_first())
    }
}

/// Finds the first structure named `struct_name` in the subtree of `node`,
/// searching depth first and in pre-order, and describes it. The match on the
/// name is exact and case-sensitive. The search stops at the first hit.
pub fn find_struct_node(node: &SyntaxNode, struct_name: &[u8], language: LanguageTag) -> (found:
    Option<StructureDescriptor>)
    ensures
        match found {
            Some(d) => first_match(node@, language, struct_name@) matches Some(path)
                && d.describes(node@.at(path)),
            None => first_match(node@, language, struct_name@) is None,
        },
    decreases node,
{
    if structure_kind(language, node.kind.as_slice()) {
        if let Some(name) = &node.name {
            if bytes_eq(name.as_slice(), struct_name) {
                let d = StructureDescriptor {
                    kind: slice_copy(node.kind.as_slice(), 0, node.kind.len()),
                    name: slice_copy(name.as_slice(), 0, name.len()),
                    start_byte: node.start_byte,
                    end_byte: node.end_byte,
                };
                proof {
                    assert(d.kind@ =~= node.kind@);
                    assert(d.name@ =~= name@);
                    assert(node@.at(Seq::empty()) == node@);
                }
                return Some(d);
            }
        }
    }
    let mut i: usize = 0;
    while i < node.children.len()
        invariant
            i <= node.children.len(),
            !is_named(node@, language, struct_name@),
            node@.first_below(0, named(language, struct_name@)) == node@.first_below(
                i as int,
                named(language, struct_name@),
            ),
        decreases node.children.len() - i,
    {
        proof {
            node.lemma_child_view(i as int);
        }
        if let Some(d) = find_struct_node(&node.children[i], struct_name, language) {
            proof {
                let sub = first_match(node@.children[i as int], language, struct_name@)->Some_0;
                assert(node@.first_below(i as int, named(language, struct_name@)) == Some(
                    seq![i as int] + sub,
                ));
                let path = seq![i as int] + sub;
                assert(path.drop_first() =~= sub);
                assert(node@.at(path) == node@.children[i as int].at(sub));
            }
            return Some(d);
        }
        i += 1;
    }
    None
}

/// The span of the first structure named `structure_name`, or `None` when
/// the tree holds no such structure.
pub fn find_structure(node: &SyntaxNode, structure_name: &[u8], language: LanguageTag) -> (span:
    Option<(usize, usize)>)
    ensures
        match span {
            Some((start, end)) => located_span(node@, language, structure_name@) == Some(
                (start as int, end as int),
            ),
            None => located_span(node@, language, structure_name@) is None,
        },
{
    match find_struct_node(node, structure_name, language) {
        Some(d) => Some((d.start_byte, d.end_byte)),
        None => None,
    }
}

/// The models of a list of byte strings.
pub open spec fn names_view(names: Seq<Vec<u8>>) -> Seq<Seq<u8>> {
    names.map_values(|name: Vec<u8>| name@)
}

/// The name of the node, if it is a named structure of `language`.
pub open spec fn own_name(tree: TreeView, language: LanguageTag) -> Seq<Seq<u8>> {
    if is_structure_kind(language, tree.kind) && tree.name is Some {
        seq![tree.name->Some_0]
    } else {
        Seq::empty()
    }
}

/// The names of the named structures of `language` in the tree, in
/// pre-order.
pub open spec fn structure_names(tree: TreeView, language: LanguageTag) -> Seq<Seq<u8>>
    decreases tree, tree.children.len() + 1,
{
    own_name(tree, language) + names_below(tree, 0, language)
}

/// The names of the named structures in the subtrees of the children
/// `from`, `from + 1`, ..., in pre-order.
pub open spec fn names_below(tree: TreeView, from: int, language: LanguageTag) -> Seq<Seq<u8>>
    decreases tree, tree.children.len() - from,
{
    if 0 <= from < tree.children.len() {
        structure_names(tree.children[from], language) + names_below(tree, from + 1, language)
    } else {
        Seq::empty()
    }
}

/// The label of a named node: its kind, a colon and a space, and its name.
pub open spec fn label(tree: TreeView) -> Seq<u8> {
    tree.kind + ": ".spec_bytes() + tree.name->Some_0
}

/// The label of `child`, if it has a name and `wanted` holds of it and its
/// parent.
pub open spec fn own_label(
    parent: TreeView,
    child: TreeView,
    wanted: spec_fn(TreeView, TreeView) -> bool,
) -> Seq<Seq<u8>> {
    if wanted(parent, child) && child.name is Some {
        seq![label(child)]
    } else {
        Seq::empty()
    }
}

/// The labels of the nodes below `tree` that have a name and of which
/// `wanted` holds, together with their parent; in pre-order, from the child
/// `from` on.
pub open spec fn child_labels(
    tree: TreeView,
    from: int,
    wanted: spec_fn(TreeView, TreeView) -> bool,
) -> Seq<Seq<u8>>
    decreases tree, tree.children.len() - from,
{
    if 0 <= from < tree.children.len() {
        own_label(tree, tree.children[from], wanted) + child_labels(tree.children[from], 0, wanted)
            + child_labels(tree, from + 1, wanted)
    } else {
        Seq::empty()
    }
}

/// The predicate "the parent is a structure of `language`".
pub open spec fn under_structure(language: LanguageTag) -> spec_fn(TreeView, TreeView) -> bool {
    |parent: TreeView, child: TreeView| is_structure_kind(language, parent.kind)
}

/// The predicate "the child is a Python function or class definition".
pub open spec fn python_definition() -> spec_fn(TreeView, TreeView) -> bool {
    |parent: TreeView, child: TreeView|
        child.kind == "function_definition".spec_bytes() || child.kind
            == "class_definition".spec_bytes()
}

/// Lists the names of the named structures of `language` in the subtree of
/// `node`, in pre-order, behind what `structures` holds already.
pub fn get_structures(node: &SyntaxNode, language: LanguageTag, structures: &mut Vec<Vec<u8>>)
    ensures
        names_view(final(structures)@) == names_view(old(structures)@) + structure_names(
            node@,
            language,
        ),
    decreases node,
{
    let ghost before = names_view(structures@);
    if structure_kind(language, node.kind.as_slice()) {
        if let Some(name) = &node.name {
            let copy = slice_copy(name.as_slice(), 0, name.len());
            assert(copy@ =~= name@);
            structures.push(copy);
        }
    }
    assert(names_view(structures@) =~= before + own_name(node@, language));
    let mut i: usize = 0;
    while i < node.children.len()
        invariant
            i <= node.children.len(),
            names_view(structures@) + names_below(node@, i as int, language) == before
                + structure_names(node@, language),
        decreases node.children.len() - i,
    {
        proof {
            node.lemma_child_view(i as int);
        }
        let ghost so_far = names_view(structures@);
        get_structures(&node.children[i], language, structures);
        proof {
            let here = structure_names(node@.children[i as int], language);
            let rest = names_below(node@, i + 1, language);
            assert(so_far + (here + rest) =~= names_view(structures@) + rest);
        }
        i += 1;
    }
    assert(names_view(structures@) + Seq::<Seq<u8>>::empty() =~= names_view(structures@));
}

/// The label of a named node: see `label`.
pub fn node_label(node: &SyntaxNode, name: &[u8]) -> (text: Vec<u8>)
    requires
        node@.name == Some(name@),
    ensures
        text@ == label(node@),
{
    join3(node.kind.as_slice(), ": ".as_bytes(), name)
}

/// Lists, as `kind: name`, the named nodes that stand directly below a
/// structure of `language`, throughout the subtree of `node` and in
/// pre-order, behind what `structures` holds already.
pub fn retrieve_structures(node: &SyntaxNode, language: LanguageTag, structures: &mut Vec<Vec<u8>>)
    ensures
        names_view(final(structures)@) == names_view(old(structures)@) + child_labels(
            node@,
            0,
            under_structure(language),
        ),
    decreases node,
{
    let ghost before = names_view(structures@);
    let ghost wanted = under_structure(language);
    let listed = structure_kind(language, node.kind.as_slice());
    assert(names_view(structures@) + Seq::<Seq<u8>>::empty() =~= names_view(structures@));
    let mut i: usize = 0;
    while i < node.children.len()
        invariant
            i <= node.children.len(),
            wanted == under_structure(language),
            listed == is_structure_kind(language, node@.kind),
            names_view(structures@) + child_labels(node@, i as int, wanted) == before
                + child_labels(node@, 0, wanted),
        decreases node.children.len() - i,
    {
        proof {
            node.lemma_child_view(i as int);
        }
        let child = &node.children[i];
        let ghost so_far = names_view(structures@);
        if listed {
            if let Some(name) = &child.name {
                let text = node_label(child, name.as_slice());
                structures.push(text);
            }
        }
        let ghost own = own_label(node@, child@, wanted);
        assert(names_view(structures@) =~= so_far + own);
        retrieve_structures(child, language, structures);
        proof {
            let below = child_labels(child@, 0, wanted);
            let rest = child_labels(node@, i + 1, wanted);
            assert(so_far + (own + below + rest) =~= names_view(structures@) + rest);
        }
        i += 1;
    }
    assert(names_view(structures@) + Seq::<Seq<u8>>::empty() =~= names_view(structures@));
}

/// Lists, as `kind: name`, the function and class definitions of a Python
/// program below `node`, in pre-order, behind what `structures` holds
/// already.
pub fn get_python_structures(node: &SyntaxNode, structures: &mut Vec<Vec<u8>>)
    ensures
        names_view(final(structures)@) == names_view(old(structures)@) + child_labels(
            node@,
            0,
            python_definition(),
        ),
    decreases node,
{
    let ghost before = names_view(structures@);
    let ghost wanted = python_definition();
    assert(names_view(structures@) + Seq::<Seq<u8>>::empty() =~= names_view(structures@));
    let mut i: usize = 0;
    while i < node.children.len()
        invariant
            i <= node.children.len(),
            wanted == python_definition(),
            names_view(structures@) + child_labels(node@, i as int, wanted) == before
                + child_labels(node@, 0, wanted),
        decreases node.children.len() - i,
    {
        proof {
            node.lemma_child_view(i as int);
        }
        let child = &node.children[i];
        let ghost so_far = names_view(structures@);
        if bytes_eq(child.kind.as_slice(), "function_definition".as_bytes()) || bytes_eq(
            child.kind.as_slice(),
            "class_definition".as_bytes(),
        ) {
            if let Some(name) = &child.name {
                let text = node_label(child, name.as_slice());
                structures.push(text);
            }
        }
        let ghost own = own_label(node@, child@, wanted);
        assert(names_view(structures@) =~= so_far + own);
        get_python_structures(child, structures);
        proof {
            let below = child_labels(child@, 0, wanted);
            let rest = child_labels(node@, i + 1, wanted);
            assert(so_far + (own + below + rest) =~= names_view(structures@) + rest);
        }
        i += 1;
    }
    assert(names_view(structures@) + Seq::<Seq<u8>>::empty() =~= names_view(structures@));
}

/// What a pre-order search finds is a node of the tree of which the
/// predicate holds.
pub proof fn lemma_first_where_holds(tree: TreeView, wanted: spec_fn(TreeView) -> bool)
    requires
        tree.first_where(wanted) is Some,
    ensures
        tree.has_path(tree.first_where(wanted)->Some_0),
        wanted(tree.at(tree.first_where(wanted)->Some_0)),
    decreases tree, tree.children.len() + 1,
{
    if !wanted(tree) {
        lemma_first_below_holds(tree, 0, wanted);
    }
}

/// As `lemma_first_where_holds`, for the search among the children.
pub proof fn lemma_first_below_holds(tree: TreeView, from: int, wanted: spec_fn(TreeView) -> bool)
    requires
        tree.first_below(from, wanted) is Some,
    ensures
        tree.has_path(tree.first_below(from, wanted)->Some_0),
        tree.first_below(from, wanted)->Some_0.len() > 0,
        from <= tree.first_below(from, wanted)->Some_0[0],
        wanted(tree.at(tree.first_below(from, wanted)->Some_0)),
    decreases tree, tree.children.len() - from,
{
    match tree.children[from].first_where(wanted) {
        Some(sub) => {
            lemma_first_where_holds(tree.children[from], wanted);
            let path = seq![from] + sub;
            assert(path.drop_first() =~= sub);
        },
        None => {
            lemma_first_below_holds(tree, from + 1, wanted);
        },
    }
}

/// A pre-order search returns the first hit in pre-order: wherever the
/// predicate holds of a node of the tree, the search succeeds, and that node
/// does not come before the one it finds.
pub proof fn lemma_first_where_is_first(tree: TreeView, wanted: spec_fn(TreeView) -> bool, other: Seq<int>)
    requires
        tree.has_path(other),
        wanted(tree.at(other)),
    ensures
        tree.first_where(wanted) is Some,
        !precedes(other, tree.first_where(wanted)->Some_0),
    decreases tree, tree.children.len() + 1,
{
    if !wanted(tree) {
        lemma_first_below_is_first(tree, 0, wanted, other);
    }
}

/// As `lemma_first_where_is_first`, for the search among the children
/// `from`, `from + 1`, ...
pub proof fn lemma_first_below_is_first(
    tree: TreeView,
    from: int,
    wanted: spec_fn(TreeView) -> bool,
    other: Seq<int>,
)
    requires
        0 <= from,
        tree.has_path(other),
        other.len() > 0,
        from <= other[0],
        wanted(tree.at(other)),
    ensures
        tree.first_below(from, wanted) is Some,
        !precedes(other, tree.first_below(from, wanted)->Some_0),
    decreases tree, tree.children.len() - from,
{
    match tree.children[from].first_where(wanted) {
        Some(sub) => {
            let path = seq![from] + sub;
            assert(path.drop_first() =~= sub);
            if other[0] == from {
                lemma_first_where_is_first(tree.children[from], wanted, other.drop_first());
            }
        },
        None => {
            if other[0] == from {
                lemma_first_where_is_first(tree.children[from], wanted, other.drop_first());
            } else {
                lemma_first_below_is_first(tree, from + 1, wanted, other);
            }
        },
    }
}

/// The locator is sound and returns the first match: what it finds is a
/// structure of the tree with the requested name, and no structure with that
/// name comes before it in pre-order.
pub proof fn lemma_locator_finds_first(
    tree: TreeView,
    language: LanguageTag,
    name: Seq<u8>,
    other: Seq<int>,
)
    requires
        tree.has_path(other),
        is_named(tree.at(other), language, name),
    ensures
        first_match(tree, language, name) matches Some(path) && tree.has_path(path) && is_named(
            tree.at(path),
            language,
            name,
        ) && !precedes(other, path),
{
    lemma_first_where_is_first(tree, named(language, name), other);
    lemma_first_where_holds(tree, named(language, name));
}

/// The locator reports "not found" only when no node of the tree is a
/// structure with the requested name.
pub proof fn lemma_locator_not_found(
    tree: TreeView,
    language: LanguageTag,
    name: Seq<u8>,
    other: Seq<int>,
)
    requires
        first_match(tree, language, name) is None,
        tree.has_path(other),
    ensures
        !is_named(tree.at(other), language, name),
{
    if is_named(tree.at(other), language, name) {
        lemma_first_where_is_first(tree, named(language, name), other);
    }
}

/// In a tree whose names stand within their nodes, the same holds of every
/// subtree.
pub proof fn lemma_names_within_below(tree: TreeView, source: Seq<u8>, path: Seq<int>)
    requires
        tree.names_within(source),
        tree.has_path(path),
    ensures
        tree.at(path).names_within(source),
    decreases path.len(),
{
    if path.len() > 0 {
        lemma_names_within_below(tree.children[path[0]], source, path.drop_first());
    }
}

/// A located span holds the name that was asked for: in a tree whose names
/// stand within their nodes, such as every tree that the parser hands out,
/// the requested name occurs in the source within the span of the structure
/// that the locator finds. So the span of a structure with a name that is
/// not empty is not empty.
pub proof fn lemma_located_span_holds_name(
    tree: TreeView,
    source: Seq<u8>,
    language: LanguageTag,
    name: Seq<u8>,
)
    requires
        tree.names_within(source),
        located_span(tree, language, name) is Some,
    ensures
        ({
            let (start, end) = located_span(tree, language, name)->Some_0;
            &&& exists|at: int|
                start <= at && at + name.len() <= end && #[trigger] occurs_at(source, at, name)
            &&& name.len() > 0 ==> start < end
        }),
{
    let path = first_match(tree, language, name)->Some_0;
    lemma_first_where_holds(tree, named(language, name));
    lemma_names_within_below(tree, source, path);
    let found = tree.at(path);
    assert(found.holds_name(source));
    assert(found.name == Some(name));
    let at = choose|at: int|
        found.start <= at && at + name.len() <= found.end && #[trigger] occurs_at(source, at, name);
    assert(found.start <= at && at + name.len() <= found.end && occurs_at(source, at, name));
}

/// In a well-formed tree every node is well formed and lies within each of
/// its ancestors.
pub proof fn lemma_descendant_within(tree: TreeView, path: Seq<int>)
    requires
        tree.well_formed(),
        tree.has_path(path),
    ensures
        tree.at(path).well_formed(),
        tree.start <= tree.at(path).start,
        tree.at(path).end <= tree.end,
    decreases path.len(),
{
    if path.len() > 0 {
        lemma_descendant_within(tree.children[path[0]], path.drop_first());
    }
}

/// Span nesting: the span of a node contains the span of each node below it.
pub proof fn lemma_spans_nest(tree: TreeView, upper: Seq<int>, lower: Seq<int>)
    requires
        tree.well_formed(),
        tree.has_path(lower),
        is_prefix(upper, lower),
    ensures
        tree.has_path(upper),
        tree.at(upper).start <= tree.at(lower).start,
        tree.at(lower).end <= tree.at(upper).end,
    decreases upper.len(),
{
    if upper.len() == 0 {
        lemma_descendant_within(tree, lower);
    } else {
        assert(upper[0] == lower.subrange(0, upper.len() as int)[0]);
        assert(lower.drop_first().subrange(0, upper.len() - 1) =~= upper.drop_first());
        lemma_spans_nest(tree.children[lower[0]], upper.drop_first(), lower.drop_first());
    }
}

/// Span disjointness: in a well-formed tree, two nodes neither of which lies
/// below the other occupy byte ranges that do not overlap.
pub proof fn lemma_spans_disjoint(tree: TreeView, a: Seq<int>, b: Seq<int>)
    requires
        tree.well_formed(),
        tree.has_path(a),
        tree.has_path(b),
        !is_prefix(a, b),
        !is_prefix(b, a),
    ensures
        tree.at(a).end <= tree.at(b).start || tree.at(b).end <= tree.at(a).start,
    decreases a.len(),
{
    assert(a.len() > 0) by {
        if a.len() == 0 {
            assert(b.subrange(0, 0) =~= a);
        }
    }
    assert(b.len() > 0) by {
        if b.len() == 0 {
            assert(a.subrange(0, 0) =~= b);
        }
    }
    if a[0] == b[0] {
        let child = tree.children[a[0]];
        let ra = a.drop_first();
        let rb = b.drop_first();
        assert(!is_prefix(ra, rb)) by {
            if is_prefix(ra, rb) {
                assert(b.subrange(0, a.len() as int) =~= a) by {
                    assert forall|k: int| 0 <= k < a.len() implies b.subrange(
                        0,
                        a.len() as int,
                    )[k] == a[k] by {
                        if k > 0 {
                            assert(rb.subrange(0, ra.len() as int)[k - 1] == ra[k - 1]);
                        }
                    }
                }
            }
        }
        assert(!is_prefix(rb, ra)) by {
            if is_prefix(rb, ra) {
                assert(a.subrange(0, b.len() as int) =~= b) by {
                    assert forall|k: int| 0 <= k < b.len() implies a.subrange(
                        0,
                        b.len() as int,
                    )[k] == b[k] by {
                        if k > 0 {
                            assert(ra.subrange(0, rb.len() as int)[k - 1] == rb[k - 1]);
                        }
                    }
                }
            }
        }
        lemma_spans_disjoint(child, ra, rb);
    } else {
        lemma_descendant_within(tree.children[a[0]], a.drop_first());
        lemma_descendant_within(tree.children[b[0]], b.drop_first());
    }
}

/// Span disjointness of located structures: when the locator finds two
/// structures in one well-formed tree and neither lies inside the other,
/// their byte ranges do not overlap.
pub proof fn lemma_located_spans_disjoint(
    tree: TreeView,
    language: LanguageTag,
    name_a: Seq<u8>,
    name_b: Seq<u8>,
)
    requires
        tree.well_formed(),
        first_match(tree, language, name_a) is Some,
        first_match(tree, language, name_b) is Some,
        !is_prefix(
            first_match(tree, language, name_a)->Some_0,
            first_match(tree, language, name_b)->Some_0,
        ),
        !is_prefix(
            first_match(tree, language, name_b)->Some_0,
            first_match(tree, language, name_a)->Some_0,
        ),
    ensures
        ({
            let (start_a, end_a) = located_span(tree, language, name_a)->Some_0;
            let (start_b, end_b) = located_span(tree, language, name_b)->Some_0;
            end_a <= start_b || end_b <= start_a
        }),
{
    lemma_first_where_holds(tree, named(language, name_a));
    lemma_first_where_holds(tree, named(language, name_b));
    lemma_spans_disjoint(
        tree,
        first_match(tree, language, name_a)->Some_0,
        first_match(tree, language, name_b)->Some_0,
    );
}

} // verus!
