use rfcu::anchor::{
    find_cfg_test_block, find_doc_end_tree_sitter, find_doc_node, find_doc_range,
    find_doc_range_tree_sitter, find_entry_point, find_insert_position, find_last_function,
    find_main_function, find_main_function_start, find_struct_start, is_terminating_node,
};
use rfcu::language::LanguageTag;
use rfcu::tree::SyntaxNode;

fn node(kind: &str, start: usize, end: usize, name: Option<&str>, children: Vec<SyntaxNode>) -> SyntaxNode {
    SyntaxNode::new(kind.as_bytes(), start, end, name.map(|n| n.as_bytes()), false, children)
}

fn extra(kind: &str, start: usize, end: usize) -> SyntaxNode {
    SyntaxNode::new(kind.as_bytes(), start, end, None, true, vec![])
}

#[test]
fn entry_point_of_a_rust_program_is_the_top_level_function_main() {
    let tree = node("source_file", 0, 90, None, vec![
        node("struct_item", 0, 10, Some("main"), vec![]),
        node("mod_item", 12, 50, Some("m"), vec![
            node("function_item", 20, 40, Some("main"), vec![]),
        ]),
        node("function_item", 52, 90, Some("main"), vec![]),
    ]);
    // a `main` inside a module that stands earlier is no entry point
    assert_eq!(find_main_function(&tree), Some((52, 90)));
    assert_eq!(find_entry_point(&tree, LanguageTag::Rust), Some((52, 90)));
    // no Python or Ruby definition is named main here
    assert_eq!(find_main_function_start(&tree), None);
}

#[test]
fn entry_point_is_searched_among_top_level_declarations_only() {
    let nested_only = node("source_file", 0, 60, None, vec![
        node("mod_item", 0, 50, Some("m"), vec![
            node("function_item", 10, 40, Some("main"), vec![]),
        ]),
    ]);
    assert_eq!(find_main_function(&nested_only), None);
    // the node that the search starts from is not looked at itself
    let tree = node("function_item", 0, 30, Some("main"), vec![]);
    assert_eq!(find_main_function(&tree), None);
    // the first of several top-level entry points is taken
    let twice = node("source_file", 0, 60, None, vec![
        node("function_item", 0, 20, Some("main"), vec![]),
        node("function_item", 30, 60, Some("main"), vec![]),
    ]);
    assert_eq!(find_main_function(&twice), Some((0, 20)));
    let script = node("module", 0, 60, None, vec![
        node("class_definition", 0, 50, Some("App"), vec![
            node("function_definition", 10, 40, Some("main"), vec![]),
        ]),
    ]);
    assert_eq!(find_main_function_start(&script), None);
}

#[test]
fn entry_point_of_a_script_is_a_definition_named_main() {
    for kind in ["function_definition", "class_definition", "method_definition", "method"] {
        let tree = node("module", 0, 60, None, vec![
            node("function_definition", 0, 20, Some("helper"), vec![]),
            node(kind, 22, 60, Some("main"), vec![]),
        ]);
        assert_eq!(find_main_function_start(&tree), Some(22), "{}", kind);
        assert_eq!(find_entry_point(&tree, LanguageTag::Python), Some((22, 60)), "{}", kind);
        assert_eq!(find_entry_point(&tree, LanguageTag::Ruby), Some((22, 60)), "{}", kind);
        assert_eq!(find_entry_point(&tree, LanguageTag::Rust), None, "{}", kind);
    }
}

#[test]
fn entry_point_is_missing_without_main() {
    let tree = node("source_file", 0, 30, None, vec![
        node("function_item", 0, 30, Some("mainly"), vec![]),
    ]);
    assert_eq!(find_main_function(&tree), None);
    assert_eq!(find_main_function(&node("source_file", 0, 0, None, vec![])), None);
}

#[test]
fn test_container_is_the_module_behind_the_marker() {
    let source = b"fn a() {}\n#[cfg(test)]\nmod tests {\n}\n";
    let tree = node("source_file", 0, 37, None, vec![
        node("function_item", 0, 9, Some("a"), vec![]),
        node("attribute_item", 10, 22, None, vec![]),
        node("mod_item", 23, 36, Some("tests"), vec![]),
    ]);
    assert_eq!(&source[10..22], b"#[cfg(test)]");
    assert_eq!(find_cfg_test_block(&tree, source, b"#[cfg(test)]"), Some((23, 36)));
    assert_eq!(find_cfg_test_block(&tree, source, b"#[cfg(bench)]"), None);
}

#[test]
fn marker_must_be_followed_by_a_module() {
    let source = b"#[cfg(test)]\nfn t() {}\n#[cfg(test)]\nmod m {}\n#[cfg(test)]";
    let tree = node("source_file", 0, 58, None, vec![
        node("attribute_item", 0, 12, None, vec![]),
        node("function_item", 13, 22, Some("t"), vec![]),
        node("attribute_item", 23, 35, None, vec![]),
        node("mod_item", 36, 44, Some("m"), vec![]),
        node("attribute_item", 45, 57, None, vec![]),
    ]);
    assert_eq!(find_cfg_test_block(&tree, source, b"#[cfg(test)]"), Some((36, 44)));
    let lone = node("source_file", 0, 12, None, vec![node("attribute_item", 0, 12, None, vec![])]);
    assert_eq!(find_cfg_test_block(&lone, source, b"#[cfg(test)]"), None);
}

#[test]
fn marker_is_searched_in_attributes_only() {
    let source = b"// #[cfg(test)]\nmod m {}\n";
    let tree = node("source_file", 0, 25, None, vec![
        extra("line_comment", 0, 15),
        node("mod_item", 16, 24, Some("m"), vec![]),
    ]);
    assert_eq!(find_cfg_test_block(&tree, source, b"#[cfg(test)]"), None);
}

#[test]
fn last_top_level_structure_is_the_fallback_anchor() {
    let tree = node("source_file", 0, 80, None, vec![
        node("function_item", 0, 10, Some("a"), vec![]),
        node("struct_item", 12, 30, Some("S"), vec![
            node("function_item", 14, 20, Some("nested"), vec![]),
        ]),
        node("use_declaration", 32, 40, None, vec![]),
    ]);
    assert_eq!(find_last_function(&tree, LanguageTag::Rust), Some((12, 30)));
    assert_eq!(find_last_function(&tree, LanguageTag::Python), None);
    assert_eq!(find_last_function(&node("source_file", 0, 0, None, vec![]), LanguageTag::Rust), None);
}

#[test]
fn leading_documentation_spans_the_first_to_the_last_doc_node() {
    let tree = node("source_file", 0, 90, None, vec![
        extra("line_comment", 0, 10),
        node("comment", 12, 20, None, vec![]),
        extra("whatever", 21, 22),
        node("block_comment", 24, 40, None, vec![]),
        node("function_item", 42, 60, Some("f"), vec![]),
        node("comment", 62, 70, None, vec![]),
    ]);
    assert_eq!(find_doc_range_tree_sitter(&tree), (12, 40));
}

#[test]
fn leading_documentation_is_empty_at_zero_without_doc_nodes() {
    let tree = node("source_file", 5, 90, None, vec![
        node("function_item", 42, 60, Some("f"), vec![]),
        node("comment", 62, 70, None, vec![]),
    ]);
    assert_eq!(find_doc_range_tree_sitter(&tree), (0, 0));
    assert_eq!(find_doc_range_tree_sitter(&node("source_file", 0, 0, None, vec![])), (0, 0));
    let only_extras = node("source_file", 0, 30, None, vec![extra("line_comment", 0, 10)]);
    assert_eq!(find_doc_range_tree_sitter(&only_extras), (0, 0));
}

#[test]
fn every_documentation_kind_counts() {
    for kind in ["comment", "doc_string", "block_comment", "documentation", "expression_statement"] {
        let tree = node("module", 0, 50, None, vec![
            node(kind, 3, 20, None, vec![]),
            node("function_definition", 22, 50, Some("f"), vec![]),
        ]);
        assert_eq!(find_doc_range_tree_sitter(&tree), (3, 20), "{}", kind);
    }
}

#[test]
fn leading_comments_end_behind_the_last_of_the_run() {
    let tree = node("source_file", 0, 60, None, vec![
        node("comment", 0, 10, None, vec![]),
        node("comment", 11, 20, None, vec![]),
        node("function_item", 22, 40, Some("f"), vec![]),
        node("comment", 42, 50, None, vec![]),
    ]);
    assert_eq!(find_doc_end_tree_sitter(&tree), 20);
    let none = node("source_file", 0, 60, None, vec![node("function_item", 22, 40, Some("f"), vec![])]);
    assert_eq!(find_doc_end_tree_sitter(&none), 0);
    assert_eq!(find_doc_end_tree_sitter(&node("source_file", 0, 0, None, vec![])), 0);
}

#[test]
fn terminators_are_closing_brackets_and_semicolons() {
    for kind in ["]", ")", "}", ";"] {
        assert!(is_terminating_node(&node(kind, 0, 1, None, vec![])), "{}", kind);
    }
    for kind in ["[", "(", "{", ",", "identifier", "", "}}"] {
        assert!(!is_terminating_node(&node(kind, 0, 1, None, vec![])), "{}", kind);
    }
}

#[test]
fn insert_position_is_behind_a_terminator_in_front_of_the_identifier() {
    let tree = node("item", 10, 50, None, vec![
        node("attribute", 10, 20, None, vec![]),
        node("]", 20, 21, None, vec![]),
        node("identifier", 22, 30, None, vec![]),
        node(";", 30, 31, None, vec![]),
    ]);
    assert_eq!(find_insert_position(&tree), 21);
    let no_terminator = node("item", 10, 50, None, vec![
        node("fn", 10, 12, None, vec![]),
        node("identifier", 13, 20, None, vec![]),
    ]);
    assert_eq!(find_insert_position(&no_terminator), 10);
    let identifier_first = node("item", 10, 50, None, vec![node("identifier", 10, 20, None, vec![])]);
    assert_eq!(find_insert_position(&identifier_first), 10);
    let no_identifier = node("item", 10, 50, None, vec![
        node("block", 10, 40, None, vec![]),
        node("}", 40, 41, None, vec![]),
    ]);
    assert_eq!(find_insert_position(&no_identifier), 41);
    assert_eq!(find_insert_position(&node("item", 7, 9, None, vec![])), 7);
}

#[test]
fn struct_start_is_the_start_of_the_node() {
    assert_eq!(find_struct_start(&node("struct_item", 17, 40, Some("S"), vec![])), 17);
}

#[test]
fn doc_node_is_the_last_block_comment_before_the_first_function() {
    let tree = node("source_file", 0, 90, None, vec![
        node("block_comment", 0, 10, None, vec![]),
        node("block_comment", 12, 20, None, vec![]),
        node("use_declaration", 22, 30, None, vec![]),
        node("function_item", 32, 50, Some("f"), vec![]),
        node("block_comment", 52, 60, None, vec![]),
        node("function_item", 62, 90, Some("g"), vec![]),
    ]);
    let found = find_doc_node(&tree).expect("found");
    assert_eq!((found.start_byte, found.end_byte), (12, 20));
    assert_eq!(find_doc_range(&tree), Some((0, 20)));
}

#[test]
fn doc_node_needs_a_function_and_doc_range_does_not() {
    let tree = node("source_file", 0, 30, None, vec![
        node("block_comment", 0, 10, None, vec![]),
        node("block_comment", 12, 20, None, vec![]),
    ]);
    assert!(find_doc_node(&tree).is_none());
    assert_eq!(find_doc_range(&tree), Some((0, 20)));
    let bare = node("source_file", 0, 30, None, vec![node("function_item", 0, 30, Some("f"), vec![])]);
    assert!(find_doc_node(&bare).is_none());
    assert_eq!(find_doc_range(&bare), None);
}
