use rfcu::language::LanguageTag;
use rfcu::splice::{
    apply, document_file, document_structure, insert_at, insert_test_functions, join3,
    update_documentation, EditOperation,
};
use rfcu::tree::SyntaxNode;

fn node(kind: &str, start: usize, end: usize, name: Option<&str>, children: Vec<SyntaxNode>) -> SyntaxNode {
    SyntaxNode::new(kind.as_bytes(), start, end, name.map(|n| n.as_bytes()), false, children)
}

fn empty_tree(len: usize) -> SyntaxNode {
    node("source_file", 0, len, None, vec![])
}

fn text(bytes: &[u8]) -> String {
    String::from_utf8(bytes.to_vec()).unwrap()
}

#[test]
fn replace_range_keeps_every_byte_outside_the_range() {
    let source = b"  fn old() {}  \n\ttail\n";
    let content = b"fn new() { 1 }".to_vec();
    let operation = EditOperation::ReplaceRange { start: 2, end: 13, content: content.clone() };
    let new_text = apply(source, &empty_tree(source.len()), LanguageTag::Rust, &operation);
    assert_eq!(text(&new_text), "  fn new() { 1 }  \n\ttail\n");
    assert_eq!(&new_text[..2], &source[..2]);
    assert_eq!(&new_text[2 + content.len()..], &source[13..]);
    assert_eq!(&new_text[2..2 + content.len()], &content[..]);
}

#[test]
fn replace_range_preserves_outside_for_every_range_of_a_sample() {
    let source = b"abcdefgh";
    let content = b"XYZ";
    for start in 0..=source.len() {
        for end in start..=source.len() {
            let operation = EditOperation::ReplaceRange { start, end, content: content.to_vec() };
            let new_text = apply(source, &empty_tree(8), LanguageTag::Rust, &operation);
            assert_eq!(new_text.len(), source.len() - (end - start) + content.len());
            assert_eq!(&new_text[..start], &source[..start]);
            assert_eq!(&new_text[start + content.len()..], &source[end..]);
        }
    }
}

#[test]
fn replace_range_with_empty_range_inserts_and_with_empty_content_deletes() {
    let tree = empty_tree(6);
    let insert = EditOperation::ReplaceRange { start: 3, end: 3, content: b"--".to_vec() };
    assert_eq!(apply(b"abcdef", &tree, LanguageTag::Rust, &insert), b"abc--def".to_vec());
    let delete = EditOperation::ReplaceRange { start: 1, end: 5, content: Vec::new() };
    assert_eq!(apply(b"abcdef", &tree, LanguageTag::Rust, &delete), b"af".to_vec());
    let whole = EditOperation::ReplaceRange { start: 0, end: 6, content: b"new".to_vec() };
    assert_eq!(apply(b"abcdef", &tree, LanguageTag::Rust, &whole), b"new".to_vec());
}

#[test]
fn insert_after_sets_content_off_by_blank_lines() {
    let source = b"fn main() {}\nrest";
    let operation = EditOperation::InsertAfter { anchor_end: 12, content: b"fn more() {}".to_vec() };
    let new_text = apply(source, &empty_tree(source.len()), LanguageTag::Rust, &operation);
    assert_eq!(text(&new_text), "fn main() {}\n\nfn more() {}\n\n\nrest");
}

#[test]
fn insert_before_sets_content_off_by_blank_lines() {
    let source = b"import x\ndef main(): pass\n";
    let operation = EditOperation::InsertBefore { anchor_start: 9, content: b"def more(): pass".to_vec() };
    let new_text = apply(source, &empty_tree(source.len()), LanguageTag::Python, &operation);
    assert_eq!(text(&new_text), "import x\n\n\ndef more(): pass\n\ndef main(): pass\n");
}

#[test]
fn insert_at_the_end_appends() {
    let operation = EditOperation::InsertAfter { anchor_end: 3, content: b"x".to_vec() };
    assert_eq!(apply(b"abc", &empty_tree(3), LanguageTag::Rust, &operation), b"abc\n\nx\n\n".to_vec());
    assert_eq!(insert_at(b"abc", 0, b"__"), b"__abc".to_vec());
    assert_eq!(join3(b"a", b"", b"c"), b"ac".to_vec());
}

#[test]
fn tests_go_in_front_of_the_closing_delimiter_of_the_container() {
    let source = b"fn a() {}\n#[cfg(test)]\nmod tests {\n}\n";
    let tree = node("source_file", 0, 37, None, vec![
        node("function_item", 0, 9, Some("a"), vec![]),
        node("attribute_item", 10, 22, None, vec![]),
        node("mod_item", 23, 36, Some("tests"), vec![]),
    ]);
    let updated = insert_test_functions(source, &tree, LanguageTag::Rust, b"#[cfg(test)]", b"#[test] fn t() {}");
    assert_eq!(text(&updated), "fn a() {}\n#[cfg(test)]\nmod tests {\n\n\n#[test] fn t() {}\n}\n");
}

#[test]
fn container_is_created_behind_the_last_top_level_structure() {
    let source = b"fn a() {}\n\nfn b() {}\n// end\n";
    let tree = node("source_file", 0, 28, None, vec![
        node("function_item", 0, 9, Some("a"), vec![]),
        node("function_item", 11, 20, Some("b"), vec![]),
        node("line_comment", 21, 27, None, vec![]),
    ]);
    let updated = insert_test_functions(source, &tree, LanguageTag::Rust, b"#[cfg(test)]", b"#[test] fn t() {}");
    assert_eq!(
        text(&updated),
        "fn a() {}\n\nfn b() {}\n\n#[cfg(test)]\nmod tests {\n#[test] fn t() {}\n}\n\n// end\n"
    );
}

#[test]
fn container_is_created_at_the_end_without_any_structure() {
    let source = b"// nothing here\n";
    let tree = node("source_file", 0, 16, None, vec![node("line_comment", 0, 15, None, vec![])]);
    let operation = EditOperation::InsertOrCreateContainer {
        marker: b"#[cfg(test)]".to_vec(),
        content: b"#[test] fn t() {}".to_vec(),
    };
    let updated = apply(source, &tree, LanguageTag::Rust, &operation);
    assert_eq!(text(&updated), "// nothing here\n\n\n#[cfg(test)]\nmod tests {\n#[test] fn t() {}\n}\n");
    let in_empty = apply(b"", &empty_tree(0), LanguageTag::Rust, &operation);
    assert_eq!(text(&in_empty), "\n\n#[cfg(test)]\nmod tests {\n#[test] fn t() {}\n}\n");
}

#[test]
fn documentation_replaces_the_block_that_is_there() {
    let source = b"fn a() {}\n\n/** Old. */\nfn add() {}\n";
    let updated = document_structure(source, 23, b"/** New and longer. */");
    assert_eq!(text(&updated), "fn a() {}\n\n/** New and longer. */\nfn add() {}\n");
}

#[test]
fn documentation_is_inserted_where_there_is_none() {
    let source = b"fn a() {}\nfn add() {}\n";
    let updated = document_structure(source, 10, b"/** New. */");
    assert_eq!(text(&updated), "fn a() {}\n\n\n/** New. */\n\nfn add() {}\n");
}

#[test]
fn documenting_twice_with_the_same_content_equals_documenting_once() {
    let doc = b"/**\n * Adds two numbers.\n */";
    // from a file with an older block
    let source = b"fn a() {}\n\n/** Old. */\nfn add() {}\n";
    let once = document_structure(source, 23, doc);
    let start_after = once.windows(8).position(|w| w == b"fn add()").unwrap();
    let twice = document_structure(&once, start_after, doc);
    assert_eq!(twice, once);
    // from a file without a block
    let bare = b"fn a() {}\nfn add() {}\n";
    let once = document_structure(bare, 10, doc);
    let start_after = once.windows(8).position(|w| w == b"fn add()").unwrap();
    let twice = document_structure(&once, start_after, doc);
    assert_eq!(twice, once);
    let thrice = document_structure(&twice, start_after, doc);
    assert_eq!(thrice, once);
}

#[test]
fn content_that_is_no_block_is_inserted_again() {
    // what is written is not found again as documentation, so a second run
    // inserts once more
    let bare = b"fn add() {}\n";
    let once = document_structure(bare, 0, b"Adds.");
    assert_eq!(text(&once), "\n\nAdds.\n\nfn add() {}\n");
    let start_after = once.windows(2).position(|w| w == b"fn").unwrap();
    assert_eq!(start_after, 9);
    let twice = document_structure(&once, start_after, b"Adds.");
    assert_eq!(text(&twice), "\n\nAdds.\n\n\n\nAdds.\n\nfn add() {}\n");
}

#[test]
fn file_documentation_replaces_the_leading_doc_nodes() {
    let source = b"// old head\n// more\nfn f() {}\n";
    let tree = node("source_file", 0, 30, None, vec![
        node("comment", 0, 11, None, vec![]),
        node("comment", 12, 19, None, vec![]),
        node("function_item", 20, 29, Some("f"), vec![]),
    ]);
    let updated = document_file(source, &tree, b"//! New head.");
    assert_eq!(text(&updated), "//! New head.\nfn f() {}\n");
}

#[test]
fn file_documentation_is_inserted_at_the_start_where_there_is_none() {
    let source = b"fn f() {}\n";
    let tree = node("source_file", 0, 10, None, vec![node("function_item", 0, 9, Some("f"), vec![])]);
    let updated = document_file(source, &tree, b"//! Head.");
    assert_eq!(text(&updated), "//! Head.\n\nfn f() {}\n");
}

#[test]
fn file_documentation_twice_equals_once_when_the_tree_shows_it() {
    let source = b"fn f() {}\n";
    let tree = node("source_file", 0, 10, None, vec![node("function_item", 0, 9, Some("f"), vec![])]);
    let once = document_file(source, &tree, b"//! Head.");
    // the tree of the text after the first run
    let tree_after = node("source_file", 0, once.len(), None, vec![
        node("comment", 0, 9, None, vec![]),
        node("function_item", 11, 20, Some("f"), vec![]),
    ]);
    assert_eq!(document_file(&once, &tree_after, b"//! Head."), once);
}

#[test]
fn update_documentation_writes_a_trimmed_block() {
    let source = b"fn a() {}\n\n/** Old. */\nfn add() {}\n";
    let updated = update_documentation(source, (23, 34), b"  \n * Adds.\t\n");
    assert_eq!(text(&updated), "fn a() {}\n\n/**\n* Adds.\n*/\nfn add() {}\n");
}

#[test]
fn update_documentation_inserts_at_the_structure_without_a_block() {
    let source = b"fn add() {}\n";
    let updated = update_documentation(source, (0, 11), b"Adds.");
    assert_eq!(text(&updated), "/**\nAdds.\n*/fn add() {}\n");
}
