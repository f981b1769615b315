use rfcu::language::LanguageTag;
use rfcu::parser::ParseFailure;
use rfcu::prompt::{EditMode, Requests};
use rfcu::session::{
    plan_edit, realize, structure_text, EditRequest, FailureKind, Phase, Plan, RevisionSession,
    SessionAction, SessionEvent,
};
use rfcu::tree::SyntaxNode;

fn node(kind: &str, start: usize, end: usize, name: Option<&str>, children: Vec<SyntaxNode>) -> SyntaxNode {
    SyntaxNode::new(kind.as_bytes(), start, end, name.map(|n| n.as_bytes()), false, children)
}

fn templates() -> Requests {
    Requests {
        improvement: b"Improve {structure_name}: {user_request}\n{structure_code}".to_vec(),
        whole_file: b"Rewrite: {user_request}\n{source_code}".to_vec(),
        add_functionality: b"Add: {user_request}\n{source_code}".to_vec(),
        add_tests_function: b"Test this:\n{structure_code}".to_vec(),
        documentation_whole_file: b"Document file: {user_request}\n{source_code}".to_vec(),
        documentation_structure: b"Document {structure_name}: {user_request}\n{structure_code}".to_vec(),
    }
}

fn request(mode: EditMode, name: &str, language: LanguageTag) -> EditRequest {
    EditRequest {
        mode,
        structure_name: name.as_bytes().to_vec(),
        user_request: b"be brief".to_vec(),
        language,
    }
}

fn text(bytes: &[u8]) -> String {
    String::from_utf8(bytes.to_vec()).unwrap()
}

/// A file of 300 bytes with `parse_config` at [120, 260) and an attribute
/// directly above it.
fn config_source() -> Vec<u8> {
    let mut source = Vec::new();
    source.extend_from_slice(b"fn first() { let done = true; }\n");
    while source.len() < 110 {
        source.push(b' ');
    }
    source.extend_from_slice(b"#[inline]\n");
    assert_eq!(source.len(), 120);
    source.extend_from_slice(b"fn parse_config() {");
    while source.len() < 259 {
        source.push(b'x');
    }
    source.push(b'}');
    assert_eq!(source.len(), 260);
    source.extend_from_slice(b"\n\nfn last() {}\n");
    while source.len() < 300 {
        source.push(b'\n');
    }
    source
}

fn config_tree() -> SyntaxNode {
    node("source_file", 0, 300, None, vec![
        node("function_item", 0, 31, Some("first"), vec![]),
        node("attribute_item", 110, 119, None, vec![]),
        node("function_item", 120, 260, Some("parse_config"), vec![]),
        node("function_item", 262, 274, Some("last"), vec![]),
    ])
}

fn prompt_of(action: SessionAction) -> Vec<u8> {
    match action {
        SessionAction::Generate { prompt } => prompt,
        other => panic!("expected a request to generate, got {:?}", other),
    }
}

fn text_of(action: SessionAction) -> Vec<u8> {
    match action {
        SessionAction::Write { text } => text,
        other => panic!("expected a request to write, got {:?}", other),
    }
}

#[test]
fn replace_structure_splices_from_the_extended_start() {
    let source = config_source();
    let (mut session, action) = RevisionSession::new(
        request(EditMode::ReplaceStructure, "parse_config", LanguageTag::Rust),
        templates(),
        source.clone(),
        3,
        true,
    );
    assert!(matches!(action, SessionAction::Parse));
    assert_eq!(session.phase, Phase::Locating);
    let prompt = prompt_of(session.step(SessionEvent::Parsed(Ok(config_tree()))));
    let mut expected_prompt = b"Improve parse_config: be brief\n".to_vec();
    expected_prompt.extend_from_slice(&source[110..260]);
    assert_eq!(prompt, expected_prompt);
    assert_eq!(session.plan, Some(Plan::Replace { start: 110, end: 260 }));
    let content = b"fn parse_config() { Ok(()) }";
    let written = text_of(session.step(SessionEvent::Generated(Some(content.to_vec()))));
    let ext_start = 110;
    assert!(ext_start <= 120);
    let mut expected = source[..ext_start].to_vec();
    expected.extend_from_slice(content);
    expected.extend_from_slice(&source[260..]);
    assert_eq!(written, expected);
    assert_eq!(session.working_text, expected);
    assert_eq!(session.original_text, source);
}

#[test]
fn add_functionality_without_entry_point_appends_at_the_end() {
    let source = b"fn helper() {}\n".to_vec();
    let tree = node("source_file", 0, 15, None, vec![node("function_item", 0, 14, Some("helper"), vec![])]);
    let (mut session, _) = RevisionSession::new(
        request(EditMode::AddFunctionality, "", LanguageTag::Rust),
        templates(),
        source.clone(),
        3,
        true,
    );
    let prompt = prompt_of(session.step(SessionEvent::Parsed(Ok(tree))));
    assert_eq!(text(&prompt), "Add: be brief\nfn helper() {}\n");
    assert_eq!(session.plan, Some(Plan::Insert { at: 15, trimmed: false }));
    let written = text_of(session.step(SessionEvent::Generated(Some(b"fn extra() {}".to_vec()))));
    assert_eq!(text(&written), "fn helper() {}\n\n\nfn extra() {}\n\n");
}

#[test]
fn add_functionality_goes_behind_main_in_rust_and_in_front_of_it_in_scripts() {
    let source = b"fn main() {}\nfn tail() {}\n".to_vec();
    let tree = || node("source_file", 0, 26, None, vec![
        node("function_item", 0, 12, Some("main"), vec![]),
        node("function_item", 13, 25, Some("tail"), vec![]),
    ]);
    let plan = plan_edit(&request(EditMode::AddFunctionality, "", LanguageTag::Rust), &source, &tree());
    assert_eq!(plan, Ok(Plan::Insert { at: 12, trimmed: false }));
    let script = b"x = 1\ndef main(): pass\n".to_vec();
    let script_tree = node("module", 0, 23, None, vec![
        node("expression_statement", 0, 5, None, vec![]),
        node("function_definition", 6, 22, Some("main"), vec![]),
    ]);
    for language in [LanguageTag::Python, LanguageTag::Ruby] {
        let plan = plan_edit(&request(EditMode::AddFunctionality, "", language), &script, &script_tree);
        assert_eq!(plan, Ok(Plan::Insert { at: 6, trimmed: false }));
    }
    let written = realize(Plan::Insert { at: 6, trimmed: false }, &script, b"def more(): pass");
    assert_eq!(text(&written), "x = 1\n\n\ndef more(): pass\n\ndef main(): pass\n");
}

fn drive_attempt(session: &mut RevisionSession, content: &[u8], generator_calls: &mut usize) {
    *generator_calls += 1;
    let action = session.step(SessionEvent::Generated(Some(content.to_vec())));
    assert!(matches!(action, SessionAction::Write { .. }));
    let action = session.step(SessionEvent::Persisted(true));
    assert!(matches!(action, SessionAction::Validate));
}

#[test]
fn validator_failing_once_leads_to_a_second_attempt_and_success() {
    let source = config_source();
    let mut generator_calls = 0;
    let mut validator_calls = 0;
    let (mut session, _) = RevisionSession::new(
        request(EditMode::ReplaceStructure, "parse_config", LanguageTag::Rust),
        templates(),
        source.clone(),
        3,
        true,
    );
    let first_prompt = prompt_of(session.step(SessionEvent::Parsed(Ok(config_tree()))));
    drive_attempt(&mut session, b"fn parse_config() { broken", &mut generator_calls);
    validator_calls += 1;
    let action = session.step(SessionEvent::Validated { success: false, output: b"error: unclosed".to_vec() });
    assert!(matches!(action, SessionAction::Revert));
    assert_eq!(session.phase, Phase::Retrying);
    assert_eq!(session.working_text, source);
    let action = session.step(SessionEvent::Reverted(true));
    assert!(matches!(action, SessionAction::Parse));
    let second_prompt = prompt_of(session.step(SessionEvent::Parsed(Ok(config_tree()))));
    let mut expected = first_prompt.clone();
    expected.extend_from_slice(b"\nLinting feedback:\nerror: unclosed");
    assert_eq!(second_prompt, expected);
    drive_attempt(&mut session, b"fn parse_config() {}", &mut generator_calls);
    validator_calls += 1;
    let action = session.step(SessionEvent::Validated { success: true, output: Vec::new() });
    assert!(matches!(action, SessionAction::Commit));
    let action = session.step(SessionEvent::Committed(true));
    assert!(matches!(action, SessionAction::Finish));
    assert_eq!(session.phase, Phase::Accepted);
    assert_eq!(generator_calls, 2);
    assert_eq!(validator_calls, 2);
    assert_eq!(session.attempt_count, 2);
    let mut final_text = source[..110].to_vec();
    final_text.extend_from_slice(b"fn parse_config() {}");
    final_text.extend_from_slice(&source[260..]);
    assert_eq!(session.working_text, final_text);
}

#[test]
fn validator_failing_every_time_ends_after_max_attempts_with_the_original_text() {
    let source = config_source();
    let mut generator_calls = 0;
    let (mut session, action) = RevisionSession::new(
        request(EditMode::ReplaceStructure, "parse_config", LanguageTag::Rust),
        templates(),
        source.clone(),
        3,
        true,
    );
    let mut action = action;
    let last = loop {
        assert!(matches!(action, SessionAction::Parse));
        let generate = session.step(SessionEvent::Parsed(Ok(config_tree())));
        assert!(matches!(generate, SessionAction::Generate { .. }));
        drive_attempt(&mut session, b"still broken", &mut generator_calls);
        let verdict = session.step(SessionEvent::Validated { success: false, output: b"no".to_vec() });
        if !matches!(verdict, SessionAction::Revert) {
            break verdict;
        }
        action = session.step(SessionEvent::Reverted(true));
    };
    assert!(matches!(last, SessionAction::Restore));
    assert_eq!(generator_calls, 3);
    assert_eq!(session.attempt_count, 3);
    assert_eq!(session.phase, Phase::Failed(FailureKind::ValidationFailure));
    assert_eq!(session.working_text, source);
    assert_eq!(session.original_text, source);
}

#[test]
fn single_attempt_is_not_retried() {
    let source = config_source();
    let (mut session, _) = RevisionSession::new(
        request(EditMode::ReplaceStructure, "parse_config", LanguageTag::Rust),
        templates(),
        source.clone(),
        1,
        true,
    );
    session.step(SessionEvent::Parsed(Ok(config_tree())));
    session.step(SessionEvent::Generated(Some(b"x".to_vec())));
    session.step(SessionEvent::Persisted(true));
    let action = session.step(SessionEvent::Validated { success: false, output: Vec::new() });
    assert!(matches!(action, SessionAction::Restore));
    assert_eq!(session.attempt_count, 1);
    assert_eq!(session.working_text, source);
}

#[test]
fn no_attempt_is_made_when_none_is_allowed() {
    let source = config_source();
    let (mut session, action) = RevisionSession::new(
        request(EditMode::ReplaceStructure, "parse_config", LanguageTag::Rust),
        templates(),
        source.clone(),
        0,
        true,
    );
    assert!(matches!(action, SessionAction::Commit));
    assert_eq!(session.phase, Phase::Committing);
    assert_eq!(session.attempt_count, 0);
    assert!(matches!(session.step(SessionEvent::Committed(true)), SessionAction::Finish));
    assert_eq!(session.working_text, source);
}

#[test]
fn without_a_validator_the_edit_goes_straight_to_the_commit() {
    let (mut session, action) = RevisionSession::new(
        request(EditMode::WholeFileRewrite, "", LanguageTag::Rust),
        templates(),
        b"old text".to_vec(),
        2,
        false,
    );
    assert_eq!(text(&prompt_of(action)), "Rewrite: be brief\nold text");
    let written = text_of(session.step(SessionEvent::Generated(Some(b"new text".to_vec()))));
    assert_eq!(written, b"new text".to_vec());
    assert!(matches!(session.step(SessionEvent::Persisted(true)), SessionAction::Commit));
    assert!(matches!(session.step(SessionEvent::Committed(true)), SessionAction::Finish));
    assert_eq!(session.phase, Phase::Accepted);
    assert_eq!(session.working_text, b"new text".to_vec());
}

fn failing_session(kind: FailureKind) -> RevisionSession {
    let source = config_source();
    let (mut session, _) = RevisionSession::new(
        request(EditMode::ReplaceStructure, "parse_config", LanguageTag::Rust),
        templates(),
        source,
        1,
        true,
    );
    let action = match kind {
        FailureKind::ParseFailure => session.step(SessionEvent::Parsed(Err(ParseFailure::NoTree))),
        FailureKind::StructureNotFound => {
            let tree = node("source_file", 0, 300, None, vec![]);
            session.step(SessionEvent::Parsed(Ok(tree)))
        },
        FailureKind::GeneratorFailure => {
            session.step(SessionEvent::Parsed(Ok(config_tree())));
            session.step(SessionEvent::Generated(None))
        },
        FailureKind::PersistFailure => {
            session.step(SessionEvent::Parsed(Ok(config_tree())));
            session.step(SessionEvent::Generated(Some(b"x".to_vec())));
            session.step(SessionEvent::Persisted(false))
        },
        FailureKind::ValidationFailure => {
            session.step(SessionEvent::Parsed(Ok(config_tree())));
            session.step(SessionEvent::Generated(Some(b"x".to_vec())));
            session.step(SessionEvent::Persisted(true));
            session.step(SessionEvent::Validated { success: false, output: Vec::new() })
        },
        FailureKind::CommitFailure => {
            session.step(SessionEvent::Parsed(Ok(config_tree())));
            session.step(SessionEvent::Generated(Some(b"x".to_vec())));
            session.step(SessionEvent::Persisted(true));
            session.step(SessionEvent::Validated { success: true, output: Vec::new() });
            session.step(SessionEvent::Committed(false))
        },
    };
    assert!(matches!(action, SessionAction::Restore), "{:?}", kind);
    session
}

#[test]
fn every_fatal_error_restores_the_original_text() {
    for kind in [
        FailureKind::StructureNotFound,
        FailureKind::ParseFailure,
        FailureKind::GeneratorFailure,
        FailureKind::ValidationFailure,
        FailureKind::PersistFailure,
        FailureKind::CommitFailure,
    ] {
        let session = failing_session(kind);
        assert_eq!(session.phase, Phase::Failed(kind));
        assert_eq!(session.working_text, config_source(), "{:?}", kind);
        assert_eq!(session.original_text, config_source(), "{:?}", kind);
    }
}

#[test]
fn failed_revert_is_a_persist_failure() {
    let (mut session, _) = RevisionSession::new(
        request(EditMode::WholeFileRewrite, "", LanguageTag::Rust),
        templates(),
        b"old".to_vec(),
        2,
        true,
    );
    session.step(SessionEvent::Generated(Some(b"new".to_vec())));
    session.step(SessionEvent::Persisted(true));
    assert!(matches!(
        session.step(SessionEvent::Validated { success: false, output: Vec::new() }),
        SessionAction::Revert
    ));
    assert!(matches!(session.step(SessionEvent::Reverted(false)), SessionAction::Restore));
    assert_eq!(session.phase, Phase::Failed(FailureKind::PersistFailure));
    assert_eq!(session.working_text, b"old".to_vec());
}

#[test]
fn tree_that_does_not_fit_the_text_is_a_parse_failure() {
    let (mut session, _) = RevisionSession::new(
        request(EditMode::ReplaceStructure, "f", LanguageTag::Rust),
        templates(),
        b"fn f() {}".to_vec(),
        2,
        true,
    );
    let too_long = node("source_file", 0, 10, None, vec![node("function_item", 0, 10, Some("f"), vec![])]);
    assert!(matches!(session.step(SessionEvent::Parsed(Ok(too_long))), SessionAction::Restore));
    assert_eq!(session.phase, Phase::Failed(FailureKind::ParseFailure));
}

#[test]
fn events_that_are_not_awaited_change_nothing() {
    let (mut session, _) = RevisionSession::new(
        request(EditMode::ReplaceStructure, "parse_config", LanguageTag::Rust),
        templates(),
        config_source(),
        3,
        true,
    );
    assert!(matches!(session.step(SessionEvent::Persisted(true)), SessionAction::Ignored));
    assert!(matches!(session.step(SessionEvent::Generated(Some(b"x".to_vec()))), SessionAction::Ignored));
    assert!(matches!(session.step(SessionEvent::Committed(true)), SessionAction::Ignored));
    assert_eq!(session.phase, Phase::Locating);
    assert_eq!(session.attempt_count, 0);
    let mut failed = failing_session(FailureKind::GeneratorFailure);
    assert!(matches!(failed.step(SessionEvent::Parsed(Ok(config_tree()))), SessionAction::Ignored));
    assert!(matches!(failed.step(SessionEvent::Reverted(true)), SessionAction::Ignored));
    assert_eq!(failed.phase, Phase::Failed(FailureKind::GeneratorFailure));
}

#[test]
fn generator_calls_never_exceed_max_attempts() {
    for max_attempts in 0..5 {
        let (mut session, mut action) = RevisionSession::new(
            request(EditMode::WholeFileRewrite, "", LanguageTag::Rust),
            templates(),
            b"old".to_vec(),
            max_attempts,
            true,
        );
        let mut generator_calls = 0;
        for _ in 0..100 {
            action = match action {
                SessionAction::Generate { .. } => {
                    generator_calls += 1;
                    session.step(SessionEvent::Generated(Some(b"new".to_vec())))
                },
                SessionAction::Write { .. } => session.step(SessionEvent::Persisted(true)),
                SessionAction::Validate => {
                    session.step(SessionEvent::Validated { success: false, output: b"bad".to_vec() })
                },
                SessionAction::Revert => session.step(SessionEvent::Reverted(true)),
                SessionAction::Commit => session.step(SessionEvent::Committed(true)),
                other => other,
            };
        }
        assert_eq!(generator_calls, max_attempts);
        assert!(session.attempt_count <= session.max_attempts);
    }
}

#[test]
fn tests_are_added_behind_the_structure_and_trimmed() {
    let source = config_source();
    let add_tests = request(EditMode::AddTests, "parse_config", LanguageTag::Rust);
    assert_eq!(plan_edit(&add_tests, &source, &config_tree()), Ok(Plan::Insert { at: 260, trimmed: true }));
    assert_eq!(structure_text(&add_tests, &source, &config_tree()), source[110..260].to_vec());
    let written = realize(Plan::Insert { at: 3, trimmed: true }, b"abcdef", b"  \n#[test] fn t() {}\n\n");
    assert_eq!(text(&written), "abc\n\n#[test] fn t() {}\n\ndef");
}

#[test]
fn documentation_plans_follow_the_mode() {
    let source = config_source();
    let document = request(EditMode::DocumentStructure, "parse_config", LanguageTag::Rust);
    // documentation goes above the attribute of the structure
    assert_eq!(plan_edit(&document, &source, &config_tree()), Ok(Plan::StructureDoc { struct_start: 110 }));
    let missing = request(EditMode::DocumentStructure, "absent", LanguageTag::Rust);
    assert_eq!(plan_edit(&missing, &source, &config_tree()), Err(FailureKind::StructureNotFound));
    assert_eq!(structure_text(&missing, &source, &config_tree()), Vec::<u8>::new());
    let whole = request(EditMode::DocumentWholeFile, "", LanguageTag::Rust);
    assert_eq!(plan_edit(&whole, &source, &config_tree()), Ok(Plan::FileDoc { start: 0, end: 0 }));
    let rewrite = request(EditMode::WholeFileRewrite, "", LanguageTag::Rust);
    assert_eq!(plan_edit(&rewrite, &source, &config_tree()), Ok(Plan::Replace { start: 0, end: 300 }));
    let written = realize(Plan::StructureDoc { struct_start: 0 }, b"fn f() {}", b"\n/** Doc. */\n");
    assert_eq!(text(&written), "\n\n/** Doc. */\n\nfn f() {}");
    let written = realize(Plan::FileDoc { start: 0, end: 0 }, b"fn f() {}", b"//! Head.");
    assert_eq!(text(&written), "//! Head.\n\nfn f() {}");
    let written = realize(Plan::FileDoc { start: 0, end: 6 }, b"// old\nfn f() {}", b"//! Head.");
    assert_eq!(text(&written), "//! Head.\nfn f() {}");
}

#[test]
fn replace_structure_takes_the_documentation_block_along() {
    let source = b"fn a() {}\n\n/**\n * Old doc.\n */\n#[inline]\nfn target() {}\n\nfn z() {}\n".to_vec();
    let start = source.windows(11).position(|w| w == b"fn target()").unwrap();
    let end = start + b"fn target() {}".len();
    let doc = source.windows(3).position(|w| w == b"/**").unwrap();
    let tree = node("source_file", 0, source.len(), None, vec![
        node("function_item", 0, 9, Some("a"), vec![]),
        node("function_item", start, end, Some("target"), vec![]),
    ]);
    let replace = request(EditMode::ReplaceStructure, "target", LanguageTag::Rust);
    assert_eq!(plan_edit(&replace, &source, &tree), Ok(Plan::Replace { start: doc, end }));
    assert_eq!(structure_text(&replace, &source, &tree), source[doc..end].to_vec());
    let written = realize(Plan::Replace { start: doc, end }, &source, b"fn target() { 1 }");
    assert_eq!(text(&written), "fn a() {}\n\nfn target() { 1 }\n\nfn z() {}\n");
}
