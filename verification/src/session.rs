//! The revision session: one end-to-end edit of one file, as a state
//! machine. The machine decides; its driver performs what the machine asks
//! for (calling the generator, writing the file, running the validator,
//! committing) and reports each outcome back as an event.
//!
//! Every attempt starts from the original text. The text is located and the
//! request is built on entering `Requesting`; the splice is made on leaving
//! it, when the generator's content arrives.

use vstd::prelude::*;
use crate::anchor::{entry_span, find_doc_range_tree_sitter, find_entry_point, leading_doc_range};
use crate::extent::{
    attribute_start, extend_start, extended_start, find_properties_start_byte,
    lemma_extended_start_monotone,
};
use crate::language::LanguageTag;
use crate::lines::{trim, trimmed};
use crate::locator::{
    find_structure, first_match, lemma_descendant_within, lemma_first_where_holds, located_span,
    named,
};
use crate::parser::{parse_source, parsed_tree, ParseFailure};
use crate::prompt::{
    build_request, request_text, request_with_feedback, with_feedback, EditMode, Requests,
};
use crate::splice::{
    document_structure, documented, headed, insert_at, inserted, join3, lemma_leading_docs_within,
    separated,
};
use crate::text::{append, slice_copy, splice, spliced};
use crate::tree::{SyntaxNode, TreeView};

verus! {

/// Why a session failed.
#[derive(Clone, Copy, Debug, PartialEq, Eq, Structural)]
pub enum FailureKind {
    /// No structure of the requested name stands in the file.
    StructureNotFound,
    /// The file could not be parsed.
    ParseFailure,
    /// The generator failed or returned nothing usable.
    GeneratorFailure,
    /// The validator rejected the last attempt that was allowed.
    ValidationFailure,
    /// The file could not be written.
    PersistFailure,
    /// The accepted edit could not be committed.
    CommitFailure,
}

/// Where a session stands.
#[derive(Clone, Copy, Debug, PartialEq, Eq, Structural)]
pub enum Phase {
    /// Waiting for the tree of the original text.
    Locating,
    /// Waiting for the generator's content.
    Requesting,
    /// Waiting for the edited text to be written.
    Persisting,
    /// Waiting for the validator's verdict.
    Validating,
    /// Waiting for the file to be put back before the next attempt.
    Retrying,
    /// Waiting for the commit of the accepted edit.
    Committing,
    /// Done: the edit stands and is committed.
    Accepted,
    /// Done: the file holds the original text again.
    Failed(FailureKind),
}

/// What is to be edited, and how.
#[derive(Debug)]
pub struct EditRequest {
    pub mode: EditMode,
    pub structure_name: Vec<u8>,
    pub user_request: Vec<u8>,
    pub language: LanguageTag,
}

/// Where the content of an attempt goes, as found in the original text.
#[derive(Clone, Copy, Debug, PartialEq, Eq, Structural)]
pub enum Plan {
    /// In place of the bytes `[start, end)`.
    Replace { start: usize, end: usize },
    /// In at `at`, set off by blank lines; trimmed first, if `trimmed`.
    Insert { at: usize, trimmed: bool },
    /// As the documentation block of the structure at `struct_start`.
    StructureDoc { struct_start: usize },
    /// As the documentation at the head of the file, which now spans
    /// `[start, end)`.
    FileDoc { start: usize, end: usize },
}

/// The state of a session.
#[derive(Debug)]
pub struct RevisionSession {
    pub request: EditRequest,
    pub templates: Requests,
    /// The text of the file before the session: never changed, and what
    /// the file is put back to.
    pub original_text: Vec<u8>,
    /// The text that the file is meant to hold now.
    pub working_text: Vec<u8>,
    /// How often the generator has been asked for content.
    pub attempt_count: usize,
    pub max_attempts: usize,
    /// The validator's report of the attempt that failed last.
    pub last_feedback: Option<Vec<u8>>,
    /// Whether a validator is configured.
    pub validates: bool,
    pub phase: Phase,
    pub plan: Option<Plan>,
}

/// What the driver reports back.
#[derive(Debug)]
pub enum SessionEvent {
    /// The original text was parsed, or could not be.
    Parsed(Result<SyntaxNode, ParseFailure>),
    /// The generator returned content, or failed.
    Generated(Option<Vec<u8>>),
    /// The file was written, or could not be.
    Persisted(bool),
    /// The validator's verdict and what it printed.
    Validated { success: bool, output: Vec<u8> },
    /// The file was put back to the original text, or could not be.
    Reverted(bool),
    /// The edit was committed, or could not be.
    Committed(bool),
}

/// What the machine asks its driver to do next.
#[derive(Debug)]
pub enum SessionAction {
    /// Parse the original text and report `Parsed`.
    Parse,
    /// Ask the generator for content and report `Generated`.
    Generate { prompt: Vec<u8> },
    /// Write `text` to the file and report `Persisted`.
    Write { text: Vec<u8> },
    /// Run the validator on the file and report `Validated`.
    Validate,
    /// Put the file back to the original text and report `Reverted`.
    Revert,
    /// Commit the file and report `Committed`.
    Commit,
    /// The session succeeded: discard the backup.
    Finish,
    /// The session failed: restore the file from the backup.
    Restore,
    /// The event was not awaited: nothing changed, nothing is to be done.
    Ignored,
}

/// The model of a session.
pub struct SessionView {
    pub mode: EditMode,
    pub language: LanguageTag,
    pub structure_name: Seq<u8>,
    pub user_request: Seq<u8>,
    pub templates: Requests,
    pub original: Seq<u8>,
    pub working: Seq<u8>,
    pub attempts: int,
    pub max_attempts: int,
    pub feedback: Option<Seq<u8>>,
    pub validates: bool,
    pub phase: Phase,
    pub plan: Option<Plan>,
}

/// The model of an event.
pub enum EventView {
    Parsed(Option<TreeView>),
    Generated(Option<Seq<u8>>),
    Persisted(bool),
    Validated { success: bool, output: Seq<u8> },
    Reverted(bool),
    Committed(bool),
}

/// The model of an action.
pub enum ActionView {
    Parse,
    Generate { prompt: Seq<u8> },
    Write { text: Seq<u8> },
    Validate,
    Revert,
    Commit,
    Finish,
    Restore,
    Ignored,
}

/// The model of optional bytes.
pub open spec fn bytes_view(bytes: Option<Vec<u8>>) -> Option<Seq<u8>> {
    match bytes {
        Some(b) => Some(b@),
        None => None,
    }
}

impl View for RevisionSession {
    type V = SessionView;

    open spec fn view(&self) -> SessionView {
        SessionView {
            mode: self.request.mode,
            language: self.request.language,
            structure_name: self.request.structure_name@,
            user_request: self.request.user_request@,
            templates: self.templates,
            original: self.original_text@,
            working: self.working_text@,
            attempts: self.attempt_count as int,
            max_attempts: self.max_attempts as int,
            feedback: bytes_view(self.last_feedback),
            validates: self.validates,
            phase: self.phase,
            plan: self.plan,
        }
    }
}

impl View for SessionEvent {
    type V = EventView;

    open spec fn view(&self) -> EventView {
        match self {
            SessionEvent::Parsed(Ok(tree)) => EventView::Parsed(Some(tree@)),
            SessionEvent::Parsed(Err(_)) => EventView::Parsed(None),
            SessionEvent::Generated(content) => EventView::Generated(bytes_view(*content)),
            SessionEvent::Persisted(ok) => EventView::Persisted(*ok),
            SessionEvent::Validated { success, output } => EventView::Validated {
                success: *success,
                output: output@,
            },
            SessionEvent::Reverted(ok) => EventView::Reverted(*ok),
            SessionEvent::Committed(ok) => EventView::Committed(*ok),
        }
    }
}

impl View for SessionAction {
    type V = ActionView;

    open spec fn view(&self) -> ActionView {
        match self {
            SessionAction::Parse => ActionView::Parse,
            SessionAction::Generate { prompt } => ActionView::Generate { prompt: prompt@ },
            SessionAction::Write { text } => ActionView::Write { text: text@ },
            SessionAction::Validate => ActionView::Validate,
            SessionAction::Revert => ActionView::Revert,
            SessionAction::Commit => ActionView::Commit,
            SessionAction::Finish => ActionView::Finish,
            SessionAction::Restore => ActionView::Restore,
            SessionAction::Ignored => ActionView::Ignored,
        }
    }
}

impl Plan {
    /// The offsets of the plan lie within a text of `len` bytes.
    pub open spec fn in_bounds(self, len: int) -> bool {
        match self {
            Plan::Replace { start, end } => start <= end <= len,
            Plan::Insert { at, .. } => at <= len,
            Plan::StructureDoc { struct_start } => struct_start <= len,
            Plan::FileDoc { start, end } => start <= end <= len,
        }
    }

    /// The text that the plan makes of `original` with `content`.
    pub open spec fn realized(self, original: Seq<u8>, content: Seq<u8>) -> Seq<u8> {
        match self {
            Plan::Replace { start, end } => spliced(original, start as int, end as int, content),
            Plan::Insert { at, trimmed } => inserted(
                original,
                at as int,
                separated(
                    if trimmed {
                        trimmed_content(content)
                    } else {
                        content
                    },
                ),
            ),
            Plan::StructureDoc { struct_start } => documented(
                original,
                struct_start as int,
                trimmed_content(content),
            ),
            Plan::FileDoc { start, end } => if start != end {
                spliced(original, start as int, end as int, content)
            } else {
                inserted(original, 0, headed(content))
            },
        }
    }
}

/// Content without its leading and trailing white space.
pub open spec fn trimmed_content(content: Seq<u8>) -> Seq<u8> {
    let (start, end) = trimmed(content, 0, content.len() as int);
    content.subrange(start, end)
}

/// Does an edit of kind `mode` need the tree of the text?
pub open spec fn needs_tree(mode: EditMode) -> bool {
    mode != EditMode::WholeFileRewrite
}

/// Where the content of an edit goes, located in `original`, whose tree is
/// `tree`; or why the edit cannot be made.
///
/// A structure is replaced from its extended start; tests go behind the
/// structure; documentation goes above the structure and its attribute, or
/// at the head of the file; new functionality goes behind the entry point of a Rust program and
/// in front of the entry point of a Python or Ruby program, or, where there
/// is no entry point, at the end of the text.
pub open spec fn located_plan(
    mode: EditMode,
    language: LanguageTag,
    structure_name: Seq<u8>,
    original: Seq<u8>,
    tree: TreeView,
) -> Result<Plan, FailureKind> {
    match mode {
        EditMode::WholeFileRewrite => Ok(Plan::Replace { start: 0, end: original.len() as usize }),
        EditMode::DocumentWholeFile => Ok(
            Plan::FileDoc {
                start: leading_doc_range(tree).0 as usize,
                end: leading_doc_range(tree).1 as usize,
            },
        ),
        EditMode::AddFunctionality => match entry_span(tree, language) {
            Some((start, end)) => Ok(
                Plan::Insert {
                    at: if language == LanguageTag::Rust {
                        end as usize
                    } else {
                        start as usize
                    },
                    trimmed: false,
                },
            ),
            None => Ok(Plan::Insert { at: original.len() as usize, trimmed: false }),
        },
        _ => match located_span(tree, language, structure_name) {
            Some((start, end)) => Ok(
                match mode {
                    EditMode::ReplaceStructure => Plan::Replace {
                        start: extended_start(original, start) as usize,
                        end: end as usize,
                    },
                    EditMode::AddTests => Plan::Insert { at: end as usize, trimmed: true },
                    _ => Plan::StructureDoc {
                        struct_start: attribute_start(original, start) as usize,
                    },
                },
            ),
            None => Err(FailureKind::StructureNotFound),
        },
    }
}

/// The text of the structure that a request speaks of: the located
/// structure from its extended start to its end; empty where no structure
/// is located.
pub open spec fn structure_code(
    language: LanguageTag,
    structure_name: Seq<u8>,
    original: Seq<u8>,
    tree: TreeView,
) -> Seq<u8> {
    match located_span(tree, language, structure_name) {
        Some((start, end)) => original.subrange(extended_start(original, start), end),
        None => Seq::empty(),
    }
}

impl SessionView {
    /// What holds of every session: the attempts are counted within their
    /// bound, a plan that awaits content lies within the original text, and
    /// between attempts and after a failure the file is meant to hold the
    /// original text.
    pub open spec fn valid(self) -> bool {
        &&& 0 <= self.attempts <= self.max_attempts <= usize::MAX
        &&& self.original.len() <= usize::MAX
        &&& (self.phase is Locating || self.phase is Retrying) ==> self.attempts
            < self.max_attempts
        &&& self.phase is Requesting ==> self.plan is Some && self.plan->Some_0.in_bounds(
            self.original.len() as int,
        )
        &&& (self.phase is Locating || self.phase is Retrying || self.phase is Failed)
            ==> self.working == self.original
    }

    /// The request of the attempt that is about to be made.
    pub open spec fn attempt_request(self, tree: TreeView) -> Seq<u8> {
        let base = request_text(
            self.mode,
            self.templates,
            structure_code(self.language, self.structure_name, self.original, tree),
            self.original,
            self.user_request,
            self.structure_name,
        );
        match self.feedback {
            Some(report) => request_with_feedback(base, report),
            None => base,
        }
    }

    /// The session after it has failed for `kind`; the file is to be
    /// restored.
    pub open spec fn fail(self, kind: FailureKind) -> (SessionView, ActionView) {
        (
            SessionView { working: self.original, phase: Phase::Failed(kind), plan: None, ..self },
            ActionView::Restore,
        )
    }

    /// The session once the text has been located with `tree`: it fails
    /// where the edit cannot be placed, and else asks the generator.
    pub open spec fn locate(self, tree: TreeView) -> (SessionView, ActionView) {
        match located_plan(self.mode, self.language, self.structure_name, self.original, tree) {
            Ok(plan) => (
                SessionView {
                    phase: Phase::Requesting,
                    plan: Some(plan),
                    attempts: self.attempts + 1,
                    ..self
                },
                ActionView::Generate { prompt: self.attempt_request(tree) },
            ),
            Err(kind) => self.fail(kind),
        }
    }

    /// The start of an attempt. No attempt is made when none is allowed: the
    /// file goes to the commit as it is. A rewrite of the whole file needs no
    /// tree; every other edit asks for one.
    pub open spec fn enter(self) -> (SessionView, ActionView) {
        if self.attempts >= self.max_attempts {
            (SessionView { phase: Phase::Committing, ..self }, ActionView::Commit)
        } else if needs_tree(self.mode) {
            (SessionView { phase: Phase::Locating, ..self }, ActionView::Parse)
        } else {
            self.locate(arbitrary())
        }
    }

    /// The transition: the session after `event`, and what is to be done
    /// next. An event that the phase does not await changes nothing.
    pub open spec fn next(self, event: EventView) -> (SessionView, ActionView) {
        match (self.phase, event) {
            (Phase::Locating, EventView::Parsed(None)) => self.fail(FailureKind::ParseFailure),
            (Phase::Locating, EventView::Parsed(Some(tree))) => if tree.fits(
                self.original.len() as int,
            ) {
                self.locate(tree)
            } else {
                self.fail(FailureKind::ParseFailure)
            },
            (Phase::Requesting, EventView::Generated(None)) => self.fail(
                FailureKind::GeneratorFailure,
            ),
            (Phase::Requesting, EventView::Generated(Some(content))) => {
                let text = self.plan->Some_0.realized(self.original, content);
                (
                    SessionView { working: text, phase: Phase::Persisting, ..self },
                    ActionView::Write { text },
                )
            },
            (Phase::Persisting, EventView::Persisted(false)) => self.fail(
                FailureKind::PersistFailure,
            ),
            (Phase::Persisting, EventView::Persisted(true)) => if self.validates {
                (SessionView { phase: Phase::Validating, ..self }, ActionView::Validate)
            } else {
                (SessionView { phase: Phase::Committing, ..self }, ActionView::Commit)
            },
            (Phase::Validating, EventView::Validated { success: true, .. }) => (
                SessionView { phase: Phase::Committing, ..self },
                ActionView::Commit,
            ),
            (Phase::Validating, EventView::Validated { success: false, output }) => if self.attempts
                < self.max_attempts {
                (
                    SessionView {
                        working: self.original,
                        feedback: Some(output),
                        phase: Phase::Retrying,
                        ..self
                    },
                    ActionView::Revert,
                )
            } else {
                self.fail(FailureKind::ValidationFailure)
            },
            (Phase::Retrying, EventView::Reverted(false)) => self.fail(FailureKind::PersistFailure),
            (Phase::Retrying, EventView::Reverted(true)) => self.enter(),
            (Phase::Committing, EventView::Committed(true)) => (
                SessionView { phase: Phase::Accepted, ..self },
                ActionView::Finish,
            ),
            (Phase::Committing, EventView::Committed(false)) => self.fail(
                FailureKind::CommitFailure,
            ),
            _ => (self, ActionView::Ignored),
        }
    }

    /// The session after a run of events.
    pub open spec fn run(self, events: Seq<EventView>) -> SessionView
        decreases events.len(),
    {
        if events.len() == 0 {
            self
        } else {
            self.run(events.drop_last()).next(events.last()).0
        }
    }

    /// What the file holds after a run of events, when the driver performs
    /// each action as it is asked and the file held `file` before.
    pub open spec fn file_after(self, events: Seq<EventView>, file: Seq<u8>) -> Seq<u8>
        decreases events.len(),
    {
        if events.len() == 0 {
            file
        } else {
            performed(
                self.file_after(events.drop_last(), file),
                self.run(events.drop_last()).next(events.last()).1,
                self.original,
            )
        }
    }

    /// How often the generator is asked for content in a run of events.
    pub open spec fn generations(self, events: Seq<EventView>) -> int
        decreases events.len(),
    {
        if events.len() == 0 {
            0
        } else {
            self.generations(events.drop_last()) + if self.run(events.drop_last()).next(
                events.last(),
            ).1 is Generate {
                1int
            } else {
                0int
            }
        }
    }
}

impl SessionView {
    /// How often the validator is asked for its verdict in a run of events.
    pub open spec fn validations(self, events: Seq<EventView>) -> int
        decreases events.len(),
    {
        if events.len() == 0 {
            0
        } else {
            self.validations(events.drop_last()) + if self.run(events.drop_last()).next(
                events.last(),
            ).1 is Validate {
                1int
            } else {
                0int
            }
        }
    }

    /// The session once the attempt that it has asked content for has been
    /// judged: `content` has come, the edited text has been written, and the
    /// validator has given its verdict.
    pub open spec fn judged(self, content: Seq<u8>, success: bool, output: Seq<u8>) -> (
        SessionView,
        ActionView,
    ) {
        self.next(EventView::Generated(Some(content))).0.next(EventView::Persisted(true)).0.next(
            EventView::Validated { success, output },
        )
    }
}

/// The events of one attempt that is written and judged.
pub open spec fn attempt_events(content: Seq<u8>, success: bool, output: Seq<u8>) -> Seq<
    EventView,
> {
    seq![
        EventView::Generated(Some(content)),
        EventView::Persisted(true),
        EventView::Validated { success, output },
    ]
}

/// The events between a rejected attempt and the request of the next one:
/// the file is put back, and the original text is parsed anew where the
/// edit needs its tree.
pub open spec fn retry_events(mode: EditMode, tree: TreeView) -> Seq<EventView> {
    if needs_tree(mode) {
        seq![EventView::Reverted(true), EventView::Parsed(Some(tree))]
    } else {
        seq![EventView::Reverted(true)]
    }
}

/// The event that reports the parse of `source` in `language`: its syntax
/// tree, or that there is none.
pub open spec fn parsed_event(source: Seq<u8>, language: LanguageTag) -> EventView {
    EventView::Parsed(
        match parsed_tree(source, language) {
            Ok(tree) => Some(tree),
            Err(_) => None,
        },
    )
}

/// What a file holds once an action has been performed on it: a write puts
/// the edited text there; a revert and a restore put the original text
/// back; nothing else touches the file.
pub open spec fn performed(file: Seq<u8>, action: ActionView, original: Seq<u8>) -> Seq<u8> {
    match action {
        ActionView::Write { text } => text,
        ActionView::Revert => original,
        ActionView::Restore => original,
        _ => file,
    }
}

/// The session as it is set up for a file that holds `original`.
pub open spec fn fresh(
    mode: EditMode,
    language: LanguageTag,
    structure_name: Seq<u8>,
    user_request: Seq<u8>,
    templates: Requests,
    original: Seq<u8>,
    max_attempts: int,
    validates: bool,
) -> SessionView {
    SessionView {
        mode,
        language,
        structure_name,
        user_request,
        templates,
        original,
        working: original,
        attempts: 0,
        max_attempts,
        feedback: None,
        validates,
        phase: Phase::Retrying,
        plan: None,
    }
}

/// A span that the locator finds in a tree that fits a text lies within
/// that text.
pub proof fn lemma_located_within(tree: TreeView, language: LanguageTag, name: Seq<u8>, len: int)
    requires
        tree.fits(len),
        located_span(tree, language, name) is Some,
    ensures
        ({
            let (start, end) = located_span(tree, language, name)->Some_0;
            0 <= start <= end <= len
        }),
{
    lemma_first_where_holds(tree, named(language, name));
    lemma_descendant_within(tree, first_match(tree, language, name)->Some_0);
}

/// The span of an entry point found in a tree that fits a text lies within
/// that text.
pub proof fn lemma_entry_within(tree: TreeView, language: LanguageTag, len: int)
    requires
        tree.fits(len),
        entry_span(tree, language) is Some,
    ensures
        ({
            let (start, end) = entry_span(tree, language)->Some_0;
            0 <= start <= end <= len
        }),
{
    tree.lemma_first_child(0, crate::anchor::entry_of(language));
    let first = tree.first_child(0, crate::anchor::entry_of(language));
    assert(tree.children[first].well_formed());
}

/// Locates the place of an edit in `original`, whose tree is `root`: see
/// `located_plan`.
pub fn plan_edit(request: &EditRequest, original: &[u8], root: &SyntaxNode) -> (plan: Result<
    Plan,
    FailureKind,
>)
    requires
        root@.fits(original@.len() as int),
    ensures
        plan == located_plan(
            request.mode,
            request.language,
            request.structure_name@,
            original@,
            root@,
        ),
        plan matches Ok(p) ==> p.in_bounds(original@.len() as int),
{
    match request.mode {
        EditMode::WholeFileRewrite => Ok(Plan::Replace { start: 0, end: original.len() }),
        EditMode::DocumentWholeFile => {
            let (start, end) = find_doc_range_tree_sitter(root);
            proof {
                lemma_leading_docs_within(root@);
            }
            Ok(Plan::FileDoc { start, end })
        },
        EditMode::AddFunctionality => {
            match find_entry_point(root, request.language) {
                Some((start, end)) => {
                    proof {
                        lemma_entry_within(root@, request.language, original@.len() as int);
                    }
                    match request.language {
                        LanguageTag::Rust => Ok(Plan::Insert { at: end, trimmed: false }),
                        _ => Ok(Plan::Insert { at: start, trimmed: false }),
                    }
                },
                None => Ok(Plan::Insert { at: original.len(), trimmed: false }),
            }
        },
        mode => {
            match find_structure(root, request.structure_name.as_slice(), request.language) {
                Some((start, end)) => {
                    proof {
                        lemma_located_within(
                            root@,
                            request.language,
                            request.structure_name@,
                            original@.len() as int,
                        );
                    }
                    match mode {
                        EditMode::ReplaceStructure => Ok(
                            Plan::Replace { start: extend_start(original, start), end },
                        ),
                        EditMode::AddTests => Ok(Plan::Insert { at: end, trimmed: true }),
                        _ => Ok(
                            Plan::StructureDoc {
                                struct_start: find_properties_start_byte(original, start),
                            },
                        ),
                    }
                },
                None => Err(FailureKind::StructureNotFound),
            }
        },
    }
}

/// The text of the structure that a request speaks of: see
/// `structure_code`.
pub fn structure_text(request: &EditRequest, original: &[u8], root: &SyntaxNode) -> (code: Vec<u8>)
    requires
        root@.fits(original@.len() as int),
    ensures
        code@ == structure_code(request.language, request.structure_name@, original@, root@),
{
    match find_structure(root, request.structure_name.as_slice(), request.language) {
        Some((start, end)) => {
            proof {
                lemma_located_within(
                    root@,
                    request.language,
                    request.structure_name@,
                    original@.len() as int,
                );
            }
            slice_copy(original, extend_start(original, start), end)
        },
        None => Vec::new(),
    }
}

/// Makes the edited text of an attempt: see `Plan::realized`.
pub fn realize(plan: Plan, original: &[u8], content: &[u8]) -> (text: Vec<u8>)
    requires
        plan.in_bounds(original@.len() as int),
    ensures
        text@ == plan.realized(original@, content@),
{
    match plan {
        Plan::Replace { start, end } => splice(original, start, end, content),
        Plan::Insert { at, trimmed } => {
            let (lo, hi) = if trimmed {
                trim(content, 0, content.len())
            } else {
                (0, content.len())
            };
            let body = vstd::slice::slice_subrange(content, lo, hi);
            assert(!trimmed ==> body@ =~= content@);
            let piece = join3("\n\n".as_bytes(), body, "\n\n".as_bytes());
            insert_at(original, at, piece.as_slice())
        },
        Plan::StructureDoc { struct_start } => {
            let (lo, hi) = trim(content, 0, content.len());
            document_structure(
                original,
                struct_start,
                vstd::slice::slice_subrange(content, lo, hi),
            )
        },
        Plan::FileDoc { start, end } => {
            if start != end {
                splice(original, start, end, content)
            } else {
                let mut piece = slice_copy(content, 0, content.len());
                assert(piece@ =~= content@);
                append(&mut piece, "\n\n".as_bytes());
                insert_at(original, 0, piece.as_slice())
            }
        },
    }
}

impl RevisionSession {
    /// Sets a session up for a file that holds `original_text`, and starts
    /// its first attempt.
    pub fn new(
        request: EditRequest,
        templates: Requests,
        original_text: Vec<u8>,
        max_attempts: usize,
        validates: bool,
    ) -> (started: (RevisionSession, SessionAction))
        ensures
            (started.0@, started.1@) == fresh(
                request.mode,
                request.language,
                request.structure_name@,
                request.user_request@,
                templates,
                original_text@,
                max_attempts as int,
                validates,
            ).enter(),
            started.0@.valid(),
            started.0@.original == original_text@,
    {
        let working_text = slice_copy(original_text.as_slice(), 0, original_text.len());
        assert(working_text@ =~= original_text@);
        let mut session = RevisionSession {
            request,
            templates,
            original_text,
            working_text,
            attempt_count: 0,
            max_attempts,
            last_feedback: None,
            validates,
            phase: Phase::Retrying,
            plan: None,
        };
        if max_attempts == 0 {
            session.phase = Phase::Committing;
            return (session, SessionAction::Commit);
        }
        let action = session.enter();
        (session, action)
    }

    /// Starts an attempt: see `SessionView::enter`.
    fn enter(&mut self) -> (action: SessionAction)
        requires
            old(self)@.valid(),
            old(self)@.attempts < old(self)@.max_attempts,
            old(self)@.working == old(self)@.original,
        ensures
            (final(self)@, action@) == old(self)@.enter(),
            final(self)@.valid(),
    {
        if self.request.mode != EditMode::WholeFileRewrite {
            self.phase = Phase::Locating;
            SessionAction::Parse
        } else {
            let plan = Plan::Replace { start: 0, end: self.original_text.len() };
            let base = build_request(
                self.request.mode,
                &self.templates,
                &[],
                self.original_text.as_slice(),
                self.request.user_request.as_slice(),
                self.request.structure_name.as_slice(),
            );
            let prompt = match &self.last_feedback {
                Some(report) => with_feedback(base.as_slice(), report.as_slice()),
                None => base,
            };
            self.phase = Phase::Requesting;
            self.plan = Some(plan);
            self.attempt_count = self.attempt_count + 1;
            SessionAction::Generate { prompt }
        }
    }

    /// Fails the session: see `SessionView::fail`.
    fn fail(&mut self, kind: FailureKind) -> (action: SessionAction)
        requires
            old(self)@.valid(),
        ensures
            (final(self)@, action@) == old(self)@.fail(kind),
            final(self)@.valid(),
    {
        self.working_text = slice_copy(self.original_text.as_slice(), 0, self.original_text.len());
        assert(self.working_text@ =~= self.original_text@);
        self.phase = Phase::Failed(kind);
        self.plan = None;
        SessionAction::Restore
    }

    /// Places the edit with the tree of the original text and asks the
    /// generator: see `SessionView::locate`.
    fn locate(&mut self, root: &SyntaxNode) -> (action: SessionAction)
        requires
            old(self)@.valid(),
            old(self)@.attempts < old(self)@.max_attempts,
            old(self)@.working == old(self)@.original,
            root@.fits(old(self)@.original.len() as int),
        ensures
            (final(self)@, action@) == old(self)@.locate(root@),
            final(self)@.valid(),
    {
        match plan_edit(&self.request, self.original_text.as_slice(), root) {
            Ok(plan) => {
                let code = structure_text(&self.request, self.original_text.as_slice(), root);
                let base = build_request(
                    self.request.mode,
                    &self.templates,
                    code.as_slice(),
                    self.original_text.as_slice(),
                    self.request.user_request.as_slice(),
                    self.request.structure_name.as_slice(),
                );
                let prompt = match &self.last_feedback {
                    Some(report) => with_feedback(base.as_slice(), report.as_slice()),
                    None => base,
                };
                self.phase = Phase::Requesting;
                self.plan = Some(plan);
                self.attempt_count = self.attempt_count + 1;
                SessionAction::Generate { prompt }
            },
            Err(kind) => self.fail(kind),
        }
    }

    /// Sets a session up as `new` does and, where the first attempt needs
    /// the tree of the text, parses the text at once and takes the outcome
    /// as the event `parsed_event`. What is returned is never a request to
    /// parse.
    pub fn start(
        request: EditRequest,
        templates: Requests,
        original_text: Vec<u8>,
        max_attempts: usize,
        validates: bool,
    ) -> (started: (RevisionSession, SessionAction))
        ensures
            started.0@.valid(),
            started.0@.original == original_text@,
            !(started.1@ is Parse),
            ({
                let (first, asked) = fresh(
                    request.mode,
                    request.language,
                    request.structure_name@,
                    request.user_request@,
                    templates,
                    original_text@,
                    max_attempts as int,
                    validates,
                ).enter();
                if asked is Parse {
                    (started.0@, started.1@) == first.next(
                        parsed_event(original_text@, request.language),
                    )
                } else {
                    (started.0@, started.1@) == (first, asked)
                }
            }),
    {
        let (mut session, action) = RevisionSession::new(
            request,
            templates,
            original_text,
            max_attempts,
            validates,
        );
        match action {
            SessionAction::Parse => {
                let parsed = parse_source(session.original_text.as_slice(), session.request.language);
                let event = SessionEvent::Parsed(parsed);
                let ghost first = session@;
                let ghost seen = event@;
                let next = session.step(event);
                proof {
                    lemma_next_keeps_valid(first, seen);
                    assert(seen is Parsed);
                    assert((session@, next@) == first.next(EventView::Parsed(seen->Parsed_0)));
                }
                (session, next)
            },
            other => (session, other),
        }
    }

    /// Takes `event` as `step` does and, where the machine then asks for the
    /// tree of the original text, parses the text at once and takes the
    /// outcome as the event `parsed_event`. What is returned is never a
    /// request to parse.
    pub fn advance(&mut self, event: SessionEvent) -> (action: SessionAction)
        requires
            old(self)@.valid(),
        ensures
            final(self)@.valid(),
            final(self)@.original == old(self)@.original,
            !(action@ is Parse),
            ({
                let (first, asked) = old(self)@.next(event@);
                if asked is Parse {
                    (final(self)@, action@) == first.next(
                        parsed_event(old(self)@.original, old(self)@.language),
                    )
                } else {
                    (final(self)@, action@) == (first, asked)
                }
            }),
    {
        let ghost before = self@;
        let ghost taken = event@;
        proof {
            lemma_next_keeps_valid(before, taken);
        }
        let action = self.step(event);
        match action {
            SessionAction::Parse => {
                let parsed = parse_source(self.original_text.as_slice(), self.request.language);
                let event = SessionEvent::Parsed(parsed);
                let ghost first = self@;
                let ghost seen = event@;
                let next = self.step(event);
                proof {
                    lemma_next_keeps_valid(first, seen);
                    assert(seen is Parsed);
                    assert((self@, next@) == first.next(EventView::Parsed(seen->Parsed_0)));
                }
                next
            },
            other => other,
        }
    }

    /// The transition of the state machine: takes `event` and says what is
    /// to be done next. See `SessionView::next`.
    pub fn step(&mut self, event: SessionEvent) -> (action: SessionAction)
        requires
            old(self)@.valid(),
        ensures
            (final(self)@, action@) == old(self)@.next(event@),
            final(self)@.valid(),
    {
        match (self.phase, event) {
            (Phase::Locating, SessionEvent::Parsed(Err(_))) => self.fail(FailureKind::ParseFailure),
            (Phase::Locating, SessionEvent::Parsed(Ok(root))) => {
                if root.check_fits(self.original_text.len()) {
                    self.locate(&root)
                } else {
                    self.fail(FailureKind::ParseFailure)
                }
            },
            (Phase::Requesting, SessionEvent::Generated(None)) => self.fail(
                FailureKind::GeneratorFailure,
            ),
            (Phase::Requesting, SessionEvent::Generated(Some(content))) => {
                let plan = self.plan.unwrap();
                let text = realize(plan, self.original_text.as_slice(), content.as_slice());
                self.working_text = slice_copy(text.as_slice(), 0, text.len());
                assert(self.working_text@ =~= text@);
                self.phase = Phase::Persisting;
                SessionAction::Write { text }
            },
            (Phase::Persisting, SessionEvent::Persisted(false)) => self.fail(
                FailureKind::PersistFailure,
            ),
            (Phase::Persisting, SessionEvent::Persisted(true)) => {
                if self.validates {
                    self.phase = Phase::Validating;
                    SessionAction::Validate
                } else {
                    self.phase = Phase::Committing;
                    SessionAction::Commit
                }
            },
            (Phase::Validating, SessionEvent::Validated { success: true, .. }) => {
                self.phase = Phase::Committing;
                SessionAction::Commit
            },
            (Phase::Validating, SessionEvent::Validated { success: false, output }) => {
                if self.attempt_count < self.max_attempts {
                    self.working_text = slice_copy(
                        self.original_text.as_slice(),
                        0,
                        self.original_text.len(),
                    );
                    assert(self.working_text@ =~= self.original_text@);
                    self.last_feedback = Some(output);
                    self.phase = Phase::Retrying;
                    SessionAction::Revert
                } else {
                    self.fail(FailureKind::ValidationFailure)
                }
            },
            (Phase::Retrying, SessionEvent::Reverted(false)) => self.fail(
                FailureKind::PersistFailure,
            ),
            (Phase::Retrying, SessionEvent::Reverted(true)) => self.enter(),
            (Phase::Committing, SessionEvent::Committed(true)) => {
                self.phase = Phase::Accepted;
                SessionAction::Finish
            },
            (Phase::Committing, SessionEvent::Committed(false)) => self.fail(
                FailureKind::CommitFailure,
            ),
            _ => SessionAction::Ignored,
        }
    }
}

/// Every transition keeps a session valid and leaves the original text as
/// it is.
pub proof fn lemma_next_keeps_valid(session: SessionView, event: EventView)
    requires
        session.valid(),
    ensures
        session.next(event).0.valid(),
        session.next(event).0.original == session.original,
        session.next(event).0.max_attempts == session.max_attempts,
        session.next(event).0.attempts == session.attempts + if session.next(event).1 is Generate {
            1int
        } else {
            0int
        },
        session.next(event).0.phase is Failed ==> session.next(event).0.working
            == session.original,
        session.next(event).0.phase is Failed && !(session.phase is Failed) ==> session.next(
            event,
        ).1 is Restore,
{
    match (session.phase, event) {
        (Phase::Locating, EventView::Parsed(Some(tree))) => {
            if tree.fits(session.original.len() as int) {
                lemma_located_plan_in_bounds(
                    session.mode,
                    session.language,
                    session.structure_name,
                    session.original,
                    tree,
                );
            }
        },
        (Phase::Retrying, EventView::Reverted(true)) => {
            if !needs_tree(session.mode) {
                let tree: TreeView = arbitrary();
                assert(session.enter() == session.locate(tree));
            }
        },
        _ => {},
    }
}

/// A plan located in a text lies within that text.
pub proof fn lemma_located_plan_in_bounds(
    mode: EditMode,
    language: LanguageTag,
    structure_name: Seq<u8>,
    original: Seq<u8>,
    tree: TreeView,
)
    requires
        original.len() <= usize::MAX,
        needs_tree(mode) ==> tree.fits(original.len() as int),
    ensures
        located_plan(mode, language, structure_name, original, tree) matches Ok(plan)
            ==> plan.in_bounds(original.len() as int),
{
    assert(original.len() as usize == original.len());
    match mode {
        EditMode::WholeFileRewrite => {},
        EditMode::DocumentWholeFile => {
            lemma_leading_docs_within(tree);
        },
        EditMode::AddFunctionality => {
            if entry_span(tree, language) is Some {
                lemma_entry_within(tree, language, original.len() as int);
            }
        },
        _ => {
            if located_span(tree, language, structure_name) is Some {
                lemma_located_within(tree, language, structure_name, original.len() as int);
                lemma_extended_start_monotone(
                    original,
                    located_span(tree, language, structure_name)->Some_0.0,
                );
            }
        },
    }
}

/// Restore invariant: whatever the events of a session, once it has failed
/// the file is meant to hold the original text, byte for byte; and the
/// original text is never changed.
pub proof fn lemma_failure_restores(session: SessionView, events: Seq<EventView>)
    requires
        session.valid(),
    ensures
        session.run(events).valid(),
        session.run(events).original == session.original,
        session.run(events).max_attempts == session.max_attempts,
        session.run(events).phase is Failed ==> session.run(events).working == session.original,
    decreases events.len(),
{
    if events.len() > 0 {
        lemma_failure_restores(session, events.drop_last());
        lemma_next_keeps_valid(session.run(events.drop_last()), events.last());
    }
}

/// The file follows the session: when the driver performs each action as
/// it is asked, the file holds what the session means it to hold. So after a
/// failure the file holds the original text, byte for byte, and after
/// success it holds exactly the spliced text of the last attempt.
pub proof fn lemma_file_follows_session(
    session: SessionView,
    events: Seq<EventView>,
    file: Seq<u8>,
)
    requires
        session.valid(),
        file == session.working,
    ensures
        session.file_after(events, file) == session.run(events).working,
        session.run(events).phase is Failed ==> session.file_after(events, file)
            == session.original,
    decreases events.len(),
{
    lemma_failure_restores(session, events);
    if events.len() > 0 {
        lemma_file_follows_session(session, events.drop_last(), file);
        lemma_failure_restores(session, events.drop_last());
        lemma_next_keeps_valid(session.run(events.drop_last()), events.last());
        lemma_next_file(session.run(events.drop_last()), events.last());
    }
}

/// One transition: the action that it asks for makes the file hold what the
/// session means it to hold.
pub proof fn lemma_next_file(session: SessionView, event: EventView)
    requires
        session.valid(),
    ensures
        performed(session.working, session.next(event).1, session.original) == session.next(
            event,
        ).0.working,
{
    match (session.phase, event) {
        (Phase::Retrying, EventView::Reverted(true)) => {
            if !needs_tree(session.mode) {
                let tree: TreeView = arbitrary();
                assert(session.enter() == session.locate(tree));
            }
        },
        _ => {},
    }
}

/// Retry boundedness: whatever the events of a session, the generator is
/// asked for content at most `max_attempts` times.
pub proof fn lemma_generations_bounded(session: SessionView, events: Seq<EventView>)
    requires
        session.valid(),
    ensures
        session.run(events).attempts == session.attempts + session.generations(events),
        session.attempts + session.generations(events) <= session.max_attempts,
    decreases events.len(),
{
    lemma_failure_restores(session, events);
    if events.len() > 0 {
        lemma_generations_bounded(session, events.drop_last());
        lemma_failure_restores(session, events.drop_last());
        lemma_next_keeps_valid(session.run(events.drop_last()), events.last());
    }
}

/// A run that is continued by one event: the session takes the event in the
/// state that the run has left, and the counts of requests to the generator
/// and to the validator grow by the action that it then asks for.
pub proof fn lemma_run_push(session: SessionView, events: Seq<EventView>, event: EventView)
    ensures
        session.run(events.push(event)) == session.run(events).next(event).0,
        session.generations(events.push(event)) == session.generations(events) + if session.run(
            events,
        ).next(event).1 is Generate {
            1int
        } else {
            0int
        },
        session.validations(events.push(event)) == session.validations(events) + if session.run(
            events,
        ).next(event).1 is Validate {
            1int
        } else {
            0int
        },
{
    assert(events.push(event).drop_last() =~= events);
}

/// A run that is continued by another: the second starts in the state that
/// the first has left, and the counts add up.
pub proof fn lemma_run_append(session: SessionView, first: Seq<EventView>, second: Seq<EventView>)
    ensures
        session.run(first + second) == session.run(first).run(second),
        session.generations(first + second) == session.generations(first) + session.run(
            first,
        ).generations(second),
        session.validations(first + second) == session.validations(first) + session.run(
            first,
        ).validations(second),
    decreases second.len(),
{
    if second.len() == 0 {
        assert(first + second =~= first);
    } else {
        lemma_run_append(session, first, second.drop_last());
        assert(first + second =~= (first + second.drop_last()).push(second.last()));
        lemma_run_push(session, first + second.drop_last(), second.last());
    }
}

/// One attempt, judged: the run of its three events is the session `judged`,
/// in which the generator is not asked again and the validator is asked
/// once.
pub proof fn lemma_attempt_is_judged(
    session: SessionView,
    content: Seq<u8>,
    success: bool,
    output: Seq<u8>,
)
    requires
        session.valid(),
        session.phase is Requesting,
        session.validates,
    ensures
        session.run(attempt_events(content, success, output)) == session.judged(
            content,
            success,
            output,
        ).0,
        session.generations(attempt_events(content, success, output)) == 0,
        session.validations(attempt_events(content, success, output)) == 1,
        session.next(EventView::Generated(Some(content))).1 == (ActionView::Write {
            text: session.plan->Some_0.realized(session.original, content),
        }),
        session.next(EventView::Generated(Some(content))).0.next(EventView::Persisted(true)).1
            is Validate,
{
    let none = Seq::<EventView>::empty();
    let one = none.push(EventView::Generated(Some(content)));
    let two = one.push(EventView::Persisted(true));
    let three = two.push(EventView::Validated { success, output });
    lemma_run_push(session, none, EventView::Generated(Some(content)));
    lemma_run_push(session, one, EventView::Persisted(true));
    lemma_run_push(session, two, EventView::Validated { success, output });
    assert(three =~= attempt_events(content, success, output));
}

/// A rejected attempt that is not the last one is retried: the file is to
/// be put back to the original text, the validator's report is kept for the
/// next request, and the count of attempts stands.
pub proof fn lemma_rejected_attempt_is_retried(
    session: SessionView,
    content: Seq<u8>,
    report: Seq<u8>,
)
    requires
        session.valid(),
        session.phase is Requesting,
        session.validates,
        session.attempts < session.max_attempts,
    ensures
        ({
            let (after, action) = session.judged(content, false, report);
            &&& action is Revert
            &&& after == (SessionView {
                phase: Phase::Retrying,
                working: session.original,
                feedback: Some(report),
                ..session
            })
        }),
{
}

/// A rejected attempt that is the last one ends the session: it has failed
/// for the validator's verdict, the file is to be restored, and it is meant
/// to hold the original text.
pub proof fn lemma_last_attempt_rejected(session: SessionView, content: Seq<u8>, report: Seq<u8>)
    requires
        session.valid(),
        session.phase is Requesting,
        session.validates,
        session.attempts == session.max_attempts,
    ensures
        ({
            let (after, action) = session.judged(content, false, report);
            &&& action is Restore
            &&& after.phase == Phase::Failed(FailureKind::ValidationFailure)
            &&& after.working == session.original
            &&& after.attempts == session.max_attempts
        }),
{
}

/// An attempt that the validator accepts is committed, and then the session
/// is accepted: the file is meant to hold the content spliced into the
/// original text, as the plan of this attempt says.
pub proof fn lemma_accepted_attempt(session: SessionView, content: Seq<u8>, verdict: Seq<u8>)
    requires
        session.valid(),
        session.phase is Requesting,
        session.validates,
    ensures
        ({
            let (judged, action) = session.judged(content, true, verdict);
            let (after, last) = judged.next(EventView::Committed(true));
            &&& action is Commit
            &&& last is Finish
            &&& after.phase is Accepted
            &&& after.working == session.plan->Some_0.realized(session.original, content)
            &&& after.attempts == session.attempts
        }),
{
}

/// The request after a rejected attempt: once the file is put back (and the
/// original text parsed anew, where the edit needs its tree), the generator
/// is asked again, with the request of the edit followed by the validator's
/// report; the edit is placed in the original text as before, and the count
/// of attempts grows by one.
pub proof fn lemma_retry_asks_with_feedback(session: SessionView, tree: TreeView, report: Seq<u8>)
    requires
        session.valid(),
        session.phase is Retrying,
        session.feedback == Some(report),
        needs_tree(session.mode) ==> tree.fits(session.original.len() as int),
        located_plan(
            session.mode,
            session.language,
            session.structure_name,
            session.original,
            tree,
        ) is Ok,
    ensures
        ({
            let after = session.run(retry_events(session.mode, tree));
            &&& after.phase is Requesting
            &&& after.attempts == session.attempts + 1
            &&& after.working == session.original
            &&& after.plan == Some(
                located_plan(
                    session.mode,
                    session.language,
                    session.structure_name,
                    session.original,
                    tree,
                )->Ok_0,
            )
            &&& session.generations(retry_events(session.mode, tree)) == 1
            &&& session.validations(retry_events(session.mode, tree)) == 0
            &&& after.valid()
            &&& after.validates == session.validates
            &&& after.original == session.original
            &&& after.max_attempts == session.max_attempts
        }),
        session.locate(tree).1 == (ActionView::Generate {
            prompt: request_with_feedback(
                request_text(
                    session.mode,
                    session.templates,
                    structure_code(session.language, session.structure_name, session.original, tree),
                    session.original,
                    session.user_request,
                    session.structure_name,
                ),
                report,
            ),
        }),
{
    let none = Seq::<EventView>::empty();
    let one = none.push(EventView::Reverted(true));
    lemma_run_push(session, none, EventView::Reverted(true));
    lemma_next_keeps_valid(session, EventView::Reverted(true));
    lemma_located_plan_in_bounds(
        session.mode,
        session.language,
        session.structure_name,
        session.original,
        tree,
    );
    if needs_tree(session.mode) {
        let two = one.push(EventView::Parsed(Some(tree)));
        lemma_run_push(session, one, EventView::Parsed(Some(tree)));
        lemma_next_keeps_valid(session.run(one), EventView::Parsed(Some(tree)));
        assert(two =~= retry_events(session.mode, tree));
    } else {
        let any: TreeView = arbitrary();
        assert(session.enter() == session.locate(any));
        assert(one =~= retry_events(session.mode, tree));
    }
}

/// A first attempt that is rejected and a second that is accepted: the
/// generator is asked once more, the validator twice, and the session ends
/// accepted with the second content spliced into the original text, not
/// into the text of the first attempt.
pub proof fn lemma_rejected_then_accepted(
    session: SessionView,
    first: Seq<u8>,
    report: Seq<u8>,
    tree: TreeView,
    second: Seq<u8>,
    verdict: Seq<u8>,
)
    requires
        session.valid(),
        session.phase is Requesting,
        session.validates,
        session.attempts < session.max_attempts,
        needs_tree(session.mode) ==> tree.fits(session.original.len() as int),
        located_plan(
            session.mode,
            session.language,
            session.structure_name,
            session.original,
            tree,
        ) is Ok,
    ensures
        ({
            let events = attempt_events(first, false, report) + retry_events(session.mode, tree)
                + attempt_events(second, true, verdict).push(EventView::Committed(true));
            let plan = located_plan(
                session.mode,
                session.language,
                session.structure_name,
                session.original,
                tree,
            )->Ok_0;
            &&& session.run(events).phase is Accepted
            &&& session.run(events).attempts == session.attempts + 1
            &&& session.generations(events) == 1
            &&& session.validations(events) == 2
            &&& session.run(events).working == plan.realized(session.original, second)
        }),
{
    let rejected = attempt_events(first, false, report);
    let retry = retry_events(session.mode, tree);
    let accepted = attempt_events(second, true, verdict);
    let last = EventView::Committed(true);
    let plan = located_plan(
        session.mode,
        session.language,
        session.structure_name,
        session.original,
        tree,
    )->Ok_0;
    let retrying = session.run(rejected);
    assert(retrying.phase is Retrying && retrying.feedback == Some(report) && retrying.valid()
        && retrying.original == session.original && retrying.mode == session.mode
        && retrying.language == session.language && retrying.structure_name
        == session.structure_name && retrying.attempts == session.attempts && retrying.validates
        && session.generations(rejected) == 0 && session.validations(rejected) == 1) by {
        lemma_attempt_is_judged(session, first, false, report);
        lemma_rejected_attempt_is_retried(session, first, report);
        lemma_failure_restores(session, rejected);
    }
    let asking = retrying.run(retry);
    assert(asking.phase is Requesting && asking.valid() && asking.validates && asking.plan
        == Some(plan) && asking.original == session.original && asking.attempts
        == session.attempts + 1 && retrying.generations(retry) == 1 && retrying.validations(retry)
        == 0) by {
        lemma_retry_asks_with_feedback(retrying, tree, report);
    }
    let done = asking.run(accepted.push(last));
    assert(done.phase is Accepted && done.attempts == asking.attempts && done.working
        == plan.realized(session.original, second) && asking.generations(accepted.push(last)) == 0
        && asking.validations(accepted.push(last)) == 1) by {
        lemma_attempt_is_judged(asking, second, true, verdict);
        lemma_accepted_attempt(asking, second, verdict);
        lemma_run_push(asking, accepted, last);
    }
    assert(session.run(rejected + retry) == asking && session.generations(rejected + retry) == 1
        && session.validations(rejected + retry) == 1) by {
        lemma_run_append(session, rejected, retry);
    }
    lemma_run_append(session, rejected + retry, accepted.push(last));
}

/// A session that has failed for the validator's verdict has used up its
/// attempts: the generator has been asked exactly `max_attempts` times.
pub proof fn lemma_validation_failure_exhausts_attempts(
    session: SessionView,
    events: Seq<EventView>,
)
    requires
        session.valid(),
        !(session.phase is Failed),
    ensures
        session.run(events).phase == Phase::Failed(FailureKind::ValidationFailure) ==> {
            &&& session.run(events).attempts == session.max_attempts
            &&& session.attempts + session.generations(events) == session.max_attempts
        },
    decreases events.len(),
{
    lemma_generations_bounded(session, events);
    if events.len() > 0 {
        lemma_validation_failure_exhausts_attempts(session, events.drop_last());
        lemma_failure_restores(session, events.drop_last());
        lemma_next_keeps_valid(session.run(events.drop_last()), events.last());
    }
}

} // verus!
