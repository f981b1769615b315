//! The texts that go out to the collaborators: the request to the
//! generator, filled in from a template; the validator's command line and
//! report; the request for a commit message; the path of the backup.

use vstd::prelude::*;
use vstd::string::StringSliceAdditionalSpecFns;
use crate::splice::join3;
use crate::text::{append, matches_at, occurs_at};

verus! {

/// The kind of edit that a session is to make.
#[derive(Clone, Copy, Debug, PartialEq, Eq, Structural)]
pub enum EditMode {
    /// Replace a named structure by generated text.
    ReplaceStructure,
    /// Replace the whole file by generated text.
    WholeFileRewrite,
    /// Add generated text next to the program's entry point.
    AddFunctionality,
    /// Add generated tests behind a named structure.
    AddTests,
    /// Write the documentation block of a named structure.
    DocumentStructure,
    /// Write the documentation at the head of the file.
    DocumentWholeFile,
}

/// The request templates, one for each kind of edit.
#[derive(Debug)]
pub struct Requests {
    pub improvement: Vec<u8>,
    pub whole_file: Vec<u8>,
    pub add_functionality: Vec<u8>,
    pub add_tests_function: Vec<u8>,
    pub documentation_whole_file: Vec<u8>,
    pub documentation_structure: Vec<u8>,
}

/// `text` from `from` on, with every occurrence of `placeholder` replaced
/// by `value`. Occurrences are taken from left to right and do not overlap.
pub open spec fn substituted_from(
    text: Seq<u8>,
    from: int,
    placeholder: Seq<u8>,
    value: Seq<u8>,
) -> Seq<u8>
    decreases text.len() - from,
{
    if from < 0 || from >= text.len() {
        Seq::empty()
    } else if placeholder.len() > 0 && occurs_at(text, from, placeholder) {
        value + substituted_from(text, from + placeholder.len(), placeholder, value)
    } else {
        seq![text[from]] + substituted_from(text, from + 1, placeholder, value)
    }
}

/// `text` with every occurrence of `placeholder` replaced by `value`. An
/// empty placeholder occurs nowhere.
pub open spec fn substituted(text: Seq<u8>, placeholder: Seq<u8>, value: Seq<u8>) -> Seq<u8> {
    substituted_from(text, 0, placeholder, value)
}

/// The placeholder for the text of the structure.
pub open spec fn structure_code_key() -> Seq<u8> {
    "{structure_code}".spec_bytes()
}

/// The placeholder for the user's instruction.
pub open spec fn user_request_key() -> Seq<u8> {
    "{user_request}".spec_bytes()
}

/// The placeholder for the name of the structure.
pub open spec fn structure_name_key() -> Seq<u8> {
    "{structure_name}".spec_bytes()
}

/// The placeholder for the text of the whole file.
pub open spec fn source_code_key() -> Seq<u8> {
    "{source_code}".spec_bytes()
}

/// The placeholder for the path of the file.
pub open spec fn file_path_key() -> Seq<u8> {
    "{file_path}".spec_bytes()
}

/// A template filled in for one structure: its code, then the user's
/// instruction, then its name, each substituted in turn.
pub open spec fn structure_request(
    template: Seq<u8>,
    structure_code: Seq<u8>,
    user_request: Seq<u8>,
    structure_name: Seq<u8>,
) -> Seq<u8> {
    substituted(
        substituted(
            substituted(template, structure_code_key(), structure_code),
            user_request_key(),
            user_request,
        ),
        structure_name_key(),
        structure_name,
    )
}

/// A template filled in for a whole file: its text, then the user's
/// instruction.
pub open spec fn file_request(template: Seq<u8>, source_code: Seq<u8>, user_request: Seq<u8>) -> Seq<
    u8,
> {
    substituted(substituted(template, source_code_key(), source_code), user_request_key(), user_request)
}

/// The request of an edit of kind `mode`.
pub open spec fn request_text(
    mode: EditMode,
    templates: Requests,
    structure_code: Seq<u8>,
    source_code: Seq<u8>,
    user_request: Seq<u8>,
    structure_name: Seq<u8>,
) -> Seq<u8> {
    match mode {
        EditMode::ReplaceStructure => structure_request(
            templates.improvement@,
            structure_code,
            user_request,
            structure_name,
        ),
        EditMode::AddTests => substituted(
            templates.add_tests_function@,
            structure_code_key(),
            structure_code,
        ),
        EditMode::DocumentStructure => structure_request(
            templates.documentation_structure@,
            structure_code,
            user_request,
            structure_name,
        ),
        EditMode::WholeFileRewrite => file_request(templates.whole_file@, source_code, user_request),
        EditMode::DocumentWholeFile => file_request(
            templates.documentation_whole_file@,
            source_code,
            user_request,
        ),
        EditMode::AddFunctionality => file_request(
            templates.add_functionality@,
            source_code,
            user_request,
        ),
    }
}

/// A request with the validator's report of the failed attempt appended.
pub open spec fn request_with_feedback(request: Seq<u8>, feedback: Seq<u8>) -> Seq<u8> {
    request + "\nLinting feedback:\n".spec_bytes() + feedback
}

/// The validator's report: what it wrote to its output, then what it wrote
/// to its error stream.
pub open spec fn lint_report_text(stdout: Seq<u8>, stderr: Seq<u8>) -> Seq<u8> {
    "stdout: ".spec_bytes() + stdout + "\nstderr: ".spec_bytes() + stderr
}

/// Replaces every occurrence of `placeholder` in `template` by `value`.
pub fn substitute(template: &[u8], placeholder: &[u8], value: &[u8]) -> (filled: Vec<u8>)
    ensures
        filled@ == substituted(template@, placeholder@, value@),
{
    let mut filled: Vec<u8> = Vec::new();
    let mut at: usize = 0;
    while at < template.len()
        invariant
            at <= template.len(),
            substituted(template@, placeholder@, value@) == filled@ + substituted_from(
                template@,
                at as int,
                placeholder@,
                value@,
            ),
        decreases template.len() - at,
    {
        let ghost before = filled@;
        if placeholder.len() > 0 && matches_at(template, at, placeholder) {
            append(&mut filled, value);
            proof {
                let rest = substituted_from(
                    template@,
                    at + placeholder@.len(),
                    placeholder@,
                    value@,
                );
                assert(before + (value@ + rest) =~= filled@ + rest);
            }
            at += placeholder.len();
        } else {
            filled.push(template[at]);
            proof {
                let rest = substituted_from(template@, at + 1, placeholder@, value@);
                assert(before + (seq![template@[at as int]] + rest) =~= filled@ + rest);
            }
            at += 1;
        }
    }
    assert(filled@ + Seq::<u8>::empty() =~= filled@);
    filled
}

/// Fills a template in for one structure: see `structure_request`.
pub fn fill_structure_request(
    template: &[u8],
    structure_code: &[u8],
    user_request: &[u8],
    structure_name: &[u8],
) -> (request: Vec<u8>)
    ensures
        request@ == structure_request(
            template@,
            structure_code@,
            user_request@,
            structure_name@,
        ),
{
    let with_code = substitute(template, "{structure_code}".as_bytes(), structure_code);
    let with_request = substitute(with_code.as_slice(), "{user_request}".as_bytes(), user_request);
    substitute(with_request.as_slice(), "{structure_name}".as_bytes(), structure_name)
}

/// Fills a template in for a whole file: see `file_request`.
pub fn fill_file_request(template: &[u8], source_code: &[u8], user_request: &[u8]) -> (request: Vec<
    u8,
>)
    ensures
        request@ == file_request(template@, source_code@, user_request@),
{
    let with_source = substitute(template, "{source_code}".as_bytes(), source_code);
    substitute(with_source.as_slice(), "{user_request}".as_bytes(), user_request)
}

/// Builds the request of an edit of kind `mode` from its template.
pub fn build_request(
    mode: EditMode,
    templates: &Requests,
    structure_code: &[u8],
    source_code: &[u8],
    user_request: &[u8],
    structure_name: &[u8],
) -> (request: Vec<u8>)
    ensures
        request@ == request_text(
            mode,
            *templates,
            structure_code@,
            source_code@,
            user_request@,
            structure_name@,
        ),
{
    match mode {
        EditMode::ReplaceStructure => fill_structure_request(
            templates.improvement.as_slice(),
            structure_code,
            user_request,
            structure_name,
        ),
        EditMode::AddTests => substitute(
            templates.add_tests_function.as_slice(),
            "{structure_code}".as_bytes(),
            structure_code,
        ),
        EditMode::DocumentStructure => fill_structure_request(
            templates.documentation_structure.as_slice(),
            structure_code,
            user_request,
            structure_name,
        ),
        EditMode::WholeFileRewrite => fill_file_request(
            templates.whole_file.as_slice(),
            source_code,
            user_request,
        ),
        EditMode::DocumentWholeFile => fill_file_request(
            templates.documentation_whole_file.as_slice(),
            source_code,
            user_request,
        ),
        EditMode::AddFunctionality => fill_file_request(
            templates.add_functionality.as_slice(),
            source_code,
            user_request,
        ),
    }
}

/// Appends the validator's report of a failed attempt to a request.
pub fn with_feedback(request: &[u8], feedback: &[u8]) -> (extended: Vec<u8>)
    ensures
        extended@ == request_with_feedback(request@, feedback@),
{
    join3(request, "\nLinting feedback:\n".as_bytes(), feedback)
}

/// The validator's command line: the template with the path of the file in
/// place of its placeholder.
pub fn lint_invocation(command_template: &[u8], file_path: &[u8]) -> (command: Vec<u8>)
    ensures
        command@ == substituted(command_template@, file_path_key(), file_path@),
{
    substitute(command_template, "{file_path}".as_bytes(), file_path)
}

/// The validator's report, made of its two output streams.
pub fn lint_report(stdout: &[u8], stderr: &[u8]) -> (report: Vec<u8>)
    ensures
        report@ == lint_report_text(stdout@, stderr@),
{
    let mut report = join3("stdout: ".as_bytes(), stdout, "\nstderr: ".as_bytes());
    append(&mut report, stderr);
    report
}

/// The request for a commit message that describes a change made in
/// `mode` to the file at `file_path`.
pub fn commit_message_request(mode: &str, file_path: &str) -> (request: String)
    ensures
        request@ == "Generate a commit message for the changes made in "@ + mode@
            + " mode to the file "@ + file_path@
            + " on a single line, it should be succinct. Only ouptut the commit message."@,
{
    String::from_str("Generate a commit message for the changes made in ").concat(mode).concat(
        " mode to the file ",
    ).concat(file_path).concat(
        " on a single line, it should be succinct. Only ouptut the commit message.",
    )
}

/// The commit message that is used when none could be generated.
pub fn default_commit_message() -> (message: String)
    ensures
        message@ == "Automated changes made by RFCU"@,
{
    String::from_str("Automated changes made by RFCU")
}

/// The path of the backup of the file at `file_path`: a sibling file with
/// the suffix `_before_revision`.
pub fn backup_path(file_path: &str) -> (path: String)
    ensures
        path@ == file_path@ + "_before_revision"@,
{
    String::from_str(file_path).concat("_before_revision")
}

/// The name by which a kind of edit is known on the command line.
pub fn mode_name(mode: EditMode) -> (name: &'static str)
    ensures
        name@ == match mode {
            EditMode::ReplaceStructure => "improvement"@,
            EditMode::WholeFileRewrite => "whole_file"@,
            EditMode::AddFunctionality => "add_functionality"@,
            EditMode::AddTests => "add_tests_function"@,
            EditMode::DocumentStructure => "documentation_structure"@,
            EditMode::DocumentWholeFile => "documentation_whole_file"@,
        },
{
    match mode {
        EditMode::ReplaceStructure => "improvement",
        EditMode::WholeFileRewrite => "whole_file",
        EditMode::AddFunctionality => "add_functionality",
        EditMode::AddTests => "add_tests_function",
        EditMode::DocumentStructure => "documentation_structure",
        EditMode::DocumentWholeFile => "documentation_whole_file",
    }
}

} // verus!
