//! What is read out of text with regular expressions: the payload of a
//! generator's response, and the functions of a PowerShell script.

use vstd::prelude::*;

verus! {

#[verifier::external_type_specification]
#[verifier::external_body]
pub struct ExRegexError(regex::Error);

/// The pattern of a fenced code block: an opening fence with an optional
/// language hint, a line break, the inner text, and a closing fence. The
/// inner text may span lines, and ends at the first closing fence.
pub open spec fn fence_pattern() -> Seq<char> {
    "(?s)```(?:rust|python|ruby|javascript|typescript|bash|sh)?\\n(.*?)```"@
}

/// The pattern of the head of a PowerShell function: the word `function` at
/// the start of a line, and the function's name.
pub open spec fn function_pattern() -> Seq<char> {
    "(?m)^function\\s+([a-zA-Z_]\\w*)"@
}

/// What `regex::Regex::captures` yields for the first capture group, when
/// `pattern` is compiled with `regex::Regex::new` and matched against
/// `haystack`. `Err` stands for a pattern that does not compile; `Ok(None)`
/// for no match; `Ok(Some(None))` for a match in which the group took no
/// part; `Ok(Some(Some(text)))` for the text that the group matched.
pub uninterp spec fn first_capture(pattern: Seq<char>, haystack: Seq<char>) -> Result<
    Option<Option<Seq<char>>>,
    (),
>;

/// What `regex::Regex::captures_iter` yields for the first capture group,
/// match by match from left to right, when `pattern` is compiled with
/// `regex::Regex::new` and matched against `haystack`. `Err` stands for a
/// pattern that does not compile; in a match in which the group took no
/// part, its entry is `None`.
pub uninterp spec fn all_captures(pattern: Seq<char>, haystack: Seq<char>) -> Result<
    Seq<Option<Seq<char>>>,
    (),
>;

/// The model of an optional string.
pub open spec fn text_view(text: Option<String>) -> Option<Seq<char>> {
    match text {
        Some(t) => Some(t@),
        None => None,
    }
}

/// The model of the outcome of one match.
pub open spec fn capture_view(capture: Option<Option<String>>) -> Option<Option<Seq<char>>> {
    match capture {
        Some(group) => Some(text_view(group)),
        None => None,
    }
}

/// The model of the outcomes of all matches.
pub open spec fn captures_view(captures: Seq<Option<String>>) -> Seq<Option<Seq<char>>> {
    captures.map_values(|group: Option<String>| text_view(group))
}

/// Compiles `pattern` with `regex::Regex::new` and calls
/// `regex::Regex::captures` on `haystack`; of the match, the text of capture
/// group 1 is handed out. The contract names the outcome `first_capture`; it
/// claims no more than that the outcome is determined by the pattern and
/// the haystack.
#[verifier::external_body]
fn capture_first(pattern: &str, haystack: &str) -> (found: Result<
    Option<Option<String>>,
    regex::Error,
>)
    ensures
        match found {
            Ok(capture) => first_capture(pattern@, haystack@) == Ok::<_, ()>(
                capture_view(capture),
            ),
            Err(_) => first_capture(pattern@, haystack@) is Err,
        },
{
    let compiled = regex::Regex::new(pattern)?;
    Ok(compiled.captures(haystack).map(|found| found.get(1).map(|group| group.as_str().to_string())))
}

/// Compiles `pattern` with `regex::Regex::new` and calls
/// `regex::Regex::captures_iter` on `haystack`; of each match, the text of
/// capture group 1 is handed out. The contract names the outcome
/// `all_captures`; it claims no more than that the outcome is determined by
/// the pattern and the haystack.
#[verifier::external_body]
fn capture_all(pattern: &str, haystack: &str) -> (found: Result<Vec<Option<String>>, regex::Error>)
    ensures
        match found {
            Ok(captures) => all_captures(pattern@, haystack@) == Ok::<_, ()>(
                captures_view(captures@),
            ),
            Err(_) => all_captures(pattern@, haystack@) is Err,
        },
{
    let compiled = regex::Regex::new(pattern)?;
    Ok(
        compiled.captures_iter(haystack).map(
            |found| found.get(1).map(|group| group.as_str().to_string()),
        ).collect(),
    )
}

/// The payload of a response, given what the search for a fenced code block
/// yielded: the inner text of the block where one was found (empty, if the
/// group took no part), else the response as it is.
pub open spec fn payload_of(
    response: Seq<char>,
    capture: Result<Option<Option<Seq<char>>>, ()>,
) -> Seq<char> {
    match capture {
        Ok(Some(Some(inner))) => inner,
        Ok(Some(None)) => Seq::empty(),
        _ => response,
    }
}

/// Chooses the payload of `response` from the outcome of the search for a
/// fenced code block: see `payload_of`.
pub fn select_payload(response: &str, capture: Option<Option<String>>) -> (payload: String)
    ensures
        payload@ == payload_of(response@, Ok(capture_view(capture))),
{
    match capture {
        Some(Some(inner)) => inner,
        Some(None) => String::new(),
        None => response.to_owned(),
    }
}

/// Extracts the payload of a generator's response: the inner text of the
/// first fenced code block, if the response holds one, else the response
/// verbatim.
pub fn extract_payload(response: &str) -> (payload: String)
    ensures
        payload@ == payload_of(response@, first_capture(fence_pattern(), response@)),
{
    match capture_first(
        "(?s)```(?:rust|python|ruby|javascript|typescript|bash|sh)?\\n(.*?)```",
        response,
    ) {
        Ok(capture) => select_payload(response, capture),
        Err(_) => response.to_owned(),
    }
}

/// The entry of the structure list for a function named `name`.
pub open spec fn function_label(name: Seq<char>) -> Seq<char> {
    "function: "@ + name
}

/// The structure list made of the names that the search yielded: one entry
/// for each match, in order; a match without a name gives an entry with an
/// empty name.
pub open spec fn function_labels(names: Seq<Option<Seq<char>>>) -> Seq<Seq<char>> {
    names.map_values(
        |name: Option<Seq<char>>|
            match name {
                Some(n) => function_label(n),
                None => function_label(Seq::empty()),
            },
    )
}

/// The models of a list of strings.
pub open spec fn labels_view(labels: Seq<String>) -> Seq<Seq<char>> {
    labels.map_values(|label: String| label@)
}

/// Labels each captured function name: see `function_labels`.
pub fn label_functions(names: Vec<Option<String>>) -> (labels: Vec<String>)
    ensures
        labels_view(labels@) == function_labels(captures_view(names@)),
{
    let mut labels: Vec<String> = Vec::new();
    let mut i: usize = 0;
    while i < names.len()
        invariant
            i <= names.len(),
            labels@.len() == i,
            forall|k: int|
                0 <= k < i ==> (#[trigger] labels@[k])@ == function_labels(captures_view(names@))[k],
        decreases names.len() - i,
    {
        let label = match &names[i] {
            Some(name) => String::from_str("function: ").concat(name.as_str()),
            None => String::from_str("function: "),
        };
        assert(label@ =~= function_labels(captures_view(names@))[i as int]);
        labels.push(label);
        i += 1;
    }
    assert(labels_view(labels@) =~= function_labels(captures_view(names@)));
    labels
}

/// Lists the functions of a PowerShell script: for each line that begins
/// with the word `function`, the name that follows, as `function: name`.
/// When the pattern does not compile the list is empty.
pub fn get_powershell_structures(source_code: &str) -> (structures: Vec<String>)
    ensures
        labels_view(structures@) == match all_captures(function_pattern(), source_code@) {
            Ok(names) => function_labels(names),
            Err(_) => Seq::empty(),
        },
{
    match capture_all("(?m)^function\\s+([a-zA-Z_]\\w*)", source_code) {
        Ok(names) => label_functions(names),
        Err(_) => {
            let none: Vec<String> = Vec::new();
            assert(labels_view(none@) =~= Seq::empty());
            none
        },
    }
}

} // verus!
