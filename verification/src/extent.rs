//! Range extension: widening the start of a structure's span backwards over
//! the attributes and the documentation block that stand directly above it.

use vstd::prelude::*;
use vstd::string::StringSliceAdditionalSpecFns;
use crate::lines::{
    begins_with, finishes_with, is_blank, lemma_lines_within, lemma_trim_start_tight,
    line_spans, lines, nominal_offset, spans_view, trim, trim_start, window_begins_with,
    window_finishes_with, window_is_blank,
};
use crate::search::{first_index, last_index, lemma_first_index, lemma_last_index};

verus! {

pub const CLOSING_BRACE: u8 = 125;

pub const HASH: u8 = 35;

pub const OPENING_BRACKET: u8 = 91;

/// An attribute begins at `at`: the two bytes `#[`.
pub open spec fn is_attribute_at(text: Seq<u8>, at: int) -> bool {
    0 <= at && at + 1 < text.len() && text[at] == HASH && text[at + 1] == OPENING_BRACKET
}

/// The offset of the last attribute that begins before `upto`, or -1.
pub open spec fn last_attribute_before(text: Seq<u8>, upto: int) -> int
    decreases upto,
{
    if upto <= 0 {
        -1
    } else if is_attribute_at(text, upto - 1) {
        upto - 1
    } else {
        last_attribute_before(text, upto - 1)
    }
}

/// A closing brace stands in `[from, to)`.
pub open spec fn has_closing_brace(text: Seq<u8>, from: int, to: int) -> bool {
    exists|k: int| from <= k < to && text[k] == CLOSING_BRACE
}

/// The start of a structure extended over its attributes: the offset of the
/// nearest attribute in front of `start`, unless a closing brace (the end of
/// an earlier sibling) stands between that attribute and `start`; then, and
/// when there is no attribute, `start` itself.
pub open spec fn attribute_start(text: Seq<u8>, start: int) -> int {
    let attribute = last_attribute_before(text, start);
    if attribute >= 0 && !has_closing_brace(text, attribute, start) {
        attribute
    } else {
        start
    }
}

/// The marker that opens a documentation block.
pub open spec fn doc_open() -> Seq<u8> {
    "/**".spec_bytes()
}

/// The marker that closes a documentation block.
pub open spec fn doc_close() -> Seq<u8> {
    "*/".spec_bytes()
}

/// The marker that a line inside a documentation block begins with.
pub open spec fn doc_continue() -> Seq<u8> {
    "*".spec_bytes()
}

/// The predicate "the line ends the upward scan": it is neither blank nor a
/// continuation line of a documentation block.
pub open spec fn halts_scan(text: Seq<u8>) -> spec_fn((int, int)) -> bool {
    |line: (int, int)|
        !is_blank(text, line.0, line.1) && !begins_with(text, line.0, line.1, doc_continue())
}

/// The predicate "the line is not blank".
pub open spec fn not_blank(text: Seq<u8>) -> spec_fn((int, int)) -> bool {
    |line: (int, int)| !is_blank(text, line.0, line.1)
}

/// The predicate "the line ends with the closing marker".
pub open spec fn closes_doc(text: Seq<u8>) -> spec_fn((int, int)) -> bool {
    |line: (int, int)| finishes_with(text, line.0, line.1, doc_close())
}

/// The documentation block directly above `struct_start`. Scanning the
/// lines above `struct_start` upwards, blank lines and continuation lines
/// are passed; the first other line must open a documentation block, which
/// then starts at the first byte of that line that is not white space. The
/// block ends with the first line, from there on, that ends with the closing
/// marker. Where there is no such block the range is empty, at
/// `struct_start`.
pub open spec fn documentation_range(text: Seq<u8>, struct_start: int) -> (int, int) {
    let above = lines(text, 0, struct_start);
    let opener = last_index(above, above.len() as int, halts_scan(text));
    if opener >= 0 && begins_with(text, above[opener].0, above[opener].1, doc_open()) {
        let doc_start = trim_start(text, above[opener].0, above[opener].1);
        let block = lines(text, doc_start, struct_start);
        let closer = first_index(block, 0, closes_doc(text));
        if closer < block.len() {
            (doc_start, block[closer].1)
        } else {
            (struct_start, struct_start)
        }
    } else {
        (struct_start, struct_start)
    }
}

/// The start of the line that opens the documentation block above
/// `struct_start`: the nearest line above that is not blank, if it opens a
/// block.
pub open spec fn doc_start_line(text: Seq<u8>, struct_start: int) -> Option<int> {
    let above = lines(text, 0, struct_start);
    let nearest = last_index(above, above.len() as int, not_blank(text));
    if nearest >= 0 && begins_with(text, above[nearest].0, above[nearest].1, doc_open()) {
        Some(above[nearest].0)
    } else {
        None
    }
}

/// The predicate "the line is no comment line": it begins with neither `//`
/// nor `/*`.
pub open spec fn not_comment(text: Seq<u8>) -> spec_fn((int, int)) -> bool {
    |line: (int, int)|
        !begins_with(text, line.0, line.1, "//".spec_bytes()) && !begins_with(
            text,
            line.0,
            line.1,
            "/*".spec_bytes(),
        )
}

/// The predicate "the line belongs to the documentation of the file itself":
/// it begins with `//!` or `/*!`.
pub open spec fn inner_doc(text: Seq<u8>) -> spec_fn((int, int)) -> bool {
    |line: (int, int)|
        begins_with(text, line.0, line.1, "//!".spec_bytes()) || begins_with(
            text,
            line.0,
            line.1,
            "/*!".spec_bytes(),
        )
}

/// The predicate "the line is a line of code": it begins with neither `*`
/// nor `/`.
pub open spec fn code_line(text: Seq<u8>) -> spec_fn((int, int)) -> bool {
    |line: (int, int)|
        !begins_with(text, line.0, line.1, "*".spec_bytes()) && !begins_with(
            text,
            line.0,
            line.1,
            "/".spec_bytes(),
        )
}

/// Where the documentation of the file itself ends: behind the last line of
/// such documentation among the comment lines that the text begins with,
/// counted as `nominal_offset` counts; 0 when there is none.
pub open spec fn inner_doc_end(text: Seq<u8>) -> int {
    let all = lines(text, 0, text.len() as int);
    let stop = first_index(all, 0, not_comment(text));
    let last = last_index(all, stop, inner_doc(text));
    nominal_offset(all, last + 1)
}

/// Where the first line of code begins, counted as `nominal_offset` counts;
/// 0 when the text has no line of code.
pub open spec fn first_code_offset(text: Seq<u8>) -> int {
    let all = lines(text, 0, text.len() as int);
    let first = first_index(all, 0, code_line(text));
    if first < all.len() {
        nominal_offset(all, first)
    } else {
        0
    }
}

/// Extension monotonicity: the extended start never lies behind the raw
/// start, and no closing brace stands between the two, so that extension
/// never reaches past the end of an earlier sibling.
pub proof fn lemma_extension_monotone(text: Seq<u8>, start: int)
    requires
        0 <= start <= text.len(),
    ensures
        0 <= attribute_start(text, start) <= start,
        forall|k: int| attribute_start(text, start) <= k < start ==> text[k] != CLOSING_BRACE,
{
    lemma_last_attribute_before(text, start);
}

/// The last attribute before `upto` begins before `upto`.
pub proof fn lemma_last_attribute_before(text: Seq<u8>, upto: int)
    ensures
        -1 <= last_attribute_before(text, upto),
        last_attribute_before(text, upto) < upto || upto <= 0,
        last_attribute_before(text, upto) >= 0 ==> is_attribute_at(
            text,
            last_attribute_before(text, upto),
        ),
    decreases upto,
{
    if upto > 0 && !is_attribute_at(text, upto - 1) {
        lemma_last_attribute_before(text, upto - 1);
    }
}

/// Extension is monotone for documentation too: a documentation range is a
/// range that ends at or before the structure.
pub proof fn lemma_documentation_range_ordered(text: Seq<u8>, struct_start: int)
    requires
        0 <= struct_start,
    ensures
        0 <= documentation_range(text, struct_start).0 <= documentation_range(
            text,
            struct_start,
        ).1 <= struct_start,
{
    let above = lines(text, 0, struct_start);
    let opener = last_index(above, above.len() as int, halts_scan(text));
    lemma_last_index(above, above.len() as int, halts_scan(text));
    lemma_lines_within(text, 0, struct_start);
    if opener >= 0 && begins_with(text, above[opener].0, above[opener].1, doc_open()) {
        lemma_trim_start_tight(text, above[opener].0, above[opener].1);
        let doc_start = trim_start(text, above[opener].0, above[opener].1);
        let block = lines(text, doc_start, struct_start);
        lemma_lines_within(text, doc_start, struct_start);
        lemma_first_index(block, 0, closes_doc(text));
    }
}

/// The start of the extended range of a structure: its start, extended
/// over the attribute in front of it, and from there over the documentation
/// block directly above.
pub open spec fn extended_start(text: Seq<u8>, raw_start: int) -> int {
    let attributes = attribute_start(text, raw_start);
    let (doc_start, doc_end) = documentation_range(text, attributes);
    if doc_start != doc_end {
        doc_start
    } else {
        attributes
    }
}

/// Extension monotonicity of the whole extension: the extended start never
/// lies behind the raw start. Between the attribute-extended start and the
/// raw start stands no closing brace; and between the line that opens the
/// documentation block and the attribute-extended start every line is blank
/// or a continuation line of the block, so that no line of an earlier
/// sibling is crossed.
pub proof fn lemma_extended_start_monotone(text: Seq<u8>, raw_start: int)
    requires
        0 <= raw_start <= text.len(),
    ensures
        0 <= extended_start(text, raw_start) <= attribute_start(text, raw_start) <= raw_start,
        forall|k: int|
            attribute_start(text, raw_start) <= k < raw_start ==> text[k] != CLOSING_BRACE,
        ({
            let above = lines(text, 0, attribute_start(text, raw_start));
            let opener = last_index(above, above.len() as int, halts_scan(text));
            forall|k: int|
                opener < k < above.len() ==> is_blank(text, above[k].0, above[k].1) || begins_with(
                    text,
                    above[k].0,
                    above[k].1,
                    doc_continue(),
                )
        }),
{
    lemma_extension_monotone(text, raw_start);
    let attributes = attribute_start(text, raw_start);
    lemma_documentation_range_ordered(text, attributes);
    let above = lines(text, 0, attributes);
    lemma_last_index(above, above.len() as int, halts_scan(text));
    let opener = last_index(above, above.len() as int, halts_scan(text));
    assert forall|k: int| opener < k < above.len() implies is_blank(text, above[k].0, above[k].1)
        || begins_with(text, above[k].0, above[k].1, doc_continue()) by {
        assert(!halts_scan(text)(above[k]));
    }
}

/// Extends the start of a structure to the start of its extended range:
/// over the attribute in front of it, and from there over the documentation
/// block directly above. See `extended_start`.
pub fn extend_start(source_text: &[u8], raw_start_byte: usize) -> (extended_start_byte: usize)
    requires
        raw_start_byte <= source_text@.len(),
    ensures
        extended_start_byte == extended_start(source_text@, raw_start_byte as int),
        extended_start_byte <= raw_start_byte,
{
    let attributes = find_properties_start_byte(source_text, raw_start_byte);
    let (doc_start, doc_end) = find_documentation_range(source_text, attributes);
    if doc_start != doc_end {
        doc_start
    } else {
        attributes
    }
}

/// Extends the start of a structure over the attribute in front of it: see
/// `attribute_start`. The result never lies behind `start_byte`, and no
/// closing brace stands between the result and `start_byte`.
pub fn find_properties_start_byte(source_code: &[u8], start_byte: usize) -> (extended: usize)
    requires
        start_byte <= source_code@.len(),
    ensures
        extended == attribute_start(source_code@, start_byte as int),
        extended <= start_byte,
        forall|k: int| extended <= k < start_byte ==> source_code@[k] != CLOSING_BRACE,
{
    let mut at: usize = start_byte;
    let mut closing: bool = false;
    while at > 0
        invariant
            at <= start_byte <= source_code@.len(),
            last_attribute_before(source_code@, start_byte as int) == last_attribute_before(
                source_code@,
                at as int,
            ),
            closing == has_closing_brace(source_code@, at as int, start_byte as int),
        decreases at,
    {
        at -= 1;
        if source_code[at] == CLOSING_BRACE {
            closing = true;
        } else if source_code[at] == HASH && at + 1 < source_code.len() && source_code[at + 1]
            == OPENING_BRACKET {
            if closing {
                return start_byte;
            } else {
                return at;
            }
        }
        proof {
            if closing {
                let k = choose|k: int| at <= k < start_byte && source_code@[k] == CLOSING_BRACE;
                assert(at <= k < start_byte && source_code@[k] == CLOSING_BRACE);
            }
        }
    }
    start_byte
}

/// The range of the documentation block directly above a structure that
/// starts at `struct_start`: see `documentation_range`. An empty range says
/// that there is none.
pub fn find_documentation_range(source_code: &[u8], struct_start: usize) -> (range: (usize, usize))
    requires
        struct_start <= source_code@.len(),
    ensures
        (range.0 as int, range.1 as int) == documentation_range(
            source_code@,
            struct_start as int,
        ),
        range.0 <= range.1 <= struct_start,
{
    let above = line_spans(source_code, 0, struct_start);
    let ghost halts = halts_scan(source_code@);
    let ghost view = spans_view(above@);
    let mut k: usize = above.len();
    while k > 0
        invariant
            k <= above.len(),
            struct_start <= source_code@.len(),
            halts == halts_scan(source_code@),
            view == spans_view(above@),
            view == lines(source_code@, 0, struct_start as int),
            forall|i: int| 0 <= i < above@.len() ==> (#[trigger] above@[i]).0 <= above@[i].1 <= struct_start,
            last_index(view, view.len() as int, halts) == last_index(view, k as int, halts),
        decreases k,
    {
        let (lo, hi) = above[k - 1];
        assert(view[k - 1] == (lo as int, hi as int));
        if !window_is_blank(source_code, lo, hi) && !window_begins_with(
            source_code,
            lo,
            hi,
            "*".as_bytes(),
        ) {
            if !window_begins_with(source_code, lo, hi, "/**".as_bytes()) {
                return (struct_start, struct_start);
            }
            let (doc_start, _) = trim(source_code, lo, hi);
            let block = line_spans(source_code, doc_start, struct_start);
            let ghost closes = closes_doc(source_code@);
            let ghost block_view = spans_view(block@);
            let mut j: usize = 0;
            while j < block.len()
                invariant
                    j <= block.len(),
                    doc_start <= struct_start <= source_code@.len(),
                    closes == closes_doc(source_code@),
                    block_view == spans_view(block@),
                    block_view == lines(source_code@, doc_start as int, struct_start as int),
                    view == lines(source_code@, 0, struct_start as int),
                    halts == halts_scan(source_code@),
                    0 < k <= view.len(),
                    last_index(view, view.len() as int, halts) == k - 1,
                    begins_with(source_code@, view[k - 1].0, view[k - 1].1, doc_open()),
                    doc_start == trim_start(source_code@, view[k - 1].0, view[k - 1].1),
                    forall|i: int|
                        0 <= i < block@.len() ==> doc_start <= (#[trigger] block@[i]).0
                            <= block@[i].1 <= struct_start,
                    first_index(block_view, 0, closes) == first_index(block_view, j as int, closes),
                decreases block.len() - j,
            {
                let (from, to) = block[j];
                assert(block_view[j as int] == (from as int, to as int));
                if window_finishes_with(source_code, from, to, "*/".as_bytes()) {
                    return (doc_start, to);
                }
                j += 1;
            }
            return (struct_start, struct_start);
        }
        k -= 1;
    }
    (struct_start, struct_start)
}

/// The start of the line that opens the documentation block above a
/// structure that starts at `struct_start`: see `doc_start_line`.
pub fn find_doc_start(source_code: &[u8], struct_start: usize) -> (doc_start: Option<usize>)
    requires
        struct_start <= source_code@.len(),
    ensures
        match doc_start {
            Some(start) => doc_start_line(source_code@, struct_start as int) == Some(start as int)
                && start < struct_start,
            None => doc_start_line(source_code@, struct_start as int) is None,
        },
{
    let above = line_spans(source_code, 0, struct_start);
    let ghost wanted = not_blank(source_code@);
    let ghost view = spans_view(above@);
    let mut k: usize = above.len();
    while k > 0
        invariant
            k <= above.len(),
            struct_start <= source_code@.len(),
            wanted == not_blank(source_code@),
            view == spans_view(above@),
            view == lines(source_code@, 0, struct_start as int),
            forall|i: int| 0 <= i < above@.len() ==> (#[trigger] above@[i]).0 <= above@[i].1 <= struct_start,
            last_index(view, view.len() as int, wanted) == last_index(view, k as int, wanted),
        decreases k,
    {
        let (lo, hi) = above[k - 1];
        assert(view[k - 1] == (lo as int, hi as int));
        if !window_is_blank(source_code, lo, hi) {
            if window_begins_with(source_code, lo, hi, "/**".as_bytes()) {
                proof {
                    crate::lines::lemma_not_blank_is_not_empty(source_code@, lo as int, hi as int);
                }
                return Some(lo);
            }
            return None;
        }
        k -= 1;
    }
    None
}

/// Where the documentation of the file itself ends: see `inner_doc_end`.
pub fn find_doc_end(source_code: &[u8]) -> (doc_end: usize)
    requires
        source_code@.len() < usize::MAX,
    ensures
        doc_end == inner_doc_end(source_code@),
{
    let all = line_spans(source_code, 0, source_code.len());
    let ghost stops = not_comment(source_code@);
    let ghost inner = inner_doc(source_code@);
    let ghost view = spans_view(all@);
    let mut doc_end: usize = 0;
    let mut passed: usize = 0;
    let mut i: usize = 0;
    while i < all.len()
        invariant
            i <= all.len(),
            source_code@.len() < usize::MAX,
            stops == not_comment(source_code@),
            inner == inner_doc(source_code@),
            view == spans_view(all@),
            forall|k: int| 0 <= k < all@.len() ==> (#[trigger] all@[k]).0 <= all@[k].1 <= source_code@.len(),
            forall|k: int, j: int|
                0 <= k < j < all@.len() ==> (#[trigger] all@[k]).1 < (#[trigger] all@[j]).0,
            first_index(view, 0, stops) == first_index(view, i as int, stops),
            passed == nominal_offset(view, i as int),
            i > 0 ==> passed <= all@[i - 1].1 + 1,
            doc_end == nominal_offset(view, last_index(view, i as int, inner) + 1),
        ensures
            i <= all.len(),
            i < all.len() ==> stops(view[i as int]),
            first_index(view, 0, stops) == first_index(view, i as int, stops),
            doc_end == nominal_offset(view, last_index(view, i as int, inner) + 1),
        decreases all.len() - i,
    {
        let (lo, hi) = all[i];
        assert(view[i as int] == (lo as int, hi as int));
        if !window_begins_with(source_code, lo, hi, "//".as_bytes()) && !window_begins_with(
            source_code,
            lo,
            hi,
            "/*".as_bytes(),
        ) {
            break ;
        }
        passed = passed + (hi - lo) + 1;
        if window_begins_with(source_code, lo, hi, "//!".as_bytes()) || window_begins_with(
            source_code,
            lo,
            hi,
            "/*!".as_bytes(),
        ) {
            doc_end = passed;
        }
        i += 1;
    }
    proof {
        lemma_first_index(view, i as int, stops);
    }
    doc_end
}

/// Where the first line of code begins: see `first_code_offset`.
pub fn find_first_code_line_after_docs(source_code: &[u8]) -> (offset: usize)
    ensures
        offset == first_code_offset(source_code@),
{
    let all = line_spans(source_code, 0, source_code.len());
    let ghost wanted = code_line(source_code@);
    let ghost view = spans_view(all@);
    let mut passed: usize = 0;
    let mut i: usize = 0;
    while i < all.len()
        invariant
            i <= all.len(),
            wanted == code_line(source_code@),
            view == spans_view(all@),
            view == lines(source_code@, 0, source_code@.len() as int),
            forall|k: int| 0 <= k < all@.len() ==> (#[trigger] all@[k]).0 <= all@[k].1 <= source_code@.len(),
            forall|k: int, j: int|
                0 <= k < j < all@.len() ==> (#[trigger] all@[k]).1 < (#[trigger] all@[j]).0,
            first_index(view, 0, wanted) == first_index(view, i as int, wanted),
            passed == nominal_offset(view, i as int),
            i < all.len() ==> passed <= all@[i as int].0,
        decreases all.len() - i,
    {
        let (lo, hi) = all[i];
        assert(view[i as int] == (lo as int, hi as int));
        if !window_begins_with(source_code, lo, hi, "*".as_bytes()) && !window_begins_with(
            source_code,
            lo,
            hi,
            "/".as_bytes(),
        ) {
            return passed;
        }
        if i + 1 < all.len() {
            assert(all@[i as int].1 < all@[i + 1].0);
            passed = passed + (hi - lo) + 1;
        } else {
            proof {
                lemma_first_index(view, i + 1, wanted);
            }
            return 0;
        }
        i += 1;
    }
    0
}

} // verus!
