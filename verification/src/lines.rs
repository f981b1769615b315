//! Lines and white space of a text, over bytes. A window `[lo, hi)` of a text
//! is cut into lines at line feeds; a carriage return in front of a line feed
//! belongs to the line ending. White space is the Unicode property
//! `White_Space`, recognised in its UTF-8 encoding.

use vstd::prelude::*;
use crate::text::{matches_at, occurs_at};

verus! {

pub const LINE_FEED: u8 = 10;

pub const CARRIAGE_RETURN: u8 = 13;

/// A white-space character of one byte: space, tab, line feed, vertical tab,
/// form feed, carriage return.
pub open spec fn is_space_byte(b: u8) -> bool {
    b == 0x20 || (0x09 <= b <= 0x0D)
}

/// A white-space character of two bytes: U+0085 and U+00A0.
pub open spec fn is_space_pair(a: u8, b: u8) -> bool {
    a == 0xC2 && (b == 0x85 || b == 0xA0)
}

/// A white-space character of three bytes: U+1680, U+2000 to U+200A, U+2028,
/// U+2029, U+202F, U+205F and U+3000.
pub open spec fn is_space_triple(a: u8, b: u8, c: u8) -> bool {
    ||| a == 0xE1 && b == 0x9A && c == 0x80
    ||| a == 0xE2 && b == 0x80 && (0x80 <= c <= 0x8A || c == 0xA8 || c == 0xA9 || c == 0xAF)
    ||| a == 0xE2 && b == 0x81 && c == 0x9F
    ||| a == 0xE3 && b == 0x80 && c == 0x80
}

/// The width in bytes of the white-space character that starts at `at` and
/// ends within `hi`, or 0 when there is none.
pub open spec fn space_len_at(text: Seq<u8>, at: int, hi: int) -> int {
    if at < hi && is_space_byte(text[at]) {
        1
    } else if at + 1 < hi && is_space_pair(text[at], text[at + 1]) {
        2
    } else if at + 2 < hi && is_space_triple(text[at], text[at + 1], text[at + 2]) {
        3
    } else {
        0
    }
}

/// The width in bytes of the white-space character that ends just before
/// `at` and starts at or after `lo`, or 0 when there is none.
pub open spec fn space_len_before(text: Seq<u8>, lo: int, at: int) -> int {
    if lo < at && is_space_byte(text[at - 1]) {
        1
    } else if lo + 1 < at && is_space_pair(text[at - 2], text[at - 1]) {
        2
    } else if lo + 2 < at && is_space_triple(text[at - 3], text[at - 2], text[at - 1]) {
        3
    } else {
        0
    }
}

/// Where the window `[lo, hi)` begins once its leading white space is taken
/// off.
pub open spec fn trim_start(text: Seq<u8>, lo: int, hi: int) -> int
    decreases hi - lo,
{
    let width = space_len_at(text, lo, hi);
    if width > 0 {
        trim_start(text, lo + width, hi)
    } else {
        lo
    }
}

/// Where the window `[lo, hi)` ends once its trailing white space is taken
/// off.
pub open spec fn trim_end(text: Seq<u8>, lo: int, hi: int) -> int
    decreases hi - lo,
{
    let width = space_len_before(text, lo, hi);
    if width > 0 {
        trim_end(text, lo, hi - width)
    } else {
        hi
    }
}

/// The window `[lo, hi)` without its leading and trailing white space, as a
/// window again.
pub open spec fn trimmed(text: Seq<u8>, lo: int, hi: int) -> (int, int) {
    let start = trim_start(text, lo, hi);
    (start, trim_end(text, start, hi))
}

/// The window holds white space only.
pub open spec fn is_blank(text: Seq<u8>, lo: int, hi: int) -> bool {
    trimmed(text, lo, hi).0 == trimmed(text, lo, hi).1
}

/// The window, trimmed, begins with `pattern`.
pub open spec fn begins_with(text: Seq<u8>, lo: int, hi: int, pattern: Seq<u8>) -> bool {
    let (start, end) = trimmed(text, lo, hi);
    start + pattern.len() <= end && occurs_at(text, start, pattern)
}

/// The window, trimmed, ends with `pattern`.
pub open spec fn finishes_with(text: Seq<u8>, lo: int, hi: int, pattern: Seq<u8>) -> bool {
    let (start, end) = trimmed(text, lo, hi);
    start + pattern.len() <= end && occurs_at(text, end - pattern.len(), pattern)
}

/// A window that is not blank is not empty.
pub proof fn lemma_not_blank_is_not_empty(text: Seq<u8>, lo: int, hi: int)
    requires
        lo <= hi,
        !is_blank(text, lo, hi),
    ensures
        lo < hi,
{
}

/// The offset of the first line feed in `[from, hi)`, or `hi` when there is
/// none.
pub open spec fn line_break(text: Seq<u8>, from: int, hi: int) -> int
    decreases hi - from,
{
    if from < hi {
        if text[from] == LINE_FEED {
            from
        } else {
            line_break(text, from + 1, hi)
        }
    } else {
        hi
    }
}

/// The first line feed of a window lies within the window, or is its end.
pub proof fn lemma_line_break_bounds(text: Seq<u8>, from: int, hi: int)
    requires
        from <= hi,
    ensures
        from <= line_break(text, from, hi) <= hi,
    decreases hi - from,
{
    if from < hi && text[from] != LINE_FEED {
        lemma_line_break_bounds(text, from + 1, hi);
    }
}

/// Where the content of the line `[from, brk)` ends: in front of the
/// carriage return, when the line ends in carriage return and line feed.
pub open spec fn content_end(text: Seq<u8>, from: int, brk: int, hi: int) -> int {
    if brk < hi && from < brk && text[brk - 1] == CARRIAGE_RETURN {
        brk - 1
    } else {
        brk
    }
}

/// The lines of the window `[from, hi)`, each as the window of its content,
/// without its line ending. A text that ends in a line feed has no empty
/// last line.
pub open spec fn lines(text: Seq<u8>, from: int, hi: int) -> Seq<(int, int)>
    decreases hi - from,
    via lines_terminates
{
    if 0 <= from < hi {
        let brk = line_break(text, from, hi);
        let line = seq![(from, content_end(text, from, brk, hi))];
        if brk < hi {
            line + lines(text, brk + 1, hi)
        } else {
            line
        }
    } else {
        Seq::empty()
    }
}

#[via_fn]
proof fn lines_terminates(text: Seq<u8>, from: int, hi: int) {
    if from <= hi {
        lemma_line_break_bounds(text, from, hi);
    }
}

/// Every line of a window lies within the window.
pub proof fn lemma_lines_within(text: Seq<u8>, from: int, hi: int)
    ensures
        forall|i: int|
            0 <= i < lines(text, from, hi).len() ==> from <= (#[trigger] lines(text, from, hi)[i]).0
                <= lines(text, from, hi)[i].1 <= hi,
    decreases hi - from,
{
    if 0 <= from < hi {
        let brk = line_break(text, from, hi);
        lemma_line_break_bounds(text, from, hi);
        if brk < hi {
            lemma_lines_within(text, brk + 1, hi);
            let rest = lines(text, brk + 1, hi);
            assert forall|i: int| 0 <= i < lines(text, from, hi).len() implies from <= (
            #[trigger] lines(text, from, hi)[i]).0 <= lines(text, from, hi)[i].1 <= hi by {
                if i > 0 {
                    assert(lines(text, from, hi)[i] == rest[i - 1]);
                }
            }
        }
    }
}

/// No byte in front of the first line feed of a window is a line feed.
pub proof fn lemma_line_break_is_first(text: Seq<u8>, from: int, hi: int)
    requires
        0 <= from <= hi <= text.len(),
    ensures
        forall|k: int| from <= k < line_break(text, from, hi) ==> text[k] != LINE_FEED,
        line_break(text, from, hi) < hi ==> text[line_break(text, from, hi)] == LINE_FEED,
    decreases hi - from,
{
    if from < hi && text[from] != LINE_FEED {
        lemma_line_break_is_first(text, from + 1, hi);
    }
}

/// The lines of a window are what lies between its line feeds: the first
/// line starts where the window starts; no line holds a line feed; and each
/// further line starts right behind the line feed that ends the line before
/// it, whose content ends at that line feed or at the carriage return in
/// front of it.
pub proof fn lemma_lines_split_at_line_feeds(text: Seq<u8>, from: int, hi: int)
    requires
        0 <= from <= hi <= text.len(),
    ensures
        lines(text, from, hi).len() > 0 <==> from < hi,
        from < hi ==> lines(text, from, hi)[0].0 == from,
        forall|i: int, k: int|
            0 <= i < lines(text, from, hi).len() && (#[trigger] lines(text, from, hi)[i]).0 <= k
                < lines(text, from, hi)[i].1 ==> #[trigger] text[k] != LINE_FEED,
        forall|i: int|
            0 < i < lines(text, from, hi).len() ==> {
                let start = (#[trigger] lines(text, from, hi)[i]).0;
                let before = lines(text, from, hi)[i - 1].1;
                &&& text[start - 1] == LINE_FEED
                &&& before == start - 1 || (before == start - 2 && text[before] == CARRIAGE_RETURN)
            },
    decreases hi - from,
{
    if from < hi {
        let brk = line_break(text, from, hi);
        lemma_line_break_bounds(text, from, hi);
        lemma_line_break_is_first(text, from, hi);
        let all = lines(text, from, hi);
        if brk < hi {
            let rest = lines(text, brk + 1, hi);
            lemma_lines_split_at_line_feeds(text, brk + 1, hi);
            assert forall|i: int, k: int|
                0 <= i < all.len() && (#[trigger] all[i]).0 <= k < all[i].1 implies #[trigger] text[k]
                != LINE_FEED by {
                if i > 0 {
                    assert(all[i] == rest[i - 1]);
                }
            }
            assert forall|i: int| 0 < i < all.len() implies ({
                let start = (#[trigger] all[i]).0;
                let before = all[i - 1].1;
                &&& text[start - 1] == LINE_FEED
                &&& before == start - 1 || (before == start - 2 && text[before] == CARRIAGE_RETURN)
            }) by {
                assert(all[i] == rest[i - 1]);
                if i > 1 {
                    assert(all[i - 1] == rest[i - 2]);
                }
            }
        }
    }
}

/// Trimming the end of a window yields an offset within the window, in
/// front of which no white space stands.
pub proof fn lemma_trim_end_within(text: Seq<u8>, lo: int, hi: int)
    requires
        lo <= hi,
    ensures
        lo <= trim_end(text, lo, hi) <= hi,
        space_len_before(text, lo, trim_end(text, lo, hi)) == 0,
    decreases hi - lo,
{
    let width = space_len_before(text, lo, hi);
    if width > 0 {
        lemma_trim_end_within(text, lo, hi - width);
    }
}

/// A trimmed window lies within the window it was cut from, and neither
/// begins nor ends with white space.
pub proof fn lemma_trimmed_is_tight(text: Seq<u8>, lo: int, hi: int)
    requires
        lo <= hi,
    ensures
        lo <= trimmed(text, lo, hi).0 <= trimmed(text, lo, hi).1 <= hi,
        space_len_at(text, trimmed(text, lo, hi).0, hi) == 0,
        space_len_before(text, trimmed(text, lo, hi).0, trimmed(text, lo, hi).1) == 0,
{
    lemma_trim_start_tight(text, lo, hi);
    lemma_trim_end_within(text, trim_start(text, lo, hi), hi);
}

/// Where the trimmed window begins, no white space begins.
pub proof fn lemma_trim_start_tight(text: Seq<u8>, lo: int, hi: int)
    requires
        lo <= hi,
    ensures
        lo <= trim_start(text, lo, hi) <= hi,
        space_len_at(text, trim_start(text, lo, hi), hi) == 0,
    decreases hi - lo,
{
    let width = space_len_at(text, lo, hi);
    if width > 0 {
        lemma_trim_start_tight(text, lo + width, hi);
    }
}

/// The windows of a vector of line spans.
pub open spec fn spans_view(spans: Seq<(usize, usize)>) -> Seq<(int, int)> {
    spans.map_values(|span: (usize, usize)| (span.0 as int, span.1 as int))
}

/// The sum, over the first `count` lines, of the length of the line's
/// content plus one for its line feed: the offset at which line `count`
/// starts in a text whose lines all end in a single line feed.
pub open spec fn nominal_offset(spans: Seq<(int, int)>, count: int) -> int
    decreases count,
{
    if 0 < count <= spans.len() {
        nominal_offset(spans, count - 1) + (spans[count - 1].1 - spans[count - 1].0) + 1
    } else {
        0
    }
}

/// The width of the white-space character at `at`, within `hi`.
pub fn space_width_at(text: &[u8], at: usize, hi: usize) -> (width: usize)
    requires
        at <= hi <= text.len(),
    ensures
        width == space_len_at(text@, at as int, hi as int),
        at + width <= hi,
{
    if at < hi {
        let a = text[at];
        if a == 0x20 || (0x09 <= a && a <= 0x0D) {
            return 1;
        }
        if hi - at >= 2 {
            let b = text[at + 1];
            if a == 0xC2 && (b == 0x85 || b == 0xA0) {
                return 2;
            }
            if hi - at >= 3 {
                let c = text[at + 2];
                if (a == 0xE1 && b == 0x9A && c == 0x80) || (a == 0xE2 && b == 0x80 && ((0x80 <= c
                    && c <= 0x8A) || c == 0xA8 || c == 0xA9 || c == 0xAF)) || (a == 0xE2 && b
                    == 0x81 && c == 0x9F) || (a == 0xE3 && b == 0x80 && c == 0x80) {
                    return 3;
                }
            }
        }
    }
    0
}

/// The width of the white-space character that ends just before `at`, within
/// `lo`.
pub fn space_width_before(text: &[u8], lo: usize, at: usize) -> (width: usize)
    requires
        lo <= at <= text.len(),
    ensures
        width == space_len_before(text@, lo as int, at as int),
        lo + width <= at,
{
    if lo < at {
        let c = text[at - 1];
        if c == 0x20 || (0x09 <= c && c <= 0x0D) {
            return 1;
        }
        if at - lo >= 2 {
            let b = text[at - 2];
            if b == 0xC2 && (c == 0x85 || c == 0xA0) {
                return 2;
            }
            if at - lo >= 3 {
                let a = text[at - 3];
                if (a == 0xE1 && b == 0x9A && c == 0x80) || (a == 0xE2 && b == 0x80 && ((0x80 <= c
                    && c <= 0x8A) || c == 0xA8 || c == 0xA9 || c == 0xAF)) || (a == 0xE2 && b
                    == 0x81 && c == 0x9F) || (a == 0xE3 && b == 0x80 && c == 0x80) {
                    return 3;
                }
            }
        }
    }
    0
}

/// Trims the window `[lo, hi)` of `text`: takes leading and trailing white
/// space off and returns the window that is left.
pub fn trim(text: &[u8], lo: usize, hi: usize) -> (window: (usize, usize))
    requires
        lo <= hi <= text.len(),
    ensures
        (window.0 as int, window.1 as int) == trimmed(text@, lo as int, hi as int),
        lo <= window.0 <= window.1 <= hi,
{
    let mut start: usize = lo;
    loop
        invariant
            lo <= start <= hi <= text.len(),
            trim_start(text@, lo as int, hi as int) == trim_start(text@, start as int, hi as int),
        ensures
            lo <= start <= hi,
            start == trim_start(text@, lo as int, hi as int),
        decreases hi - start,
    {
        let width = space_width_at(text, start, hi);
        if width == 0 {
            break ;
        }
        start += width;
    }
    let mut end: usize = hi;
    loop
        invariant
            start <= end <= hi <= text.len(),
            trim_end(text@, start as int, hi as int) == trim_end(text@, start as int, end as int),
        ensures
            start <= end <= hi,
            end == trim_end(text@, start as int, hi as int),
        decreases end - start,
    {
        let width = space_width_before(text, start, end);
        if width == 0 {
            break ;
        }
        end -= width;
    }
    (start, end)
}

/// Does the window `[lo, hi)`, trimmed, begin with `pattern`?
pub fn window_begins_with(text: &[u8], lo: usize, hi: usize, pattern: &[u8]) -> (hit: bool)
    requires
        lo <= hi <= text.len(),
    ensures
        hit == begins_with(text@, lo as int, hi as int, pattern@),
{
    let (start, end) = trim(text, lo, hi);
    pattern.len() <= end - start && matches_at(text, start, pattern)
}

/// Does the window `[lo, hi)`, trimmed, end with `pattern`?
pub fn window_finishes_with(text: &[u8], lo: usize, hi: usize, pattern: &[u8]) -> (hit: bool)
    requires
        lo <= hi <= text.len(),
    ensures
        hit == finishes_with(text@, lo as int, hi as int, pattern@),
{
    let (start, end) = trim(text, lo, hi);
    pattern.len() <= end - start && matches_at(text, end - pattern.len(), pattern)
}

/// Does the window `[lo, hi)` hold white space only?
pub fn window_is_blank(text: &[u8], lo: usize, hi: usize) -> (blank: bool)
    requires
        lo <= hi <= text.len(),
    ensures
        blank == is_blank(text@, lo as int, hi as int),
{
    let (start, end) = trim(text, lo, hi);
    start == end
}

/// The offset of the first line feed in `[from, hi)`, or `hi`.
pub fn find_line_break(text: &[u8], from: usize, hi: usize) -> (brk: usize)
    requires
        from <= hi <= text.len(),
    ensures
        brk == line_break(text@, from as int, hi as int),
        from <= brk <= hi,
        brk < hi ==> text@[brk as int] == LINE_FEED,
{
    let mut at: usize = from;
    while at < hi && text[at] != LINE_FEED
        invariant
            from <= at <= hi <= text.len(),
            line_break(text@, from as int, hi as int) == line_break(text@, at as int, hi as int),
        decreases hi - at,
    {
        at += 1;
    }
    at
}

/// The lines of the window `[lo, hi)` of `text`, each as the span of its
/// content.
pub fn line_spans(text: &[u8], lo: usize, hi: usize) -> (spans: Vec<(usize, usize)>)
    requires
        lo <= hi <= text.len(),
    ensures
        spans_view(spans@) == lines(text@, lo as int, hi as int),
        forall|i: int| 0 <= i < spans@.len() ==> lo <= (#[trigger] spans@[i]).0 <= spans@[i].1 <= hi,
        forall|i: int, j: int|
            0 <= i < j < spans@.len() ==> (#[trigger] spans@[i]).1 < (#[trigger] spans@[j]).0,
{
    let mut spans: Vec<(usize, usize)> = Vec::new();
    let mut at: usize = lo;
    assert(spans_view(spans@) =~= Seq::empty());
    while at < hi
        invariant
            lo <= at <= hi <= text.len(),
            lines(text@, lo as int, hi as int) == spans_view(spans@) + lines(
                text@,
                at as int,
                hi as int,
            ),
            forall|i: int| 0 <= i < spans@.len() ==> lo <= (#[trigger] spans@[i]).0 <= spans@[i].1 <= hi,
            forall|i: int| 0 <= i < spans@.len() ==> at == hi || (#[trigger] spans@[i]).1 < at,
            forall|i: int, j: int|
                0 <= i < j < spans@.len() ==> (#[trigger] spans@[i]).1 < (#[trigger] spans@[j]).0,
        decreases hi - at,
    {
        let brk = find_line_break(text, at, hi);
        let end = if brk < hi && at < brk && text[brk - 1] == CARRIAGE_RETURN {
            brk - 1
        } else {
            brk
        };
        let ghost before = spans@;
        spans.push((at, end));
        proof {
            lemma_line_break_bounds(text@, at as int, hi as int);
            let line = seq![(at as int, end as int)];
            assert(spans_view(spans@) =~= spans_view(before) + line);
            let rest = if brk < hi {
                lines(text@, brk + 1, hi as int)
            } else {
                Seq::empty()
            };
            assert(lines(text@, at as int, hi as int) =~= line + rest);
            assert(spans_view(before) + (line + rest) =~= spans_view(spans@) + rest);
        }
        if brk == hi {
            at = hi;
        } else {
            at = brk + 1;
        }
    }
    assert(lines(text@, at as int, hi as int) =~= Seq::empty());
    assert(spans_view(spans@) + Seq::<(int, int)>::empty() =~= spans_view(spans@));
    spans
}

} // verus!
