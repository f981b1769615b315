//! Byte-level text primitives: comparison, search, concatenation and
//! splicing. Source text is handled as bytes throughout, because every span
//! the engine works with is a byte span.

use vstd::prelude::*;

verus! {

/// `pattern` occurs in `text` starting at byte offset `at`.
pub open spec fn occurs_at(text: Seq<u8>, at: int, pattern: Seq<u8>) -> bool {
    &&& 0 <= at
    &&& at + pattern.len() <= text.len()
    &&& text.subrange(at, at + pattern.len()) == pattern
}

/// `pattern` occurs somewhere in `text`.
pub open spec fn contains(text: Seq<u8>, pattern: Seq<u8>) -> bool {
    exists|at: int| occurs_at(text, at, pattern)
}

/// `text` with the bytes of `[start, end)` replaced by `content`.
pub open spec fn spliced(text: Seq<u8>, start: int, end: int, content: Seq<u8>) -> Seq<u8> {
    text.subrange(0, start) + content + text.subrange(end, text.len() as int)
}

/// Byte-wise equality of two slices.
pub fn bytes_eq(a: &[u8], b: &[u8]) -> (same: bool)
    ensures
        same == (a@ == b@),
{
    if a.len() != b.len() {
        return false;
    }
    let mut i: usize = 0;
    while i < a.len()
        invariant
            i <= a.len(),
            a.len() == b.len(),
            forall|k: int| 0 <= k < i ==> a@[k] == b@[k],
        decreases a.len() - i,
    {
        if a[i] != b[i] {
            return false;
        }
        i += 1;
    }
    assert(a@ =~= b@);
    true
}

/// Does `pattern` occur in `text` at offset `at`?
pub fn matches_at(text: &[u8], at: usize, pattern: &[u8]) -> (hit: bool)
    ensures
        hit == occurs_at(text@, at as int, pattern@),
{
    if at > text.len() || pattern.len() > text.len() - at {
        return false;
    }
    let ghost window = text@.subrange(at as int, at + pattern.len());
    let mut i: usize = 0;
    while i < pattern.len()
        invariant
            i <= pattern.len(),
            at + pattern.len() <= text.len(),
            window == text@.subrange(at as int, at + pattern.len()),
            forall|k: int| 0 <= k < i ==> window[k] == pattern@[k],
        decreases pattern.len() - i,
    {
        if text[at + i] != pattern[i] {
            assert(window[i as int] != pattern@[i as int]);
            return false;
        }
        i += 1;
    }
    assert(window =~= pattern@);
    true
}

/// The offset of the first occurrence of `pattern` in `text`, if there is one.
pub fn find(text: &[u8], pattern: &[u8]) -> (found: Option<usize>)
    ensures
        match found {
            Some(at) => occurs_at(text@, at as int, pattern@) && forall|k: int|
                0 <= k < at ==> !occurs_at(text@, k, pattern@),
            None => !contains(text@, pattern@),
        },
{
    if pattern.len() > text.len() {
        return None;
    }
    let last: usize = text.len() - pattern.len();
    let mut at: usize = 0;
    loop
        invariant
            at <= last,
            last == text.len() - pattern.len(),
            forall|k: int| 0 <= k < at ==> !occurs_at(text@, k, pattern@),
        decreases last - at,
    {
        if matches_at(text, at, pattern) {
            return Some(at);
        }
        if at == last {
            return None;
        }
        at += 1;
    }
}

/// Appends `piece` to `out`.
pub fn append(out: &mut Vec<u8>, piece: &[u8])
    ensures
        final(out)@ == old(out)@ + piece@,
{
    let ghost before = out@;
    let mut i: usize = 0;
    while i < piece.len()
        invariant
            i <= piece.len(),
            out@ == before + piece@.subrange(0, i as int),
        decreases piece.len() - i,
    {
        out.push(piece[i]);
        assert(out@ =~= before + piece@.subrange(0, i + 1));
        i += 1;
    }
    assert(piece@.subrange(0, piece.len() as int) =~= piece@);
}

/// A fresh copy of the bytes `[start, end)` of `text`.
pub fn slice_copy(text: &[u8], start: usize, end: usize) -> (out: Vec<u8>)
    requires
        start <= end <= text.len(),
    ensures
        out@ == text@.subrange(start as int, end as int),
{
    let mut out: Vec<u8> = Vec::new();
    let mut i: usize = start;
    while i < end
        invariant
            start <= i <= end,
            end <= text.len(),
            out@ == text@.subrange(start as int, i as int),
        decreases end - i,
    {
        out.push(text[i]);
        assert(out@ =~= text@.subrange(start as int, i + 1));
        i += 1;
    }
    out
}

/// Replaces the bytes `[start, end)` of `text` by `content`; every byte
/// outside that range is kept as it is.
pub fn splice(text: &[u8], start: usize, end: usize, content: &[u8]) -> (out: Vec<u8>)
    requires
        start <= end <= text.len(),
    ensures
        out@ == spliced(text@, start as int, end as int, content@),
{
    let mut out = slice_copy(text, 0, start);
    append(&mut out, content);
    append(&mut out, vstd::slice::slice_subrange(text, end, text.len()));
    out
}

} // verus!
