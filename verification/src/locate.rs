//! Mapping a byte offset in a source text to a line and a column.
//!
//! Offsets, line starts and columns are all measured in bytes of the UTF-8
//! encoding of the text, so the model below speaks of `Seq<u8>`.  A line
//! break is a single newline byte; the newline belongs to the line it ends.

use vstd::prelude::*;
use vstd::string::StringSliceAdditionalSpecFns;
use vstd::utf8::*;

verus! {

/// Number of newline bytes among the first `i` bytes of `b`: the
/// zero-indexed line number of the line that byte offset `i` falls on.
pub open spec fn newline_count(b: Seq<u8>, i: int) -> int
    decreases i,
{
    if i <= 0 {
        0
    } else {
        newline_count(b, i - 1) + if b[i - 1] == 10 {
            1int
        } else {
            0int
        }
    }
}

/// Byte offset at which the line containing offset `i` begins: zero, or
/// one past the last newline among the first `i` bytes.
pub open spec fn line_start_at(b: Seq<u8>, i: int) -> int
    decreases i,
{
    if i <= 0 {
        0
    } else if b[i - 1] == 10 {
        i
    } else {
        line_start_at(b, i - 1)
    }
}

/// Index of the first newline byte at or after offset `i`, or the length
/// of `b` when no newline follows: where the line containing `i` ends.
pub open spec fn next_newline(b: Seq<u8>, i: int) -> int
    decreases b.len() - i,
{
    if !(0 <= i < b.len()) {
        b.len() as int
    } else if b[i] == 10 {
        i
    } else {
        next_newline(b, i + 1)
    }
}

/// Cumulative byte offset at which line number `line` begins: line 0
/// starts at offset 0, and each further line one past the newline that
/// ends the line before it.
pub open spec fn start_of_line(b: Seq<u8>, line: int) -> int
    decreases line,
{
    if line <= 0 {
        0
    } else {
        next_newline(b, start_of_line(b, line - 1)) + 1
    }
}

proof fn lemma_newline_count_bounds(b: Seq<u8>, i: int)
    requires
        0 <= i,
    ensures
        0 <= newline_count(b, i) <= i,
    decreases i,
{
    if i > 0 {
        lemma_newline_count_bounds(b, i - 1);
    }
}

proof fn lemma_line_start_at_props(b: Seq<u8>, i: int)
    requires
        0 <= i,
    ensures
        0 <= line_start_at(b, i) <= i,
        line_start_at(b, i) == 0 || b[line_start_at(b, i) - 1] == 10,
        forall|k: int| line_start_at(b, i) <= k < i ==> b[k] != 10,
    decreases i,
{
    if i > 0 {
        lemma_line_start_at_props(b, i - 1);
    }
}

proof fn lemma_next_newline_props(b: Seq<u8>, i: int)
    requires
        0 <= i <= b.len(),
    ensures
        i <= next_newline(b, i) <= b.len(),
        next_newline(b, i) == b.len() || b[next_newline(b, i)] == 10,
        forall|k: int| i <= k < next_newline(b, i) ==> b[k] != 10,
    decreases b.len() - i,
{
    if i < b.len() && b[i] != 10 {
        lemma_next_newline_props(b, i + 1);
    }
}

proof fn lemma_next_newline_exact(b: Seq<u8>, i: int, j: int)
    requires
        0 <= i <= j <= b.len(),
        forall|k: int| i <= k < j ==> b[k] != 10,
        j == b.len() || b[j] == 10,
    ensures
        next_newline(b, i) == j,
    decreases j - i,
{
    if i < j {
        lemma_next_newline_exact(b, i + 1, j);
    }
}

/// The mapping from a byte offset to a line and a column round-trips: the
/// offset at which the line of `i` begins, plus the column of `i` on that
/// line, is `i` itself.
pub proof fn lemma_position_roundtrip(b: Seq<u8>, i: int)
    requires
        0 <= i <= b.len(),
    ensures
        start_of_line(b, newline_count(b, i)) + (i - line_start_at(b, i)) == i,
    decreases i,
{
    if i == 0 {
    } else {
        lemma_position_roundtrip(b, i - 1);
        lemma_newline_count_bounds(b, i - 1);
        lemma_line_start_at_props(b, i - 1);
        if b[i - 1] == 10 {
            lemma_next_newline_exact(b, line_start_at(b, i - 1), i - 1);
        }
    }
}

/// An offset of zero always maps to line 0, column 0.
pub proof fn lemma_position_at_start(b: Seq<u8>)
    ensures
        newline_count(b, 0) == 0,
        line_start_at(b, 0) == 0,
{
}

/// A position directly after an ASCII byte of a valid UTF-8 encoding is a
/// character boundary: an ASCII byte encodes a whole scalar by itself.
proof fn lemma_boundary_after_ascii(b: Seq<u8>, p: int)
    requires
        valid_utf8(b),
        0 < p <= b.len(),
        b[p - 1] < 0x80,
    ensures
        is_char_boundary(b, p),
    decreases b.len(),
{
    let len1 = length_of_first_scalar(b);
    assert(valid_leading_and_continuation_bytes_first_codepoint(b));
    if p - 1 < len1 {
        // An ASCII byte is neither a continuation byte nor a leading byte of
        // width two or more, so it can only be the whole first scalar.
        assert(p - 1 == 0);
        assert(is_leading_byte_width_1(b[0]));
        assert(len1 == 1);
        assert(is_char_boundary(pop_first_scalar(b), 0));
    } else {
        let rest = pop_first_scalar(b);
        assert(rest[p - len1 - 1] == b[p - 1]);
        lemma_boundary_after_ascii(rest, p - len1);
    }
}

/// The bytes of the line containing byte offset `i`: from the line's start
/// to the newline (or the end of the text) that closes it.
pub open spec fn line_bytes(b: Seq<u8>, i: int) -> Seq<u8> {
    b.subrange(line_start_at(b, i), next_newline(b, i))
}

/// The text of the line containing byte offset `i`, without its newline.
pub open spec fn line_text(b: Seq<u8>, i: int) -> Seq<char> {
    decode_utf8(line_bytes(b, i))
}

/// The line of `s` containing byte offset `i`, without its trailing
/// newline; `start` must be the byte offset at which that line begins.
pub fn line_at<'a>(s: &'a str, i: usize, start: usize) -> (r: &'a str)
    requires
        i <= s.spec_bytes().len(),
        start == line_start_at(s.spec_bytes(), i as int),
    ensures
        r@ == line_text(s.spec_bytes(), i as int),
{
    broadcast use vstd::utf8::group_utf8_lib;

    let b = s.as_bytes();
    let mut j: usize = i;
    while j < b.len() && b[j] != 10
        invariant
            i <= j <= b@.len(),
            b@ == s.spec_bytes(),
            forall|k: int| i <= k < j ==> b@[k] != 10,
        decreases b@.len() - j,
    {
        j = j + 1;
    }
    proof {
        lemma_next_newline_exact(b@, i as int, j as int);
        lemma_line_start_at_props(b@, i as int);
        assert(valid_utf8(s.spec_bytes()));
        if start > 0 {
            lemma_boundary_after_ascii(b@, start as int);
        }
        assert(is_char_boundary(s.spec_bytes(), start as int));
    }
    let (_, rest) = s.split_at(start);
    proof {
        assert(valid_utf8(rest.spec_bytes()));
        assert(rest.spec_bytes().len() == b@.len() - start);
        if j < b.len() {
            assert(rest.spec_bytes()[j - start] == b@[j as int]);
            assert(!is_continuation_byte(rest.spec_bytes()[j - start]));
        }
        assert(is_char_boundary(rest.spec_bytes(), j - start));
    }
    let (line, _) = rest.split_at(j - start);
    proof {
        assert(line.spec_bytes() =~= line_bytes(s.spec_bytes(), i as int));
        assert(line@ == decode_utf8(encode_utf8(line@)));
        assert(line@ == line_text(s.spec_bytes(), i as int));
    }
    line
}

/// The text of any line is a contiguous piece of the decoded source text:
/// whatever holds of every character of the source, such as the absence
/// of some character, holds of every character of the line.
pub proof fn lemma_line_text_slice(b: Seq<u8>, i: int)
    requires
        valid_utf8(b),
        0 <= i <= b.len(),
    ensures
        exists|a: Seq<char>, c: Seq<char>| decode_utf8(b) == a + line_text(b, i) + c,
{
    broadcast use vstd::utf8::group_utf8_lib;

    let ls = line_start_at(b, i);
    let ne = next_newline(b, i);
    lemma_line_start_at_props(b, i);
    lemma_next_newline_props(b, i);
    if ls > 0 {
        lemma_boundary_after_ascii(b, ls);
    }
    assert(is_char_boundary(b, ls));
    let tail = b.subrange(ls, b.len() as int);
    assert(valid_utf8(tail));
    if ne < b.len() {
        assert(tail[ne - ls] == b[ne]);
        assert(!is_continuation_byte(tail[ne - ls]));
    }
    assert(is_char_boundary(tail, ne - ls));
    let a = decode_utf8(b.subrange(0, ls));
    let c = decode_utf8(tail.subrange(ne - ls, tail.len() as int));
    assert(decode_utf8(b) == a + decode_utf8(tail));
    assert(decode_utf8(tail) == decode_utf8(tail.subrange(0, ne - ls)) + c);
    assert(tail.subrange(0, ne - ls) =~= line_bytes(b, i));
    assert(decode_utf8(b) =~= a + line_text(b, i) + c);
}

/// Line and column (both zero-indexed) of byte offset `i` in `s`: the line
/// is the number of newlines among the bytes before `i`, the column the
/// distance in bytes from the start of that line.
pub fn position(s: &str, i: usize) -> (r: (usize, usize))
    requires
        i <= s.spec_bytes().len(),
    ensures
        r.0 == newline_count(s.spec_bytes(), i as int),
        r.1 == i - line_start_at(s.spec_bytes(), i as int),
        r.0 <= i,
        r.1 <= i,
{
    let b = s.as_bytes();
    let mut line: usize = 0;
    let mut start: usize = 0;
    let mut j: usize = 0;
    while j < i
        invariant
            j <= i <= b@.len(),
            b@ == s.spec_bytes(),
            line == newline_count(b@, j as int),
            start == line_start_at(b@, j as int),
            line <= j,
            start <= j,
        decreases i - j,
    {
        if b[j] == 10 {
            line = line + 1;
            start = j + 1;
        }
        j = j + 1;
    }
    (line, i - start)
}

} // verus!
