//! Byte sequences: searching, lines, and text in UTF-8.
use vstd::prelude::*;
use vstd::utf8::{decode_utf8, encode_utf8, valid_utf8};
use vstd::string::*;

verus! {

/// The text that a byte sequence encodes, if it is UTF-8. Stands for
/// `std::str::from_utf8`, which gives a text exactly where the bytes are the
/// encoding of one, and then that one.
#[verifier::external_body]
pub(crate) fn utf8_text<'a>(bytes: &'a [u8]) -> (r: Option<&'a str>)
    ensures
        match r {
            Some(s) => valid_utf8(bytes@) && s@ == decode_utf8(bytes@) && encode_utf8(s@) == bytes@,
            None => !valid_utf8(bytes@),
        },
{
    std::str::from_utf8(bytes).ok()
}

/// A copy of a byte sequence.
pub fn copy_bytes(bytes: &[u8]) -> (r: Vec<u8>)
    ensures
        r@ == bytes@,
{
    vstd::slice::slice_to_vec(bytes)
}

/// A part of a byte sequence.
pub fn copy_range(bytes: &[u8], from: usize, to: usize) -> (r: Vec<u8>)
    requires
        from <= to <= bytes@.len(),
    ensures
        r@ == bytes@.subrange(from as int, to as int),
{
    copy_bytes(vstd::slice::slice_subrange(bytes, from, to))
}

/// Puts bytes behind those that are there.
pub fn extend(buffer: &mut Vec<u8>, bytes: &[u8])
    ensures
        final(buffer)@ == old(buffer)@ + bytes@,
{
    let mut i: usize = 0;
    while i < bytes.len()
        invariant
            i <= bytes@.len(),
            buffer@ == old(buffer)@ + bytes@.take(i as int),
        decreases bytes.len() - i,
    {
        buffer.push(bytes[i]);
        i = i + 1;
        assert(bytes@.take(i as int) =~= bytes@.take(i - 1).push(bytes@[i - 1]));
    }
    assert(bytes@.take(i as int) =~= bytes@);
}

/// Whether `pat` stands in `s` at position `at`.
pub open spec fn bytes_at(s: Seq<u8>, pat: Seq<u8>, at: int) -> bool {
    0 <= at && at + pat.len() <= s.len() && s.subrange(at, at + pat.len()) == pat
}

/// Whether `pat` occurs somewhere in `s`.
pub open spec fn bytes_occur(s: Seq<u8>, pat: Seq<u8>) -> bool {
    exists|at: int| #[trigger] bytes_at(s, pat, at)
}

/// Whether `pat` stands at `at`.
fn matches_at(s: &[u8], at: usize, pat: &[u8]) -> (r: bool)
    requires
        at <= s@.len(),
    ensures
        r == bytes_at(s@, pat@, at as int),
{
    if s.len() - at < pat.len() {
        return false;
    }
    let mut i: usize = 0;
    while i < pat.len()
        invariant
            i <= pat@.len(),
            at + pat@.len() <= s.len(),
            s.len() == s@.len(),
            forall|j: int| 0 <= j < i ==> s@[at + j] == pat@[j],
        decreases pat.len() - i,
    {
        if s[at + i] != pat[i] {
            assert(s@.subrange(at as int, at + pat@.len())[i as int] != pat@[i as int]);
            return false;
        }
        i = i + 1;
    }
    assert(s@.subrange(at as int, at + pat@.len()) =~= pat@);
    true
}

/// Whether `pat` occurs in `s`.
pub fn contains(s: &[u8], pat: &[u8]) -> (r: bool)
    ensures
        r == bytes_occur(s@, pat@),
{
    let mut i: usize = 0;
    while i < s.len()
        invariant
            i <= s@.len(),
            forall|j: int| 0 <= j < i ==> !#[trigger] bytes_at(s@, pat@, j),
        decreases s.len() - i,
    {
        if matches_at(s, i, pat) {
            return true;
        }
        i = i + 1;
    }
    matches_at(s, i, pat)
}

/// The length of the first line with its line feed, or of all there is where
/// none ends.
pub open spec fn first_line_len(s: Seq<u8>) -> nat
    decreases s.len(),
{
    if s.len() == 0 {
        0
    } else if s[0] == 10u8 {
        1
    } else {
        1 + first_line_len(s.skip(1))
    }
}

pub proof fn lemma_first_line_len(s: Seq<u8>)
    ensures
        first_line_len(s) <= s.len(),
        s.len() > 0 ==> first_line_len(s) > 0,
    decreases s.len(),
{
    if s.len() > 0 && s[0] != 10u8 {
        lemma_first_line_len(s.skip(1));
    }
}

/// The lines of a byte sequence, each with its line feed; the last may lack it.
pub open spec fn raw_lines(s: Seq<u8>) -> Seq<Seq<u8>>
    decreases s.len(),
    via raw_lines_decreases
{
    if s.len() == 0 {
        seq![]
    } else {
        let n = first_line_len(s) as int;
        seq![s.take(n)] + raw_lines(s.skip(n))
    }
}

#[via_fn]
proof fn raw_lines_decreases(s: Seq<u8>) {
    lemma_first_line_len(s);
}

/// The end of the line that begins at `from`.
pub fn line_end(s: &[u8], from: usize) -> (end: usize)
    requires
        from <= s@.len(),
    ensures
        end == from + first_line_len(s@.skip(from as int)),
        from <= end <= s@.len(),
        from < s@.len() ==> from < end,
{
    let mut i: usize = from;
    while i < s.len()
        invariant
            from <= i <= s@.len(),
            first_line_len(s@.skip(from as int)) == (i - from) + first_line_len(s@.skip(i as int)),
        decreases s.len() - i,
    {
        let ghost rest = s@.skip(i as int);
        assert(rest[0] == s@[i as int]);
        assert(rest.skip(1) =~= s@.skip(i + 1));
        if s[i] == 10 {
            return i + 1;
        }
        i = i + 1;
    }
    i
}

/// A line without its line feed, and without a carriage return before that.
pub open spec fn chomped(s: Seq<u8>) -> Seq<u8> {
    let t = if s.len() > 0 && s.last() == 10u8 {
        s.drop_last()
    } else {
        s
    };
    if t.len() > 0 && t.last() == 13u8 {
        t.drop_last()
    } else {
        t
    }
}

/// Takes the line feed off a line, and a carriage return before that.
pub fn chomp(line: &mut Vec<u8>)
    ensures
        final(line)@ == chomped(old(line)@),
{
    if line.len() > 0 && line[line.len() - 1] == 10 {
        line.pop();
    }
    if line.len() > 0 && line[line.len() - 1] == 13 {
        line.pop();
    }
}

/// Tab, line feed, form feed, carriage return and space.
pub open spec fn ascii_white(b: u8) -> bool {
    b == 9 || b == 10 || b == 12 || b == 13 || b == 32
}

/// Bytes without the ASCII whitespace before them.
pub open spec fn ascii_trimmed_start(s: Seq<u8>) -> Seq<u8>
    decreases s.len(),
{
    if s.len() > 0 && ascii_white(s[0]) {
        ascii_trimmed_start(s.skip(1))
    } else {
        s
    }
}

/// Bytes without the ASCII whitespace behind them.
pub open spec fn ascii_trimmed_end(s: Seq<u8>) -> Seq<u8>
    decreases s.len(),
{
    if s.len() > 0 && ascii_white(s.last()) {
        ascii_trimmed_end(s.drop_last())
    } else {
        s
    }
}

/// Bytes without the ASCII whitespace around them.
pub open spec fn ascii_trimmed(s: Seq<u8>) -> Seq<u8> {
    ascii_trimmed_end(ascii_trimmed_start(s))
}

/// Bytes without the ASCII whitespace around them.
pub fn trim_ascii<'a>(s: &'a [u8]) -> (r: &'a [u8])
    ensures
        r@ == ascii_trimmed(s@),
{
    let mut start: usize = 0;
    assert(s@.skip(0) =~= s@);
    while start < s.len() && (s[start] == 9 || s[start] == 10 || s[start] == 12 || s[start] == 13
        || s[start] == 32)
        invariant
            start <= s@.len(),
            ascii_trimmed_start(s@) == ascii_trimmed_start(s@.skip(start as int)),
        decreases s.len() - start,
    {
        assert(s@.skip(start as int).skip(1) =~= s@.skip(start + 1));
        start = start + 1;
    }
    let mut end: usize = s.len();
    assert(s@.skip(start as int) =~= s@.subrange(start as int, end as int));
    while end > start && (s[end - 1] == 9 || s[end - 1] == 10 || s[end - 1] == 12 || s[end - 1]
        == 13 || s[end - 1] == 32)
        invariant
            start <= end <= s@.len(),
            ascii_trimmed(s@) == ascii_trimmed_end(s@.subrange(start as int, end as int)),
        decreases end,
    {
        assert(s@.subrange(start as int, end as int).drop_last() =~= s@.subrange(
            start as int,
            end - 1,
        ));
        end = end - 1;
    }
    vstd::slice::slice_subrange(s, start, end)
}

} // verus!
