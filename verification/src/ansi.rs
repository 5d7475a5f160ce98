//! Stripping terminal escape sequences from log lines.
//!
//! A sequence is `ESC [`, parameters and a final byte from `@` to `~`; or `ESC ]`
//! and all up to BEL or `ESC \`; or ESC and one other ASCII byte; or an ESC
//! alone. One that is not terminated takes the rest of the line with it. No
//! boundary of a sequence ever lies within a character.
use std::borrow::Cow;

use vstd::prelude::*;
use vstd::string::*;
use vstd::utf8::encode_utf8;

use crate::text::{chars_of, string_from_chars};

verus! {

pub const ESC: u8 = 0x1b;

pub const BEL: u8 = 0x07;

// ---------------------------------------------------------------------------
// Bytes
// ---------------------------------------------------------------------------

/// Whether a byte ends a control sequence.
pub open spec fn is_final(b: u8) -> bool {
    0x40 <= b <= 0x7e
}

/// What follows a control sequence, given what follows its `ESC [`.
pub open spec fn after_csi(s: Seq<u8>) -> Seq<u8>
    decreases s.len(),
{
    if s.len() == 0 {
        s
    } else if is_final(s[0]) {
        s.skip(1)
    } else {
        after_csi(s.skip(1))
    }
}

/// What follows an operating system command, given what follows its `ESC ]`.
pub open spec fn after_osc(s: Seq<u8>) -> Seq<u8>
    decreases s.len(),
{
    if s.len() == 0 {
        s
    } else if s[0] == BEL {
        s.skip(1)
    } else if s[0] == ESC && s.len() > 1 && s[1] == 0x5c {
        s.skip(2)
    } else {
        after_osc(s.skip(1))
    }
}

/// What follows the sequence that a line begins with.
pub open spec fn after_escape(s: Seq<u8>) -> Seq<u8> {
    if s.len() < 2 || s[1] >= 0x80 {
        s.skip(1)
    } else if s[1] == 0x5b {
        after_csi(s.skip(2))
    } else if s[1] == 0x5d {
        after_osc(s.skip(2))
    } else {
        s.skip(2)
    }
}

/// A line without its sequences.
pub open spec fn stripped(s: Seq<u8>) -> Seq<u8>
    decreases s.len(), 0nat,
    via stripped_decreases
{
    if s.len() == 0 {
        s
    } else if s[0] == ESC {
        stripped(after_escape(s))
    } else {
        seq![s[0]] + stripped(s.skip(1))
    }
}

#[via_fn]
proof fn stripped_decreases(s: Seq<u8>) {
    if s.len() > 0 && s[0] == ESC {
        lemma_escape_shortens(s);
    }
}

proof fn lemma_csi_shortens(s: Seq<u8>)
    ensures
        after_csi(s).len() <= s.len(),
    decreases s.len(),
{
    if s.len() > 0 && !is_final(s[0]) {
        lemma_csi_shortens(s.skip(1));
    }
}

proof fn lemma_osc_shortens(s: Seq<u8>)
    ensures
        after_osc(s).len() <= s.len(),
    decreases s.len(),
{
    if s.len() > 0 {
        lemma_osc_shortens(s.skip(1));
    }
}

proof fn lemma_escape_shortens(s: Seq<u8>)
    requires
        s.len() > 0,
    ensures
        after_escape(s).len() < s.len(),
{
    if s.len() >= 2 {
        lemma_csi_shortens(s.skip(2));
        lemma_osc_shortens(s.skip(2));
    }
}

fn contains_escape(bytes: &Vec<u8>) -> (r: bool)
    ensures
        r == bytes@.contains(ESC),
{
    let mut i: usize = 0;
    while i < bytes.len()
        invariant
            i <= bytes@.len(),
            forall|j: int| 0 <= j < i ==> bytes@[j] != ESC,
        decreases bytes.len() - i,
    {
        if bytes[i] == ESC {
            return true;
        }
        i = i + 1;
    }
    false
}

/// Where the sequence that starts at `start` ends.
fn escape_end(bytes: &Vec<u8>, start: usize) -> (r: usize)
    requires
        start < bytes@.len(),
    ensures
        start < r <= bytes@.len(),
        bytes@.skip(r as int) == after_escape(bytes@.skip(start as int)),
{
    let ghost s = bytes@.skip(start as int);
    let n = bytes.len();
    if n - start < 2 {
        assert(bytes@.skip(start + 1) =~= s.skip(1));
        return start + 1;
    }
    let second = bytes[start + 1];
    assert(s[1] == second);
    if second >= 0x80 {
        assert(bytes@.skip(start + 1) =~= s.skip(1));
        return start + 1;
    }
    let mut i: usize = start + 2;
    assert(bytes@.skip(i as int) =~= s.skip(2));
    if second == 0x5b {
        while i < n && (bytes[i] < 0x40 || bytes[i] > 0x7e)
            invariant
                start + 2 <= i <= n,
                n == bytes@.len(),
                after_csi(bytes@.skip(i as int)) == after_csi(s.skip(2)),
            decreases n - i,
        {
            assert(bytes@.skip(i as int).skip(1) =~= bytes@.skip(i + 1));
            i = i + 1;
        }
        if i < n {
            assert(bytes@.skip(i as int).skip(1) =~= bytes@.skip(i + 1));
            i = i + 1;
        }
        return i;
    }
    if second == 0x5d {
        while i < n
            invariant
                start + 2 <= i <= n,
                n == bytes@.len(),
                start < n,
                s == bytes@.skip(start as int),
                second == 0x5d,
                s.len() >= 2,
                s[1] == second,
                after_osc(bytes@.skip(i as int)) == after_osc(s.skip(2)),
            decreases n - i,
        {
            assert(bytes@.skip(i as int).skip(1) =~= bytes@.skip(i + 1));
            if bytes[i] == BEL {
                return i + 1;
            }
            if bytes[i] == ESC && n - i > 1 && bytes[i + 1] == 0x5c {
                assert(bytes@.skip(i as int).skip(2) =~= bytes@.skip(i + 2));
                return i + 2;
            }
            i = i + 1;
        }
        return i;
    }
    i
}

fn strip_in_place(line: &mut Vec<u8>)
    ensures
        final(line)@ == stripped(old(line)@),
{
    let ghost whole = line@;
    let n = line.len();
    let mut write: usize = 0;
    let mut read: usize = 0;
    assert(whole.skip(0) =~= whole);
    assert(line@.take(0) =~= seq![]);
    while read < n
        invariant
            write <= read <= n,
            n == whole.len(),
            n == line@.len(),
            line@.skip(read as int) == whole.skip(read as int),
            line@.take(write as int) + stripped(whole.skip(read as int)) == stripped(whole),
        decreases n - read,
    {
        assert(line@.skip(read as int)[0] == whole.skip(read as int)[0]);
        if line[read] == ESC {
            let next = escape_end(line, read);
            assert(line@.skip(next as int) =~= line@.skip(read as int).skip(next - read));
            assert(whole.skip(next as int) =~= whole.skip(read as int).skip(next - read));
            read = next;
        } else {
            let b = line[read];
            let ghost before = line@;
            line.set(write, b);
            proof {
                assert(line@.take(write + 1) =~= before.take(write as int) + seq![b]);
                assert(whole.skip(read as int).skip(1) =~= whole.skip(read + 1));
                assert(line@.skip(read + 1) =~= before.skip(read as int).skip(1));
                assert(before.skip(read as int).skip(1) =~= whole.skip(read + 1));
                assert(line@.take(write + 1) + stripped(whole.skip(read + 1)) =~= before.take(
                    write as int,
                ) + (seq![b] + stripped(whole.skip(read + 1))));
            }
            write = write + 1;
            read = read + 1;
        }
    }
    assert(stripped(whole.skip(read as int)) =~= seq![]);
    assert(line@.take(write as int) =~= stripped(whole));
    line.truncate(write);
}

/// A line without its sequences. One that holds none is handed back as it is.
pub fn strip_owned(line: Vec<u8>) -> (r: Vec<u8>)
    ensures
        r@ == stripped(line@),
{
    let mut line = line;
    if !contains_escape(&line) {
        proof {
            clean_lines_stay(line@);
        }
        return line;
    }
    strip_in_place(&mut line);
    line
}

/// A line that holds no escape byte comes out as it went in.
pub proof fn clean_lines_stay(line: Seq<u8>)
    requires
        !line.contains(ESC),
    ensures
        stripped(line) == line,
    decreases line.len(),
{
    if line.len() > 0 {
        assert(line[0] != ESC);
        let rest = line.skip(1);
        assert forall|i: int| 0 <= i < rest.len() implies rest[i] != ESC by {
            assert(rest[i] == line[i + 1]);
        }
        clean_lines_stay(rest);
        assert(seq![line[0]] + rest =~= line);
    }
}

/// No escape byte is left in what comes out, and a line never grows.
pub proof fn no_escape_is_left(line: Seq<u8>)
    ensures
        !stripped(line).contains(ESC),
        stripped(line).len() <= line.len(),
    decreases line.len(),
{
    if line.len() > 0 {
        if line[0] == ESC {
            lemma_escape_shortens(line);
            no_escape_is_left(after_escape(line));
        } else {
            let rest = line.skip(1);
            no_escape_is_left(rest);
            let out = stripped(line);
            assert forall|i: int| 0 <= i < out.len() implies out[i] != ESC by {
                if i > 0 {
                    assert(out[i] == stripped(rest)[i - 1]);
                    assert(stripped(rest).contains(stripped(rest)[i - 1]));
                }
            }
        }
    }
}

/// Stripping a second time changes nothing.
pub proof fn stripping_twice_is_stripping_once(line: Seq<u8>)
    ensures
        stripped(stripped(line)) == stripped(line),
{
    no_escape_is_left(line);
    clean_lines_stay(stripped(line));
}

// ---------------------------------------------------------------------------
// Text
// ---------------------------------------------------------------------------

pub open spec fn is_final_char(c: char) -> bool {
    '@' <= c && c <= '~'
}

/// What follows a control sequence, given what follows its `ESC [`.
pub open spec fn text_after_csi(s: Seq<char>) -> Seq<char>
    decreases s.len(),
{
    if s.len() == 0 {
        s
    } else if is_final_char(s[0]) {
        s.skip(1)
    } else {
        text_after_csi(s.skip(1))
    }
}

/// What follows an operating system command, given what follows its `ESC ]`.
pub open spec fn text_after_osc(s: Seq<char>) -> Seq<char>
    decreases s.len(),
{
    if s.len() == 0 {
        s
    } else if s[0] == '\u{7}' {
        s.skip(1)
    } else if s[0] == '\u{1b}' && s.len() > 1 && s[1] == '\\' {
        s.skip(2)
    } else {
        text_after_osc(s.skip(1))
    }
}

/// What follows the sequence that a text begins with.
pub open spec fn text_after_escape(s: Seq<char>) -> Seq<char> {
    if s.len() < 2 || s[1] >= '\u{80}' {
        s.skip(1)
    } else if s[1] == '[' {
        text_after_csi(s.skip(2))
    } else if s[1] == ']' {
        text_after_osc(s.skip(2))
    } else {
        s.skip(2)
    }
}

/// A text without its sequences.
pub open spec fn stripped_text(s: Seq<char>) -> Seq<char>
    decreases s.len(), 0nat,
    via stripped_text_decreases
{
    if s.len() == 0 {
        s
    } else if s[0] == '\u{1b}' {
        stripped_text(text_after_escape(s))
    } else {
        seq![s[0]] + stripped_text(s.skip(1))
    }
}

#[via_fn]
proof fn stripped_text_decreases(s: Seq<char>) {
    if s.len() > 0 && s[0] == '\u{1b}' {
        lemma_text_escape_shortens(s);
    }
}

proof fn lemma_text_csi_shortens(s: Seq<char>)
    ensures
        text_after_csi(s).len() <= s.len(),
    decreases s.len(),
{
    if s.len() > 0 && !is_final_char(s[0]) {
        lemma_text_csi_shortens(s.skip(1));
    }
}

proof fn lemma_text_osc_shortens(s: Seq<char>)
    ensures
        text_after_osc(s).len() <= s.len(),
    decreases s.len(),
{
    if s.len() > 0 {
        lemma_text_osc_shortens(s.skip(1));
    }
}

proof fn lemma_text_escape_shortens(s: Seq<char>)
    requires
        s.len() > 0,
    ensures
        text_after_escape(s).len() < s.len(),
{
    if s.len() >= 2 {
        lemma_text_csi_shortens(s.skip(2));
        lemma_text_osc_shortens(s.skip(2));
    }
}

fn text_escape_end(chars: &Vec<char>, start: usize) -> (r: usize)
    requires
        start < chars@.len(),
    ensures
        start < r <= chars@.len(),
        chars@.skip(r as int) == text_after_escape(chars@.skip(start as int)),
{
    let ghost s = chars@.skip(start as int);
    let n = chars.len();
    if n - start < 2 {
        assert(chars@.skip(start + 1) =~= s.skip(1));
        return start + 1;
    }
    let second = chars[start + 1];
    assert(s[1] == second);
    if second >= '\u{80}' {
        assert(chars@.skip(start + 1) =~= s.skip(1));
        return start + 1;
    }
    let mut i: usize = start + 2;
    assert(chars@.skip(i as int) =~= s.skip(2));
    if second == '[' {
        while i < n && (chars[i] < '@' || chars[i] > '~')
            invariant
                start + 2 <= i <= n,
                n == chars@.len(),
                text_after_csi(chars@.skip(i as int)) == text_after_csi(s.skip(2)),
            decreases n - i,
        {
            assert(chars@.skip(i as int).skip(1) =~= chars@.skip(i + 1));
            i = i + 1;
        }
        if i < n {
            assert(chars@.skip(i as int).skip(1) =~= chars@.skip(i + 1));
            i = i + 1;
        }
        return i;
    }
    if second == ']' {
        while i < n
            invariant
                start + 2 <= i <= n,
                n == chars@.len(),
                start < n,
                s == chars@.skip(start as int),
                second == ']',
                s.len() >= 2,
                s[1] == second,
                text_after_osc(chars@.skip(i as int)) == text_after_osc(s.skip(2)),
            decreases n - i,
        {
            assert(chars@.skip(i as int).skip(1) =~= chars@.skip(i + 1));
            if chars[i] == '\u{7}' {
                return i + 1;
            }
            if chars[i] == '\u{1b}' && n - i > 1 && chars[i + 1] == '\\' {
                assert(chars@.skip(i as int).skip(2) =~= chars@.skip(i + 2));
                return i + 2;
            }
            i = i + 1;
        }
        return i;
    }
    i
}

/// A text without its sequences. One that holds none is borrowed through.
pub fn strip_str<'a>(line: &'a str) -> (r: Cow<'a, str>)
    ensures
        r@ == stripped_text(line@),
        r is Borrowed <==> !line@.contains('\u{1b}'),
{
    let chars = chars_of(line);
    let ghost whole = line@;
    let mut out: Vec<char> = Vec::new();
    let mut found = false;
    let mut i: usize = 0;
    assert(whole.skip(0) =~= whole);
    assert(out@ + stripped_text(whole) =~= stripped_text(whole));
    while i < chars.len()
        invariant
            i <= chars@.len(),
            chars@ == whole,
            out@ + stripped_text(whole.skip(i as int)) == stripped_text(whole),
            found ==> whole.contains('\u{1b}'),
            !found ==> forall|j: int| 0 <= j < i ==> whole[j] != '\u{1b}',
        decreases chars.len() - i,
    {
        assert(whole.skip(i as int)[0] == whole[i as int]);
        if chars[i] == '\u{1b}' {
            found = true;
            i = text_escape_end(&chars, i);
        } else {
            let c = chars[i];
            let ghost before = out@;
            out.push(c);
            proof {
                assert(whole.skip(i as int).skip(1) =~= whole.skip(i + 1));
                assert(out@ + stripped_text(whole.skip(i + 1)) =~= before + (seq![c]
                    + stripped_text(whole.skip(i + 1))));
            }
            i = i + 1;
        }
    }
    assert(stripped_text(whole.skip(i as int)) =~= seq![]);
    assert(out@ =~= stripped_text(whole));
    if !found {
        proof {
            clean_text_stays(whole);
        }
        return Cow::Borrowed(line);
    }
    Cow::Owned(string_from_chars(&out))
}

/// A text that holds no escape character comes out as it went in.
pub proof fn clean_text_stays(line: Seq<char>)
    requires
        !line.contains('\u{1b}'),
    ensures
        stripped_text(line) == line,
    decreases line.len(),
{
    if line.len() > 0 {
        assert(line[0] != '\u{1b}');
        let rest = line.skip(1);
        assert forall|i: int| 0 <= i < rest.len() implies rest[i] != '\u{1b}' by {
            assert(rest[i] == line[i + 1]);
        }
        clean_text_stays(rest);
        assert(seq![line[0]] + rest =~= line);
    }
}

// ---------------------------------------------------------------------------
// Text and its bytes
// ---------------------------------------------------------------------------

/// A character's bytes: its own number alone below 0x80, else two or more that
/// all reach 0x80.
pub proof fn lemma_char_bytes(c: char)
    ensures
        ({
            let b = vstd::utf8::encode_scalar(c as u32);
            &&& '\u{80}' > c ==> {
                &&& b.len() == 1
                &&& b[0] < 0x80
                &&& is_final(b[0]) == is_final_char(c)
                &&& (b[0] == ESC) == (c == '\u{1b}')
                &&& (b[0] == BEL) == (c == '\u{7}')
                &&& (b[0] == 0x5b) == (c == '[')
                &&& (b[0] == 0x5c) == (c == '\\')
                &&& (b[0] == 0x5d) == (c == ']')
            }
            &&& c >= '\u{80}' ==> b.len() > 0 && forall|i: int|
                0 <= i < b.len() ==> #[trigger] b[i] >= 0x80
        }),
{
    let v = c as u32;
    vstd::utf8::char_is_scalar(c);
    if '\u{80}' > c {
        assert(v < 0x80);
        assert(v as u8 == vstd::utf8::leading_byte_width_1(v)) by (bit_vector)
            requires
                v < 0x80,
        ;
        assert(vstd::utf8::encode_scalar(v) =~= seq![v as u8]);
        assert(v as u8 == v);
    } else {
        assert(vstd::utf8::leading_byte_width_2(v) >= 0x80) by (bit_vector);
        assert(vstd::utf8::leading_byte_width_3(v) >= 0x80) by (bit_vector);
        assert(vstd::utf8::leading_byte_width_4(v) >= 0x80) by (bit_vector);
        assert(vstd::utf8::last_continuation_byte(v) >= 0x80) by (bit_vector);
        assert(vstd::utf8::second_last_continuation_byte(v) >= 0x80) by (bit_vector);
        assert(vstd::utf8::third_last_continuation_byte(v) >= 0x80) by (bit_vector);
    }
}

/// The bytes of a text: those of its first character, then those of the rest.
proof fn lemma_bytes_split(s: Seq<char>)
    requires
        s.len() > 0,
    ensures
        encode_utf8(s) == vstd::utf8::encode_scalar(s[0] as u32) + encode_utf8(s.skip(1)),
{
    assert(s.drop_first() =~= s.skip(1));
}

/// Bytes from 0x80 up neither begin nor end a sequence.
proof fn lemma_high_bytes(high: Seq<u8>, rest: Seq<u8>)
    requires
        forall|i: int| 0 <= i < high.len() ==> #[trigger] high[i] >= 0x80,
    ensures
        after_csi(high + rest) == after_csi(rest),
        after_osc(high + rest) == after_osc(rest),
        stripped(high + rest) == high + stripped(rest),
    decreases high.len(),
{
    let all = high + rest;
    if high.len() == 0 {
        assert(all =~= rest);
        assert(high + stripped(rest) =~= stripped(rest));
    } else {
        assert(high[0] >= 0x80);
        assert(all[0] == high[0]);
        let tail = high.skip(1);
        assert forall|i: int| 0 <= i < tail.len() implies #[trigger] tail[i] >= 0x80 by {
            assert(tail[i] == high[i + 1]);
        }
        assert(all.skip(1) =~= tail + rest);
        lemma_high_bytes(tail, rest);
        assert(seq![high[0]] + (tail + stripped(rest)) =~= high + stripped(rest));
    }
}

proof fn lemma_csi_bytes(s: Seq<char>)
    ensures
        after_csi(encode_utf8(s)) == encode_utf8(text_after_csi(s)),
    decreases s.len(),
{
    if s.len() > 0 {
        let b = encode_utf8(s);
        let rest = encode_utf8(s.skip(1));
        lemma_bytes_split(s);
        lemma_char_bytes(s[0]);
        lemma_csi_bytes(s.skip(1));
        if '\u{80}' > s[0] {
            assert(b[0] == vstd::utf8::encode_scalar(s[0] as u32)[0]);
            assert(b.skip(1) =~= rest);
        } else {
            lemma_high_bytes(vstd::utf8::encode_scalar(s[0] as u32), rest);
        }
    }
}

proof fn lemma_osc_bytes(s: Seq<char>)
    ensures
        after_osc(encode_utf8(s)) == encode_utf8(text_after_osc(s)),
    decreases s.len(),
{
    if s.len() > 0 {
        let b = encode_utf8(s);
        let rest = encode_utf8(s.skip(1));
        lemma_bytes_split(s);
        lemma_char_bytes(s[0]);
        lemma_osc_bytes(s.skip(1));
        if '\u{80}' > s[0] {
            assert(b[0] == vstd::utf8::encode_scalar(s[0] as u32)[0]);
            assert(b.skip(1) =~= rest);
            if s.len() > 1 {
                lemma_bytes_split(s.skip(1));
                lemma_char_bytes(s[1]);
                assert(s.skip(1)[0] == s[1]);
                assert(s.skip(1).skip(1) =~= s.skip(2));
                if '\u{80}' > s[1] {
                    assert(b[1] == vstd::utf8::encode_scalar(s[1] as u32)[0]);
                    assert(b.skip(2) =~= rest.skip(1));
                    assert(rest.skip(1) =~= encode_utf8(s.skip(2)));
                } else {
                    assert(rest[0] >= 0x80);
                    assert(b[1] == rest[0]);
                }
            } else {
                assert(rest =~= seq![]);
            }
        } else {
            lemma_high_bytes(vstd::utf8::encode_scalar(s[0] as u32), rest);
        }
    }
}

/// Stripping a text and stripping its bytes come to the same: no sequence ever
/// splits a character.
pub proof fn text_and_bytes_agree(s: Seq<char>)
    ensures
        stripped(encode_utf8(s)) == encode_utf8(stripped_text(s)),
    decreases s.len(),
{
    let b = encode_utf8(s);
    if s.len() == 0 {
    } else {
        let rest = encode_utf8(s.skip(1));
        lemma_bytes_split(s);
        lemma_char_bytes(s[0]);
        if s[0] == '\u{1b}' {
            assert(b[0] == ESC);
            assert(b.skip(1) =~= rest);
            lemma_text_escape_shortens(s);
            if s.len() > 1 {
                lemma_bytes_split(s.skip(1));
                lemma_char_bytes(s[1]);
                assert(s.skip(1)[0] == s[1]);
                assert(s.skip(1).skip(1) =~= s.skip(2));
                if '\u{80}' > s[1] {
                    assert(b[1] == vstd::utf8::encode_scalar(s[1] as u32)[0]);
                    assert(b.skip(2) =~= encode_utf8(s.skip(2)));
                    lemma_csi_bytes(s.skip(2));
                    lemma_osc_bytes(s.skip(2));
                } else {
                    assert(rest[0] >= 0x80);
                    assert(b[1] == rest[0]);
                }
            } else {
                assert(rest =~= seq![]);
            }
            assert(after_escape(b) == encode_utf8(text_after_escape(s)));
            text_and_bytes_agree(text_after_escape(s));
        } else {
            let out = stripped_text(s.skip(1));
            text_and_bytes_agree(s.skip(1));
            let next = seq![s[0]] + out;
            lemma_bytes_split(next);
            assert(next.skip(1) =~= out);
            if '\u{80}' > s[0] {
                assert(b[0] == vstd::utf8::encode_scalar(s[0] as u32)[0]);
                assert(b.skip(1) =~= rest);
            } else {
                lemma_high_bytes(vstd::utf8::encode_scalar(s[0] as u32), rest);
            }
        }
    }
}

} // verus!
