//! What is left of a container's log line when its framing is taken off.
use vstd::prelude::*;
use vstd::string::*;
use vstd::utf8::{decode_utf8, encode_utf8, valid_utf8};

use crate::cri::{
    cri_header, digit_run, digits_at, docker_record, is_decimal_digit, line_view, log_fields,
    reassembled, record_in, stream_of, timestamp_len, zone_len, LineView, LogStream, Reassembly,
    RecordView,
};
use crate::outline::{at_most_once, last_value, OutlineView};
use crate::text::{is_white, word_len};

verus! {

/// The bytes of two texts one after another are those of the first, then those of the
/// second.
pub proof fn lemma_encode_add(a: Seq<char>, b: Seq<char>)
    ensures
        encode_utf8(a + b) == encode_utf8(a) + encode_utf8(b),
    decreases a.len(),
{
    if a.len() == 0 {
        assert(a + b =~= b);
        assert(encode_utf8(a) =~= Seq::<u8>::empty());
        assert(encode_utf8(a) + encode_utf8(b) =~= encode_utf8(b));
    } else {
        assert((a + b).drop_first() =~= a.drop_first() + b);
        assert((a + b)[0] == a[0]);
        lemma_encode_add(a.drop_first(), b);
        assert(encode_utf8(a + b) =~= encode_utf8(a) + encode_utf8(b));
    }
}

proof fn lemma_digit_run(digits: Seq<char>, rest: Seq<char>)
    requires
        forall|i: int| 0 <= i < digits.len() ==> 0x30 <= #[trigger] digits[i] as int <= 0x39,
        rest.len() > 0 && (rest[0] == 'Z' || rest[0] == '+' || rest[0] == '-'),
    ensures
        digit_run(digits + rest) == digits.len(),
    decreases digits.len(),
{
    let s = digits + rest;
    if digits.len() == 0 {
        assert(s[0] == rest[0]);
        assert(!is_decimal_digit(rest[0]));
    } else {
        assert(s[0] == digits[0]);
        assert(s.skip(1) =~= digits.skip(1) + rest);
        lemma_digit_run(digits.skip(1), rest);
    }
}

proof fn lemma_tag(tag: Seq<char>, rest: Seq<char>)
    requires
        forall|i: int| 0 <= i < tag.len() ==> !is_white(#[trigger] tag[i]),
        rest.len() > 0 && rest[0] == ' ',
    ensures
        word_len(tag + rest) == tag.len(),
    decreases tag.len(),
{
    let s = tag + rest;
    if tag.len() == 0 {
        assert(s[0] == ' ');
    } else {
        assert(s[0] == tag[0]);
        assert(s.skip(1) =~= tag.skip(1) + rest);
        lemma_tag(tag.skip(1), rest);
    }
}

/// Whether a text is a date and a time to the second, as `2024-01-15T10:30:45` is.
pub open spec fn is_date_and_time(s: Seq<char>) -> bool {
    &&& s.len() == 19
    &&& forall|i: int|
        0 <= i < 19 ==> if i == 4 || i == 7 {
            #[trigger] s[i] == '-'
        } else if i == 10 {
            s[i] == 'T'
        } else if i == 13 || i == 16 {
            s[i] == ':'
        } else {
            0x30 <= s[i] as int <= 0x39
        }
}

/// Whether a text is nothing, or a point and digits.
pub open spec fn is_fraction(s: Seq<char>) -> bool {
    s.len() == 0 || (s.len() >= 2 && s[0] == '.' && forall|i: int|
        1 <= i < s.len() ==> 0x30 <= #[trigger] s[i] as int <= 0x39)
}

/// Whether a text is a time zone: `Z`, or a sign, hours, a colon and minutes.
pub open spec fn is_zone(s: Seq<char>) -> bool {
    s == seq!['Z'] || {
        &&& s.len() == 6
        &&& s[0] == '+' || s[0] == '-'
        &&& 0x30 <= s[1] as int <= 0x39 && 0x30 <= s[2] as int <= 0x39
        &&& s[3] == ':'
        &&& 0x30 <= s[4] as int <= 0x39 && 0x30 <= s[5] as int <= 0x39
    }
}

proof fn lemma_timestamp(time: Seq<char>, fraction: Seq<char>, zone: Seq<char>, rest: Seq<char>)
    requires
        is_date_and_time(time),
        is_fraction(fraction),
        is_zone(zone),
    ensures
        timestamp_len(time + fraction + zone + rest) == Some(
            (19 + fraction.len() + zone.len()) as int,
        ),
{
    let s = time + fraction + zone + rest;
    assert forall|i: int| 0 <= i < 19 implies s[i] == time[i] by {}
    assert(s[4] == time[4] && s[7] == time[7] && s[10] == time[10] && s[13] == time[13] && s[16]
        == time[16]);
    assert(time[4] == '-' && time[7] == '-' && time[10] == 'T' && time[13] == ':' && time[16]
        == ':');
    assert forall|i: int|
        0 <= i < 19 && i != 4 && i != 7 && i != 10 && i != 13 && i != 16 implies is_decimal_digit(
        #[trigger] s[i],
    ) by {
        assert(s[i] == time[i]);
        assert(0x30 <= time[i] as int <= 0x39);
    }
    let at = 19 + fraction.len() as int;
    assert(s[at] == zone[0]);
    if fraction.len() > 0 {
        assert(s[19] == '.');
        let digits = fraction.skip(1);
        assert(s.skip(20) =~= digits + (zone + rest));
        assert forall|i: int| 0 <= i < digits.len() implies 0x30 <= #[trigger] digits[i] as int
            <= 0x39 by {
            assert(digits[i] == fraction[i + 1]);
        }
        lemma_digit_run(digits, zone + rest);
    } else {
        assert(s[19] == zone[0]);
    }
    if zone.len() == 6 {
        assert forall|i: int| 0 <= i < 6 implies s[at + i] == zone[i] by {}
        assert(s[at + 1] == zone[1] && s[at + 2] == zone[2] && s[at + 3] == zone[3] && s[at + 4]
            == zone[4] && s[at + 5] == zone[5]);
        assert(digits_at(s, at + 1, 2));
        assert(digits_at(s, at + 4, 2));
    }
    assert(zone_len(s, at) == zone.len());
}

/// Framing comes off whole: of a line that is a time, a stream's tag, a flag, each with a
/// space behind it, and a message, just the bytes of the message are left, whatever the
/// message begins with. The tag tells the stream, and the flag whether it is a fragment.
pub proof fn framing_comes_off(
    time: Seq<char>,
    fraction: Seq<char>,
    zone: Seq<char>,
    tag: Seq<char>,
    partial: bool,
    message: Seq<u8>,
    buffer: Seq<u8>,
)
    requires
        is_date_and_time(time),
        is_fraction(fraction),
        is_zone(zone),
        tag.len() > 0,
        forall|i: int| 0 <= i < tag.len() ==> !is_white(#[trigger] tag[i]),
        valid_utf8(message),
    ensures
        ({
            let flag = if partial {
                'P'
            } else {
                'F'
            };
            let head = time + fraction + zone + seq![' '] + tag + seq![' ', flag, ' '];
            let line = encode_utf8(head) + message;
            let stream = if tag == seq!['s', 't', 'd', 'o', 'u', 't'] {
                LogStream::Stdout
            } else if tag == seq!['s', 't', 'd', 'e', 'r', 'r'] {
                LogStream::Stderr
            } else {
                LogStream::Unspecified
            };
            &&& line_view(line) == (LineView { message, stream, partial, framed: true })
            &&& reassembled(line, buffer) == if partial {
                Reassembly { buffer: buffer + message, message: None }
            } else {
                Reassembly { buffer: seq![], message: Some((buffer + message, stream)) }
            }
        }),
{
    let flag = if partial {
        'P'
    } else {
        'F'
    };
    let head = time + fraction + zone + seq![' '] + tag + seq![' ', flag, ' '];
    let m = decode_utf8(message);
    vstd::utf8::decode_utf8_encode_utf8(message);
    let text = head + m;
    let line = encode_utf8(head) + message;
    lemma_encode_add(head, m);
    vstd::utf8::encode_utf8_valid_utf8(text);
    vstd::utf8::encode_utf8_decode_utf8(text);
    assert(decode_utf8(line) == text);
    let rest = seq![' '] + tag + seq![' ', flag, ' '] + m;
    assert(text =~= time + fraction + zone + rest);
    lemma_timestamp(time, fraction, zone, rest);
    let t = (19 + fraction.len() + zone.len()) as int;
    assert(text[t] == ' ');
    let behind = seq![' ', flag, ' '] + m;
    assert(text.skip(t + 1) =~= tag + behind);
    lemma_tag(tag, behind);
    let e = t + 1 + tag.len();
    assert(text[e] == ' ' && text[e + 1] == flag && text[e + 2] == ' ');
    assert(text.subrange(t + 1, e) =~= tag);
    assert(text.skip(e + 3) =~= m);
    assert(cri_header(text) is Some);
    lemma_stream(tag);
}

/// The tags of the two streams are known by their letters.
proof fn lemma_stream(tag: Seq<char>)
    ensures
        stream_of(tag) == if tag == seq!['s', 't', 'd', 'o', 'u', 't'] {
            LogStream::Stdout
        } else if tag == seq!['s', 't', 'd', 'e', 'r', 'r'] {
            LogStream::Stderr
        } else {
            LogStream::Unspecified
        },
{
    reveal_strlit("stdout");
    reveal_strlit("stderr");
    assert("stdout"@ =~= seq!['s', 't', 'd', 'o', 'u', 't']);
    assert("stderr"@ =~= seq!['s', 't', 'd', 'e', 'r', 'r']);
}

/// A line that begins with no digit has no such framing; one that does not begin with a
/// brace is no JSON record either, and stays as it is.
pub proof fn other_lines_stay(line: Seq<u8>, text: Seq<char>, buffer: Seq<u8>)
    requires
        line == encode_utf8(text),
        text.len() == 0 || (!is_decimal_digit(text[0]) && line[0] != 0x7b),
    ensures
        line_view(line) == (LineView {
            message: line,
            stream: LogStream::Unspecified,
            partial: false,
            framed: false,
        }),
        reassembled(line, buffer).message == Some((buffer + line, LogStream::Unspecified)),
{
    vstd::utf8::encode_utf8_valid_utf8(text);
    vstd::utf8::encode_utf8_decode_utf8(text);
    if text.len() > 0 {
        assert(!digits_at(text, 0, 4)) by {
            assert(!is_decimal_digit(text[0]));
        }
    }
    assert(timestamp_len(text) is None);
}

/// Bytes that are no text stay as they are.
pub proof fn what_is_no_text_stays(line: Seq<u8>)
    requires
        !valid_utf8(line),
    ensures
        line_view(line) == (LineView {
            message: line,
            stream: LogStream::Unspecified,
            partial: false,
            framed: false,
        }),
{
}

/// ASCII digits are digits of a time, and no other character of ASCII is.
pub proof fn ascii_digits_are_digits(c: char)
    requires
        (c as int) < 0x80,
    ensures
        is_decimal_digit(c) <==> 0x30 <= c as int <= 0x39,
{
}

pub proof fn lemma_value_stands(
    before: Seq<(Seq<char>, OutlineView)>,
    key: Seq<char>,
    value: OutlineView,
    after: Seq<(Seq<char>, OutlineView)>,
)
    requires
        forall|i: int| 0 <= i < before.len() ==> (#[trigger] before[i]).0 != key,
        forall|i: int| 0 <= i < after.len() ==> (#[trigger] after[i]).0 != key,
    ensures
        last_value(before + seq![(key, value)] + after, key) == Some(value),
        at_most_once(before + seq![(key, value)] + after, key),
    decreases after.len(),
{
    let all = before + seq![(key, value)] + after;
    if after.len() == 0 {
        assert(all.last() == (key, value));
    } else {
        assert(all.last() == after.last());
        assert(all.drop_last() =~= before + seq![(key, value)] + after.drop_last());
        lemma_value_stands(before, key, value, after.drop_last());
    }
    assert forall|i: int, j: int| 0 <= i < j < all.len() implies !((#[trigger] all[i]).0 == key && (
    #[trigger] all[j]).0 == key) by {
        if i < before.len() {
            assert(all[i] == before[i]);
        } else if j > before.len() {
            assert(all[j] == after[j - before.len() - 1]);
        }
    }
}

/// Docker's wrapper comes off: of a record with the members `log` and `stream`, each once
/// and both texts, whatever other members there are, the payload is the log without the
/// end of its line; a log without a line feed at its end is a fragment.
pub proof fn wrappers_come_off(
    others: Seq<(Seq<char>, OutlineView)>,
    middle: Seq<(Seq<char>, OutlineView)>,
    rest: Seq<(Seq<char>, OutlineView)>,
    line: Seq<char>,
    tag: Seq<char>,
    log_first: bool,
)
    requires
        forall|i: int|
            0 <= i < others.len() ==> (#[trigger] others[i]).0 != "log"@ && others[i].0 != "stream"@,
        forall|i: int|
            0 <= i < middle.len() ==> (#[trigger] middle[i]).0 != "log"@ && middle[i].0 != "stream"@,
        forall|i: int|
            0 <= i < rest.len() ==> (#[trigger] rest[i]).0 != "log"@ && rest[i].0 != "stream"@,
        line.len() == 0 || (line.last() != '\n' && line.last() != '\r'),
    ensures
        ({
            let stream = if tag == seq!['s', 't', 'd', 'o', 'u', 't'] {
                LogStream::Stdout
            } else if tag == seq!['s', 't', 'd', 'e', 'r', 'r'] {
                LogStream::Stderr
            } else {
                LogStream::Unspecified
            };
            let full = |end: Seq<char>|
                if log_first {
                    others + seq![("log"@, OutlineView::Text(line + end))] + middle + seq![
                        ("stream"@, OutlineView::Text(tag)),
                    ] + rest
                } else {
                    others + seq![("stream"@, OutlineView::Text(tag))] + middle + seq![
                        ("log"@, OutlineView::Text(line + end)),
                    ] + rest
                };
            let payload = encode_utf8(line);
            &&& record_in(OutlineView::Members(full(seq!['\n']))) == Some(
                RecordView { payload, stream, partial: false },
            )
            &&& record_in(OutlineView::Members(full(seq!['\r', '\n']))) == Some(
                RecordView { payload, stream, partial: false },
            )
            &&& record_in(OutlineView::Members(full(seq![]))) == Some(
                RecordView { payload, stream, partial: true },
            )
        }),
{
    lemma_stream(tag);
    lemma_wrapper(others, middle, rest, line + seq!['\n'], tag, log_first);
    lemma_wrapper(others, middle, rest, line + seq!['\r', '\n'], tag, log_first);
    lemma_wrapper(others, middle, rest, line + seq![], tag, log_first);
    assert(line + Seq::<char>::empty() =~= line);
    lemma_encode_add(line, seq!['\n']);
    lemma_encode_add(line, seq!['\r', '\n']);
    lemma_encode_add(seq!['\r'], seq!['\n']);
    assert(seq!['\r'] + seq!['\n'] =~= seq!['\r', '\n']);
    lemma_one_byte('\n');
    lemma_one_byte('\r');
    let b = encode_utf8(line);
    if line.len() > 0 {
        lemma_last_byte(line);
    } else {
        assert(b =~= Seq::<u8>::empty());
    }
    assert(encode_utf8(seq!['\r', '\n']) =~= seq![13u8, 10u8]);
    crate::laws::text::ends_of_lines_go(b);
    assert((b + seq![10u8]).last() == 10u8);
    assert((b + seq![13u8, 10u8]).last() == 10u8);
}

/// A character of ASCII is one byte, its own number.
pub proof fn lemma_one_byte(c: char)
    requires
        '\u{80}' > c,
    ensures
        vstd::utf8::encode_scalar(c as u32) == seq![c as u8],
        encode_utf8(seq![c]) == seq![c as u8],
        c as u8 == c as int,
{
    let v = c as u32;
    vstd::utf8::char_is_scalar(c);
    assert(v < 0x80);
    assert(v as u8 == vstd::utf8::leading_byte_width_1(v)) by (bit_vector)
        requires
            v < 0x80,
    ;
    assert(vstd::utf8::encode_scalar(v) =~= seq![v as u8]);
    assert(v as u8 == v);
    assert(seq![c].drop_first() =~= Seq::<char>::empty());
    assert(encode_utf8(Seq::<char>::empty()) =~= Seq::<u8>::empty());
    assert(encode_utf8(seq![c]) =~= seq![c as u8]);
}

/// The last byte of a text is a line feed or a carriage return only if its last character
/// is.
proof fn lemma_last_byte(line: Seq<char>)
    requires
        line.len() > 0,
        line.last() != '\n',
        line.last() != '\r',
    ensures
        encode_utf8(line).len() > 0,
        encode_utf8(line).last() != 10u8,
        encode_utf8(line).last() != 13u8,
{
    let c = line.last();
    let front = line.drop_last();
    assert(line =~= front + seq![c]);
    lemma_encode_add(front, seq![c]);
    assert(seq![c].drop_first() =~= Seq::<char>::empty());
    assert(encode_utf8(Seq::<char>::empty()) =~= Seq::<u8>::empty());
    let b = vstd::utf8::encode_scalar(c as u32);
    assert(encode_utf8(seq![c]) =~= b);
    crate::ansi::lemma_char_bytes(c);
    vstd::utf8::char_is_scalar(c);
    if '\u{80}' > c {
        lemma_one_byte(c);
    }
    assert(encode_utf8(line).last() == b.last());
}

proof fn lemma_wrapper(
    others: Seq<(Seq<char>, OutlineView)>,
    middle: Seq<(Seq<char>, OutlineView)>,
    rest: Seq<(Seq<char>, OutlineView)>,
    log: Seq<char>,
    tag: Seq<char>,
    log_first: bool,
)
    requires
        forall|i: int|
            0 <= i < others.len() ==> (#[trigger] others[i]).0 != "log"@ && others[i].0 != "stream"@,
        forall|i: int|
            0 <= i < middle.len() ==> (#[trigger] middle[i]).0 != "log"@ && middle[i].0 != "stream"@,
        forall|i: int|
            0 <= i < rest.len() ==> (#[trigger] rest[i]).0 != "log"@ && rest[i].0 != "stream"@,
    ensures
        ({
            let l = seq![("log"@, OutlineView::Text(log))];
            let t = seq![("stream"@, OutlineView::Text(tag))];
            let all = if log_first {
                others + l + middle + t + rest
            } else {
                others + t + middle + l + rest
            };
            &&& OutlineView::Members(all).is_record(log_fields())
            &&& OutlineView::Members(all).field(log_fields(), 0) == Some(OutlineView::Text(log))
            &&& OutlineView::Members(all).field(log_fields(), 1) == Some(OutlineView::Text(tag))
        }),
{
    reveal_strlit("log");
    reveal_strlit("stream");
    assert("log"@.len() == 3 && "stream"@.len() == 6);
    let l = seq![("log"@, OutlineView::Text(log))];
    let t = seq![("stream"@, OutlineView::Text(tag))];
    let all = if log_first {
        others + l + middle + t + rest
    } else {
        others + t + middle + l + rest
    };
    if log_first {
        lemma_value_stands(others, "log"@, OutlineView::Text(log), middle + t + rest);
        assert(others + l + (middle + t + rest) =~= all);
        lemma_value_stands(others + l + middle, "stream"@, OutlineView::Text(tag), rest);
    } else {
        lemma_value_stands(others, "stream"@, OutlineView::Text(tag), middle + l + rest);
        assert(others + t + (middle + l + rest) =~= all);
        lemma_value_stands(others + t + middle, "log"@, OutlineView::Text(log), rest);
    }
    assert(log_fields()[0] == "log"@ && log_fields()[1] == "stream"@);
}

/// A JSON record is recognised only in a line that begins with a brace and names the log.
pub proof fn wrappers_begin_with_a_brace(line: Seq<u8>)
    ensures
        docker_record(line) is Some ==> line.len() > 0 && line[0] == 0x7b,
        docker_record(line) is Some ==> exists|at: int|
            0 <= at && at + 5 <= line.len() && #[trigger] line[at] == 0x22 && line[at + 1] == 0x6c
                && line[at + 2] == 0x6f && line[at + 3] == 0x67 && line[at + 4] == 0x22,
{
    if docker_record(line) is Some {
        let key = crate::cri::log_key();
        let at = choose|at: int| #[trigger] crate::bytes::bytes_at(line, key, at);
        let s = line.subrange(at, at + 5);
        assert(s == key);
        assert(line[at] == s[0] && line[at + 1] == s[1] && line[at + 2] == s[2] && line[at + 3]
            == s[3] && line[at + 4] == s[4]);
    }
}

} // verus!
