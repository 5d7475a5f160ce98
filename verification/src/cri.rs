//! Container log records: the CRI text format and Docker's JSON wrapper.
use vstd::prelude::*;
use vstd::string::*;
use vstd::utf8::{decode_utf8, encode_utf8, valid_utf8};

use crate::bytes::{bytes_occur, chomped, contains, copy_bytes, extend, utf8_text};
use crate::outline::{outline, outlined, Outline, OutlineView};
use crate::text::{chars_of, is_whitespace, str_eq, string_from_chars, strs, word_len};

verus! {

/// Which output stream a container record came from.
///
/// A container runtime tags every record that it writes. Two programs in one
/// container interleave their records, so the tag is what lets each stream be
/// assembled on its own.
#[derive(Debug, Clone, Copy, PartialEq, Eq, Structural)]
pub enum LogStream {
    Stdout,
    Stderr,
    /// No stream tag: a plain file, or a record whose runtime left it unset.
    Unspecified,
}

/// The stream that a tag names.
pub open spec fn stream_of(tag: Seq<char>) -> LogStream {
    if tag == "stdout"@ {
        LogStream::Stdout
    } else if tag == "stderr"@ {
        LogStream::Stderr
    } else {
        LogStream::Unspecified
    }
}

impl Default for LogStream {
    fn default() -> (r: Self)
        ensures
            r == LogStream::Unspecified,
    {
        LogStream::Unspecified
    }
}

impl LogStream {
    /// The stream that a tag names.
    pub fn from_tag(tag: &str) -> (r: Self)
        ensures
            r == stream_of(tag@),
    {
        if str_eq(tag, "stdout") {
            LogStream::Stdout
        } else if str_eq(tag, "stderr") {
            LogStream::Stderr
        } else {
            LogStream::Unspecified
        }
    }
}

// ---------------------------------------------------------------------------
// The CRI header
// ---------------------------------------------------------------------------

/// The decimal digits of all scripts (Unicode general category `Nd`).
pub open spec fn is_decimal_digit(c: char) -> bool {
    let n = c as u32;
    ||| 0x30 <= n <= 0x39
    ||| 0x660 <= n <= 0x669
    ||| 0x6f0 <= n <= 0x6f9
    ||| 0x7c0 <= n <= 0x7c9
    ||| 0x966 <= n <= 0x96f
    ||| 0x9e6 <= n <= 0x9ef
    ||| 0xa66 <= n <= 0xa6f
    ||| 0xae6 <= n <= 0xaef
    ||| 0xb66 <= n <= 0xb6f
    ||| 0xbe6 <= n <= 0xbef
    ||| 0xc66 <= n <= 0xc6f
    ||| 0xce6 <= n <= 0xcef
    ||| 0xd66 <= n <= 0xd6f
    ||| 0xde6 <= n <= 0xdef
    ||| 0xe50 <= n <= 0xe59
    ||| 0xed0 <= n <= 0xed9
    ||| 0xf20 <= n <= 0xf29
    ||| 0x1040 <= n <= 0x1049
    ||| 0x1090 <= n <= 0x1099
    ||| 0x17e0 <= n <= 0x17e9
    ||| 0x1810 <= n <= 0x1819
    ||| 0x1946 <= n <= 0x194f
    ||| 0x19d0 <= n <= 0x19d9
    ||| 0x1a80 <= n <= 0x1a89
    ||| 0x1a90 <= n <= 0x1a99
    ||| 0x1b50 <= n <= 0x1b59
    ||| 0x1bb0 <= n <= 0x1bb9
    ||| 0x1c40 <= n <= 0x1c49
    ||| 0x1c50 <= n <= 0x1c59
    ||| 0xa620 <= n <= 0xa629
    ||| 0xa8d0 <= n <= 0xa8d9
    ||| 0xa900 <= n <= 0xa909
    ||| 0xa9d0 <= n <= 0xa9d9
    ||| 0xa9f0 <= n <= 0xa9f9
    ||| 0xaa50 <= n <= 0xaa59
    ||| 0xabf0 <= n <= 0xabf9
    ||| 0xff10 <= n <= 0xff19
    ||| 0x104a0 <= n <= 0x104a9
    ||| 0x10d30 <= n <= 0x10d39
    ||| 0x10d40 <= n <= 0x10d49
    ||| 0x11066 <= n <= 0x1106f
    ||| 0x110f0 <= n <= 0x110f9
    ||| 0x11136 <= n <= 0x1113f
    ||| 0x111d0 <= n <= 0x111d9
    ||| 0x112f0 <= n <= 0x112f9
    ||| 0x11450 <= n <= 0x11459
    ||| 0x114d0 <= n <= 0x114d9
    ||| 0x11650 <= n <= 0x11659
    ||| 0x116c0 <= n <= 0x116c9
    ||| 0x116d0 <= n <= 0x116e3
    ||| 0x11730 <= n <= 0x11739
    ||| 0x118e0 <= n <= 0x118e9
    ||| 0x11950 <= n <= 0x11959
    ||| 0x11bf0 <= n <= 0x11bf9
    ||| 0x11c50 <= n <= 0x11c59
    ||| 0x11d50 <= n <= 0x11d59
    ||| 0x11da0 <= n <= 0x11da9
    ||| 0x11f50 <= n <= 0x11f59
    ||| 0x16130 <= n <= 0x16139
    ||| 0x16a60 <= n <= 0x16a69
    ||| 0x16ac0 <= n <= 0x16ac9
    ||| 0x16b50 <= n <= 0x16b59
    ||| 0x16d70 <= n <= 0x16d79
    ||| 0x1ccf0 <= n <= 0x1ccf9
    ||| 0x1d7ce <= n <= 0x1d7ff
    ||| 0x1e140 <= n <= 0x1e149
    ||| 0x1e2f0 <= n <= 0x1e2f9
    ||| 0x1e4f0 <= n <= 0x1e4f9
    ||| 0x1e5f1 <= n <= 0x1e5fa
    ||| 0x1e950 <= n <= 0x1e959
    ||| 0x1fbf0 <= n <= 0x1fbf9
}

fn decimal_digit(c: char) -> (r: bool)
    ensures
        r == is_decimal_digit(c),
{
    let n: u32 = c as u32;
    (0x30 <= n && n <= 0x39)
        || (0x660 <= n && n <= 0x669) || (0x6f0 <= n && n <= 0x6f9) || (0x7c0 <= n && n <= 0x7c9)
        || (0x966 <= n && n <= 0x96f) || (0x9e6 <= n && n <= 0x9ef) || (0xa66 <= n && n <= 0xa6f)
        || (0xae6 <= n && n <= 0xaef) || (0xb66 <= n && n <= 0xb6f) || (0xbe6 <= n && n <= 0xbef)
        || (0xc66 <= n && n <= 0xc6f) || (0xce6 <= n && n <= 0xcef) || (0xd66 <= n && n <= 0xd6f)
        || (0xde6 <= n && n <= 0xdef) || (0xe50 <= n && n <= 0xe59) || (0xed0 <= n && n <= 0xed9)
        || (0xf20 <= n && n <= 0xf29) || (0x1040 <= n && n <= 0x1049)
        || (0x1090 <= n && n <= 0x1099) || (0x17e0 <= n && n <= 0x17e9)
        || (0x1810 <= n && n <= 0x1819) || (0x1946 <= n && n <= 0x194f)
        || (0x19d0 <= n && n <= 0x19d9) || (0x1a80 <= n && n <= 0x1a89)
        || (0x1a90 <= n && n <= 0x1a99) || (0x1b50 <= n && n <= 0x1b59)
        || (0x1bb0 <= n && n <= 0x1bb9) || (0x1c40 <= n && n <= 0x1c49)
        || (0x1c50 <= n && n <= 0x1c59) || (0xa620 <= n && n <= 0xa629)
        || (0xa8d0 <= n && n <= 0xa8d9) || (0xa900 <= n && n <= 0xa909)
        || (0xa9d0 <= n && n <= 0xa9d9) || (0xa9f0 <= n && n <= 0xa9f9)
        || (0xaa50 <= n && n <= 0xaa59) || (0xabf0 <= n && n <= 0xabf9)
        || (0xff10 <= n && n <= 0xff19) || (0x104a0 <= n && n <= 0x104a9)
        || (0x10d30 <= n && n <= 0x10d39) || (0x10d40 <= n && n <= 0x10d49)
        || (0x11066 <= n && n <= 0x1106f) || (0x110f0 <= n && n <= 0x110f9)
        || (0x11136 <= n && n <= 0x1113f) || (0x111d0 <= n && n <= 0x111d9)
        || (0x112f0 <= n && n <= 0x112f9) || (0x11450 <= n && n <= 0x11459)
        || (0x114d0 <= n && n <= 0x114d9) || (0x11650 <= n && n <= 0x11659)
        || (0x116c0 <= n && n <= 0x116c9) || (0x116d0 <= n && n <= 0x116e3)
        || (0x11730 <= n && n <= 0x11739) || (0x118e0 <= n && n <= 0x118e9)
        || (0x11950 <= n && n <= 0x11959) || (0x11bf0 <= n && n <= 0x11bf9)
        || (0x11c50 <= n && n <= 0x11c59) || (0x11d50 <= n && n <= 0x11d59)
        || (0x11da0 <= n && n <= 0x11da9) || (0x11f50 <= n && n <= 0x11f59)
        || (0x16130 <= n && n <= 0x16139) || (0x16a60 <= n && n <= 0x16a69)
        || (0x16ac0 <= n && n <= 0x16ac9) || (0x16b50 <= n && n <= 0x16b59)
        || (0x16d70 <= n && n <= 0x16d79) || (0x1ccf0 <= n && n <= 0x1ccf9)
        || (0x1d7ce <= n && n <= 0x1d7ff) || (0x1e140 <= n && n <= 0x1e149)
        || (0x1e2f0 <= n && n <= 0x1e2f9) || (0x1e4f0 <= n && n <= 0x1e4f9)
        || (0x1e5f1 <= n && n <= 0x1e5fa) || (0x1e950 <= n && n <= 0x1e959)
        || (0x1fbf0 <= n && n <= 0x1fbf9)
}

/// Whether the `n` characters from `at` on are decimal digits.
pub open spec fn digits_at(s: Seq<char>, at: int, n: int) -> bool {
    &&& at + n <= s.len()
    &&& forall|i: int| at <= i < at + n ==> is_decimal_digit(#[trigger] s[i])
}

/// The number of decimal digits that a text begins with.
pub open spec fn digit_run(s: Seq<char>) -> nat
    decreases s.len(),
{
    if s.len() == 0 || !is_decimal_digit(s[0]) {
        0
    } else {
        1 + digit_run(s.skip(1))
    }
}

/// The length of the time zone at `at`: `Z`, or a sign with hours and minutes.
pub open spec fn zone_len(s: Seq<char>, at: int) -> int {
    if at < s.len() && s[at] == 'Z' {
        1
    } else if at + 6 <= s.len() && (s[at] == '+' || s[at] == '-') && digits_at(s, at + 1, 2)
        && s[at + 3] == ':' && digits_at(s, at + 4, 2) {
        6
    } else {
        0
    }
}

/// The length of the timestamp that a text begins with:
/// `YYYY-MM-DDThh:mm:ss`, a fraction of a second or none, and a time zone.
pub open spec fn timestamp_len(s: Seq<char>) -> Option<int> {
    let seconds = {
        &&& s.len() >= 20
        &&& digits_at(s, 0, 4)
        &&& s[4] == '-'
        &&& digits_at(s, 5, 2)
        &&& s[7] == '-'
        &&& digits_at(s, 8, 2)
        &&& s[10] == 'T'
        &&& digits_at(s, 11, 2)
        &&& s[13] == ':'
        &&& digits_at(s, 14, 2)
        &&& s[16] == ':'
        &&& digits_at(s, 17, 2)
    };
    let zone: int = if s[19] == '.' && digit_run(s.skip(20)) > 0 {
        20 + digit_run(s.skip(20)) as int
    } else {
        19
    };
    if seconds && zone_len(s, zone) > 0 {
        Some(zone + zone_len(s, zone))
    } else {
        None
    }
}

/// What the header of a CRI record says, and how long it is.
pub struct CriHeader {
    pub tag: Seq<char>,
    pub partial: bool,
    pub len: int,
}

/// The header that a record begins with: a timestamp, the stream's tag, `F` for
/// a full line or `P` for a part of one, each with a space behind it.
pub open spec fn cri_header(s: Seq<char>) -> Option<CriHeader> {
    match timestamp_len(s) {
        None => None,
        Some(t) => {
            let e = t + 1 + word_len(s.skip(t + 1));
            if t < s.len() && s[t] == ' ' && e > t + 1 && e + 2 < s.len() && s[e] == ' ' && (s[e
                + 1] == 'F' || s[e + 1] == 'P') && s[e + 2] == ' ' {
                Some(
                    CriHeader {
                        tag: s.subrange(t + 1, e),
                        partial: s[e + 1] == 'P',
                        len: e + 3,
                    },
                )
            } else {
                None
            }
        },
    }
}

fn has_digits(s: &Vec<char>, at: usize, n: usize) -> (r: bool)
    requires
        at + n <= usize::MAX,
    ensures
        r == digits_at(s@, at as int, n as int),
{
    if at + n > s.len() {
        return false;
    }
    let mut i: usize = at;
    while i < at + n
        invariant
            at <= i <= at + n,
            at + n <= s.len(),
            forall|j: int| at <= j < i ==> is_decimal_digit(#[trigger] s@[j]),
        decreases at + n - i,
    {
        if !decimal_digit(s[i]) {
            return false;
        }
        i = i + 1;
    }
    true
}

/// The end of the timestamp that a text begins with.
fn timestamp_end(s: &Vec<char>) -> (r: Option<usize>)
    ensures
        match r {
            Some(t) => timestamp_len(s@) == Some(t as int) && t <= s@.len(),
            None => timestamp_len(s@) is None,
        },
{
    if s.len() < 20 {
        return None;
    }
    if !(has_digits(s, 0, 4) && s[4] == '-' && has_digits(s, 5, 2) && s[7] == '-' && has_digits(
        s,
        8,
        2,
    ) && s[10] == 'T' && has_digits(s, 11, 2) && s[13] == ':' && has_digits(s, 14, 2) && s[16]
        == ':' && has_digits(s, 17, 2)) {
        return None;
    }
    let mut run: usize = 20;
    assert(s@.skip(20) =~= s@.skip(run as int));
    while run < s.len() && decimal_digit(s[run])
        invariant
            20 <= run <= s@.len(),
            digit_run(s@.skip(20)) == (run - 20) + digit_run(s@.skip(run as int)),
        decreases s.len() - run,
    {
        assert(s@.skip(run as int).skip(1) =~= s@.skip(run + 1));
        run = run + 1;
    }
    assert(digit_run(s@.skip(run as int)) == 0);
    let zone: usize = if s[19] == '.' && run > 20 {
        run
    } else {
        19
    };
    if zone >= s.len() {
        return None;
    }
    if s[zone] == 'Z' {
        return Some(zone + 1);
    }
    if s.len() - zone >= 6 && (s[zone] == '+' || s[zone] == '-') && has_digits(s, zone + 1, 2)
        && s[zone + 3] == ':' && has_digits(s, zone + 4, 2) {
        return Some(zone + 6);
    }
    None
}

/// The stream, the flag and the length of the header that a record begins with.
fn read_header(s: &Vec<char>) -> (r: Option<(LogStream, bool, usize)>)
    ensures
        match r {
            Some((stream, partial, len)) => {
                &&& cri_header(s@) is Some
                &&& stream == stream_of(cri_header(s@)->0.tag)
                &&& partial == cri_header(s@)->0.partial
                &&& len == cri_header(s@)->0.len
                &&& len <= s@.len()
            },
            None => cri_header(s@) is None,
        },
{
    let t = match timestamp_end(s) {
        Some(t) => t,
        None => {
            return None;
        },
    };
    if t >= s.len() || s[t] != ' ' {
        return None;
    }
    let mut tag: Vec<char> = Vec::new();
    let mut e: usize = t + 1;
    let ghost w = s@.skip(t + 1);
    while e < s.len() && !is_whitespace(s[e])
        invariant
            t + 1 <= e <= s@.len(),
            w == s@.skip(t + 1),
            word_len(w) == (e - t - 1) + word_len(s@.skip(e as int)),
            tag@ == s@.subrange(t + 1, e as int),
        decreases s.len() - e,
    {
        assert(s@.skip(e as int).skip(1) =~= s@.skip(e + 1));
        tag.push(s[e]);
        e = e + 1;
        assert(s@.subrange(t + 1, e as int) =~= s@.subrange(t + 1, e - 1).push(s@[e - 1]));
    }
    assert(word_len(s@.skip(e as int)) == 0);
    if e == t + 1 || s.len() - e < 3 || s[e] != ' ' || (s[e + 1] != 'F' && s[e + 1] != 'P') || s[e
        + 2] != ' ' {
        return None;
    }
    let tag = string_from_chars(&tag);
    Some((LogStream::from_tag(tag.as_str()), s[e + 1] == 'P', e + 3))
}

// ---------------------------------------------------------------------------
// Docker's JSON wrapper
// ---------------------------------------------------------------------------

/// One record from Docker's json-file log: the application's payload without
/// the wrapper and the trailing newline, the stream that wrote it, and whether
/// the record is a fragment.
pub struct DockerJsonRecord {
    pub payload: Vec<u8>,
    pub stream: LogStream,
    /// Docker cuts a long line into chunks and writes each as a record of its
    /// own; only the last chunk carries the newline.
    pub partial: bool,
}

/// What a record is.
#[verifier::ext_equal]
pub struct RecordView {
    pub payload: Seq<u8>,
    pub stream: LogStream,
    pub partial: bool,
}

impl View for DockerJsonRecord {
    type V = RecordView;

    open spec fn view(&self) -> RecordView {
        RecordView { payload: self.payload@, stream: self.stream, partial: self.partial }
    }
}

/// The fields of a record.
pub open spec fn log_fields() -> Seq<Seq<char>> {
    seq!["log"@, "stream"@]
}

/// The record that an outline describes: one with the texts `log` and `stream`.
pub open spec fn record_in(outline: OutlineView) -> Option<RecordView> {
    match (outline.field(log_fields(), 0), outline.field(log_fields(), 1)) {
        (Some(OutlineView::Text(log)), Some(OutlineView::Text(stream))) => if outline.is_record(
            log_fields(),
        ) {
            let bytes = encode_utf8(log);
            Some(
                RecordView {
                    payload: chomped(bytes),
                    stream: stream_of(stream),
                    partial: !(bytes.len() > 0 && bytes.last() == 10u8),
                },
            )
        } else {
            None
        },
        _ => None,
    }
}

/// The text `"log"`, with its quotes.
pub open spec fn log_key() -> Seq<u8> {
    seq![34u8, 108u8, 111u8, 103u8, 34u8]
}

/// The record that a line of a json-file log holds, if it is one.
pub open spec fn docker_record(line: Seq<u8>) -> Option<RecordView> {
    if line.len() == 0 || line[0] != 123u8 || !bytes_occur(line, log_key()) {
        None
    } else {
        record_in(outlined(line, 1))
    }
}

/// The record that an outline describes.
pub fn docker_record_in(outline: &Outline) -> (r: Option<DockerJsonRecord>)
    ensures
        match r {
            Some(record) => record_in(outline@) == Some(record@),
            None => record_in(outline@) is None,
        },
{
    let fields: Vec<&str> = vec!["log", "stream"];
    assert(strs(fields@) =~= log_fields());
    if !outline.is_record(&fields) {
        return None;
    }
    match (outline.field(&fields, 0), outline.field(&fields, 1)) {
        (Some(Outline::Text(log)), Some(Outline::Text(stream))) => {
            let mut payload = log.as_str().as_bytes_vec();
            let complete = payload.len() > 0 && payload[payload.len() - 1] == 10;
            crate::bytes::chomp(&mut payload);
            let stream = LogStream::from_tag(stream.as_str());
            Some(DockerJsonRecord { payload, stream, partial: !complete })
        },
        _ => None,
    }
}

/// Takes Docker's json-file wrapper off a line.
pub fn parse_docker_json_line(line: &[u8]) -> (r: Option<DockerJsonRecord>)
    ensures
        match r {
            Some(record) => docker_record(line@) == Some(record@),
            None => docker_record(line@) is None,
        },
{
    let key: [u8; 5] = [34u8, 108u8, 111u8, 103u8, 34u8];
    assert(key@ =~= log_key());
    if line.len() == 0 || line[0] != 123 || !contains(line, &key) {
        return None;
    }
    docker_record_in(&outline(line, 1))
}

// ---------------------------------------------------------------------------
// Lines
// ---------------------------------------------------------------------------

/// What a raw log line holds. `framed` says whether a runtime's framing was
/// recognised and taken off.
#[verifier::ext_equal]
pub struct LineView {
    pub message: Seq<u8>,
    pub stream: LogStream,
    pub partial: bool,
    pub framed: bool,
}

/// What a raw log line holds: a CRI record, a Docker record, or, where it is
/// neither or no text at all, itself.
pub open spec fn line_view(line: Seq<u8>) -> LineView {
    let text = decode_utf8(line);
    if valid_utf8(line) && cri_header(text) is Some {
        let header = cri_header(text)->0;
        LineView {
            message: encode_utf8(text.skip(header.len)),
            stream: stream_of(header.tag),
            partial: header.partial,
            framed: true,
        }
    } else if valid_utf8(line) && docker_record(line) is Some {
        let record = docker_record(line)->0;
        LineView {
            message: record.payload,
            stream: record.stream,
            partial: record.partial,
            framed: true,
        }
    } else {
        LineView { message: line, stream: LogStream::Unspecified, partial: false, framed: false }
    }
}

/// Parses a container log line into its message, its stream, whether it is a
/// fragment, and whether a runtime's framing was recognised.
pub fn parse_line(line: &[u8]) -> (r: (Vec<u8>, LogStream, bool, bool))
    ensures
        (LineView { message: r.0@, stream: r.1, partial: r.2, framed: r.3 }) == line_view(line@),
{
    let text = match utf8_text(line) {
        Some(text) => text,
        None => {
            return (copy_bytes(line), LogStream::Unspecified, false, false);
        },
    };
    let chars = chars_of(text);
    if let Some((stream, partial, len)) = read_header(&chars) {
        let message = text.substring_char(len, chars.len());
        assert(message@ =~= text@.skip(len as int));
        return (message.as_bytes_vec(), stream, partial, true);
    }
    if let Some(record) = parse_docker_json_line(line) {
        return (record.payload, record.stream, record.partial, true);
    }
    (copy_bytes(line), LogStream::Unspecified, false, false)
}

/// The buffer after a raw line, and the message that the line completed.
#[verifier::ext_equal]
pub struct Reassembly {
    pub buffer: Seq<u8>,
    pub message: Option<(Seq<u8>, LogStream)>,
}

/// What a raw line does to a message being put together. A fragment joins the
/// buffer; any other line completes the message and empties it.
pub open spec fn reassembled(line: Seq<u8>, buffer: Seq<u8>) -> Reassembly {
    let v = line_view(line);
    if v.framed && v.partial {
        Reassembly { buffer: buffer + v.message, message: None }
    } else {
        Reassembly { buffer: seq![], message: Some((buffer + v.message, v.stream)) }
    }
}

/// Puts a raw log line behind the fragments before it.
///
/// A long line is written as fragments that a full line ends; the message is all
/// of them one after another. Gives the message and its stream once it is
/// complete. Fragments that nothing has completed stay in `partial_buffer`.
pub fn reassemble_partial(raw: &[u8], partial_buffer: &mut Vec<u8>) -> (r: Option<
    (Vec<u8>, LogStream),
>)
    ensures
        final(partial_buffer)@ == reassembled(raw@, old(partial_buffer)@).buffer,
        match r {
            Some((message, stream)) => reassembled(raw@, old(partial_buffer)@).message == Some(
                (message@, stream),
            ),
            None => reassembled(raw@, old(partial_buffer)@).message is None,
        },
{
    let (message, stream, is_partial, is_framed) = parse_line(raw);
    if is_framed && is_partial {
        extend(partial_buffer, message.as_slice());
        return None;
    }
    let mut complete: Vec<u8> = Vec::new();
    complete.append(partial_buffer);
    extend(&mut complete, message.as_slice());
    assert(complete@ =~= old(partial_buffer)@ + message@);
    assert(partial_buffer@ =~= seq![]);
    Some((complete, stream))
}

/// One complete json-file line: the payload, the stream that wrote it, and the
/// raw bytes that were used up for it, line feeds included.
pub struct DockerJsonLine {
    pub payload: Vec<u8>,
    pub stream: LogStream,
    pub source_len: u64,
}

/// The fragments of one stream that wait for their end.
pub struct PartialRecord {
    pub payload: Vec<u8>,
    pub source_len: u64,
}

/// Joins the json-file records that Docker cut apart.
///
/// Each stream has a buffer of its own: Docker copies the two concurrently, so
/// one stream's chunks can lie between the other's.
pub struct DockerJsonReassembler {
    stdout: PartialRecord,
    stderr: PartialRecord,
    unspecified: PartialRecord,
}

impl DockerJsonReassembler {
    /// The payload that waits in a stream's buffer.
    pub closed spec fn waiting(&self, stream: LogStream) -> Seq<u8> {
        match stream {
            LogStream::Stdout => self.stdout.payload@,
            LogStream::Stderr => self.stderr.payload@,
            LogStream::Unspecified => self.unspecified.payload@,
        }
    }

    /// The raw bytes that were used up for what waits in a stream's buffer.
    pub closed spec fn waiting_bytes(&self, stream: LogStream) -> int {
        match stream {
            LogStream::Stdout => self.stdout.source_len as int,
            LogStream::Stderr => self.stderr.source_len as int,
            LogStream::Unspecified => self.unspecified.source_len as int,
        }
    }

    /// The raw bytes that were used up for all that waits.
    pub open spec fn pending(&self) -> int {
        self.waiting_bytes(LogStream::Stdout) + self.waiting_bytes(LogStream::Stderr)
            + self.waiting_bytes(LogStream::Unspecified)
    }

    /// A reassembler in which nothing waits.
    pub fn new() -> (r: Self)
        ensures
            forall|s: LogStream| #[trigger] r.waiting(s) == Seq::<u8>::empty(),
            forall|s: LogStream| #[trigger] r.waiting_bytes(s) == 0,
            r.pending() == 0,
    {
        DockerJsonReassembler {
            stdout: PartialRecord { payload: Vec::new(), source_len: 0 },
            stderr: PartialRecord { payload: Vec::new(), source_len: 0 },
            unspecified: PartialRecord { payload: Vec::new(), source_len: 0 },
        }
    }

    /// Takes one raw json-file line, without its line feed. Gives the complete
    /// line once its last record is there. A line that is no record passes
    /// through as it is.
    pub fn push(&mut self, raw: Vec<u8>) -> (r: Option<DockerJsonLine>)
        requires
            old(self).pending() + raw@.len() + 1 <= u64::MAX,
        ensures
            final(self).pending() + (if r is Some {
                r->0.source_len as int
            } else {
                0
            }) == old(self).pending() + raw@.len() + 1,
            match docker_record(raw@) {
                None => {
                    &&& r is Some
                    &&& r->0.payload@ == raw@
                    &&& r->0.stream == LogStream::Unspecified
                    &&& r->0.source_len == raw@.len() + 1
                    &&& *final(self) == *old(self)
                },
                Some(record) => {
                    let payload = old(self).waiting(record.stream) + record.payload;
                    let source_len = old(self).waiting_bytes(record.stream) + raw@.len() + 1;
                    &&& r is Some <==> !record.partial
                    &&& r is Some ==> r->0.payload@ == payload && r->0.stream == record.stream
                        && r->0.source_len == source_len
                    &&& final(self).waiting(record.stream) == if record.partial {
                        payload
                    } else {
                        seq![]
                    }
                    &&& final(self).waiting_bytes(record.stream) == if record.partial {
                        source_len
                    } else {
                        0
                    }
                    &&& forall|s: LogStream|
                        s != record.stream ==> #[trigger] final(self).waiting(s) == old(self).waiting(s)
                    &&& forall|s: LogStream|
                        s != record.stream ==> #[trigger] final(self).waiting_bytes(s) == old(self).waiting_bytes(s)
                },
            },
    {
        let source_len: u64 = raw.len() as u64 + 1;
        let record = match parse_docker_json_line(raw.as_slice()) {
            Some(record) => record,
            None => {
                return Some(
                    DockerJsonLine { payload: raw, stream: LogStream::Unspecified, source_len },
                );
            },
        };
        let ghost before = *self;
        let stream = record.stream;
        let mut buffered = self.take(stream);
        extend(&mut buffered.payload, record.payload.as_slice());
        buffered.source_len = buffered.source_len + source_len;
        if record.partial {
            self.put(stream, buffered);
            return None;
        }
        Some(
            DockerJsonLine {
                payload: buffered.payload,
                stream,
                source_len: buffered.source_len,
            },
        )
    }

    /// The raw bytes that were used up for fragments still waiting for their
    /// end. A reader holds its offset back by this much, so that the joined
    /// line's range begins where its first fragment did.
    pub fn pending_bytes(&self) -> (r: u64)
        requires
            self.pending() <= u64::MAX,
        ensures
            r == self.pending(),
    {
        self.stdout.source_len + self.stderr.source_len + self.unspecified.source_len
    }

    fn take(&mut self, stream: LogStream) -> (r: PartialRecord)
        ensures
            r.payload@ == old(self).waiting(stream),
            r.source_len == old(self).waiting_bytes(stream),
            final(self).waiting(stream) == Seq::<u8>::empty(),
            final(self).waiting_bytes(stream) == 0,
            forall|s: LogStream|
                s != stream ==> #[trigger] final(self).waiting(s) == old(self).waiting(s),
            forall|s: LogStream|
                s != stream ==> #[trigger] final(self).waiting_bytes(s) == old(self).waiting_bytes(s),
    {
        let mut r = PartialRecord { payload: Vec::new(), source_len: 0 };
        match stream {
            LogStream::Stdout => core::mem::swap(&mut self.stdout, &mut r),
            LogStream::Stderr => core::mem::swap(&mut self.stderr, &mut r),
            LogStream::Unspecified => core::mem::swap(&mut self.unspecified, &mut r),
        }
        r
    }

    fn put(&mut self, stream: LogStream, record: PartialRecord)
        ensures
            final(self).waiting(stream) == record.payload@,
            final(self).waiting_bytes(stream) == record.source_len,
            forall|s: LogStream|
                s != stream ==> #[trigger] final(self).waiting(s) == old(self).waiting(s),
            forall|s: LogStream|
                s != stream ==> #[trigger] final(self).waiting_bytes(s) == old(self).waiting_bytes(s),
    {
        match stream {
            LogStream::Stdout => {
                self.stdout = record;
            },
            LogStream::Stderr => {
                self.stderr = record;
            },
            LogStream::Unspecified => {
                self.unspecified = record;
            },
        }
    }
}

impl Default for DockerJsonReassembler {
    fn default() -> (r: Self)
        ensures
            forall|s: LogStream| #[trigger] r.waiting(s) == Seq::<u8>::empty(),
            forall|s: LogStream| #[trigger] r.waiting_bytes(s) == 0,
            r.pending() == 0,
    {
        DockerJsonReassembler::new()
    }
}

} // verus!
