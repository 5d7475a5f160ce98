//! Log files, and the format of what they hold.
use vstd::prelude::*;
use vstd::string::*;

use crate::bytes::{ascii_trimmed, copy_range, line_end, raw_lines, trim_ascii};
use crate::cri::{docker_record, line_view, parse_docker_json_line, parse_line};
use crate::discovery::container::{Container, ContainerView};
use crate::json::{json_document, parse_document};
use crate::strmap::{texts, StrMap};
use crate::text::{
    all_digits, ascii_lowered, chars_of, contains_string, is_numeric, number, numeric, octal,
    octal_of, opt_view, parse_radix, parsed, rfind, rfind_char, str_eq, strings, strip_suffix,
    to_ascii_lowercase, trim, trimmed,
};

verus! {

/// One JSON object to a line.
pub const FORMAT_NDJSON: &'static str = "ndjson";

/// Anything else.
pub const FORMAT_PLAIN_TEXT: &'static str = "plain_text";

/// The most lines of a file that are looked at to tell its format.
pub const FORMAT_SAMPLE_MAX_LINES: usize = 20;

/// The most bytes of a file that are looked at to tell its format.
pub const FORMAT_SAMPLE_MAX_BYTES: usize = 65536;

/// A discovered log file.
pub struct LogFile {
    pub path: String,
    pub size: u64,
    pub modified: String,
    pub readable: bool,
    pub permissions: String,
    pub format: String,
    /// Approximate number of lines.
    pub line_count: u64,
}

impl LogFile {
    /// What the file is tracked by: its path.
    pub fn identifier<'a>(&'a self) -> (r: &'a str)
        ensures
            r@ == self.path@,
    {
        self.path.as_str()
    }

    /// A copy of the file's description.
    pub fn copy(&self) -> (r: Self)
        ensures
            r == *self,
    {
        LogFile {
            path: self.path.clone(),
            size: self.size,
            modified: self.modified.clone(),
            readable: self.readable,
            permissions: self.permissions.clone(),
            format: self.format.clone(),
            line_count: self.line_count,
        }
    }
}

/// The extensions that log files have unless the configuration says otherwise.
pub fn default_log_extensions() -> (r: Vec<String>)
    ensures
        strings(r@) == seq!["log"@],
{
    let mut r: Vec<String> = Vec::new();
    r.push("log".to_owned());
    assert(strings(r@) =~= seq!["log"@]);
    r
}

/// The directories that are scanned unless the configuration says otherwise.
pub fn default_scan_paths(windows: bool) -> (r: Vec<String>)
    ensures
        strings(r@) == if windows {
            seq!["C:\\inetpub\\logs\\LogFiles"@, "C:\\Windows\\Logs"@, "C:\\ProgramData"@]
        } else {
            seq!["/var/log"@]
        },
{
    let mut r: Vec<String> = Vec::new();
    if windows {
        r.push("C:\\inetpub\\logs\\LogFiles".to_owned());
        r.push("C:\\Windows\\Logs".to_owned());
        r.push("C:\\ProgramData".to_owned());
        assert(strings(r@) =~= seq![
            "C:\\inetpub\\logs\\LogFiles"@,
            "C:\\Windows\\Logs"@,
            "C:\\ProgramData"@,
        ]);
    } else {
        r.push("/var/log".to_owned());
        assert(strings(r@) =~= seq!["/var/log"@]);
    }
    r
}

// ---------------------------------------------------------------------------
// Names of log files
// ---------------------------------------------------------------------------

/// The extension of a name: what follows its last dot, if something stands
/// before that dot.
pub open spec fn extension_of(name: Seq<char>) -> Option<Seq<char>> {
    if name == ".."@ || rfind(name, '.') <= 0 {
        None
    } else {
        Some(name.skip(rfind(name, '.') + 1))
    }
}

/// A compression suffix or a rotation number, either of which wraps the name of
/// an inner log file.
pub open spec fn rotation_suffix(ext: Seq<char>) -> bool {
    ext == "gz"@ || ext == "xz"@ || ext == "zst"@ || ext == "bz2"@ || numeric(ext)
}

/// Whether a name looks like that of a log file: its extension is allowed, or it
/// wraps a name whose extension is.
pub open spec fn log_file(name: Seq<char>, allowed: Seq<Seq<char>>) -> bool {
    match extension_of(name) {
        None => false,
        Some(ext) => {
            ||| allowed.contains(ext)
            ||| rotation_suffix(ext) && {
                let inner = extension_of(name.take(rfind(name, '.')));
                inner is Some && allowed.contains(inner->0)
            }
        },
    }
}

/// The extension of a name, and where the name before it ends.
fn extension<'a>(name: &'a str) -> (r: Option<(&'a str, usize)>)
    ensures
        match r {
            Some((ext, dot)) => extension_of(name@) == Some(ext@) && dot == rfind(name@, '.') && dot
                < name@.len(),
            None => extension_of(name@) is None,
        },
{
    if str_eq(name, "..") {
        return None;
    }
    match rfind_char(name, '.') {
        Some(dot) => if dot == 0 {
            None
        } else {
            let n = name.unicode_len();
            let ext = name.substring_char(dot + 1, n);
            assert(ext@ =~= name@.skip(dot + 1));
            Some((ext, dot))
        },
        None => None,
    }
}

/// Whether an extension wraps the name of an inner log file.
pub fn is_rotation_suffix(ext: &str) -> (r: bool)
    ensures
        r == rotation_suffix(ext@),
{
    str_eq(ext, "gz") || str_eq(ext, "xz") || str_eq(ext, "zst") || str_eq(ext, "bz2")
        || is_numeric(ext)
}

/// Whether a file looks like a log file, given its name and the allowed extensions.
/// The name is the last component of the file's path; how a path is taken apart is up
/// to the system.
pub fn is_log_file(name: &str, allowed: &Vec<String>) -> (r: bool)
    ensures
        r == log_file(name@, strings(allowed@)),
{
    let (ext, dot) = match extension(name) {
        Some(found) => found,
        None => {
            return false;
        },
    };
    if contains_string(allowed, ext) {
        return true;
    }
    if !is_rotation_suffix(ext) {
        return false;
    }
    let stem = name.substring_char(0, dot);
    assert(stem@ =~= name@.take(dot as int));
    match extension(stem) {
        Some((inner, _)) => contains_string(allowed, inner),
        None => false,
    }
}

// ---------------------------------------------------------------------------
// Formats
// ---------------------------------------------------------------------------

/// The format that a hint names.
pub open spec fn hinted_format(value: Seq<char>) -> Option<Seq<char>> {
    let v = ascii_lowered(trimmed(value));
    if v == "json"@ {
        Some("json"@)
    } else if v == "ndjson"@ {
        Some("ndjson"@)
    } else if v == "plain_text"@ || v == "text"@ {
        Some("plain_text"@)
    } else {
        None
    }
}

pub fn normalize_log_format(value: &str) -> (r: Option<&'static str>)
    ensures
        match r {
            Some(f) => hinted_format(value@) == Some(f@),
            None => hinted_format(value@) is None,
        },
{
    let v = to_ascii_lowercase(trim(value));
    let v = v.as_str();
    if str_eq(v, "json") {
        Some("json")
    } else if str_eq(v, "ndjson") {
        Some("ndjson")
    } else if str_eq(v, "plain_text") || str_eq(v, "text") {
        Some("plain_text")
    } else {
        None
    }
}

/// The format that a container's labels name.
pub open spec fn labelled_format(labels: Map<Seq<char>, Seq<char>>) -> Option<Seq<char>> {
    if labels.contains_key("log.format"@) {
        hinted_format(labels["log.format"@])
    } else {
        None
    }
}

pub fn format_from_labels(labels: &StrMap<String>) -> (r: Option<&'static str>)
    ensures
        match r {
            Some(f) => labelled_format(texts(labels@)) == Some(f@),
            None => labelled_format(texts(labels@)) is None,
        },
{
    match labels.get("log.format") {
        Some(value) => normalize_log_format(value.as_str()),
        None => None,
    }
}

/// The format of a container's log as far as its labels tell.
pub open spec fn unsampled_format(labels: Map<Seq<char>, Seq<char>>) -> Seq<char> {
    match labelled_format(labels) {
        Some(f) => f,
        None => "plain_text"@,
    }
}

/// The format of a container's log as far as its labels tell.
pub fn format_before_sampling(labels: &StrMap<String>) -> (r: String)
    ensures
        r@ == unsampled_format(texts(labels@)),
{
    match format_from_labels(labels) {
        Some(f) => f.to_owned(),
        None => "plain_text".to_owned(),
    }
}

/// What stands around each line of a file.
#[derive(Debug, Clone, Copy, PartialEq, Eq, Structural)]
pub enum Framing {
    Plain,
    DockerJson,
    Cri,
}

/// How the format of a container's log is found out.
pub enum FormatProbe {
    /// It is known without looking.
    Known(String),
    /// By a sample of the file, whose lines are framed like this.
    Sample(Framing),
}

/// How the format of a container's log is found out: from the labels, as plain
/// text where there is no file, or from a sample of the file.
pub fn detect_container_log_format(
    runtime: &str,
    labels: &StrMap<String>,
    log_path: &str,
) -> (r: FormatProbe)
    ensures
        if labelled_format(texts(labels@)) is Some || log_path@.len() == 0 {
            r is Known && r->Known_0@ == unsampled_format(texts(labels@))
        } else {
            r == FormatProbe::Sample(framing_of(runtime@))
        },
{
    if let Some(format) = format_from_labels(labels) {
        return FormatProbe::Known(format.to_owned());
    }
    if log_path.is_empty() {
        return FormatProbe::Known("plain_text".to_owned());
    }
    if str_eq(runtime, "docker") {
        FormatProbe::Sample(Framing::DockerJson)
    } else if str_eq(runtime, "kubernetes") || str_eq(runtime, "containerd") || str_eq(
        runtime,
        "cri-o",
    ) || str_eq(runtime, "podman") {
        FormatProbe::Sample(Framing::Cri)
    } else {
        FormatProbe::Sample(Framing::Plain)
    }
}

/// Whether bytes are the text of one JSON object.
pub open spec fn json_object(line: Seq<u8>) -> bool {
    json_document(line) is Some && json_document(line)->0 is Object
}

/// Whether bytes are the text of one JSON object.
pub fn is_json_object_line(line: &[u8]) -> (r: bool)
    ensures
        r == json_object(line@),
{
    match parse_document(line) {
        Some(document) => document.is_object(),
        None => false,
    }
}

/// A line without its framing, unless it is not framed that way.
pub open spec fn payload_of(line: Seq<u8>, framing: Framing) -> Option<Seq<u8>> {
    match framing {
        Framing::Plain => Some(line),
        Framing::DockerJson => match docker_record(line) {
            Some(record) => Some(record.payload),
            None => None,
        },
        Framing::Cri => if line_view(line).framed {
            Some(line_view(line).message)
        } else {
            None
        },
    }
}

fn payload(line: Vec<u8>, framing: Framing) -> (r: Option<Vec<u8>>)
    ensures
        match r {
            Some(p) => payload_of(line@, framing) == Some(p@),
            None => payload_of(line@, framing) is None,
        },
{
    match framing {
        Framing::Plain => Some(line),
        Framing::DockerJson => match parse_docker_json_line(line.as_slice()) {
            Some(record) => Some(record.payload),
            None => None,
        },
        Framing::Cri => {
            let (message, stream, partial, framed) = parse_line(line.as_slice());
            assert(framed == line_view(line@).framed);
            if framed {
                Some(message)
            } else {
                None
            }
        },
    }
}

/// Whether the lines of a sample are JSON objects: each that is not blank, up to
/// the limit, and there is at least one. `checked` counts those already seen.
pub open spec fn ndjson_lines(lines: Seq<Seq<u8>>, framing: Framing, checked: nat) -> bool
    decreases lines.len(),
{
    if lines.len() == 0 {
        checked > 0
    } else {
        match payload_of(lines[0], framing) {
            None => false,
            Some(p) => {
                let t = ascii_trimmed(p);
                if t.len() == 0 {
                    ndjson_lines(lines.skip(1), framing, checked)
                } else if !json_object(t) {
                    false
                } else if checked + 1 >= FORMAT_SAMPLE_MAX_LINES {
                    true
                } else {
                    ndjson_lines(lines.skip(1), framing, checked + 1)
                }
            },
        }
    }
}

/// What is looked at of a file: its first bytes.
pub open spec fn sample_of(content: Seq<u8>) -> Seq<u8> {
    if content.len() > FORMAT_SAMPLE_MAX_BYTES {
        content.take(FORMAT_SAMPLE_MAX_BYTES as int)
    } else {
        content
    }
}

/// The format of a file, by the bytes that it begins with.
pub open spec fn sampled_format(content: Seq<u8>, framing: Framing) -> Seq<char> {
    if ndjson_lines(raw_lines(sample_of(content)), framing, 0) {
        "ndjson"@
    } else {
        "plain_text"@
    }
}

fn is_ndjson_sample(sample: &[u8], framing: Framing) -> (r: bool)
    ensures
        r == ndjson_lines(raw_lines(sample@), framing, 0),
{
    let mut checked: usize = 0;
    let mut pos: usize = 0;
    assert(sample@.skip(0) =~= sample@);
    while pos < sample.len()
        invariant
            pos <= sample@.len(),
            checked < FORMAT_SAMPLE_MAX_LINES,
            ndjson_lines(raw_lines(sample@), framing, 0) == ndjson_lines(
                raw_lines(sample@.skip(pos as int)),
                framing,
                checked as nat,
            ),
        decreases sample.len() - pos,
    {
        let end = line_end(sample, pos);
        let line = copy_range(sample, pos, end);
        proof {
            let rest = sample@.skip(pos as int);
            let all = raw_lines(rest);
            assert(line@ =~= rest.take(end - pos));
            assert(rest.skip(end - pos) =~= sample@.skip(end as int));
            assert(all[0] == line@);
            assert(all.skip(1) =~= raw_lines(sample@.skip(end as int)));
        }
        pos = end;
        let p = match payload(line, framing) {
            Some(p) => p,
            None => {
                return false;
            },
        };
        let trimmed = trim_ascii(p.as_slice());
        if trimmed.len() == 0 {
            continue;
        }
        if !is_json_object_line(trimmed) {
            return false;
        }
        checked = checked + 1;
        if checked >= FORMAT_SAMPLE_MAX_LINES {
            return true;
        }
    }
    assert(raw_lines(sample@.skip(pos as int)).len() == 0);
    checked > 0
}

/// The format of a file, by the bytes that it begins with. No more than
/// `FORMAT_SAMPLE_MAX_BYTES` of them are looked at.
pub fn detect_format(content: &[u8], framing: Framing) -> (r: String)
    ensures
        r@ == sampled_format(content@, framing),
{
    let ndjson = if content.len() > FORMAT_SAMPLE_MAX_BYTES {
        let sample = copy_range(content, 0, FORMAT_SAMPLE_MAX_BYTES);
        assert(sample@ =~= sample_of(content@));
        is_ndjson_sample(sample.as_slice(), framing)
    } else {
        is_ndjson_sample(content, framing)
    };
    if ndjson {
        "ndjson".to_owned()
    } else {
        "plain_text".to_owned()
    }
}

/// How a container's log lines are framed, by its runtime.
pub open spec fn framing_of(runtime: Seq<char>) -> Framing {
    if runtime == "docker"@ {
        Framing::DockerJson
    } else if runtime == "kubernetes"@ || runtime == "containerd"@ || runtime == "cri-o"@ || runtime
        == "podman"@ {
        Framing::Cri
    } else {
        Framing::Plain
    }
}

/// The format of a container's log: what its labels name, else plain text where it
/// has no log or the log cannot be read, else by what the log begins with.
pub open spec fn container_log_format(c: ContainerView, content: Option<Seq<u8>>) -> Seq<char> {
    if labelled_format(c.labels) is Some || c.log_path.len() == 0 {
        unsampled_format(c.labels)
    } else {
        match content {
            Some(content) => sampled_format(content, framing_of(c.runtime)),
            None => "plain_text"@,
        }
    }
}

/// Sets the format of a container's log. `content` is what the log begins with,
/// unless it cannot be read.
pub fn settle_log_format(c: &mut Container, content: Option<&[u8]>)
    ensures
        final(c)@ == (ContainerView {
            log_format: container_log_format(
                old(c)@,
                match content {
                    Some(content) => Some(content@),
                    None => None,
                },
            ),
            ..old(c)@
        }),
{
    let probe = detect_container_log_format(c.runtime.as_str(), &c.labels, c.log_path.as_str());
    let format = match probe {
        FormatProbe::Known(format) => format,
        FormatProbe::Sample(framing) => match content {
            Some(content) => detect_format(content, framing),
            None => "plain_text".to_owned(),
        },
    };
    c.log_format = format;
}

/// The number in a name of the form `<number>.log`, where it is a signed 32-bit
/// integer and not negative.
pub open spec fn signed_log_number(name: Seq<char>) -> Option<nat> {
    let suffix = ".log"@;
    let stem = name.take(name.len() - suffix.len());
    if !suffix.is_suffix_of(name) {
        None
    } else if stem.len() > 1 && stem[0] == '-' && all_digits(stem.skip(1), 10) && number(
        stem.skip(1),
        10,
    ) == 0 {
        Some(0)
    } else {
        parsed(stem, 10, i32::MAX as nat)
    }
}

fn signed_log_number_of(name: &str) -> (r: Option<u64>)
    ensures
        match r {
            Some(n) => signed_log_number(name@) == Some(n as nat),
            None => signed_log_number(name@) is None,
        },
{
    let stem = match strip_suffix(name, ".log") {
        Some(stem) => stem,
        None => {
            return None;
        },
    };
    let chars = chars_of(stem);
    if chars.len() > 1 && chars[0] == '-' {
        let rest = stem.substring_char(1, chars.len());
        assert(rest@ =~= stem@.skip(1));
        if is_numeric(rest) {
            assert(crate::text::is_digit(rest@[0], 10));
            assert(crate::text::unsigned(rest@) == rest@);
            if let Some(n) = parse_radix(rest, 10, 0) {
                return Some(0);
            }
        }
    }
    parse_radix(stem, 10, i32::MAX as u64)
}

/// Whether the name at `at` has the highest number, and is the first that does.
pub open spec fn is_active_log(names: Seq<Seq<char>>, at: int) -> bool {
    &&& 0 <= at < names.len()
    &&& signed_log_number(names[at]) is Some
    &&& forall|i: int|
        0 <= i < names.len() && signed_log_number(#[trigger] names[i]) is Some
            ==> signed_log_number(names[i])->0 <= signed_log_number(names[at])->0
    &&& forall|i: int|
        0 <= i < at && signed_log_number(#[trigger] names[i]) is Some ==> signed_log_number(
            names[i],
        )->0 < signed_log_number(names[at])->0
}

/// The place of the log file that a CRI runtime is writing, among the names of
/// the regular files of a directory.
pub fn active_cri_log_file(names: &Vec<String>) -> (r: Option<usize>)
    ensures
        match r {
            Some(at) => is_active_log(strings(names@), at as int),
            None => forall|i: int|
                0 <= i < names@.len() ==> signed_log_number(#[trigger] strings(names@)[i]) is None,
        },
{
    let ghost all = strings(names@);
    let mut best: Option<(usize, u64)> = None;
    let mut i: usize = 0;
    while i < names.len()
        invariant
            i <= names@.len(),
            all == strings(names@),
            match best {
                Some((at, n)) => at < i && is_active_log(all.take(i as int), at as int)
                    && signed_log_number(all[at as int]) == Some(n as nat),
                None => forall|j: int| 0 <= j < i ==> signed_log_number(#[trigger] all[j]) is None,
            },
        decreases names.len() - i,
    {
        let ghost before = all.take(i as int);
        let ghost after = all.take(i + 1);
        assert(all[i as int] == names@[i as int]@);
        match signed_log_number_of(names[i].as_str()) {
            Some(n) => {
                let higher = match best {
                    Some((_, m)) => n > m,
                    None => true,
                };
                if higher {
                    best = Some((i, n));
                }
            },
            None => {},
        }
        i = i + 1;
        proof {
            assert(forall|j: int| 0 <= j < i - 1 ==> #[trigger] after[j] == before[j]);
            assert(forall|j: int| 0 <= j < i ==> #[trigger] after[j] == all[j]);
        }
    }
    assert(all.take(i as int) =~= all);
    match best {
        Some((at, _)) => Some(at),
        None => None,
    }
}

// ---------------------------------------------------------------------------
// Walking directories
// ---------------------------------------------------------------------------

/// What an entry of a directory is.
#[derive(Debug, Clone, Copy, PartialEq, Eq, Structural)]
pub enum EntryKind {
    Directory,
    File,
    Other,
}

/// What to do with an entry of a directory.
#[derive(Debug, Clone, Copy, PartialEq, Eq, Structural)]
pub enum WalkStep {
    /// Walk into it.
    Descend,
    /// Report it as a log file.
    Report,
    /// Pass it over.
    Skip,
}

/// What to do with an entry of a directory, given its name in that directory.
pub fn walk_step(kind: EntryKind, name: &str, allowed: &Vec<String>) -> (r: WalkStep)
    ensures
        r == match kind {
            EntryKind::Directory => WalkStep::Descend,
            EntryKind::File => if log_file(name@, strings(allowed@)) {
                WalkStep::Report
            } else {
                WalkStep::Skip
            },
            EntryKind::Other => WalkStep::Skip,
        },
{
    match kind {
        EntryKind::Directory => WalkStep::Descend,
        EntryKind::File => if is_log_file(name, allowed) {
            WalkStep::Report
        } else {
            WalkStep::Skip
        },
        EntryKind::Other => WalkStep::Skip,
    }
}

/// The permissions of a file, as its mode in octal digits.
pub fn permissions_string(mode: u32) -> (r: String)
    ensures
        r@ == octal(mode as nat),
{
    octal_of(mode)
}

/// How many lines there are in the bytes of a file. The last one counts, with or
/// without a line feed.
pub fn count_lines(content: &[u8]) -> (r: u64)
    ensures
        r == raw_lines(content@).len(),
{
    let mut n: u64 = 0;
    let mut pos: usize = 0;
    assert(content@.skip(0) =~= content@);
    while pos < content.len()
        invariant
            pos <= content@.len(),
            n <= pos,
            n + raw_lines(content@.skip(pos as int)).len() == raw_lines(content@).len(),
        decreases content.len() - pos,
    {
        let end = line_end(content, pos);
        proof {
            let rest = content@.skip(pos as int);
            assert(rest.skip(end - pos) =~= content@.skip(end as int));
            assert(raw_lines(rest) == seq![rest.take(end - pos)] + raw_lines(
                content@.skip(end as int),
            ));
        }
        pos = end;
        n = n + 1;
    }
    assert(raw_lines(content@.skip(pos as int)).len() == 0);
    n
}

/// The date and time of a number of seconds since the epoch, written as RFC 3339
/// has it, if there is one.
pub uninterp spec fn rfc3339(secs: i64) -> Option<Seq<char>>;

/// `chrono::DateTime::from_timestamp` without a fraction, and `to_rfc3339` of what
/// it returns: the number of seconds alone decides.
#[verifier::external_body]
fn date_of_timestamp(secs: i64) -> (r: Option<String>)
    ensures
        opt_view(r) == rfc3339(secs),
{
    chrono::DateTime::from_timestamp(secs, 0).map(|date| date.to_rfc3339())
}

/// What was read of a log file.
pub struct FileFacts<'a> {
    pub path: &'a str,
    pub size: u64,
    /// When it was last changed, in seconds since the epoch.
    pub modified_secs: Option<i64>,
    pub readable: bool,
    pub permissions: &'a str,
    /// What it begins with.
    pub sample: &'a [u8],
    pub line_count: u64,
}

/// When a file was last changed; empty where that is not known.
pub open spec fn modified_text(secs: Option<i64>) -> Seq<char> {
    match secs {
        Some(secs) => match rfc3339(secs) {
            Some(date) => date,
            None => ""@,
        },
        None => ""@,
    }
}

/// The log file that was read.
pub fn log_file_from_facts(facts: &FileFacts<'_>) -> (r: LogFile)
    ensures
        r.path@ == facts.path@,
        r.size == facts.size,
        r.modified@ == modified_text(facts.modified_secs),
        r.readable == facts.readable,
        r.permissions@ == facts.permissions@,
        r.format@ == sampled_format(facts.sample@, Framing::Plain),
        r.line_count == facts.line_count,
{
    let modified = match facts.modified_secs {
        Some(secs) => match date_of_timestamp(secs) {
            Some(date) => date,
            None => "".to_owned(),
        },
        None => "".to_owned(),
    };
    LogFile {
        path: facts.path.to_owned(),
        size: facts.size,
        modified,
        readable: facts.readable,
        permissions: facts.permissions.to_owned(),
        format: detect_format(facts.sample, Framing::Plain),
        line_count: facts.line_count,
    }
}

} // verus!
