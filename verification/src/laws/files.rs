//! Which files are logs and of what format, said of their names and their bytes.
use vstd::prelude::*;
use vstd::string::*;

use crate::bytes::{ascii_trimmed, raw_lines};
use crate::discovery::files::{
    container_log_format, extension_of, hinted_format, is_active_log, json_object, log_file,
    ndjson_lines, payload_of, rotation_suffix, sampled_format, signed_log_number, Framing,
};
use crate::discovery::container::ContainerView;
use crate::laws::text::{numbers_are_digits, numbers_are_read_as_written, the_last_one_is_found};
use crate::text::{ascii_lowered, decimal, numeric, trimmed};

verus! {

/// An extension is what follows the last dot, if a name stands before it.
pub proof fn extensions_follow_the_last_dot(stem: Seq<char>, ext: Seq<char>)
    requires
        forall|i: int| 0 <= i < ext.len() ==> #[trigger] ext[i] != '.',
    ensures
        stem.len() > 0 && !(stem == seq!['.'] && ext.len() == 0) ==> extension_of(
            stem + seq!['.'] + ext,
        ) == Some(ext),
        extension_of(seq!['.'] + ext) is None,
        extension_of(ext) is None,
{
    reveal_strlit("..");
    assert(".."@ =~= seq!['.', '.']);
    the_last_one_is_found(stem, '.', ext);
    the_last_one_is_found(Seq::<char>::empty(), '.', ext);
    assert(Seq::<char>::empty() + seq!['.'] + ext =~= seq!['.'] + ext);
    let name = stem + seq!['.'] + ext;
    assert(name.skip(stem.len() as int + 1) =~= ext);
    if stem.len() > 0 && name == ".."@ {
        assert(name.len() == 2);
        assert(stem.len() == 1 && ext.len() == 0);
        assert(stem[0] == name[0]);
        assert(stem =~= seq!['.']);
    }
}

/// A log file has an allowed extension, or one in front of a compression suffix or of a
/// rotation number.
pub proof fn log_files_have_an_allowed_extension(
    stem: Seq<char>,
    ext: Seq<char>,
    suffix: Seq<char>,
    allowed: Seq<Seq<char>>,
)
    requires
        stem.len() > 0,
        ext.len() > 0,
        suffix.len() > 0,
        forall|i: int| 0 <= i < ext.len() ==> #[trigger] ext[i] != '.',
        forall|i: int| 0 <= i < suffix.len() ==> #[trigger] suffix[i] != '.',
    ensures
        allowed.contains(ext) ==> log_file(stem + seq!['.'] + ext, allowed),
        !allowed.contains(ext) && !wraps(ext) ==> !log_file(stem + seq!['.'] + ext, allowed),
        !allowed.contains(suffix) ==> (log_file(
            stem + seq!['.'] + ext + seq!['.'] + suffix,
            allowed,
        ) <==> wraps(suffix) && allowed.contains(ext)),
        !log_file(ext, allowed),
        !log_file(seq!['.'] + ext, allowed),
{
    extensions_follow_the_last_dot(stem, ext);
    let inner = stem + seq!['.'] + ext;
    extensions_follow_the_last_dot(inner, suffix);
    the_last_one_is_found(inner, '.', suffix);
    let name = inner + seq!['.'] + suffix;
    assert(name.take(inner.len() as int) =~= inner);
    lemma_wraps(ext);
    lemma_wraps(suffix);
}

/// Whether an extension wraps another: `gz`, `xz`, `zst`, `bz2`, or a number.
pub open spec fn wraps(ext: Seq<char>) -> bool {
    ||| ext == seq!['g', 'z']
    ||| ext == seq!['x', 'z']
    ||| ext == seq!['z', 's', 't']
    ||| ext == seq!['b', 'z', '2']
    ||| ext.len() > 0 && forall|i: int| 0 <= i < ext.len() ==> '0' <= #[trigger] ext[i] <= '9'
}

proof fn lemma_wraps(ext: Seq<char>)
    ensures
        rotation_suffix(ext) <==> wraps(ext),
{
    reveal_strlit("gz");
    reveal_strlit("xz");
    reveal_strlit("zst");
    reveal_strlit("bz2");
    assert("gz"@ =~= seq!['g', 'z']);
    assert("xz"@ =~= seq!['x', 'z']);
    assert("zst"@ =~= seq!['z', 's', 't']);
    assert("bz2"@ =~= seq!['b', 'z', '2']);
    numbers_are_digits(ext);
    if ext.len() > 0 && forall|i: int| 0 <= i < ext.len() ==> '0' <= #[trigger] ext[i] <= '9' {
        assert forall|i: int| 0 <= i < ext.len() implies 0x30 <= #[trigger] ext[i] as int <= 0x39 by {
            assert('0' <= ext[i] <= '9');
        }
    }
    if numeric(ext) {
        assert forall|i: int| 0 <= i < ext.len() implies '0' <= #[trigger] ext[i] <= '9' by {
            assert(0x30 <= ext[i] as int <= 0x39);
        }
    }
}

/// A hint names a format whatever its case and the white space around it; `text` is plain
/// text.
pub proof fn hints_name_formats(value: Seq<char>)
    ensures
        ({
            let v = ascii_lowered(trimmed(value));
            hinted_format(value) == if v == "json"@ {
                Some("json"@)
            } else if v == "ndjson"@ {
                Some("ndjson"@)
            } else if v == "plain_text"@ {
                Some("plain_text"@)
            } else if v == "text"@ {
                Some("plain_text"@)
            } else {
                None
            }
        }),
{
}

/// A container's log has the format that its label names; else it is plain text, or lines
/// of JSON where what it begins with is.
pub proof fn labels_name_the_format(c: ContainerView, content: Option<Seq<u8>>)
    ensures
        c.labels.contains_key("log.format"@) && hinted_format(c.labels["log.format"@]) is Some
            ==> container_log_format(c, content) == hinted_format(c.labels["log.format"@])->0,
        (!c.labels.contains_key("log.format"@) || hinted_format(c.labels["log.format"@]) is None)
            && (c.log_path.len() == 0 || content is None) ==> container_log_format(c, content)
            == "plain_text"@,
        (!c.labels.contains_key("log.format"@) || hinted_format(c.labels["log.format"@]) is None)
            && c.log_path.len() > 0 && content is Some ==> container_log_format(c, content) == if (
        c.runtime == "docker"@) {
            sampled_format(content->0, Framing::DockerJson)
        } else if c.runtime == "kubernetes"@ || c.runtime == "containerd"@ || c.runtime
            == "cri-o"@ || c.runtime == "podman"@ {
            sampled_format(content->0, Framing::Cri)
        } else {
            sampled_format(content->0, Framing::Plain)
        },
{
}

/// A sample is lines of JSON line by line: blank lines do not count, every other one has to
/// be framed and to hold an object, and twenty of them are enough.
pub proof fn samples_are_judged_line_by_line(
    line: Seq<u8>,
    rest: Seq<Seq<u8>>,
    framing: Framing,
    checked: nat,
)
    ensures
        ndjson_lines(Seq::<Seq<u8>>::empty(), framing, checked) == (checked >= 1),
        payload_of(line, framing) is None ==> !ndjson_lines(seq![line] + rest, framing, checked),
        payload_of(line, framing) is Some ==> {
            let t = ascii_trimmed(payload_of(line, framing)->0);
            &&& t.len() == 0 ==> ndjson_lines(seq![line] + rest, framing, checked) == ndjson_lines(
                rest,
                framing,
                checked,
            )
            &&& t.len() > 0 && !json_object(t) ==> !ndjson_lines(
                seq![line] + rest,
                framing,
                checked,
            )
            &&& t.len() > 0 && json_object(t) && checked >= 19 ==> ndjson_lines(
                seq![line] + rest,
                framing,
                checked,
            )
            &&& t.len() > 0 && json_object(t) && checked < 19 ==> ndjson_lines(
                seq![line] + rest,
                framing,
                checked,
            ) == ndjson_lines(rest, framing, checked + 1)
        },
{
    let all = seq![line] + rest;
    assert(all[0] == line);
    assert(all.skip(1) =~= rest);
}

/// The format of a file is told by its first 64 KiB.
pub proof fn samples_are_short(content: Seq<u8>, framing: Framing)
    ensures
        sampled_format(content, framing) == if ndjson_lines(
            raw_lines(
                if content.len() > 65536 {
                    content.take(65536)
                } else {
                    content
                },
            ),
            framing,
            0,
        ) {
            "ndjson"@
        } else {
            "plain_text"@
        },
        payload_of(content, Framing::Plain) == Some(content),
{
}

/// The log that a runtime is writing is that with the highest number, and numbers are
/// read as numbers, not as texts.
pub proof fn the_highest_number_is_written(names: Seq<Seq<char>>, at: int, n: nat, i: int, m: nat)
    requires
        is_active_log(names, at),
        names[at] == decimal(n) + seq!['.', 'l', 'o', 'g'],
        0 <= i < names.len(),
        names[i] == decimal(m) + seq!['.', 'l', 'o', 'g'],
        m <= i32::MAX,
        n <= i32::MAX,
    ensures
        m <= n,
        i < at ==> m < n,
{
    lemma_log_number(n);
    lemma_log_number(m);
}

proof fn lemma_log_number(n: nat)
    requires
        n <= i32::MAX,
    ensures
        signed_log_number(decimal(n) + seq!['.', 'l', 'o', 'g']) == Some(n),
{
    reveal_strlit(".log");
    let suffix = ".log"@;
    assert(suffix =~= seq!['.', 'l', 'o', 'g']);
    let name = decimal(n) + suffix;
    assert(name.subrange(name.len() - 4, name.len() as int) =~= suffix);
    assert(name.take(name.len() - 4) =~= decimal(n));
    numbers_are_read_as_written(n, i32::MAX as nat);
    crate::laws::text::decimal_digits_write_the_number(n);
}

} // verus!
