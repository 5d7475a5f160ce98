//! Reading the numbered log files of a Kubernetes container.
//!
//! A container's log directory holds `0.log`, `1.log` and so on; the highest is
//! the one being written. The reader follows it, takes the runtime's framing off
//! each record and puts fragments together.
use vstd::prelude::*;
use vstd::string::*;

use crate::bytes::{chomp, chomped, copy_range, line_end, raw_lines};
use crate::checkpoint::Checkpoint;
use crate::cri::{line_view, reassemble_partial, reassembled};
use crate::text::{is_numeric, numeric, occurs, number, parse_radix, str_eq, strings, strip_suffix};

verus! {

/// The number in a name of the form `<digits>.log`, where it fits a signed
/// 32-bit integer.
pub open spec fn log_number(name: Seq<char>) -> Option<nat> {
    let suffix = ".log"@;
    let stem = name.take(name.len() - suffix.len());
    if suffix.is_suffix_of(name) && numeric(stem) && number(stem, 10) <= i32::MAX {
        Some(number(stem, 10))
    } else {
        None
    }
}

/// Whether the name at `at` has the highest number, and is the first that does.
pub open spec fn is_highest(names: Seq<Seq<char>>, at: int) -> bool {
    &&& 0 <= at < names.len()
    &&& log_number(names[at]) is Some
    &&& forall|i: int|
        0 <= i < names.len() && log_number(#[trigger] names[i]) is Some ==> log_number(names[i])->0
            <= log_number(names[at])->0
    &&& forall|i: int|
        0 <= i < at && log_number(#[trigger] names[i]) is Some ==> log_number(names[i])->0
            < log_number(names[at])->0
}

fn log_number_of(name: &str) -> (r: Option<u64>)
    ensures
        match r {
            Some(n) => log_number(name@) == Some(n as nat),
            None => log_number(name@) is None,
        },
{
    match strip_suffix(name, ".log") {
        Some(stem) => {
            if !is_numeric(stem) {
                return None;
            }
            assert(stem@[0] != '+') by {
                assert(crate::text::is_digit(stem@[0], 10));
            }
            parse_radix(stem, 10, i32::MAX as u64)
        },
        None => None,
    }
}

/// The name of the log file with the highest number, among the names of the
/// regular files of a directory.
pub fn find_highest_log_file(names: &Vec<String>) -> (r: Option<String>)
    ensures
        match r {
            Some(name) => exists|at: int|
                #[trigger] is_highest(strings(names@), at) && name@ == strings(names@)[at],
            None => forall|i: int|
                0 <= i < names@.len() ==> log_number(#[trigger] strings(names@)[i]) is None,
        },
{
    let ghost all = strings(names@);
    let mut best: Option<(usize, u64)> = None;
    let mut i: usize = 0;
    while i < names.len()
        invariant
            i <= names@.len(),
            all == strings(names@),
            match best {
                Some((at, n)) => at < i && is_highest(all.take(i as int), at as int) && log_number(
                    all[at as int],
                ) == Some(n as nat),
                None => forall|j: int| 0 <= j < i ==> log_number(#[trigger] all[j]) is None,
            },
        decreases names.len() - i,
    {
        let ghost old_best = best;
        let ghost before = all.take(i as int);
        let ghost after = all.take(i + 1);
        assert(all[i as int] == names@[i as int]@);
        match log_number_of(names[i].as_str()) {
            Some(n) => {
                let higher = match best {
                    Some((_, m)) => n > m,
                    None => true,
                };
                if higher {
                    best = Some((i, n));
                }
            },
            None => {},
        }
        i = i + 1;
        proof {
            assert(forall|j: int| 0 <= j < i - 1 ==> #[trigger] after[j] == before[j]);
            assert(forall|j: int| 0 <= j < i ==> #[trigger] after[j] == all[j]);
        }
    }
    assert(all.take(i as int) =~= all);
    match best {
        Some((at, _)) => {
            assert(is_highest(all, at as int));
            Some(names[at].clone())
        },
        None => None,
    }
}

/// Whether a path looks like a container's log directory: it lies below a
/// `pods` directory and was seen to hold a numbered log file.
pub fn is_kubernetes_log_path(path: &str, names: &Vec<String>) -> (r: bool)
    ensures
        r == (occurs(path@, "/pods/"@) && exists|i: int|
            0 <= i < names@.len() && log_number(#[trigger] strings(names@)[i]) is Some),
{
    if !crate::text::contains(path, "/pods/") {
        return false;
    }
    find_highest_log_file(names).is_some()
}

/// A place in a file.
#[derive(Debug, Clone, Copy, PartialEq, Eq, Structural)]
pub struct ReadPosition {
    pub offset: u64,
    pub inode: u64,
}

/// At most the first `max` bytes.
pub open spec fn cut(message: Seq<u8>, max: nat) -> Seq<u8> {
    if message.len() > max {
        message.take(max as int)
    } else {
        message
    }
}

/// The messages that were read, and the fragments that wait for their end.
#[verifier::ext_equal]
pub struct Read {
    pub messages: Seq<Seq<u8>>,
    pub buffer: Seq<u8>,
}

/// What one raw line adds to what was read.
pub open spec fn read_one(so_far: Read, raw: Seq<u8>, max: nat) -> Read {
    let step = reassembled(chomped(raw), so_far.buffer);
    Read {
        messages: match step.message {
            Some((message, _)) => so_far.messages.push(cut(message, max)),
            None => so_far.messages,
        },
        buffer: step.buffer,
    }
}

/// What raw lines add up to, from the fragments in `buffer` on.
pub open spec fn read_all(lines: Seq<Seq<u8>>, buffer: Seq<u8>, max: nat) -> Read
    decreases lines.len(),
{
    if lines.len() == 0 {
        Read { messages: seq![], buffer }
    } else {
        read_one(read_all(lines.drop_last(), buffer, max), lines.last(), max)
    }
}

/// The raw lines that are read of `content` when at most `max` may be.
pub open spec fn lines_read(content: Seq<u8>, max: nat) -> Seq<Seq<u8>> {
    let lines = raw_lines(content);
    if lines.len() <= max {
        lines
    } else {
        lines.take(max as int)
    }
}

/// How many bytes lines hold together.
pub open spec fn total_len(lines: Seq<Seq<u8>>) -> nat
    decreases lines.len(),
{
    if lines.len() == 0 {
        0
    } else {
        total_len(lines.drop_last()) + lines.last().len()
    }
}

/// The bytes of messages.
pub open spec fn byte_views(v: Seq<Vec<u8>>) -> Seq<Seq<u8>> {
    v.map_values(|m: Vec<u8>| m@)
}

fn read_line(mut raw: Vec<u8>, partial_buffer: &mut Vec<u8>, max_line_bytes: usize) -> (r: Option<
    Vec<u8>,
>)
    ensures
        final(partial_buffer)@ == reassembled(chomped(raw@), old(partial_buffer)@).buffer,
        match r {
            Some(out) => {
                let step = reassembled(chomped(raw@), old(partial_buffer)@);
                step.message is Some && out@ == cut((step.message->0).0, max_line_bytes as nat)
            },
            None => reassembled(chomped(raw@), old(partial_buffer)@).message is None,
        },
{
    chomp(&mut raw);
    match reassemble_partial(raw.as_slice(), partial_buffer) {
        Some((mut out, _)) => {
            if out.len() > max_line_bytes {
                out.truncate(max_line_bytes);
            }
            Some(out)
        },
        None => None,
    }
}

/// Reads all complete messages of a log file from its start. A fragment that
/// nothing has completed is left out, as it is when the file is followed.
pub fn sample_lines(content: &[u8], max_line_bytes: usize) -> (r: Vec<Vec<u8>>)
    ensures
        byte_views(r@) == read_all(raw_lines(content@), seq![], max_line_bytes as nat).messages,
{
    let mut partial_buffer: Vec<u8> = Vec::new();
    let mut out: Vec<Vec<u8>> = Vec::new();
    let mut pos: usize = 0;
    let ghost max = max_line_bytes as nat;
    let ghost mut done: Seq<Seq<u8>> = seq![];
    assert(content@.skip(0) =~= content@);
    assert(byte_views(out@) =~= seq![]);
    assert(done + raw_lines(content@) =~= raw_lines(content@));
    while pos < content.len()
        invariant
            pos <= content@.len(),
            max == max_line_bytes,
            done + raw_lines(content@.skip(pos as int)) == raw_lines(content@),
            read_all(done, seq![], max) == (Read {
                messages: byte_views(out@),
                buffer: partial_buffer@,
            }),
        decreases content.len() - pos,
    {
        let end = line_end(content, pos);
        let raw = copy_range(content, pos, end);
        let ghost rest = content@.skip(pos as int);
        let ghost before = byte_views(out@);
        proof {
            let next = done.push(raw@);
            assert(next.drop_last() =~= done);
            assert(raw@ =~= rest.take(end - pos));
            assert(rest.skip(end - pos) =~= content@.skip(end as int));
            assert(done + (seq![raw@] + raw_lines(content@.skip(end as int))) =~= next + raw_lines(
                content@.skip(end as int),
            ));
            done = next;
        }
        match read_line(raw, &mut partial_buffer, max_line_bytes) {
            Some(message) => {
                out.push(message);
                assert(byte_views(out@) =~= before.push(message@));
            },
            None => {},
        }
        pos = end;
    }
    assert(done + raw_lines(content@.skip(pos as int)) =~= done);
    out
}

/// What the reader has to do before it reads on.
pub enum Rotation {
    /// Go on with the open file.
    Keep,
    /// No log file is there: close the one that was open.
    Close,
    /// Open another file and report it with `opened`.
    Open(String),
}

/// Follows the numbered log files of one container.
pub struct ContainerReader {
    pub current_file: String,
    pub is_open: bool,
    pub offset: u64,
    pub inode: u64,
    pub partial_buffer: Vec<u8>,
}

impl ContainerReader {
    /// A reader that has not opened a file yet and begins at its end.
    pub fn open() -> (r: Self)
        ensures
            r.current_file@ == Seq::<char>::empty(),
            !r.is_open,
            r.offset == 0,
            r.inode == 0,
            r.partial_buffer@ == Seq::<u8>::empty(),
    {
        ContainerReader {
            current_file: String::new(),
            is_open: false,
            offset: 0,
            inode: 0,
            partial_buffer: Vec::new(),
        }
    }

    /// A reader that goes on from a saved position.
    pub fn open_with_checkpoint(checkpoint: &Checkpoint) -> (r: Self)
        ensures
            r.current_file@ == Seq::<char>::empty(),
            !r.is_open,
            r.offset == checkpoint.offset,
            r.inode == checkpoint.inode,
            r.partial_buffer@ == Seq::<u8>::empty(),
    {
        ContainerReader {
            current_file: String::new(),
            is_open: false,
            offset: checkpoint.offset,
            inode: checkpoint.inode,
            partial_buffer: Vec::new(),
        }
    }

    /// Takes note of a file that was opened and gives the offset to seek to: the
    /// end of the file where the reader has no offset yet, else that offset.
    pub fn opened(&mut self, file: String, inode: u64, file_len: u64) -> (seek: u64)
        ensures
            seek == if old(self).offset == 0 {
                file_len
            } else {
                old(self).offset
            },
            final(self).offset == seek,
            final(self).inode == inode,
            final(self).is_open,
            final(self).current_file == file,
            final(self).partial_buffer == old(self).partial_buffer,
    {
        self.inode = inode;
        if self.offset == 0 {
            self.offset = file_len;
        }
        self.current_file = file;
        self.is_open = true;
        self.offset
    }

    /// Decides what to do, given the highest log file there is and the length
    /// of the open one. Another highest file means that the log was rotated; an
    /// open file shorter than the offset was truncated. Both lose the offset.
    pub fn check_rotation(&mut self, highest: Option<&str>, open_len: Option<u64>) -> (r: Rotation)
        ensures
            final(self).current_file == old(self).current_file,
            final(self).inode == old(self).inode,
            final(self).partial_buffer == old(self).partial_buffer,
            match highest {
                None => r is Close && !final(self).is_open && final(self).offset == old(self).offset,
                Some(name) => {
                    let rotated = name@ != old(self).current_file@;
                    let truncated = old(self).is_open && open_len is Some && old(self).offset
                        > open_len->0;
                    &&& final(self).is_open == old(self).is_open
                    &&& rotated || truncated ==> r is Open && r->Open_0@ == name@ && final(self).offset == 0
                    &&& !rotated && !truncated ==> r is Keep && final(self).offset == old(self).offset
                },
            },
    {
        let name = match highest {
            Some(name) => name,
            None => {
                self.is_open = false;
                return Rotation::Close;
            },
        };
        if !str_eq(name, self.current_file.as_str()) {
            self.offset = 0;
            return Rotation::Open(name.to_owned());
        }
        if self.is_open {
            if let Some(len) = open_len {
                if len < self.offset {
                    self.offset = 0;
                    return Rotation::Open(name.to_owned());
                }
            }
        }
        Rotation::Keep
    }

    /// Reads at most `max_lines` raw lines of `content`, what the open file holds
    /// from the offset on, and gives the messages that they complete, each cut at
    /// `max_line_bytes`. While no file is open nothing is read.
    pub fn read_lines(&mut self, content: &[u8], max_lines: usize, max_line_bytes: usize) -> (r: Vec<
        Vec<u8>,
    >)
        requires
            old(self).offset + content@.len() <= u64::MAX,
        ensures
            ({
                let lines = if old(self).is_open {
                    lines_read(content@, max_lines as nat)
                } else {
                    seq![]
                };
                let read = read_all(lines, old(self).partial_buffer@, max_line_bytes as nat);
                &&& byte_views(r@) == read.messages
                &&& final(self).partial_buffer@ == read.buffer
                &&& final(self).offset == old(self).offset + total_len(lines)
            }),
            final(self).inode == old(self).inode,
            final(self).is_open == old(self).is_open,
            final(self).current_file == old(self).current_file,
    {
        let mut out: Vec<Vec<u8>> = Vec::new();
        assert(byte_views(out@) =~= seq![]);
        if !self.is_open {
            return out;
        }
        let ghost all = raw_lines(content@);
        let ghost max = max_line_bytes as nat;
        let ghost buffer = self.partial_buffer@;
        let mut pos: usize = 0;
        let mut count: usize = 0;
        assert(content@.skip(0) =~= content@);
        assert(all.take(0) =~= seq![]);
        assert(all.skip(0) =~= all);
        while count < max_lines && pos < content.len()
            invariant
                pos <= content@.len(),
                count <= max_lines,
                count <= all.len(),
                all == raw_lines(content@),
                max == max_line_bytes,
                all.skip(count as int) == raw_lines(content@.skip(pos as int)),
                total_len(all.take(count as int)) == pos,
                old(self).offset + content@.len() <= u64::MAX,
                self.offset == old(self).offset + pos,
                self.inode == old(self).inode,
                self.is_open == old(self).is_open,
                self.current_file == old(self).current_file,
                read_all(all.take(count as int), buffer, max) == (Read {
                    messages: byte_views(out@),
                    buffer: self.partial_buffer@,
                }),
            decreases content.len() - pos,
        {
            let end = line_end(content, pos);
            let raw = copy_range(content, pos, end);
            let ghost rest = content@.skip(pos as int);
            let ghost before = byte_views(out@);
            proof {
                assert(raw@ =~= rest.take(end - pos));
                assert(rest.skip(end - pos) =~= content@.skip(end as int));
                let left = all.skip(count as int);
                assert(left == seq![raw@] + raw_lines(content@.skip(end as int)));
                assert(left[0] == raw@);
                assert(all[count as int] == raw@);
                assert(all.take(count + 1).drop_last() =~= all.take(count as int));
                assert(all.skip(count + 1) =~= left.skip(1));
                assert(left.skip(1) =~= raw_lines(content@.skip(end as int)));
            }
            self.offset = self.offset + raw.len() as u64;
            match read_line(raw, &mut self.partial_buffer, max_line_bytes) {
                Some(message) => {
                    out.push(message);
                    assert(byte_views(out@) =~= before.push(message@));
                },
                None => {},
            }
            count = count + 1;
            pos = end;
        }
        proof {
            if pos == content@.len() {
                assert(content@.skip(pos as int) =~= seq![]);
                assert(all.skip(count as int).len() == 0);
                assert(all.take(count as int) =~= all);
            }
            assert(lines_read(content@, max_lines as nat) =~= all.take(count as int));
        }
        out
    }

    /// Where the reader stands.
    pub fn position(&self) -> (r: ReadPosition)
        ensures
            r.offset == self.offset,
            r.inode == self.inode,
    {
        ReadPosition { offset: self.offset, inode: self.inode }
    }
}

/// Reading in batches gives what reading in one go gives: the messages of the
/// first batch, then those of the second from the buffer that the first left.
/// So a sampled file holds the very messages that are shipped from it.
pub proof fn batches_do_not_matter(
    first: Seq<Seq<u8>>,
    second: Seq<Seq<u8>>,
    buffer: Seq<u8>,
    max: nat,
)
    ensures
        ({
            let one = read_all(first, buffer, max);
            let two = read_all(second, one.buffer, max);
            read_all(first + second, buffer, max) == (Read {
                messages: one.messages + two.messages,
                buffer: two.buffer,
            })
        }),
    decreases second.len(),
{
    let one = read_all(first, buffer, max);
    let two = read_all(second, one.buffer, max);
    if second.len() == 0 {
        assert(first + second =~= first);
        assert(one.messages + two.messages =~= one.messages);
    } else {
        let rest = second.drop_last();
        let all = first + second;
        assert(all.drop_last() =~= first + rest);
        assert(all.last() == second.last());
        batches_do_not_matter(first, rest, buffer, max);
        let before = read_all(rest, one.buffer, max);
        let step = reassembled(chomped(second.last()), before.buffer);
        if step.message is Some {
            let m = cut((step.message->0).0, max);
            assert((one.messages + before.messages).push(m) =~= one.messages
                + before.messages.push(m));
        }
    }
}

/// The messages of lines, one after another.
pub open spec fn joined_messages(lines: Seq<Seq<u8>>) -> Seq<u8>
    decreases lines.len(),
{
    if lines.len() == 0 {
        seq![]
    } else {
        joined_messages(lines.drop_last()) + line_view(chomped(lines.last())).message
    }
}

/// A message that was written as fragments comes out whole, once: nothing while
/// only fragments have come, and with the full line all of them in order.
pub proof fn fragments_come_out_whole(fragments: Seq<Seq<u8>>, last: Seq<u8>, max: nat)
    requires
        forall|i: int|
            0 <= i < fragments.len() ==> line_view(chomped(#[trigger] fragments[i])).partial
                && line_view(chomped(fragments[i])).framed,
        !line_view(chomped(last)).partial,
    ensures
        read_all(fragments, seq![], max) == (Read {
            messages: seq![],
            buffer: joined_messages(fragments),
        }),
        read_all(fragments.push(last), seq![], max) == (Read {
            messages: seq![
                cut(joined_messages(fragments) + line_view(chomped(last)).message, max),
            ],
            buffer: seq![],
        }),
    decreases fragments.len(),
{
    if fragments.len() > 0 {
        let rest = fragments.drop_last();
        assert forall|i: int| 0 <= i < rest.len() implies line_view(
            chomped(#[trigger] rest[i]),
        ).partial && line_view(chomped(rest[i])).framed by {
            assert(rest[i] == fragments[i]);
        }
        fragments_come_out_whole(rest, last, max);
        assert(fragments.last() == fragments[fragments.len() - 1]);
    }
    let all = fragments.push(last);
    assert(all.drop_last() =~= fragments);
    let before = read_all(fragments, seq![], max);
    assert(before.messages.push(
        cut(joined_messages(fragments) + line_view(chomped(last)).message, max),
    ) =~= seq![cut(joined_messages(fragments) + line_view(chomped(last)).message, max)]);
}

} // verus!
