//! What becomes of lines on their way: batches, checkpoints, entries, counts.
use vstd::prelude::*;
use vstd::string::*;

use crate::batch_tracker::{
    acked_prefix, buffer_sequences, count_of, marked, numbers, BatchStatus, TrackedBatch,
};
use crate::buffer::{be, cache_mb_for, entry_bytes, max_bytes_of, mb_bytes, time_bits};
use crate::bytes::chomped;
use crate::checkpoint::{as_row, rows_map, stream_key, Checkpoint, StreamingCheckpointView};
use crate::container_reader::{is_highest, lines_read, log_number, read_all, total_len, Read};
use crate::counters::{
    drained, expired, source_in, split_sum, wrapped, wrapped32, BodyVariantSplit, SourceView,
};
use crate::cri::line_view;
use crate::delivery::{class_of_status, ErrorClass};
use crate::laws::text::{decimal_digits_write_the_number, numbers_are_read_as_written};
use crate::text::{decimal, numeric, parsed};

verus! {

/// Only 401 and 403 ask for another token; 429 and all from 500 to 599 are tried again, and
/// no other status is.
pub proof fn statuses_have_their_class(status: u16)
    ensures
        class_of_status(status) == ErrorClass::Auth <==> status == 401 || status == 403,
        class_of_status(status) == ErrorClass::Retryable <==> status == 429 || (status >= 500
            && status < 600),
{
}

// ---------------------------------------------------------------------------
// Batches
// ---------------------------------------------------------------------------

/// The confirmed batches from the oldest on end where the first one stands that is not
/// confirmed.
pub proof fn confirmed_batches_end_at_the_first_open_one(
    confirmed: Seq<TrackedBatch>,
    open: TrackedBatch,
    rest: Seq<TrackedBatch>,
)
    requires
        forall|i: int|
            0 <= i < confirmed.len() ==> (#[trigger] confirmed[i]).status == BatchStatus::Acked,
        open.status != BatchStatus::Acked,
    ensures
        acked_prefix(confirmed) == confirmed.len(),
        acked_prefix(confirmed + seq![open] + rest) == confirmed.len(),
    decreases confirmed.len(),
{
    let all = confirmed + seq![open] + rest;
    if confirmed.len() == 0 {
        assert(all[0] == open);
    } else {
        assert(all[0] == confirmed[0]);
        assert(all.skip(1) =~= confirmed.skip(1) + seq![open] + rest);
        confirmed_batches_end_at_the_first_open_one(confirmed.skip(1), open, rest);
    }
}

/// A batch stands for the entries from its first to its last one, both included.
pub proof fn batches_stand_for_their_range(first: u64, last: u64, k: u64)
    ensures
        numbers(first, last).contains(k) <==> first <= k <= last,
        first <= last ==> numbers(first, last).len() == last - first + 1 && numbers(
            first,
            last,
        ).first() == first && numbers(first, last).last() == last,
{
    if first <= k <= last {
        assert(numbers(first, last)[k - first] == k);
    }
}

/// The entries that may be deleted are just those of the batches that are given.
pub proof fn entries_of_batches_are_listed(batches: Seq<TrackedBatch>, k: u64)
    ensures
        buffer_sequences(batches).contains(k) <==> exists|i: int|
            0 <= i < batches.len() && (#[trigger] batches[i]).buffer_first_seq <= k
                <= batches[i].buffer_last_seq,
    decreases batches.len(),
{
    if batches.len() > 0 {
        let front = batches.drop_last();
        let last = batches.last();
        let own = numbers(last.buffer_first_seq, last.buffer_last_seq);
        entries_of_batches_are_listed(front, k);
        batches_stand_for_their_range(last.buffer_first_seq, last.buffer_last_seq, k);
        let all = buffer_sequences(front) + own;
        if buffer_sequences(front).contains(k) {
            let j = choose|j: int|
                0 <= j < buffer_sequences(front).len() && buffer_sequences(front)[j] == k;
            assert(all[j] == k);
            let i = choose|i: int|
                0 <= i < front.len() && (#[trigger] front[i]).buffer_first_seq <= k
                    <= front[i].buffer_last_seq;
            assert(batches[i].buffer_first_seq <= k <= batches[i].buffer_last_seq);
        }
        if own.contains(k) {
            let j = choose|j: int| 0 <= j < own.len() && own[j] == k;
            assert(all[buffer_sequences(front).len() + j] == k);
            assert(batches[batches.len() - 1].buffer_first_seq <= k);
        }
        if all.contains(k) {
            let j = choose|j: int| 0 <= j < all.len() && all[j] == k;
            if j < buffer_sequences(front).len() {
                assert(buffer_sequences(front)[j] == k);
            } else {
                assert(own[j - buffer_sequences(front).len()] == k);
            }
        }
        if exists|i: int|
            0 <= i < batches.len() && (#[trigger] batches[i]).buffer_first_seq <= k
                <= batches[i].buffer_last_seq {
            let i = choose|i: int|
                0 <= i < batches.len() && (#[trigger] batches[i]).buffer_first_seq <= k
                    <= batches[i].buffer_last_seq;
            if i < front.len() {
                assert(front[i].buffer_first_seq <= k <= front[i].buffer_last_seq);
            }
        }
    }
}

/// Marking a batch changes its status and nothing else, and no other batch.
pub proof fn marking_changes_one_batch(
    batches: Seq<TrackedBatch>,
    sequence: u64,
    status: BatchStatus,
    i: int,
)
    requires
        0 <= i < batches.len(),
    ensures
        marked(batches, sequence, status).len() == batches.len(),
        batches[i].sequence != sequence ==> marked(batches, sequence, status)[i] == batches[i],
        batches[i].sequence == sequence ==> {
            let b = marked(batches, sequence, status)[i];
            &&& b.status == status
            &&& b.sequence == sequence
            &&& b.start_offset == batches[i].start_offset
            &&& b.end_offset == batches[i].end_offset
            &&& b.inode == batches[i].inode
            &&& b.buffer_first_seq == batches[i].buffer_first_seq
            &&& b.buffer_last_seq == batches[i].buffer_last_seq
        },
{
}

/// Batches are counted by their status.
pub proof fn batches_are_counted(
    batches: Seq<TrackedBatch>,
    batch: TrackedBatch,
    status: BatchStatus,
)
    ensures
        count_of(Seq::<TrackedBatch>::empty(), status) == 0,
        count_of(batches.push(batch), status) == count_of(batches, status) + if batch.status
            == status {
            1nat
        } else {
            0nat
        },
{
    reveal(Seq::filter);
    assert(batches.push(batch).drop_last() =~= batches);
}

// ---------------------------------------------------------------------------
// Entries and caches
// ---------------------------------------------------------------------------

/// An entry is eight bytes of time, four of length, and the line; the highest byte comes
/// first, and a time before the epoch is written as its complement.
pub proof fn entries_are_written_highest_byte_first(ns: i64, data: Seq<u8>)
    requires
        data.len() <= u32::MAX,
    ensures
        ({
            let e = entry_bytes(ns, data);
            let t = if ns < 0 {
                ns + 0x1_0000_0000_0000_0000
            } else {
                ns as int
            };
            let n = data.len() as int;
            &&& e.len() == 12 + data.len()
            &&& e[7] == t % 256
            &&& e[6] == t / 256 % 256
            &&& e[5] == t / 256 / 256 % 256
            &&& e[4] == t / 256 / 256 / 256 % 256
            &&& e[11] == n % 256
            &&& e[10] == n / 256 % 256
            &&& e[9] == n / 256 / 256 % 256
            &&& e[8] == n / 256 / 256 / 256 % 256
            &&& e.skip(12) == data
        }),
{
    let t = time_bits(ns);
    let n = data.len();
    lemma_last_byte(t, 8);
    lemma_last_byte(t / 256, 7);
    lemma_last_byte(t / 256 / 256, 6);
    lemma_last_byte(t / 256 / 256 / 256, 5);
    lemma_last_byte(t / 256 / 256 / 256 / 256, 4);
    lemma_last_byte(n, 4);
    lemma_last_byte(n / 256, 3);
    lemma_last_byte(n / 256 / 256, 2);
    lemma_last_byte(n / 256 / 256 / 256, 1);
    lemma_last_byte(n / 256 / 256 / 256 / 256, 0);
    let e = entry_bytes(ns, data);
    assert(e =~= be(t, 8) + be(n, 4) + data);
    assert(e.skip(12) =~= data);
    assert(e[7] == be(t, 8)[7] && e[6] == be(t, 8)[6] && e[5] == be(t, 8)[5] && e[4] == be(
        t,
        8,
    )[4]);
    assert(e[11] == be(n, 4)[3] && e[10] == be(n, 4)[2] && e[9] == be(n, 4)[1] && e[8] == be(
        n,
        4,
    )[0]);
}

proof fn lemma_last_byte(v: nat, n: nat)
    ensures
        be(v, n).len() == n,
        n > 0 ==> be(v, n) == be(v / 256, (n - 1) as nat).push((v % 256) as u8),
    decreases n,
{
    if n > 0 {
        lemma_last_byte(v / 256, (n - 1) as nat);
    }
}

/// A cache is as many MiB as the configuration asks for, else as the environment does, else
/// eight, and one at least.
pub proof fn caches_have_their_size(asked: Option<u64>, env: Option<Seq<char>>, n: u64)
    ensures
        asked == Some(n) && n >= 1 ==> cache_mb_for(asked, env) == n,
        asked == Some(0u64) ==> cache_mb_for(asked, env) == 1,
        asked is None && env == Some(decimal(n as nat)) ==> cache_mb_for(asked, env) == if n == 0 {
            1
        } else {
            n
        },
        asked is None && (env is None || parsed(env->0, 10, u64::MAX as nat) is None)
            ==> cache_mb_for(asked, env) == 8,
        n * 1_048_576 <= usize::MAX ==> mb_bytes(n) == n * 1_048_576,
        n * 1_048_576 > usize::MAX ==> mb_bytes(n) == usize::MAX,
        n * 1_048_576 <= u64::MAX ==> max_bytes_of(n) == n * 1_048_576,
        n * 1_048_576 > u64::MAX ==> max_bytes_of(n) == u64::MAX,
{
    numbers_are_read_as_written(n as nat, u64::MAX as nat);
}

// ---------------------------------------------------------------------------
// Checkpoints
// ---------------------------------------------------------------------------

/// A stream's checkpoint is kept under `stream:` and its source, with its place and time and
/// no offset.
pub proof fn streams_are_kept_under_their_source(id: Seq<char>, s: StreamingCheckpointView)
    ensures
        stream_key(id) == seq!['s', 't', 'r', 'e', 'a', 'm', ':'] + id,
        as_row(id, s).path == stream_key(id),
        as_row(id, s).offset == 0,
        as_row(id, s).inode == 0,
        as_row(id, s).updated_at == s.updated_at,
        as_row(id, s).streaming == Some(s),
{
    reveal_strlit("stream:");
    assert("stream:"@ =~= seq!['s', 't', 'r', 'e', 'a', 'm', ':']);
}

/// Of rows with one key the last one counts, and every key is that of a row.
pub proof fn the_last_row_counts(rows: Seq<(String, Checkpoint)>, at: int, key: Seq<char>)
    ensures
        0 <= at < rows.len() && rows[at].0@ == key && (forall|i: int|
            at < i < rows.len() ==> (#[trigger] rows[i]).0@ != key) ==> rows_map(rows).contains_key(
            key,
        ) && rows_map(rows)[key] == rows[at].1@,
        (forall|i: int| 0 <= i < rows.len() ==> (#[trigger] rows[i]).0@ != key) ==> !rows_map(
            rows,
        ).contains_key(key),
    decreases rows.len(),
{
    if rows.len() > 0 {
        let front = rows.drop_last();
        the_last_row_counts(front, at, key);
        if 0 <= at < rows.len() && rows[at].0@ == key && (forall|i: int|
            at < i < rows.len() ==> (#[trigger] rows[i]).0@ != key) {
            if at < rows.len() - 1 {
                assert(rows[rows.len() - 1].0@ != key);
                assert(front[at] == rows[at]);
                assert forall|i: int| at < i < front.len() implies (#[trigger] front[i]).0@ != key by {
                    assert(front[i] == rows[i]);
                }
            }
        }
        if forall|i: int| 0 <= i < rows.len() ==> (#[trigger] rows[i]).0@ != key {
            assert(rows[rows.len() - 1].0@ != key);
            assert forall|i: int| 0 <= i < front.len() implies (#[trigger] front[i]).0@ != key by {
                assert(front[i] == rows[i]);
            }
        }
    }
}

// ---------------------------------------------------------------------------
// Reading
// ---------------------------------------------------------------------------

/// Lines that are no fragments come out one by one, each without the end of its line and
/// no longer than allowed.
pub proof fn full_lines_come_out(lines: Seq<Seq<u8>>, raw: Seq<u8>, buffer: Seq<u8>, max: nat)
    requires
        !(line_view(chomped(raw)).framed && line_view(chomped(raw)).partial),
    ensures
        ({
            let before = read_all(lines, buffer, max);
            let message = before.buffer + line_view(chomped(raw)).message;
            read_all(lines.push(raw), buffer, max) == (Read {
                messages: before.messages.push(
                    if message.len() > max {
                        message.subrange(0, max as int)
                    } else {
                        message
                    },
                ),
                buffer: seq![],
            })
        }),
        read_all(Seq::<Seq<u8>>::empty(), buffer, max) == (Read { messages: seq![], buffer }),
{
    assert(lines.push(raw).drop_last() =~= lines);
    let before = read_all(lines, buffer, max);
    let message = before.buffer + line_view(chomped(raw)).message;
    if message.len() > max {
        assert(message.take(max as int) =~= message.subrange(0, max as int));
    }
}

/// Fragments wait until their message is complete.
pub proof fn fragments_wait(lines: Seq<Seq<u8>>, raw: Seq<u8>, buffer: Seq<u8>, max: nat)
    requires
        line_view(chomped(raw)).framed && line_view(chomped(raw)).partial,
    ensures
        ({
            let before = read_all(lines, buffer, max);
            read_all(lines.push(raw), buffer, max) == (Read {
                messages: before.messages,
                buffer: before.buffer + line_view(chomped(raw)).message,
            })
        }),
{
    assert(lines.push(raw).drop_last() =~= lines);
}

/// What is read are the first lines, as many as allowed, and a reader advances by all of
/// their bytes.
pub proof fn reading_takes_the_first_lines(
    content: Seq<u8>,
    max: nat,
    lines: Seq<Seq<u8>>,
    line: Seq<u8>,
)
    ensures
        ({
            let all = crate::bytes::raw_lines(content);
            &&& all.len() <= max ==> lines_read(content, max) == all
            &&& all.len() > max ==> lines_read(content, max) == all.subrange(0, max as int)
        }),
        total_len(Seq::<Seq<u8>>::empty()) == 0,
        total_len(lines.push(line)) == total_len(lines) + line.len(),
{
    let all = crate::bytes::raw_lines(content);
    if all.len() > max {
        assert(all.take(max as int) =~= all.subrange(0, max as int));
    }
    assert(lines.push(line).drop_last() =~= lines);
}

/// The log to follow is the one with the highest number, read as a number.
pub proof fn the_highest_log_is_followed(names: Seq<Seq<char>>, at: int, n: nat, i: int, m: nat)
    requires
        is_highest(names, at),
        names[at] == decimal(n) + seq!['.', 'l', 'o', 'g'],
        0 <= i < names.len(),
        names[i] == decimal(m) + seq!['.', 'l', 'o', 'g'],
        m <= i32::MAX,
        n <= i32::MAX,
    ensures
        m <= n,
{
    lemma_log_number(n);
    lemma_log_number(m);
}

proof fn lemma_log_number(n: nat)
    requires
        n <= i32::MAX,
    ensures
        log_number(decimal(n) + seq!['.', 'l', 'o', 'g']) == Some(n),
{
    reveal_strlit(".log");
    let suffix = ".log"@;
    assert(suffix =~= seq!['.', 'l', 'o', 'g']);
    let name = decimal(n) + suffix;
    assert(name.subrange(name.len() - 4, name.len() as int) =~= suffix);
    assert(name.take(name.len() - 4) =~= decimal(n));
    decimal_digits_write_the_number(n);
    crate::laws::text::numbers_are_digits(decimal(n));
}

/// A name without a number, or without `.log`, is no log of a container.
pub proof fn other_names_are_no_logs(stem: Seq<char>, name: Seq<char>, i: int)
    requires
        0 <= i < stem.len(),
        !('0' <= stem[i] <= '9'),
    ensures
        log_number(stem + seq!['.', 'l', 'o', 'g']) is None,
        log_number(seq!['.', 'l', 'o', 'g']) is None,
        !seq!['.', 'l', 'o', 'g'].is_suffix_of(name) ==> log_number(name) is None,
{
    reveal_strlit(".log");
    let suffix = ".log"@;
    assert(suffix =~= seq!['.', 'l', 'o', 'g']);
    let n = stem + suffix;
    assert(n.take(n.len() - 4) =~= stem);
    crate::laws::text::numbers_are_digits(stem);
    if numeric(stem) {
        assert(0x30 <= stem[i] as int <= 0x39);
    }
    assert(suffix.take(0) =~= Seq::<char>::empty());
}

// ---------------------------------------------------------------------------
// Counts
// ---------------------------------------------------------------------------

/// Counts add up, and wrap round at the top; a gauge is drained to zero at most; an error
/// is old after an hour and not before.
pub proof fn counts_add_up(a: u64, b: u64, x: u32, y: u32)
    ensures
        wrapped(a, b) == (a + b) % 0x1_0000_0000_0000_0000,
        wrapped32(x, y) == (x + y) % 0x1_0000_0000,
        b <= a ==> drained(a, b) == a - b,
        b > a ==> drained(a, b) == 0,
        expired(a, b) <==> b - a > 3600 * 1_000_000_000,
{
}

/// What was shipped in each form is counted on its own.
pub proof fn forms_are_counted_apart(a: BodyVariantSplit, b: BodyVariantSplit)
    requires
        a.entry_json + b.entry_json <= u64::MAX,
        a.raw_text + b.raw_text <= u64::MAX,
        a.raw_bytes + b.raw_bytes <= u64::MAX,
    ensures
        split_sum(a, b).entry_json == a.entry_json + b.entry_json,
        split_sum(a, b).raw_text == a.raw_text + b.raw_text,
        split_sum(a, b).raw_bytes == a.raw_bytes + b.raw_bytes,
{
}

/// Of a source that was never seen nothing is known.
pub proof fn unseen_sources_are_unknown(m: Map<Seq<char>, SourceView>, id: Seq<char>, v: SourceView)
    ensures
        !m.contains_key(id) ==> source_in(m, id).split is None && source_in(m, id).pipeline is None,
        source_in(m.insert(id, v), id) == v,
{
}

} // verus!
