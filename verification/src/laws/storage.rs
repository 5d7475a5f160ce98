//! What is kept: entries on the disk, counts in memory, entries under keys and the input of
//! digests.
use vstd::prelude::*;
use vstd::string::*;
use vstd::utf8::encode_utf8;

use crate::buffer::{
    decoded, encoded_rows, first_corrupt, first_out_of_order, first_too_large, gauge_in_step,
    gauges_with, gauges_without, in_order, oldest, peeked, rows_size, BufferError, BufferView,
    EntryView,
};
use crate::config::hash::{
    fields_bytes, fields_hash, hash_field, hash_fields, settings_bytes, settings_hash,
};
use crate::counters::{last_hour, no_counts, no_split, shown, QueueDepthGauge};
use crate::digest::sha256_hex;
use crate::json::{text_entries, Json, JsonView, Number};
use crate::strmap::{lemma_position_at, listed_keys, map_of};
use crate::text::{decimal, joined};

verus! {

// ---------------------------------------------------------------------------
// The buffer
// ---------------------------------------------------------------------------

/// Rows take as many bytes as they hold.
pub proof fn rows_take_their_bytes(rows: Seq<(u64, Seq<u8>)>, n: u64, bytes: Seq<u8>)
    ensures
        rows_size(Seq::<(u64, Seq<u8>)>::empty()) == 0,
        rows_size(rows.push((n, bytes))) == rows_size(rows) + bytes.len(),
{
    assert(rows.push((n, bytes)).drop_last() =~= rows);
}

/// Lines become rows one by one, with numbers that follow each other from the first on, and
/// are read again with the numbers, the time and the bytes that they had.
pub proof fn lines_become_rows(lines: Seq<Seq<u8>>, ns: i64, first: u64, i: int)
    requires
        0 <= i < lines.len(),
        first + lines.len() <= u64::MAX,
        lines[i].len() <= 0xffff_ffff,
    ensures
        encoded_rows(lines, ns, first).len() == lines.len(),
        encoded_rows(lines, ns, first)[i].0 == first + i,
        decoded(encoded_rows(lines, ns, first)[i].0, encoded_rows(lines, ns, first)[i].1) == Some(
            EntryView { sequence: (first + i) as u64, timestamp_ns: ns as int, data: lines[i] },
        ),
{
    crate::buffer::entries_give_back_their_lines((first + i) as u64, ns, lines[i]);
}

/// A line is too large just if its length does not fit into four bytes; the first such one
/// is found.
pub proof fn lines_have_to_fit(before: Seq<Seq<u8>>, line: Seq<u8>, after: Seq<Seq<u8>>)
    requires
        forall|i: int| 0 <= i < before.len() ==> (#[trigger] before[i]).len() <= 0xffff_ffff,
        line.len() > 0xffff_ffff,
    ensures
        first_too_large(before + seq![line] + after) == before.len(),
        first_too_large(before) == before.len(),
    decreases before.len(),
{
    let all = before + seq![line] + after;
    if before.len() > 0 {
        assert(all[0] == before[0]);
        assert(all.skip(1) =~= before.skip(1) + seq![line] + after);
        assert forall|i: int| 0 <= i < before.skip(1).len() implies (
        #[trigger] before.skip(1)[i]).len() <= 0xffff_ffff by {
            assert(before.skip(1)[i] == before[i + 1]);
        }
        lines_have_to_fit(before.skip(1), line, after);
    } else {
        assert(all[0] == line);
    }
}

/// The oldest rows are the first ones, as many as asked for or all that there are; they are
/// read one by one, and one that is corrupt stops the reading.
pub proof fn the_oldest_rows_come_first(rows: Seq<(u64, Seq<u8>)>, count: nat, i: int)
    ensures
        count < rows.len() ==> oldest(rows, count).len() == count,
        count >= rows.len() ==> oldest(rows, count).len() == rows.len(),
        0 <= i < oldest(rows, count).len() ==> oldest(rows, count)[i] == rows[i],
        peeked(rows) is Some ==> peeked(rows)->0.len() == rows.len(),
        peeked(rows) is Some && 0 <= i < rows.len() ==> decoded(rows[i].0, rows[i].1) == Some(
            peeked(rows)->0[i],
        ),
        0 <= i < rows.len() && decoded(rows[i].0, rows[i].1) is None ==> peeked(rows) is None,
        peeked(rows) is Some ==> !first_corrupt(rows, i),
{
    let f = |row: (u64, Seq<u8>)| decoded(row.0, row.1);
    if 0 <= i < rows.len() {
        assert(f(rows[i]) == decoded(rows[i].0, rows[i].1));
    }
}

/// Rows stand in order if their numbers ascend and are all below the next one.
pub proof fn rows_ascend(rows: Seq<(u64, Seq<u8>)>, next: u64, i: int, j: int)
    ensures
        in_order(rows, next) && 0 <= i < j < rows.len() ==> rows[i].0 < rows[j].0,
        in_order(rows, next) && 0 <= i < rows.len() ==> rows[i].0 < next,
        0 <= i < j < rows.len() && rows[i].0 >= rows[j].0 ==> !in_order(rows, next),
        0 <= i < rows.len() && rows[i].0 >= next ==> !in_order(rows, next),
{
}

/// The first row that is out of order is one whose number is not above that before it, or
/// not below the next one.
pub proof fn the_first_row_out_of_order_is_found(rows: Seq<(u64, Seq<u8>)>, next: u64, i: int)
    requires
        0 <= i < rows.len(),
        forall|a: int, b: int| 0 <= a < b < i ==> (#[trigger] rows[a]).0 < (#[trigger] rows[b]).0,
        forall|a: int| 0 <= a < i ==> (#[trigger] rows[a]).0 < next,
    ensures
        i > 0 && rows[i].0 <= rows[i - 1].0 ==> first_out_of_order(rows, next, i),
        rows[i].0 >= next ==> first_out_of_order(rows, next, i),
        (i == 0 || rows[i].0 > rows[i - 1].0) && rows[i].0 < next ==> !first_out_of_order(
            rows,
            next,
            i,
        ),
{
    let before = rows.take(i);
    let with = rows.take(i + 1);
    assert(in_order(before, next));
    assert(with[i] == rows[i]);
    if i > 0 {
        assert(with[i - 1] == rows[i - 1]);
    }
    if (i == 0 || rows[i].0 > rows[i - 1].0) && rows[i].0 < next {
        assert forall|a: int, b: int| 0 <= a < b < with.len() implies (#[trigger] with[a]).0 < (
        #[trigger] with[b]).0 by {
            if b == i && a < i - 1 {
                assert(rows[a].0 < rows[i - 1].0);
            }
        }
        assert(in_order(with, next));
    }
}

/// A gauge keeps in step with its buffer if what it shows of other buffers stays the same.
pub proof fn gauges_in_step_show_the_others_unchanged(
    gauges: Map<u64, u64>,
    buffer: BufferView,
    gauges_after: Map<u64, u64>,
    after: BufferView,
    gauge: QueueDepthGauge,
    others: nat,
)
    requires
        buffer.gauge == Some(gauge),
        after.gauge == Some(gauge),
        shown(gauges, gauge) == others + rows_size(buffer.rows),
        others + rows_size(after.rows) <= u64::MAX,
    ensures
        gauge_in_step(gauges, buffer, gauges_after, after) <==> shown(gauges_after, gauge) == others
            + rows_size(after.rows),
{
}

/// An error of the buffer says what it is of.
pub proof fn buffer_errors_say_what_they_are(s: String, a: u64, b: u64, n: usize)
    ensures
        BufferError::Sqlite(s).text() == "sqlite error: "@ + s@,
        (BufferError::Full { current_bytes: a, max_bytes: b }).text() == "buffer full ("@ + decimal(
            a as nat,
        ) + " bytes, max "@ + decimal(b as nat) + seq![')'],
        (BufferError::EntryTooLarge { len: n }).text() == "buffer entry too large ("@ + decimal(
            n as nat,
        ) + " bytes, max 4294967295)"@,
        (BufferError::Corrupt { sequence: a }).text() == "corrupt entry at sequence "@ + decimal(
            a as nat,
        ),
{
    reveal_strlit(")");
    assert(")"@ =~= seq![')']);
}

// ---------------------------------------------------------------------------
// Counts
// ---------------------------------------------------------------------------

/// An error that is more than an hour old is forgotten with those before it; from the first
/// one on that is not, all stay.
pub proof fn errors_are_forgotten_after_an_hour(old: Seq<u64>, rest: Seq<u64>, now: u64)
    requires
        forall|i: int| 0 <= i < old.len() ==> now - #[trigger] old[i] > 3600 * 1_000_000_000,
        rest.len() == 0 || now - rest[0] <= 3600 * 1_000_000_000,
    ensures
        last_hour(old + rest, now) == rest,
    decreases old.len(),
{
    let all = old + rest;
    if old.len() > 0 {
        assert(all[0] == old[0]);
        assert(all.skip(1) =~= old.skip(1) + rest);
        assert forall|i: int| 0 <= i < old.skip(1).len() implies now - #[trigger] old.skip(1)[i]
            > 3600 * 1_000_000_000 by {
            assert(old.skip(1)[i] == old[i + 1]);
        }
        errors_are_forgotten_after_an_hour(old.skip(1), rest, now);
    } else {
        assert(all =~= rest);
    }
}

/// At the start nothing is counted.
pub proof fn counts_start_at_zero(gauge: QueueDepthGauge)
    ensures
        ({
            let c = no_counts(gauge);
            &&& c.bytes_sent == 0 && c.errors_total == 0 && c.streams_active == 0
            &&& c.samples_pending == 0 && c.samples_completed == 0 && c.entries_overflowed == 0
            &&& c.spans_built == 0 && c.spans_ship_failed == 0 && c.spans_propagated == 0
            &&& c.spans_minted == 0 && c.spans_parented == 0 && c.spans_cross_linked == 0
            &&& c.spans_kind_from_bytes == 0 && c.ebpf_capture_read_faults == 0
            &&& c.queue_depth == gauge && shown(c.gauges, gauge) == 0
            &&& c.error_times.len() == 0
            &&& forall|id: Seq<char>| !c.sources.contains_key(id)
        }),
        no_split().entry_json == 0 && no_split().raw_text == 0 && no_split().raw_bytes == 0,
{
}

/// A gauge shows what was put in less what was taken out, and other gauges do not move.
pub proof fn gauges_follow_their_buffer(
    gauges: Map<u64, u64>,
    gauge: QueueDepthGauge,
    other: QueueDepthGauge,
    bytes: u64,
)
    ensures
        shown(Map::<u64, u64>::empty(), gauge) == 0,
        shown(gauges, gauge) + bytes <= u64::MAX ==> shown(
            gauges_with(gauges, Some(gauge), bytes as nat),
            gauge,
        ) == shown(gauges, gauge) + bytes,
        bytes <= shown(gauges, gauge) ==> shown(
            gauges_without(gauges, Some(gauge), bytes as nat),
            gauge,
        ) == shown(gauges, gauge) - bytes,
        bytes > shown(gauges, gauge) ==> shown(
            gauges_without(gauges, Some(gauge), bytes as nat),
            gauge,
        ) == 0,
        other.id() != gauge.id() ==> shown(gauges_with(gauges, Some(gauge), bytes as nat), other)
            == shown(gauges, other) && shown(
            gauges_without(gauges, Some(gauge), bytes as nat),
            other,
        ) == shown(gauges, other),
        gauges_with(gauges, None, bytes as nat) == gauges,
        gauges_without(gauges, None, bytes as nat) == gauges,
{
}

// ---------------------------------------------------------------------------
// Entries under keys
// ---------------------------------------------------------------------------

/// The first entry of a key gives it its value; a key without an entry has none.
pub proof fn the_first_entry_counts<V>(
    before: Seq<(String, V)>,
    entry: (String, V),
    after: Seq<(String, V)>,
)
    requires
        forall|i: int| 0 <= i < before.len() ==> (#[trigger] before[i]).0@ != entry.0@,
    ensures
        map_of(before + seq![entry] + after).contains_key(entry.0@),
        map_of(before + seq![entry] + after)[entry.0@] == entry.1,
        !map_of(before).contains_key(entry.0@),
{
    let all = before + seq![entry] + after;
    let n = before.len() as int;
    assert forall|i: int| 0 <= i < n implies #[trigger] all[i].0@ != entry.0@ by {
        assert(all[i] == before[i]);
    }
    assert(all[n] == entry);
    lemma_position_at(all, entry.0@, n);
    lemma_position_at(before, entry.0@, n);
}

/// Keys are kept if they are listed, or if they are not.
pub proof fn listed_keys_are_kept<V>(m: Map<Seq<char>, V>, keys: Seq<Seq<char>>, key: Seq<char>)
    requires
        m.contains_key(key),
    ensures
        m.restrict(listed_keys(keys, true)).contains_key(key) == keys.contains(key),
        m.restrict(listed_keys(keys, false)).contains_key(key) == !keys.contains(key),
        keys.contains(key) ==> m.restrict(listed_keys(keys, true))[key] == m[key],
        !keys.contains(key) ==> m.restrict(listed_keys(keys, false))[key] == m[key],
{
}

/// A document is shown as what it is, part by part.
pub proof fn documents_are_shown_as_they_are(
    b: bool,
    n: u64,
    m: i64,
    s: String,
    items: Vec<Json>,
    entries: Vec<(String, Json)>,
    i: int,
)
    ensures
        Json::Null@ == JsonView::Null,
        Json::Bool(b)@ == JsonView::Bool(b),
        Json::Number(Number::Unsigned(n))@ == JsonView::Unsigned(n),
        Json::Number(Number::Negative(m))@ == JsonView::Negative(m),
        Json::Number(Number::Float(s))@ == JsonView::Float(s@),
        Json::Text(s)@ == JsonView::Text(s@),
        Json::Array(items)@ is Array,
        Json::Array(items)@->Array_0.len() == items@.len(),
        0 <= i < items@.len() ==> Json::Array(items)@->Array_0[i] == items@[i]@,
        Json::Object(entries)@ is Object,
        Json::Object(entries)@->Object_0.len() == entries@.len(),
        0 <= i < entries@.len() ==> Json::Object(entries)@->Object_0[i] == (
            entries@[i].0@,
            entries@[i].1@,
        ),
{
}

/// A value is read as what it is, and as nothing else.
pub proof fn values_are_read_as_what_they_are(
    s: Seq<char>,
    b: bool,
    n: u64,
    items: Seq<JsonView>,
    entries: Seq<(Seq<char>, JsonView)>,
    v: JsonView,
)
    ensures
        JsonView::Text(s).as_str() == Some(s),
        JsonView::Bool(b).as_bool() == Some(b),
        JsonView::Unsigned(n).as_u64() == Some(n),
        JsonView::Array(items).as_array() == Some(items),
        JsonView::Object(entries).as_object() == Some(entries),
        !(v is Text) ==> v.as_str() is None,
        !(v is Bool) ==> v.as_bool() is None,
        !(v is Unsigned) ==> v.as_u64() is None,
        !(v is Array) ==> v.as_array() is None,
        !(v is Object) ==> v.as_object() is None,
        !(v is Object) ==> v.get(s) is None,
{
}

/// An object of texts is the map that it writes, the last entry of a key counting; one value
/// of another kind spoils it.
pub proof fn objects_of_texts_are_maps(
    entries: Seq<(Seq<char>, JsonView)>,
    key: Seq<char>,
    s: Seq<char>,
    other: JsonView,
)
    ensures
        text_entries(Seq::<(Seq<char>, JsonView)>::empty()) == Some(
            Map::<Seq<char>, Seq<char>>::empty(),
        ),
        text_entries(entries) is Some ==> text_entries(entries.push((key, JsonView::Text(s))))
            == Some(text_entries(entries)->0.insert(key, s)),
        !(other is Text) ==> text_entries(entries.push((key, other))) is None,
        text_entries(entries) is None ==> text_entries(entries.push((key, other))) is None,
{
    assert(entries.push((key, JsonView::Text(s))).drop_last() =~= entries);
    assert(entries.push((key, other)).drop_last() =~= entries);
}

// ---------------------------------------------------------------------------
// Digests
// ---------------------------------------------------------------------------

/// A field is digested behind its length in bytes and a colon, and with a semicolon behind
/// it; fields one after another.
pub proof fn fields_are_digested_with_their_length(field: Seq<char>, rest: Seq<Seq<char>>)
    ensures
        hash_field(field) == decimal(encode_utf8(field).len()) + seq![':'] + field + seq![';'],
        hash_fields(Seq::<Seq<char>>::empty()) == Seq::<char>::empty(),
        hash_fields(seq![field] + rest) == hash_field(field) + hash_fields(rest),
        fields_bytes(rest) == encode_utf8(hash_fields(rest)),
        fields_hash(rest) == sha256_hex(encode_utf8(hash_fields(rest))),
{
    reveal_strlit(":");
    reveal_strlit(";");
    assert(":"@ =~= seq![':'] && ";"@ =~= seq![';']);
    assert((seq![field] + rest)[0] == field);
    assert((seq![field] + rest).skip(1) =~= rest);
}

/// Settings are digested with bars between them, unless a field holds a bar that has no
/// right to; then with their lengths.
pub proof fn settings_are_digested_with_bars(fields: Seq<Seq<char>>, free: int, i: int, k: int)
    ensures
        (forall|a: int, b: int|
            0 <= a < fields.len() && a != free && 0 <= b < fields[a].len() ==> #[trigger] fields[a][b]
                != '|') ==> settings_bytes(fields, free) == encode_utf8(joined(fields, seq!['|'])),
        0 <= i < fields.len() && i != free && 0 <= k < fields[i].len() && fields[i][k] == '|'
            ==> settings_bytes(fields, free) == encode_utf8(hash_fields(fields)),
        settings_hash(fields, free) == sha256_hex(settings_bytes(fields, free)),
{
    reveal_strlit("|");
    assert("|"@ =~= seq!['|']);
    if forall|a: int, b: int|
        0 <= a < fields.len() && a != free && 0 <= b < fields[a].len() ==> #[trigger] fields[a][b]
            != '|' {
        assert(crate::config::hash::can_be_barred(fields, free));
    }
    if 0 <= i < fields.len() && i != free && 0 <= k < fields[i].len() && fields[i][k] == '|' {
        assert(!crate::config::hash::no_bar(fields[i]));
        assert(!crate::config::hash::can_be_barred(fields, free));
    }
}

} // verus!
