//! The buffer that log lines wait in until their delivery is confirmed.
//!
//! Lines are put in, looked at without being taken out, and deleted only once the
//! endpoint has confirmed them. A line stands in the buffer as an entry: eight
//! bytes with the time, four with the length, both with the highest byte first,
//! and the line itself.
use vstd::arithmetic::power::pow;
use vstd::prelude::*;
use vstd::string::*;

use crate::counters::{drained, shown, wrapped, Gauges, QueueDepthGauge};
use crate::text::{concat, decimal, decimal_of, opt_str_view, parse_u64, parsed};

verus! {

// ---------------------------------------------------------------------------
// Sizes
// ---------------------------------------------------------------------------

/// A mebibyte.
pub const MIB: u64 = 1_048_576;

/// How much of a buffer is cached unless something else is asked for, in MiB.
pub const DEFAULT_CACHE_MB: u64 = 8;

/// How much of a buffer is cached at least, in MiB.
pub const MIN_CACHE_MB: u64 = 1;

/// At least the minimum.
pub open spec fn floored_mb(mb: u64) -> u64 {
    if mb < MIN_CACHE_MB {
        MIN_CACHE_MB
    } else {
        mb
    }
}

/// The number of MiB that the environment asks for, or the default.
pub open spec fn env_cache_mb(env: Option<Seq<char>>) -> u64 {
    floored_mb(
        match env {
            Some(raw) => match parsed(raw, 10, u64::MAX as nat) {
                Some(n) => n as u64,
                None => DEFAULT_CACHE_MB,
            },
            None => DEFAULT_CACHE_MB,
        },
    )
}

/// The number of MiB to cache: what the configuration asks for, else what the
/// environment does, else the default.
pub open spec fn cache_mb_for(override_mb: Option<u64>, env: Option<Seq<char>>) -> u64 {
    match override_mb {
        Some(mb) => floored_mb(mb),
        None => env_cache_mb(env),
    }
}

/// A number of MiB in bytes, or as many as a size can be.
pub open spec fn mb_bytes(mb: u64) -> usize {
    if mb * MIB > usize::MAX {
        usize::MAX
    } else {
        (mb * MIB) as usize
    }
}

/// A number of MiB in bytes, or as many as a size can be.
pub fn bytes_of_mb(mb: u64) -> (r: usize)
    ensures
        r == mb_bytes(mb),
{
    if mb > usize::MAX as u64 / MIB {
        usize::MAX
    } else {
        (mb * MIB) as usize
    }
}

fn floor_mb(mb: u64) -> (r: u64)
    ensures
        r == floored_mb(mb),
{
    if mb < MIN_CACHE_MB {
        MIN_CACHE_MB
    } else {
        mb
    }
}

/// How many bytes of a buffer are cached, as the environment asks for.
pub fn cache_size_bytes(env: Option<&str>) -> (r: usize)
    ensures
        r == mb_bytes(env_cache_mb(opt_str_view(env))),
        r >= MIN_CACHE_MB * MIB,
{
    let mb = match env {
        Some(raw) => match parse_u64(raw) {
            Some(n) => n,
            None => DEFAULT_CACHE_MB,
        },
        None => DEFAULT_CACHE_MB,
    };
    bytes_of_mb(floor_mb(mb))
}

/// How many bytes of a buffer are cached: what the configuration asks for, else
/// what the environment does, else the default. Whatever is asked for, it is the
/// minimum at least.
pub fn cache_bytes_for(override_mb: Option<u64>, env: Option<&str>) -> (r: usize)
    ensures
        r == mb_bytes(cache_mb_for(override_mb, opt_str_view(env))),
        r >= MIN_CACHE_MB * MIB,
{
    match override_mb {
        Some(mb) => bytes_of_mb(floor_mb(mb)),
        None => cache_size_bytes(env),
    }
}

// ---------------------------------------------------------------------------
// Entries
// ---------------------------------------------------------------------------

/// A number in so many bytes, the highest first.
pub open spec fn be(v: nat, n: nat) -> Seq<u8>
    decreases n,
{
    if n == 0 {
        seq![]
    } else {
        be(v / 256, (n - 1) as nat).push((v % 256) as u8)
    }
}

/// The number that bytes write, the highest first.
pub open spec fn from_be(s: Seq<u8>) -> nat
    decreases s.len(),
{
    if s.len() == 0 {
        0
    } else {
        from_be(s.drop_last()) * 256 + s.last() as nat
    }
}

proof fn lemma_be_len(v: nat, n: nat)
    ensures
        be(v, n).len() == n,
    decreases n,
{
    if n > 0 {
        lemma_be_len(v / 256, (n - 1) as nat);
    }
}

/// A number that fits comes back.
proof fn lemma_be_round_trip(v: nat, n: nat)
    requires
        v < pow(256, n),
    ensures
        from_be(be(v, n)) == v,
    decreases n,
{
    reveal(pow);
    if n > 0 {
        let m = (n - 1) as nat;
        assert(pow(256, n) == 256 * pow(256, m));
        assert(v / 256 < pow(256, m));
        lemma_be_round_trip(v / 256, m);
        assert(be(v, n).drop_last() =~= be(v / 256, m));
        assert(be(v, n).last() == (v % 256) as u8);
    }
}

pub proof fn lemma_from_be_bound(s: Seq<u8>)
    ensures
        from_be(s) < pow(256, s.len()),
    decreases s.len(),
{
    reveal(pow);
    if s.len() > 0 {
        lemma_from_be_bound(s.drop_last());
        assert(pow(256, s.len()) == 256 * pow(256, (s.len() - 1) as nat));
    }
}

pub proof fn lemma_powers()
    ensures
        pow(256, 4) == 0x1_0000_0000,
        pow(256, 8) == 0x1_0000_0000_0000_0000,
{
    reveal_with_fuel(pow, 9);
}

fn be_bytes(v: u64, n: usize) -> (r: Vec<u8>)
    ensures
        r@ == be(v as nat, n as nat),
    decreases n,
{
    if n == 0 {
        Vec::new()
    } else {
        let mut out = be_bytes(v / 256, n - 1);
        out.push((v % 256) as u8);
        out
    }
}

fn from_be_bytes(raw: &[u8], from: usize, n: usize) -> (r: u64)
    requires
        n <= 8,
        from + n <= raw@.len(),
    ensures
        r == from_be(raw@.subrange(from as int, from + n)),
{
    let ghost s = raw@.subrange(from as int, from + n);
    let total = raw.len();
    let mut acc: u64 = 0;
    let mut i: usize = 0;
    while i < n
        invariant
            i <= n <= 8,
            total == raw@.len(),
            from + n <= total,
            s == raw@.subrange(from as int, from + n),
            acc == from_be(s.take(i as int)),
        decreases n - i,
    {
        proof {
            let next = s.take(i + 1);
            assert(next.drop_last() =~= s.take(i as int));
            assert(next.last() == raw@[from + i]);
            lemma_from_be_bound(next);
            lemma_powers();
            vstd::arithmetic::power::lemma_pow_increases(256, (i + 1) as nat, 8);
        }
        acc = acc * 256 + raw[from + i] as u64;
        i = i + 1;
    }
    assert(s.take(i as int) =~= s);
    acc
}

/// The bits of a time as an unsigned number.
pub open spec fn time_bits(ns: i64) -> nat {
    if ns < 0 {
        (ns + 0x1_0000_0000_0000_0000) as nat
    } else {
        ns as nat
    }
}

/// The time with these bits.
pub open spec fn bits_time(bits: nat) -> int {
    if bits > i64::MAX {
        bits - 0x1_0000_0000_0000_0000
    } else {
        bits as int
    }
}

fn bits_of(ns: i64) -> (r: u64)
    ensures
        r == time_bits(ns),
{
    if ns < 0 {
        u64::MAX - (-(ns + 1)) as u64
    } else {
        ns as u64
    }
}

fn time_of(bits: u64) -> (r: i64)
    ensures
        r == bits_time(bits as nat),
{
    if bits > i64::MAX as u64 {
        -((u64::MAX - bits) as i64) - 1
    } else {
        bits as i64
    }
}

/// An entry: the time, the length and the line.
pub open spec fn entry_bytes(timestamp_ns: i64, data: Seq<u8>) -> Seq<u8> {
    be(time_bits(timestamp_ns), 8) + be(data.len(), 4) + data
}

/// A line that stands in the buffer, with its number.
#[derive(Debug)]
pub struct BufferedEntry {
    /// The number, which orders the lines.
    pub sequence: u64,
    /// The time, in nanoseconds since the epoch.
    pub timestamp_ns: i64,
    /// The line.
    pub data: Vec<u8>,
}

/// What an entry says.
pub struct EntryView {
    pub sequence: u64,
    pub timestamp_ns: int,
    pub data: Seq<u8>,
}

impl View for BufferedEntry {
    type V = EntryView;

    open spec fn view(&self) -> EntryView {
        EntryView {
            sequence: self.sequence,
            timestamp_ns: self.timestamp_ns as int,
            data: self.data@,
        }
    }
}

pub open spec fn buffered_views(entries: Seq<BufferedEntry>) -> Seq<EntryView> {
    entries.map_values(|e: BufferedEntry| e@)
}

/// The line that an entry holds, unless the entry is cut short.
pub open spec fn decoded(sequence: u64, raw: Seq<u8>) -> Option<EntryView> {
    if raw.len() < 12 {
        None
    } else {
        let n = from_be(raw.subrange(8, 12));
        if raw.len() < 12 + n {
            None
        } else {
            Some(
                EntryView {
                    sequence,
                    timestamp_ns: bits_time(from_be(raw.subrange(0, 8))),
                    data: raw.subrange(12, 12 + n as int),
                },
            )
        }
    }
}

/// What can go wrong with the buffer.
#[derive(Debug, Clone, PartialEq, Eq)]
pub enum BufferError {
    /// The file of the buffer could not be read or written, for the reason given.
    Sqlite(String),
    /// The lines would not fit.
    Full { current_bytes: u64, max_bytes: u64 },
    /// A line is longer than its length can say.
    EntryTooLarge { len: usize },
    /// An entry is cut short, or stands out of order.
    Corrupt { sequence: u64 },
}

impl BufferError {
    /// What went wrong, in words.
    pub open spec fn text(&self) -> Seq<char> {
        match self {
            BufferError::Sqlite(reason) => "sqlite error: "@ + reason@,
            BufferError::Full { current_bytes, max_bytes } => "buffer full ("@ + decimal(
                *current_bytes as nat,
            ) + " bytes, max "@ + decimal(*max_bytes as nat) + ")"@,
            BufferError::EntryTooLarge { len } => "buffer entry too large ("@ + decimal(
                *len as nat,
            ) + " bytes, max 4294967295)"@,
            BufferError::Corrupt { sequence } => "corrupt entry at sequence "@ + decimal(
                *sequence as nat,
            ),
        }
    }

    /// What went wrong, in words.
    pub fn message(&self) -> (r: String)
        ensures
            r@ == self.text(),
    {
        match self {
            BufferError::Sqlite(reason) => concat("sqlite error: ", reason.as_str()),
            BufferError::Full { current_bytes, max_bytes } => {
                let mut out = concat("buffer full (", decimal_of(*current_bytes).as_str());
                out.append(" bytes, max ");
                out.append(decimal_of(*max_bytes).as_str());
                out.append(")");
                out
            },
            BufferError::EntryTooLarge { len } => {
                let mut out = concat("buffer entry too large (", decimal_of(*len as u64).as_str());
                out.append(" bytes, max 4294967295)");
                out
            },
            BufferError::Corrupt { sequence } => concat(
                "corrupt entry at sequence ",
                decimal_of(*sequence).as_str(),
            ),
        }
    }
}

/// The length of a line, if an entry can say it.
pub fn checked_data_len(len: usize) -> (r: Result<u32, BufferError>)
    ensures
        r == if len <= u32::MAX {
            Ok::<u32, BufferError>(len as u32)
        } else {
            Err(BufferError::EntryTooLarge { len })
        },
{
    if len as u64 <= u32::MAX as u64 {
        Ok(len as u32)
    } else {
        Err(BufferError::EntryTooLarge { len })
    }
}

/// The entry for a line.
pub fn encode_entry(timestamp_ns: i64, data: &[u8]) -> (r: Result<Vec<u8>, BufferError>)
    ensures
        match r {
            Ok(bytes) => data@.len() <= u32::MAX && bytes@ == entry_bytes(timestamp_ns, data@),
            Err(e) => data@.len() > u32::MAX && e is EntryTooLarge && e->len == data@.len(),
        },
{
    let len = match checked_data_len(data.len()) {
        Ok(len) => len,
        Err(e) => {
            return Err(e);
        },
    };
    let mut out = be_bytes(bits_of(timestamp_ns), 8);
    let mut length = be_bytes(len as u64, 4);
    out.append(&mut length);
    let ghost head = out@;
    let mut i: usize = 0;
    while i < data.len()
        invariant
            i <= data@.len(),
            out@ == head + data@.take(i as int),
        decreases data.len() - i,
    {
        out.push(data[i]);
        i = i + 1;
        assert(data@.take(i as int) =~= data@.take(i - 1).push(data@[i - 1]));
    }
    assert(data@.take(i as int) =~= data@);
    Ok(out)
}

/// The line that an entry holds, unless the entry is cut short.
pub fn decode_entry(sequence: u64, raw: &[u8]) -> (r: Option<BufferedEntry>)
    ensures
        match r {
            Some(e) => decoded(sequence, raw@) == Some(e@),
            None => decoded(sequence, raw@) is None,
        },
{
    if raw.len() < 12 {
        return None;
    }
    let timestamp_ns = time_of(from_be_bytes(raw, 0, 8));
    let n = from_be_bytes(raw, 8, 4);
    if (raw.len() - 12) as u64 >= n {
        let n = n as usize;
        let total = raw.len();
        let mut data: Vec<u8> = Vec::new();
        let mut i: usize = 0;
        while i < n
            invariant
                i <= n,
                total == raw@.len(),
                12 + n <= total,
                data@ == raw@.subrange(12, 12 + i),
            decreases n - i,
        {
            data.push(raw[12 + i]);
            i = i + 1;
            assert(raw@.subrange(12, 12 + i) =~= raw@.subrange(12, 12 + i - 1).push(
                raw@[12 + i - 1],
            ));
        }
        Some(BufferedEntry { sequence, timestamp_ns, data })
    } else {
        None
    }
}

/// An entry gives back the line it was made of.
pub proof fn entries_give_back_their_lines(sequence: u64, timestamp_ns: i64, data: Seq<u8>)
    requires
        data.len() <= u32::MAX,
    ensures
        decoded(sequence, entry_bytes(timestamp_ns, data)) == Some(
            EntryView { sequence, timestamp_ns: timestamp_ns as int, data },
        ),
        entry_bytes(timestamp_ns, data).len() == 12 + data.len(),
{
    let raw = entry_bytes(timestamp_ns, data);
    lemma_be_len(time_bits(timestamp_ns), 8);
    lemma_be_len(data.len(), 4);
    lemma_powers();
    lemma_be_round_trip(time_bits(timestamp_ns), 8);
    lemma_be_round_trip(data.len(), 4);
    assert(raw.subrange(0, 8) =~= be(time_bits(timestamp_ns), 8));
    assert(raw.subrange(8, 12) =~= be(data.len(), 4));
    assert(raw.subrange(12, 12 + data.len() as int) =~= data);
}

/// An entry that is cut short anywhere is refused.
pub proof fn cut_entries_are_refused(sequence: u64, timestamp_ns: i64, data: Seq<u8>, n: int)
    requires
        data.len() <= u32::MAX,
        0 <= n < entry_bytes(timestamp_ns, data).len(),
    ensures
        decoded(sequence, entry_bytes(timestamp_ns, data).take(n)) is None,
{
    let raw = entry_bytes(timestamp_ns, data);
    entries_give_back_their_lines(sequence, timestamp_ns, data);
    lemma_be_len(time_bits(timestamp_ns), 8);
    lemma_be_len(data.len(), 4);
    lemma_powers();
    lemma_be_round_trip(data.len(), 4);
    if n >= 12 {
        assert(raw.take(n).subrange(8, 12) =~= be(data.len(), 4));
    }
}

// ---------------------------------------------------------------------------
// The buffer
// ---------------------------------------------------------------------------

/// How hard a commit is pressed onto the disk.
#[derive(Debug, Clone, Copy, PartialEq, Eq, Structural)]
pub enum Durability {
    /// What is lost when the power fails can be read again from its source.
    Normal,
    /// Nothing may be lost when the power fails.
    Full,
}

/// One entry as it stands on the disk.
#[derive(Debug)]
pub struct StoredEntry {
    pub sequence: u64,
    pub bytes: Vec<u8>,
}

/// All that stands on the disk: the entries in order, and the number that the
/// next one gets.
#[derive(Debug)]
pub struct StoredRows {
    pub entries: Vec<StoredEntry>,
    pub next_sequence: u64,
}

impl StoredRows {
    /// A disk with nothing on it.
    pub fn empty() -> (r: Self)
        ensures
            row_views(r.entries@) == Seq::<(u64, Seq<u8>)>::empty(),
            r.next_sequence == 1,
    {
        let r = StoredRows { entries: Vec::new(), next_sequence: 1 };
        assert(row_views(r.entries@) =~= Seq::<(u64, Seq<u8>)>::empty());
        r
    }
}

/// What entries on the disk are: numbers and bytes.
pub open spec fn row_views(rows: Seq<StoredEntry>) -> Seq<(u64, Seq<u8>)> {
    rows.map_values(|r: StoredEntry| (r.sequence, r.bytes@))
}

/// How many bytes entries take.
pub open spec fn rows_size(rows: Seq<(u64, Seq<u8>)>) -> nat
    decreases rows.len(),
{
    if rows.len() == 0 {
        0
    } else {
        rows_size(rows.drop_last()) + rows.last().1.len()
    }
}

/// Whether the numbers of entries ascend and are all below the next one.
pub open spec fn in_order(rows: Seq<(u64, Seq<u8>)>, next: u64) -> bool {
    &&& forall|i: int, j: int|
        0 <= i < j < rows.len() ==> (#[trigger] rows[i]).0 < (#[trigger] rows[j]).0
    &&& forall|i: int| 0 <= i < rows.len() ==> (#[trigger] rows[i]).0 < next
}

/// The entries that lines become.
pub open spec fn encoded_rows(lines: Seq<Seq<u8>>, timestamp_ns: i64, first: u64) -> Seq<
    (u64, Seq<u8>),
> {
    Seq::new(
        lines.len(),
        |i: int| ((first + i) as u64, entry_bytes(timestamp_ns, lines[i])),
    )
}

/// What lines are.
pub open spec fn line_views(lines: Seq<Vec<u8>>) -> Seq<Seq<u8>> {
    lines.map_values(|l: Vec<u8>| l@)
}

/// The first line that an entry cannot hold, or the number of lines.
pub open spec fn first_too_large(lines: Seq<Seq<u8>>) -> nat
    decreases lines.len(),
{
    if lines.len() == 0 || lines[0].len() > u32::MAX {
        0
    } else {
        1 + first_too_large(lines.skip(1))
    }
}

/// The lines in the first entries, unless one of them is corrupt.
pub open spec fn peeked(rows: Seq<(u64, Seq<u8>)>) -> Option<Seq<EntryView>> {
    crate::seqs::all_of(rows, |row: (u64, Seq<u8>)| decoded(row.0, row.1))
}

/// The oldest entries, as many as asked for.
pub open spec fn oldest(rows: Seq<(u64, Seq<u8>)>, count: nat) -> Seq<(u64, Seq<u8>)> {
    if count < rows.len() {
        rows.take(count as int)
    } else {
        rows
    }
}

/// Whether an entry is the first one that is corrupt.
pub open spec fn first_corrupt(rows: Seq<(u64, Seq<u8>)>, i: int) -> bool {
    &&& 0 <= i < rows.len()
    &&& decoded(rows[i].0, rows[i].1) is None
    &&& forall|j: int| 0 <= j < i ==> decoded((#[trigger] rows[j]).0, rows[j].1) is Some
}

/// A buffer on disk.
pub struct DiskBuffer {
    rows: Vec<StoredEntry>,
    next_sequence: u64,
    current_bytes: u64,
    max_bytes: u64,
    cache_bytes: usize,
    durability: Durability,
    gauge: Option<QueueDepthGauge>,
}

/// What a buffer is.
#[verifier::ext_equal]
pub struct BufferView {
    /// The entries, oldest first, each with its number.
    pub rows: Seq<(u64, Seq<u8>)>,
    /// The number that the next entry gets.
    pub next: u64,
    /// How many bytes the entries may take.
    pub max_bytes: u64,
    /// How many bytes are cached.
    pub cache_bytes: usize,
    pub durability: Durability,
    /// The gauge that the buffer keeps in step, if it has one.
    pub gauge: Option<QueueDepthGauge>,
}

impl View for DiskBuffer {
    type V = BufferView;

    closed spec fn view(&self) -> BufferView {
        BufferView {
            rows: row_views(self.rows@),
            next: self.next_sequence,
            max_bytes: self.max_bytes,
            cache_bytes: self.cache_bytes,
            durability: self.durability,
            gauge: self.gauge,
        }
    }
}

/// Gauges after bytes went into a buffer with that gauge.
pub open spec fn gauges_with(
    gauges: Map<u64, u64>,
    gauge: Option<QueueDepthGauge>,
    bytes: nat,
) -> Map<u64, u64> {
    match gauge {
        Some(g) => gauges.insert(g.id(), wrapped(shown(gauges, g), bytes as u64)),
        None => gauges,
    }
}

/// Gauges after bytes left a buffer with that gauge.
pub open spec fn gauges_without(
    gauges: Map<u64, u64>,
    gauge: Option<QueueDepthGauge>,
    bytes: nat,
) -> Map<u64, u64> {
    match gauge {
        Some(g) => gauges.insert(g.id(), drained(shown(gauges, g), bytes as u64)),
        None => gauges,
    }
}

/// How much more a buffer's gauge shows than stands in the buffer: what stands in
/// the other buffers that keep the gauge.
pub open spec fn held_elsewhere(gauges: Map<u64, u64>, buffer: BufferView) -> int {
    match buffer.gauge {
        Some(g) => shown(gauges, g) - rows_size(buffer.rows),
        None => 0,
    }
}

/// Whether a buffer's gauge was moved as the buffer was: it shows what stands in the
/// other buffers, as before, and what stands in this one now.
pub open spec fn gauge_in_step(
    gauges: Map<u64, u64>,
    buffer: BufferView,
    gauges_after: Map<u64, u64>,
    after: BufferView,
) -> bool {
    let elsewhere = held_elsewhere(gauges, buffer);
    0 <= elsewhere && elsewhere + rows_size(after.rows) <= u64::MAX ==> held_elsewhere(
        gauges_after,
        after,
    ) == elsewhere
}

/// A number of MiB in bytes, or as many as can be counted.
pub open spec fn max_bytes_of(max_mb: u64) -> u64 {
    if max_mb * MIB > u64::MAX {
        u64::MAX
    } else {
        (max_mb * MIB) as u64
    }
}

proof fn lemma_size_push(rows: Seq<(u64, Seq<u8>)>, row: (u64, Seq<u8>))
    ensures
        rows_size(rows.push(row)) == rows_size(rows) + row.1.len(),
{
    assert(rows.push(row).drop_last() =~= rows);
}

proof fn lemma_size_add(a: Seq<(u64, Seq<u8>)>, b: Seq<(u64, Seq<u8>)>)
    ensures
        rows_size(a + b) == rows_size(a) + rows_size(b),
    decreases b.len(),
{
    if b.len() == 0 {
        assert(a + b =~= a);
    } else {
        assert((a + b).drop_last() =~= a + b.drop_last());
        lemma_size_add(a, b.drop_last());
    }
}

proof fn lemma_first_too_large(lines: Seq<Seq<u8>>)
    ensures
        first_too_large(lines) <= lines.len(),
        forall|i: int|
            0 <= i < first_too_large(lines) ==> (#[trigger] lines[i]).len() <= u32::MAX,
        first_too_large(lines) < lines.len() ==> lines[first_too_large(lines) as int].len()
            > u32::MAX,
    decreases lines.len(),
{
    if lines.len() > 0 && lines[0].len() <= u32::MAX {
        let rest = lines.skip(1);
        lemma_first_too_large(rest);
        assert forall|i: int| 0 <= i < first_too_large(lines) implies (#[trigger] lines[i]).len()
            <= u32::MAX by {
            if i > 0 {
                assert(lines[i] == rest[i - 1]);
            }
        }
        if first_too_large(lines) < lines.len() {
            assert(lines[first_too_large(lines) as int] == rest[first_too_large(rest) as int]);
        }
    }
}

proof fn lemma_first_too_large_is(lines: Seq<Seq<u8>>, n: int)
    requires
        0 <= n <= lines.len(),
        forall|i: int| 0 <= i < n ==> (#[trigger] lines[i]).len() <= u32::MAX,
        n < lines.len() ==> lines[n].len() > u32::MAX,
    ensures
        first_too_large(lines) == n,
{
    lemma_first_too_large(lines);
    let k = first_too_large(lines) as int;
    if k < n {
        assert(lines[k].len() <= u32::MAX);
    } else if n < k {
        assert(lines[n].len() <= u32::MAX);
    }
}

fn encode_lines(lines: &Vec<Vec<u8>>, timestamp_ns: i64, first: u64) -> (r: Result<
    Vec<StoredEntry>,
    BufferError,
>)
    requires
        first + lines@.len() <= u64::MAX,
    ensures
        ({
            let texts = line_views(lines@);
            let bad = first_too_large(texts);
            match r {
                Ok(rows) => bad == texts.len() && row_views(rows@) == encoded_rows(
                    texts,
                    timestamp_ns,
                    first,
                ),
                Err(e) => bad < texts.len() && e is EntryTooLarge && e->len
                    == texts[bad as int].len(),
            }
        }),
{
    let ghost texts = line_views(lines@);
    let ghost all = encoded_rows(texts, timestamp_ns, first);
    let mut rows: Vec<StoredEntry> = Vec::new();
    let mut i: usize = 0;
    assert(row_views(rows@) =~= all.take(0));
    while i < lines.len()
        invariant
            i <= lines@.len(),
            first + lines@.len() <= u64::MAX,
            texts == line_views(lines@),
            all == encoded_rows(texts, timestamp_ns, first),
            row_views(rows@) == all.take(i as int),
            forall|j: int| 0 <= j < i ==> (#[trigger] texts[j]).len() <= u32::MAX,
        decreases lines.len() - i,
    {
        assert(texts[i as int] == lines@[i as int]@);
        let bytes = match encode_entry(timestamp_ns, lines[i].as_slice()) {
            Ok(bytes) => bytes,
            Err(e) => {
                proof {
                    lemma_first_too_large_is(texts, i as int);
                }
                return Err(e);
            },
        };
        let ghost before = row_views(rows@);
        let ghost row = ((first + i) as u64, bytes@);
        rows.push(StoredEntry { sequence: first + i as u64, bytes });
        assert(row_views(rows@) =~= before.push(row));
        i = i + 1;
        assert(all.take(i as int) =~= all.take(i - 1).push(all[i - 1]));
    }
    proof {
        lemma_first_too_large_is(texts, i as int);
        assert(all.take(i as int) =~= all);
    }
    Ok(rows)
}

/// Whether more entries fit, and how many bytes there are then.
fn size_with(current: u64, max: u64, rows: &Vec<StoredEntry>) -> (r: Option<u64>)
    requires
        current <= max,
    ensures
        match r {
            Some(total) => total == current + rows_size(row_views(rows@)) && total <= max,
            None => current + rows_size(row_views(rows@)) > max,
        },
{
    let ghost all = row_views(rows@);
    let mut total = current;
    let mut i: usize = 0;
    assert(rows_size(all.take(0)) == 0);
    while i < rows.len()
        invariant
            i <= rows@.len(),
            all == row_views(rows@),
            current <= total <= max,
            total == current + rows_size(all.take(i as int)),
        decreases rows.len() - i,
    {
        let n = rows[i].bytes.len() as u64;
        proof {
            let next = all.take(i + 1);
            assert(next.drop_last() =~= all.take(i as int));
            assert(next.last() == all[i as int]);
            assert(all =~= next + all.skip(i + 1));
            lemma_size_add(next, all.skip(i + 1));
        }
        if n > max - total {
            return None;
        }
        total = total + n;
        i = i + 1;
    }
    assert(all.take(i as int) =~= all);
    Some(total)
}

impl DiskBuffer {
    /// The numbers of the entries ascend, all are below the next one, and the size
    /// is that of the entries.
    pub closed spec fn wf(&self) -> bool {
        &&& in_order(self@.rows, self@.next)
        &&& self.current_bytes == rows_size(self@.rows)
    }

    /// How many bytes the entries take.
    pub open spec fn size(&self) -> nat {
        rows_size(self@.rows)
    }

    /// The buffer over what stands on the disk, with the cache that the
    /// environment asks for. Its lines can be read again from their source.
    pub fn open(stored: StoredRows, max_mb: u64, cache_mb_env: Option<&str>) -> (r: Result<
        Self,
        BufferError,
    >)
        ensures
            opens(
                stored,
                max_mb,
                mb_bytes(env_cache_mb(opt_str_view(cache_mb_env))),
                Durability::Normal,
                r,
            ),
    {
        let cache_bytes = cache_size_bytes(cache_mb_env);
        Self::open_with_cache(stored, max_mb, cache_bytes, Durability::Normal)
    }

    /// The buffer over what stands on the disk. Entries that are out of order are
    /// refused.
    pub fn open_with_cache(
        stored: StoredRows,
        max_mb: u64,
        cache_bytes: usize,
        durability: Durability,
    ) -> (r: Result<Self, BufferError>)
        ensures
            opens(stored, max_mb, cache_bytes, durability, r),
    {
        let ghost all = row_views(stored.entries@);
        let max_bytes = if max_mb > u64::MAX / MIB {
            u64::MAX
        } else {
            max_mb * MIB
        };
        let mut current: u64 = 0;
        let mut i: usize = 0;
        assert(rows_size(all.take(0)) == 0);
        while i < stored.entries.len()
            invariant
                i <= stored.entries@.len(),
                all == row_views(stored.entries@),
                in_order(all.take(i as int), stored.next_sequence),
                current == rows_size(all.take(i as int)),
                max_bytes == max_bytes_of(max_mb),
            decreases stored.entries.len() - i,
        {
            let sequence = stored.entries[i].sequence;
            let n = stored.entries[i].bytes.len() as u64;
            proof {
                let next = all.take(i + 1);
                assert(next.drop_last() =~= all.take(i as int));
                assert(next.last() == all[i as int]);
                assert(all[i as int] == (sequence, stored.entries@[i as int].bytes@));
                assert(all =~= next + all.skip(i + 1));
                lemma_size_add(next, all.skip(i + 1));
            }
            if sequence >= stored.next_sequence || (i > 0 && stored.entries[i - 1].sequence
                >= sequence) {
                proof {
                    let next = all.take(i + 1);
                    assert(next[i as int] == all[i as int]);
                    if i > 0 {
                        assert(all[i - 1].0 == stored.entries@[i - 1].sequence);
                        assert(next[i - 1] == all[i - 1]);
                    }
                    assert(first_out_of_order(all, stored.next_sequence, i as int));
                }
                return Err(BufferError::Corrupt { sequence });
            }
            if n > u64::MAX - current {
                return Err(BufferError::Full { current_bytes: u64::MAX, max_bytes });
            }
            proof {
                let next = all.take(i + 1);
                assert forall|a: int, b: int| 0 <= a < b < next.len() implies (
                #[trigger] next[a]).0 < (#[trigger] next[b]).0 by {
                    if b < i {
                        assert(all.take(i as int)[a] == next[a] && all.take(i as int)[b]
                            == next[b]);
                    } else if a < i - 1 {
                        assert(all.take(i as int)[a] == next[a]);
                        assert(all.take(i as int)[i - 1] == all[i - 1]);
                        assert(all[i - 1].0 == stored.entries@[i - 1].sequence);
                    } else {
                        assert(all[i - 1].0 == stored.entries@[i - 1].sequence);
                    }
                }
                assert forall|a: int| 0 <= a < next.len() implies (#[trigger] next[a]).0
                    < stored.next_sequence by {
                    if a < i {
                        assert(all.take(i as int)[a] == next[a]);
                    }
                }
            }
            current = current + n;
            i = i + 1;
        }
        assert(all.take(i as int) =~= all);
        Ok(
            DiskBuffer {
                rows: stored.entries,
                next_sequence: stored.next_sequence,
                current_bytes: current,
                max_bytes,
                cache_bytes,
                durability,
                gauge: None,
            },
        )
    }

    /// What has to stand on the disk.
    pub fn stored(&self) -> (r: StoredRows)
        ensures
            row_views(r.entries@) == self@.rows,
            r.next_sequence == self@.next,
    {
        let entries = copy_rows(&self.rows, self.rows.len());
        assert(self.rows@.take(self.rows@.len() as int) =~= self.rows@);
        StoredRows { entries, next_sequence: self.next_sequence }
    }

    /// Puts lines into the buffer, all of them or none, and says which numbers
    /// they got. What goes in is added to the buffer's gauge.
    pub fn enqueue_batch(
        &mut self,
        lines: &Vec<Vec<u8>>,
        timestamp_ns: i64,
        gauges: &mut Gauges,
    ) -> (r: Result<(u64, u64), BufferError>)
        requires
            old(self).wf(),
            old(self)@.next + lines@.len() <= u64::MAX,
        ensures
            final(self).wf(),
            gauge_in_step(old(gauges)@, old(self)@, final(gauges)@, final(self)@),
            r is Ok ==> final(self)@.rows.len() == old(self)@.rows.len() + lines@.len(),
            r is Err || lines@.len() == 0 ==> final(gauges)@ == old(gauges)@,
            ({
                let texts = line_views(lines@);
                let bad = first_too_large(texts);
                let added = encoded_rows(texts, timestamp_ns, old(self)@.next);
                let size = old(self).size() + rows_size(added);
                match r {
                    Ok(range) => if texts.len() == 0 {
                        range == (0u64, 0u64) && final(self)@ == old(self)@
                    } else {
                        &&& bad == texts.len()
                        &&& size <= old(self)@.max_bytes
                        &&& range.0 == old(self)@.next
                        &&& range.1 == old(self)@.next + texts.len() - 1
                        &&& final(self)@ == (BufferView {
                            rows: old(self)@.rows + added,
                            next: (old(self)@.next + texts.len()) as u64,
                            ..old(self)@
                        })
                        &&& final(gauges)@ == gauges_with(
                            old(gauges)@,
                            old(self)@.gauge,
                            rows_size(added),
                        )
                    },
                    Err(BufferError::EntryTooLarge { len }) => bad < texts.len() && len
                        == texts[bad as int].len() && final(self)@ == old(self)@,
                    Err(BufferError::Full { current_bytes, max_bytes }) => {
                        &&& bad == texts.len() && texts.len() > 0
                        &&& size > old(self)@.max_bytes
                        &&& current_bytes == old(self).size()
                        &&& max_bytes == old(self)@.max_bytes
                        &&& final(self)@ == old(self)@
                    },
                    Err(_) => false,
                }
            }),
    {
        if lines.len() == 0 {
            return Ok((0, 0));
        }
        let first = self.next_sequence;
        let mut added = match encode_lines(lines, timestamp_ns, first) {
            Ok(added) => added,
            Err(e) => {
                proof {
                    lemma_first_too_large(line_views(lines@));
                }
                return Err(e);
            },
        };
        let full = BufferError::Full {
            current_bytes: self.current_bytes,
            max_bytes: self.max_bytes,
        };
        let before_bytes = self.current_bytes;
        if before_bytes > self.max_bytes {
            return Err(full);
        }
        let total = match size_with(self.current_bytes, self.max_bytes, &added) {
            Some(total) => total,
            None => {
                return Err(full);
            },
        };
        let n = lines.len() as u64;
        let ghost before = self@.rows;
        let ghost more = row_views(added@);
        self.rows.append(&mut added);
        self.next_sequence = first + n;
        self.current_bytes = total;
        if let Some(gauge) = self.gauge {
            gauge.add(gauges, total - before_bytes);
        }
        proof {
            assert(self@.rows =~= before + more);
            lemma_size_add(before, more);
            let rows = self@.rows;
            assert forall|i: int, j: int| 0 <= i < j < rows.len() implies (#[trigger] rows[i]).0 < (
            #[trigger] rows[j]).0 by {
                if j < before.len() {
                    assert(rows[i] == before[i] && rows[j] == before[j]);
                } else if i < before.len() {
                    assert(rows[i] == before[i]);
                    assert(rows[j] == more[j - before.len()]);
                } else {
                    assert(rows[i] == more[i - before.len()]);
                    assert(rows[j] == more[j - before.len()]);
                }
            }
            assert forall|i: int| 0 <= i < rows.len() implies (#[trigger] rows[i]).0
                < self.next_sequence by {
                if i < before.len() {
                    assert(rows[i] == before[i]);
                } else {
                    assert(rows[i] == more[i - before.len()]);
                }
            }
        }
        Ok((first, first + n - 1))
    }

    /// The oldest lines, as many as asked for, without taking them out. The first
    /// entry that is corrupt among them is reported.
    pub fn peek(&self, count: usize) -> (r: Result<Vec<BufferedEntry>, BufferError>)
        ensures
            ({
                let rows = oldest(self@.rows, count as nat);
                match r {
                    Ok(entries) => peeked(rows) == Some(buffered_views(entries@)),
                    Err(e) => e is Corrupt && exists|i: int|
                        first_corrupt(rows, i) && (#[trigger] rows[i]).0 == e->sequence,
                }
            }),
    {
        let n = if count < self.rows.len() {
            count
        } else {
            self.rows.len()
        };
        let ghost rows = oldest(self@.rows, count as nat);
        let ghost f = |row: (u64, Seq<u8>)| decoded(row.0, row.1);
        let mut out: Vec<BufferedEntry> = Vec::new();
        let mut i: usize = 0;
        while i < n
            invariant
                i <= n <= self.rows@.len(),
                rows == self@.rows.take(n as int),
                rows == oldest(self@.rows, count as nat),
                f == (|row: (u64, Seq<u8>)| decoded(row.0, row.1)),
                out@.len() == i,
                forall|j: int|
                    0 <= j < i ==> decoded((#[trigger] rows[j]).0, rows[j].1) == Some(
                        buffered_views(out@)[j],
                    ),
            decreases n - i,
        {
            let row = &self.rows[i];
            assert(rows[i as int] == (row.sequence, row.bytes@));
            match decode_entry(row.sequence, row.bytes.as_slice()) {
                Some(entry) => {
                    let ghost before = buffered_views(out@);
                    out.push(entry);
                    assert(buffered_views(out@) =~= before.push(entry@));
                },
                None => {
                    assert(first_corrupt(rows, i as int));
                    return Err(BufferError::Corrupt { sequence: row.sequence });
                },
            }
            i = i + 1;
        }
        proof {
            assert forall|j: int| 0 <= j < rows.len() implies f(#[trigger] rows[j]) is Some by {}
            assert(peeked(rows)->0 =~= buffered_views(out@));
        }
        Ok(out)
    }

    /// Deletes the entries with these numbers, after their delivery is confirmed.
    /// All others stay. What goes is taken off the buffer's gauge.
    pub fn delete_sequences(&mut self, sequences: &Vec<u64>, gauges: &mut Gauges) -> (r: Result<
        (),
        BufferError,
    >)
        requires
            old(self).wf(),
        ensures
            final(self).wf(),
            r is Ok,
            final(self).size() <= old(self).size(),
            final(gauges)@ == gauges_without(
                old(gauges)@,
                old(self)@.gauge,
                (old(self).size() - final(self).size()) as nat,
            ),
            gauge_in_step(old(gauges)@, old(self)@, final(gauges)@, final(self)@),
            final(self)@.rows.len() == old(self)@.rows.len() - listed(
                old(self)@.rows,
                sequences@,
            ).len(),
            final(self)@ == (BufferView {
                rows: old(self)@.rows.filter(
                    |row: (u64, Seq<u8>)| !sequences@.contains(row.0),
                ),
                ..old(self)@
            }),
    {
        let ghost all = self@.rows;
        let ghost keep = |row: (u64, Seq<u8>)| !sequences@.contains(row.0);
        let mut taken: Vec<StoredEntry> = Vec::new();
        core::mem::swap(&mut self.rows, &mut taken);
        let ghost whole = taken@;
        let mut rows: Vec<StoredEntry> = Vec::new();
        let mut current: u64 = 0;
        let next = self.next_sequence;
        proof {
            reveal(Seq::filter);
            assert(row_views(rows@) =~= all.take(0).filter(keep));
            assert(all =~= row_views(whole));
        }
        for row in iter: taken
            invariant
                iter.seq() == whole,
                all == row_views(whole),
                in_order(all, next),
                rows_size(all) <= u64::MAX,
                keep == (|row: (u64, Seq<u8>)| !sequences@.contains(row.0)),
                row_views(rows@) == all.take(iter.index()).filter(keep),
                current == rows_size(row_views(rows@)),
                rows_size(row_views(rows@)) <= rows_size(all.take(iter.index())),
                in_order(row_views(rows@), next),
                forall|a: int|
                    0 <= a < rows@.len() && iter.index() < all.len() ==> (
                    #[trigger] row_views(rows@)[a]).0 < all[iter.index()].0,
        {
            let ghost i = iter.index();
            let ghost before = row_views(rows@);
            let ghost pair = (row.sequence, row.bytes@);
            proof {
                reveal(Seq::filter);
                let upto = all.take(i + 1);
                assert(upto.drop_last() =~= all.take(i));
                assert(row == whole[i]);
                assert(upto.last() == pair);
                assert(all[i] == pair);
                assert(all =~= upto + all.skip(i + 1));
                lemma_size_add(upto, all.skip(i + 1));
                if i + 1 < all.len() {
                    assert(all[i].0 < all[i + 1].0);
                }
            }
            let n = row.bytes.len() as u64;
            if !contains_number(sequences, row.sequence) {
                proof {
                    lemma_size_push(before, pair);
                }
                current = current + n;
                rows.push(row);
                assert(row_views(rows@) =~= before.push(pair));
            }
        }
        assert(all.take(all.len() as int) =~= all);
        let freed = self.current_bytes - current;
        self.rows = rows;
        self.current_bytes = current;
        if let Some(gauge) = self.gauge {
            gauge.sub(gauges, freed);
        }
        proof {
            deletions_lower_the_count(all, next, sequences@);
        }
        Ok(())
    }

    /// Whether the buffer holds nothing.
    pub fn is_empty(&self) -> (r: Result<bool, BufferError>)
        ensures
            r == Ok::<bool, BufferError>(self@.rows.len() == 0),
    {
        Ok(self.rows.len() == 0)
    }

    /// How many entries the buffer holds.
    pub fn count(&self) -> (r: Result<u64, BufferError>)
        ensures
            r == Ok::<u64, BufferError>(self@.rows.len() as u64),
            self@.rows.len() <= u64::MAX,
    {
        Ok(self.rows.len() as u64)
    }

    /// How many bytes the entries take.
    pub fn current_bytes(&self) -> (r: u64)
        requires
            self.wf(),
        ensures
            r == self.size(),
    {
        self.current_bytes
    }

    /// How many bytes the entries may take.
    pub fn max_bytes(&self) -> (r: u64)
        ensures
            r == self@.max_bytes,
    {
        self.max_bytes
    }

    /// Attaches a gauge, and adds what stands in the buffer to it. From now on the
    /// buffer keeps the gauge in step. A gauge that it kept before is let go of.
    pub fn set_gauge(&mut self, gauge: QueueDepthGauge, gauges: &mut Gauges)
        requires
            old(self).wf(),
        ensures
            final(self).wf(),
            final(self)@ == (BufferView { gauge: Some(gauge), ..old(self)@ }),
            final(gauges)@ == gauges_with(
                gauges_without(old(gauges)@, old(self)@.gauge, old(self).size()),
                Some(gauge),
                old(self).size(),
            ),
            shown(old(gauges)@, gauge) == 0 ==> shown(final(gauges)@, gauge) == old(self).size(),
    {
        if let Some(before) = self.gauge {
            before.sub(gauges, self.current_bytes);
        }
        gauge.add(gauges, self.current_bytes);
        self.gauge = Some(gauge);
    }

    /// Lets go of the buffer. What is left in it is taken off its gauge, and stays on
    /// the disk.
    pub fn close(self, gauges: &mut Gauges) -> (r: StoredRows)
        requires
            self.wf(),
        ensures
            row_views(r.entries@) == self@.rows,
            r.next_sequence == self@.next,
            final(gauges)@ == gauges_without(old(gauges)@, self@.gauge, self.size()),
            self@.gauge is Some && held_elsewhere(old(gauges)@, self@) >= 0 ==> shown(
                final(gauges)@,
                self@.gauge->0,
            ) == held_elsewhere(old(gauges)@, self@),
    {
        if let Some(gauge) = self.gauge {
            gauge.sub(gauges, self.current_bytes);
        }
        StoredRows { entries: self.rows, next_sequence: self.next_sequence }
    }
}

/// The numbers of entries.
pub open spec fn row_numbers(rows: Seq<(u64, Seq<u8>)>) -> Seq<u64> {
    rows.map_values(|row: (u64, Seq<u8>)| row.0)
}

/// The numbers in a list that entries have, each once.
pub open spec fn listed(rows: Seq<(u64, Seq<u8>)>, sequences: Seq<u64>) -> Set<u64> {
    row_numbers(rows).to_set().intersect(sequences.to_set())
}

/// Whether the entry at `i` is the first that is out of order.
pub open spec fn first_out_of_order(rows: Seq<(u64, Seq<u8>)>, next: u64, i: int) -> bool {
    &&& 0 <= i < rows.len()
    &&& in_order(rows.take(i), next)
    &&& !in_order(rows.take(i + 1), next)
}

/// What opening a buffer comes to.
pub open spec fn opens(
    stored: StoredRows,
    max_mb: u64,
    cache_bytes: usize,
    durability: Durability,
    r: Result<DiskBuffer, BufferError>,
) -> bool {
    let rows = row_views(stored.entries@);
    match r {
        Ok(b) => {
            &&& b.wf()
            &&& in_order(rows, stored.next_sequence)
            &&& rows_size(rows) <= u64::MAX
            &&& b@ == BufferView {
                rows,
                next: stored.next_sequence,
                max_bytes: max_bytes_of(max_mb),
                cache_bytes,
                durability,
                gauge: None,
            }
        },
        Err(BufferError::Corrupt { sequence }) => {
            &&& !in_order(rows, stored.next_sequence)
            &&& exists|i: int|
                #[trigger] first_out_of_order(rows, stored.next_sequence, i) && rows[i].0
                    == sequence
        },
        Err(BufferError::Full { current_bytes, max_bytes }) => {
            &&& rows_size(rows) > u64::MAX
            &&& current_bytes == u64::MAX
            &&& max_bytes == max_bytes_of(max_mb)
        },
        Err(_) => false,
    }
}

fn contains_number(numbers: &Vec<u64>, n: u64) -> (r: bool)
    ensures
        r == numbers@.contains(n),
{
    let mut i: usize = 0;
    while i < numbers.len()
        invariant
            i <= numbers@.len(),
            forall|j: int| 0 <= j < i ==> numbers@[j] != n,
        decreases numbers.len() - i,
    {
        if numbers[i] == n {
            return true;
        }
        i = i + 1;
    }
    false
}

fn copy_rows(rows: &Vec<StoredEntry>, n: usize) -> (r: Vec<StoredEntry>)
    requires
        n <= rows@.len(),
    ensures
        row_views(r@) == row_views(rows@.take(n as int)),
{
    let mut out: Vec<StoredEntry> = Vec::new();
    let mut i: usize = 0;
    assert(row_views(out@) =~= row_views(rows@.take(0)));
    while i < n
        invariant
            i <= n <= rows@.len(),
            row_views(out@) == row_views(rows@.take(i as int)),
        decreases n - i,
    {
        let ghost before = row_views(out@);
        let bytes = crate::bytes::copy_bytes(rows[i].bytes.as_slice());
        out.push(StoredEntry { sequence: rows[i].sequence, bytes });
        assert(row_views(out@) =~= before.push((rows@[i as int].sequence, rows@[i as int].bytes@)));
        i = i + 1;
        assert(rows@.take(i as int) =~= rows@.take(i - 1).push(rows@[i - 1]));
        assert(row_views(rows@.take(i as int)) =~= row_views(rows@.take(i - 1)).push(
            (rows@[i - 1].sequence, rows@[i - 1].bytes@),
        ));
    }
    out
}

// ---------------------------------------------------------------------------
// Laws
// ---------------------------------------------------------------------------

/// Lines that were put in come back in order, each with the time and the number
/// that it was given.
pub proof fn lines_come_back(lines: Seq<Seq<u8>>, timestamp_ns: i64, first: u64)
    requires
        first_too_large(lines) == lines.len(),
        first + lines.len() <= u64::MAX,
    ensures
        peeked(encoded_rows(lines, timestamp_ns, first)) == Some(
            Seq::new(
                lines.len(),
                |i: int|
                    EntryView {
                        sequence: (first + i) as u64,
                        timestamp_ns: timestamp_ns as int,
                        data: lines[i],
                    },
            ),
        ),
{
    let rows = encoded_rows(lines, timestamp_ns, first);
    let want = Seq::new(
        lines.len(),
        |i: int|
            EntryView {
                sequence: (first + i) as u64,
                timestamp_ns: timestamp_ns as int,
                data: lines[i],
            },
    );
    let f = |row: (u64, Seq<u8>)| decoded(row.0, row.1);
    lemma_first_too_large(lines);
    assert forall|i: int| 0 <= i < rows.len() implies f(#[trigger] rows[i]) == Some(want[i]) by {
        assert(lines[i].len() <= u32::MAX);
        entries_give_back_their_lines((first + i) as u64, timestamp_ns, lines[i]);
    }
    assert(peeked(rows)->0 =~= want);
}

/// A crash loses nothing: a buffer that is opened over what has to stand on the disk
/// holds every entry that was not deleted, and goes on with the same number.
pub proof fn reopening_loses_nothing(
    before: DiskBuffer,
    stored: StoredRows,
    max_mb: u64,
    cache_bytes: usize,
    durability: Durability,
    r: Result<DiskBuffer, BufferError>,
)
    requires
        before.wf(),
        row_views(stored.entries@) == before@.rows,
        stored.next_sequence == before@.next,
        opens(stored, max_mb, cache_bytes, durability, r),
    ensures
        r is Ok,
        r->Ok_0@.rows == before@.rows,
        r->Ok_0@.next == before@.next,
{
}

/// A deletion takes nothing but what it names: an entry whose number is not in
/// the list is still there.
pub proof fn unconfirmed_entries_stay(
    rows: Seq<(u64, Seq<u8>)>,
    sequences: Seq<u64>,
    i: int,
)
    requires
        0 <= i < rows.len(),
        !sequences.contains(rows[i].0),
    ensures
        rows.filter(|row: (u64, Seq<u8>)| !sequences.contains(row.0)).contains(rows[i]),
{
    let keep = |row: (u64, Seq<u8>)| !sequences.contains(row.0);
    rows.lemma_filter_contains(keep, i);
}

impl DiskBuffer {
    /// The numbers of the entries ascend, and all are below the next one.
    pub proof fn entries_stand_in_order(&self)
        requires
            self.wf(),
        ensures
            in_order(self@.rows, self@.next),
            self.size() <= u64::MAX,
    {
    }
}

/// A deletion lowers the number of entries by just as many as the list names: by its
/// distinct numbers that stand in the buffer.
pub proof fn deletions_lower_the_count(rows: Seq<(u64, Seq<u8>)>, next: u64, sequences: Seq<u64>)
    requires
        in_order(rows, next),
    ensures
        rows.filter(|row: (u64, Seq<u8>)| !sequences.contains(row.0)).len() == rows.len() - listed(
            rows,
            sequences,
        ).len(),
    decreases rows.len(),
{
    reveal(Seq::filter);
    let keep = |row: (u64, Seq<u8>)| !sequences.contains(row.0);
    let here = listed(rows, sequences);
    if rows.len() == 0 {
        assert(here =~= Set::<u64>::empty());
    } else {
        let init = rows.drop_last();
        let n = rows.last().0;
        let before = listed(init, sequences);
        assert(in_order(init, next)) by {
            assert forall|i: int, j: int| 0 <= i < j < init.len() implies (#[trigger] init[i]).0 < (
            #[trigger] init[j]).0 by {
                assert(init[i] == rows[i] && init[j] == rows[j]);
            }
            assert forall|i: int| 0 <= i < init.len() implies (#[trigger] init[i]).0 < next by {
                assert(init[i] == rows[i]);
            }
        }
        deletions_lower_the_count(init, next, sequences);
        let numbers = row_numbers(rows);
        let fewer = row_numbers(init);
        assert(numbers =~= fewer.push(n));
        assert(!fewer.contains(n)) by {
            if fewer.contains(n) {
                let i = choose|i: int| 0 <= i < fewer.len() && fewer[i] == n;
                assert(rows[i].0 < rows[rows.len() - 1].0);
            }
        }
        assert forall|x: u64| numbers.contains(x) <==> fewer.contains(x) || x == n by {
            if fewer.contains(x) {
                let i = choose|i: int| 0 <= i < fewer.len() && fewer[i] == x;
                assert(numbers[i] == x);
            }
            if x == n {
                assert(numbers[fewer.len() as int] == x);
            }
            if numbers.contains(x) && x != n {
                let i = choose|i: int| 0 <= i < numbers.len() && numbers[i] == x;
                assert(fewer[i] == x);
            }
        }
        if sequences.contains(n) {
            assert(here =~= before.insert(n));
        } else {
            assert(here =~= before);
        }
    }
}

} // verus!
