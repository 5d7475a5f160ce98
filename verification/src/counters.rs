//! What the agent counts of its own work.
use std::collections::HashMap;

use vstd::prelude::*;
use vstd::string::*;

use crate::strmap::{listed_keys, StrMap};
use crate::text::strings;

verus! {

broadcast use vstd::std_specs::hash::group_hash_axioms;

/// The sum of two counts, which wraps round at the top.
pub open spec fn wrapped(a: u64, b: u64) -> u64 {
    if a + b > u64::MAX {
        (a + b - u64::MAX - 1) as u64
    } else {
        (a + b) as u64
    }
}

/// The sum of two counts, which wraps round at the top.
pub open spec fn wrapped32(a: u32, b: u32) -> u32 {
    if a + b > u32::MAX {
        (a + b - u32::MAX - 1) as u32
    } else {
        (a + b) as u32
    }
}

fn wrapping(a: u64, b: u64) -> (r: u64)
    ensures
        r == wrapped(a, b),
{
    a.wrapping_add(b)
}

// ---------------------------------------------------------------------------
// Errors of the last hour
// ---------------------------------------------------------------------------

/// An hour in nanoseconds.
pub const HOUR_NANOS: u64 = 3_600_000_000_000;

/// When errors happened, in nanoseconds of a clock that never runs back.
pub struct ErrorWindow {
    timestamps: Vec<u64>,
}

/// Whether more than an hour has passed between two times.
pub open spec fn expired(at: u64, now: u64) -> bool {
    now - at > HOUR_NANOS
}

/// The times from the first one on that is no more than an hour back.
pub open spec fn last_hour(times: Seq<u64>, now: u64) -> Seq<u64>
    decreases times.len(),
{
    if times.len() > 0 && expired(times[0], now) {
        last_hour(times.skip(1), now)
    } else {
        times
    }
}

impl ErrorWindow {
    /// The times in the window, in the order in which they were recorded.
    pub closed spec fn times(&self) -> Seq<u64> {
        self.timestamps@
    }

    /// No errors yet.
    pub fn new() -> (r: Self)
        ensures
            r.times() == Seq::<u64>::empty(),
    {
        ErrorWindow { timestamps: Vec::new() }
    }

    /// Records an error that happens now.
    pub fn record(&mut self, now: u64)
        ensures
            final(self).times() == old(self).times().push(now),
    {
        self.timestamps.push(now);
    }

    /// How many errors happened in the last hour. Older ones in front are
    /// forgotten.
    pub fn count_last_hour(&mut self, now: u64) -> (r: u32)
        ensures
            final(self).times() == last_hour(old(self).times(), now),
            r == final(self).times().len() as u32,
    {
        let ghost all = self.timestamps@;
        let mut n: usize = 0;
        assert(all.skip(0) =~= all);
        while n < self.timestamps.len() && now > self.timestamps[n] && now - self.timestamps[n]
            > HOUR_NANOS
            invariant
                n <= self.timestamps@.len(),
                all == self.timestamps@,
                last_hour(all.skip(n as int), now) == last_hour(all, now),
            decreases self.timestamps.len() - n,
        {
            assert(all.skip(n as int).skip(1) =~= all.skip(n + 1));
            n = n + 1;
        }
        let rest = self.timestamps.split_off(n);
        self.timestamps = rest;
        #[verifier::truncate] (self.timestamps.len() as u32)
    }
}

impl Default for ErrorWindow {
    fn default() -> (r: Self)
        ensures
            r.times() == Seq::<u64>::empty(),
    {
        Self::new()
    }
}

/// Of times in order, just those are left that are no more than an hour back.
pub proof fn window_holds_the_last_hour(times: Seq<u64>, now: u64)
    requires
        forall|i: int, j: int| 0 <= i <= j < times.len() ==> times[i] <= times[j],
    ensures
        last_hour(times, now) == times.filter(|at: u64| !expired(at, now)),
    decreases times.len(),
{
    let recent = |at: u64| !expired(at, now);
    if times.len() == 0 {
        reveal(Seq::filter);
    } else {
        let rest = times.skip(1);
        assert(times =~= seq![times[0]] + rest);
        assert forall|i: int, j: int| 0 <= i <= j < rest.len() implies rest[i] <= rest[j] by {
            assert(rest[i] == times[i + 1] && rest[j] == times[j + 1]);
        }
        vstd::seq_lib::lemma_seq_skip_nothing(rest, 0);
        Seq::filter_distributes_over_add(seq![times[0]], rest, recent);
        assert(seq![times[0]].filter(recent) =~= if recent(times[0]) {
            seq![times[0]]
        } else {
            seq![]
        }) by {
            reveal_with_fuel(Seq::filter, 2);
            assert(seq![times[0]].drop_last() =~= seq![]);
        }
        window_holds_the_last_hour(rest, now);
        if !expired(times[0], now) {
            lemma_all_recent(times, now);
        } else {
            assert(times.filter(recent) =~= rest.filter(recent));
        }
    }
}

proof fn lemma_all_recent(times: Seq<u64>, now: u64)
    requires
        times.len() > 0,
        !expired(times[0], now),
        forall|i: int, j: int| 0 <= i <= j < times.len() ==> times[i] <= times[j],
    ensures
        times.filter(|at: u64| !expired(at, now)) == times,
    decreases times.len(),
{
    reveal(Seq::filter);
    let recent = |at: u64| !expired(at, now);
    let init = times.drop_last();
    assert(times[0] <= times[times.len() - 1]);
    if init.len() > 0 {
        assert(init[0] == times[0]);
        assert forall|i: int, j: int| 0 <= i <= j < init.len() implies init[i] <= init[j] by {
            assert(init[i] == times[i] && init[j] == times[j]);
        }
        lemma_all_recent(init, now);
    } else {
        assert(init.filter(recent) =~= init);
    }
    assert(times.filter(recent) =~= times);
}

/// A call of a window, with the time at which it is made.
pub enum WindowCall {
    Record(u64),
    Count(u64),
}

/// When a call is made.
pub open spec fn call_time(call: WindowCall) -> u64 {
    match call {
        WindowCall::Record(now) => now,
        WindowCall::Count(now) => now,
    }
}

/// What a window that was new holds after calls.
pub open spec fn window_after(calls: Seq<WindowCall>) -> Seq<u64>
    decreases calls.len(),
{
    if calls.len() == 0 {
        seq![]
    } else {
        let before = window_after(calls.drop_last());
        match calls.last() {
            WindowCall::Record(now) => before.push(now),
            WindowCall::Count(now) => last_hour(before, now),
        }
    }
}

/// The times of all the errors that calls recorded.
pub open spec fn recorded_times(calls: Seq<WindowCall>) -> Seq<u64>
    decreases calls.len(),
{
    if calls.len() == 0 {
        seq![]
    } else {
        let before = recorded_times(calls.drop_last());
        match calls.last() {
            WindowCall::Record(now) => before.push(now),
            WindowCall::Count(_) => before,
        }
    }
}

/// Whether calls are made one after another, the last of them not after `now`.
pub open spec fn in_time(calls: Seq<WindowCall>, now: u64) -> bool {
    &&& forall|i: int, j: int|
        0 <= i <= j < calls.len() ==> call_time(#[trigger] calls[i]) <= call_time(
            #[trigger] calls[j],
        )
    &&& forall|i: int| 0 <= i < calls.len() ==> call_time(#[trigger] calls[i]) <= now
}

/// What is left of times in a window is their end, and what is gone has expired.
proof fn lemma_last_hour(times: Seq<u64>, now: u64)
    ensures
        ({
            let gone = times.len() - last_hour(times, now).len();
            &&& 0 <= gone <= times.len()
            &&& last_hour(times, now) == times.skip(gone)
            &&& forall|i: int| 0 <= i < gone ==> expired(#[trigger] times[i], now)
        }),
    decreases times.len(),
{
    if times.len() > 0 && expired(times[0], now) {
        let rest = times.skip(1);
        lemma_last_hour(rest, now);
        let gone = times.len() - last_hour(times, now).len();
        assert(times.skip(gone) =~= rest.skip(gone - 1));
        assert forall|i: int| 0 <= i < gone implies expired(#[trigger] times[i], now) by {
            if i > 0 {
                assert(times[i] == rest[i - 1]);
            }
        }
    } else {
        assert(times.skip(0) =~= times);
    }
}

/// A window holds the end of all that was recorded, the rest has expired, and all
/// of it stands in the order of time.
proof fn lemma_window_after(calls: Seq<WindowCall>, now: u64)
    requires
        in_time(calls, now),
    ensures
        ({
            let window = window_after(calls);
            let all = recorded_times(calls);
            let gone = all.len() - window.len();
            &&& 0 <= gone <= all.len()
            &&& window == all.skip(gone)
            &&& forall|i: int| 0 <= i < gone ==> expired(#[trigger] all[i], now)
            &&& forall|i: int, j: int| 0 <= i <= j < all.len() ==> all[i] <= all[j]
            &&& forall|i: int| 0 <= i < all.len() ==> #[trigger] all[i] <= now
        }),
    decreases calls.len(),
{
    if calls.len() > 0 {
        let init = calls.drop_last();
        let at = call_time(calls.last());
        assert forall|i: int| 0 <= i < init.len() implies call_time(#[trigger] init[i]) <= at by {
            assert(init[i] == calls[i]);
            assert(call_time(calls[i]) <= call_time(calls[calls.len() - 1]));
        }
        assert forall|i: int, j: int| 0 <= i <= j < init.len() implies call_time(
            #[trigger] init[i],
        ) <= call_time(#[trigger] init[j]) by {
            assert(init[i] == calls[i] && init[j] == calls[j]);
        }
        lemma_window_after(init, at);
        assert(at <= now) by {
            assert(call_time(calls[calls.len() - 1]) <= now);
        }
        let before = window_after(init);
        let all = recorded_times(calls);
        let old_all = recorded_times(init);
        let old_gone = old_all.len() - before.len();
        match calls.last() {
            WindowCall::Record(t) => {
                assert(window_after(calls) =~= all.skip(old_gone));
            },
            WindowCall::Count(t) => {
                lemma_last_hour(before, t);
                let more = before.len() - window_after(calls).len();
                assert(window_after(calls) =~= all.skip(old_gone + more));
                assert forall|i: int| 0 <= i < old_gone + more implies expired(
                    #[trigger] all[i],
                    now,
                ) by {
                    if i >= old_gone {
                        assert(all[i] == before[i - old_gone]);
                    }
                }
            },
        }
    }
}

/// Whatever was recorded and counted before, a count is of just those errors that
/// were recorded no more than an hour back: what earlier counts forgot does not
/// lower it.
pub proof fn counts_forget_nothing_recent(calls: Seq<WindowCall>, now: u64)
    requires
        in_time(calls, now),
    ensures
        last_hour(window_after(calls), now) == recorded_times(calls).filter(
            |at: u64| !expired(at, now),
        ),
{
    let recent = |at: u64| !expired(at, now);
    let window = window_after(calls);
    let all = recorded_times(calls);
    lemma_window_after(calls, now);
    let gone = all.len() - window.len();
    let head = all.take(gone);
    assert(all =~= head + window);
    assert forall|i: int, j: int| 0 <= i <= j < window.len() implies window[i] <= window[j] by {
        assert(window[i] == all[gone + i] && window[j] == all[gone + j]);
    }
    window_holds_the_last_hour(window, now);
    Seq::filter_distributes_over_add(head, window, recent);
    assert forall|i: int| 0 <= i < head.len() implies !recent(#[trigger] head[i]) by {
        assert(head[i] == all[i]);
    }
    lemma_none_left(head, recent);
    assert(all.filter(recent) =~= window.filter(recent));
}

proof fn lemma_none_left(times: Seq<u64>, keep: spec_fn(u64) -> bool)
    requires
        forall|i: int| 0 <= i < times.len() ==> !keep(#[trigger] times[i]),
    ensures
        times.filter(keep) == Seq::<u64>::empty(),
    decreases times.len(),
{
    reveal(Seq::filter);
    if times.len() > 0 {
        let init = times.drop_last();
        assert forall|i: int| 0 <= i < init.len() implies !keep(#[trigger] init[i]) by {
            assert(init[i] == times[i]);
        }
        assert(!keep(times[times.len() - 1]));
        lemma_none_left(init, keep);
    }
}

// ---------------------------------------------------------------------------
// Bytes in the buffers
// ---------------------------------------------------------------------------

/// A count less some, or zero where there are not as many.
pub open spec fn drained(a: u64, b: u64) -> u64 {
    if b < a {
        (a - b) as u64
    } else {
        0
    }
}

/// What gauges show. It stands in one place, so that all handles to a gauge show
/// the same.
pub struct Gauges {
    bytes: HashMap<u64, u64>,
}

impl View for Gauges {
    /// What was set of the gauges, by their ids.
    type V = Map<u64, u64>;

    closed spec fn view(&self) -> Map<u64, u64> {
        self.bytes@
    }
}

/// What a gauge shows. One that nothing was ever added to shows zero.
pub open spec fn shown(gauges: Map<u64, u64>, gauge: QueueDepthGauge) -> u64 {
    if gauges.contains_key(gauge.id()) {
        gauges[gauge.id()]
    } else {
        0
    }
}

impl Gauges {
    /// No gauges yet.
    pub fn new() -> (r: Self)
        ensures
            r@ == Map::<u64, u64>::empty(),
    {
        Gauges { bytes: HashMap::new() }
    }
}

impl Default for Gauges {
    fn default() -> (r: Self)
        ensures
            r@ == Map::<u64, u64>::empty(),
    {
        Self::new()
    }
}

/// A handle to a gauge of how many bytes stand in the buffers of the running
/// pipelines. A copy of a handle is a handle to the same gauge, and what is added
/// through one shows through all of them.
#[derive(Debug, Clone, Copy, PartialEq, Eq, Structural)]
pub struct QueueDepthGauge {
    id: u64,
}

/// Numbers in a row that all are keys are as many as the keys at most.
proof fn lemma_keys_in_a_row(gauges: Map<u64, u64>, n: nat)
    requires
        gauges.dom().finite(),
        n <= 0x1_0000_0000_0000_0000,
        forall|i: u64| i < n ==> gauges.contains_key(i),
    ensures
        n <= gauges.len(),
    decreases n,
{
    if n > 0 {
        let last = (n - 1) as u64;
        let rest = gauges.remove(last);
        assert forall|i: u64| i < n - 1 implies rest.contains_key(i) by {
            assert(gauges.contains_key(i));
        }
        lemma_keys_in_a_row(rest, (n - 1) as nat);
        assert(rest.dom() =~= gauges.dom().remove(last));
        assert(gauges.contains_key(last));
    }
}

impl QueueDepthGauge {
    /// Which gauge it is.
    pub closed spec fn id(&self) -> u64 {
        self.id
    }

    /// A gauge of its own, which shows zero.
    pub fn new(gauges: &mut Gauges) -> (r: Self)
        ensures
            !old(gauges)@.contains_key(r.id()),
            final(gauges)@ == old(gauges)@.insert(r.id(), 0),
    {
        let most = gauges.bytes.len() as u64;
        let mut id: u64 = 0;
        while id < most && gauges.bytes.contains_key(&id)
            invariant
                id <= most,
                most == gauges@.len(),
                gauges@ == old(gauges)@,
                gauges@.dom().finite(),
                forall|i: u64| i < id ==> gauges@.contains_key(i),
            decreases most - id,
        {
            id = id + 1;
        }
        proof {
            if id == most && gauges@.contains_key(id) {
                lemma_keys_in_a_row(gauges@, (id + 1) as nat);
            }
        }
        gauges.bytes.insert(id, 0);
        QueueDepthGauge { id }
    }

    /// Adds what went into a buffer.
    pub fn add(&self, gauges: &mut Gauges, bytes: u64)
        ensures
            final(gauges)@ == old(gauges)@.insert(
                self.id(),
                wrapped(shown(old(gauges)@, *self), bytes),
            ),
    {
        let after = wrapping(self.get(gauges), bytes);
        gauges.bytes.insert(self.id, after);
    }

    /// Takes off what left a buffer. The gauge stops at zero: a mistake in the
    /// accounts never makes it huge.
    pub fn sub(&self, gauges: &mut Gauges, bytes: u64)
        ensures
            final(gauges)@ == old(gauges)@.insert(
                self.id(),
                drained(shown(old(gauges)@, *self), bytes),
            ),
    {
        let after = self.get(gauges).saturating_sub(bytes);
        gauges.bytes.insert(self.id, after);
    }

    /// What the gauge shows.
    pub fn get(&self, gauges: &Gauges) -> (r: u64)
        ensures
            r == shown(gauges@, *self),
    {
        match gauges.bytes.get(&self.id) {
            Some(bytes) => *bytes,
            None => 0,
        }
    }
}

/// All handles to a gauge show one value, and a gauge is drained to zero at most:
/// what is taken off through one handle is gone through another.
pub proof fn handles_share_one_gauge(
    gauges: Map<u64, u64>,
    gauge: QueueDepthGauge,
    other: QueueDepthGauge,
    bytes: u64,
)
    ensures
        gauge.id() == other.id() ==> {
            let less = gauges.insert(gauge.id(), drained(shown(gauges, gauge), bytes));
            &&& shown(less, other) == shown(less, gauge)
            &&& shown(less, other) <= shown(gauges, other)
            &&& bytes >= shown(gauges, gauge) ==> shown(less, other) == 0
        },
        gauge.id() != other.id() ==> forall|value: u64|
            shown(#[trigger] gauges.insert(gauge.id(), value), other) == shown(gauges, other),
{
}

/// A gauge that is made shows zero and is a gauge of its own: no gauge made before it
/// is moved by it, and none moves it.
pub proof fn new_gauges_are_apart(
    gauges: Map<u64, u64>,
    before: QueueDepthGauge,
    new: QueueDepthGauge,
    value: u64,
)
    requires
        gauges.contains_key(before.id()),
        !gauges.contains_key(new.id()),
    ensures
        ({
            let with = gauges.insert(new.id(), 0);
            &&& shown(with, new) == 0
            &&& shown(with, before) == shown(gauges, before)
            &&& shown(with.insert(new.id(), value), before) == shown(gauges, before)
            &&& shown(with.insert(before.id(), value), new) == 0
        }),
{
}

// ---------------------------------------------------------------------------
// Forms of shipped entries
// ---------------------------------------------------------------------------

/// How many entries were shipped in each form.
#[derive(Debug, Clone, Copy, PartialEq, Eq, Structural)]
pub struct BodyVariantSplit {
    pub entry_json: u64,
    pub raw_text: u64,
    pub raw_bytes: u64,
}

impl Default for BodyVariantSplit {
    fn default() -> (r: Self)
        ensures
            r == no_split(),
    {
        BodyVariantSplit { entry_json: 0, raw_text: 0, raw_bytes: 0 }
    }
}

/// Nothing shipped.
pub open spec fn no_split() -> BodyVariantSplit {
    BodyVariantSplit { entry_json: 0, raw_text: 0, raw_bytes: 0 }
}

/// Two splits together.
pub open spec fn split_sum(a: BodyVariantSplit, b: BodyVariantSplit) -> BodyVariantSplit {
    BodyVariantSplit {
        entry_json: wrapped(a.entry_json, b.entry_json),
        raw_text: wrapped(a.raw_text, b.raw_text),
        raw_bytes: wrapped(a.raw_bytes, b.raw_bytes),
    }
}

/// The counts of one source.
pub struct BodyVariantCounters {
    recorded: Option<BodyVariantSplit>,
}

/// A split, or nothing shipped where there is none.
pub open spec fn or_no_split(split: Option<BodyVariantSplit>) -> BodyVariantSplit {
    match split {
        Some(split) => split,
        None => no_split(),
    }
}

impl BodyVariantCounters {
    /// What was recorded so far, if anything was.
    pub closed spec fn recorded(&self) -> Option<BodyVariantSplit> {
        self.recorded
    }

    /// What was recorded so far.
    pub open spec fn total(&self) -> BodyVariantSplit {
        or_no_split(self.recorded())
    }

    /// Adds what a batch came to.
    pub fn record(&mut self, split: BodyVariantSplit)
        ensures
            final(self).recorded() == Some(split_sum(old(self).total(), split)),
    {
        let total = self.snapshot();
        self.recorded = Some(
            BodyVariantSplit {
                entry_json: wrapping(total.entry_json, split.entry_json),
                raw_text: wrapping(total.raw_text, split.raw_text),
                raw_bytes: wrapping(total.raw_bytes, split.raw_bytes),
            },
        );
    }

    /// What was recorded so far.
    pub fn snapshot(&self) -> (r: BodyVariantSplit)
        ensures
            r == self.total(),
    {
        match self.recorded {
            Some(split) => split,
            None => BodyVariantSplit::default(),
        }
    }
}

impl Default for BodyVariantCounters {
    fn default() -> (r: Self)
        ensures
            r.recorded() is None,
    {
        BodyVariantCounters { recorded: None }
    }
}

/// How the pipeline of a source fares.
#[derive(Debug, PartialEq, Eq)]
pub enum PipelineLiveness {
    /// It was set up and started.
    Running,
    /// The last attempt to set it up failed.
    Failed { reason: String },
}

/// What a liveness says.
pub enum LivenessView {
    Running,
    Failed { reason: Seq<char> },
}

impl View for PipelineLiveness {
    type V = LivenessView;

    open spec fn view(&self) -> LivenessView {
        match self {
            PipelineLiveness::Running => LivenessView::Running,
            PipelineLiveness::Failed { reason } => LivenessView::Failed { reason: reason@ },
        }
    }
}

impl PipelineLiveness {
    fn copy(&self) -> (r: Self)
        ensures
            r@ == self@,
    {
        match self {
            PipelineLiveness::Running => PipelineLiveness::Running,
            PipelineLiveness::Failed { reason } => PipelineLiveness::Failed {
                reason: reason.clone(),
            },
        }
    }
}

pub struct BodyVariantEntry {
    counters: Option<BodyVariantCounters>,
    pipeline: Option<PipelineLiveness>,
}

/// What is known of one source.
pub struct SourceView {
    /// What it shipped, unless it never did.
    pub split: Option<BodyVariantSplit>,
    pub pipeline: Option<LivenessView>,
}

impl View for BodyVariantEntry {
    type V = SourceView;

    closed spec fn view(&self) -> SourceView {
        SourceView {
            split: match self.counters {
                Some(c) => c.recorded(),
                None => None,
            },
            pipeline: match self.pipeline {
                Some(p) => Some(p@),
                None => None,
            },
        }
    }
}

/// What is known of the sources, by their ids.
pub struct BodyVariantRegistry {
    sources: StrMap<BodyVariantEntry>,
}

impl View for BodyVariantRegistry {
    type V = Map<Seq<char>, SourceView>;

    closed spec fn view(&self) -> Map<Seq<char>, SourceView> {
        source_views(self.sources@)
    }
}

spec fn source_views(m: Map<Seq<char>, BodyVariantEntry>) -> Map<Seq<char>, SourceView> {
    m.map_values(|e: BodyVariantEntry| e@)
}

/// What is known of a source; nothing of one that was never seen.
pub open spec fn source_in(m: Map<Seq<char>, SourceView>, id: Seq<char>) -> SourceView {
    if m.contains_key(id) {
        m[id]
    } else {
        SourceView { split: None, pipeline: None }
    }
}

impl BodyVariantRegistry {
    fn ensure_entry(&mut self, id: &str)
        ensures
            final(self)@ == old(self)@.insert(id@, source_in(old(self)@, id@)),
            final(self).sources@.contains_key(id@),
    {
        if !self.sources.contains_key(id) {
            self.sources.insert(id.to_owned(), BodyVariantEntry { counters: None, pipeline: None });
        }
        assert(self@ =~= old(self)@.insert(id@, source_in(old(self)@, id@)));
    }

    /// The counts of a source, to record into; they start at zero when the source
    /// is first seen. The source has shipped nothing until something is recorded.
    pub fn counters_for(&mut self, log_source_id: &str) -> (r: &mut BodyVariantCounters)
        ensures
            ({
                let before = source_in(old(self)@, log_source_id@);
                &&& r.recorded() == before.split
                &&& final(self)@ == old(self)@.insert(
                    log_source_id@,
                    SourceView { split: final(r).recorded(), ..before },
                )
            }),
    {
        self.ensure_entry(log_source_id);
        let ghost sources = self.sources@;
        let ghost whole = self@;
        assert(sources[log_source_id@]@ == whole[log_source_id@]);
        let entry = self.sources.get_mut(log_source_id);
        if entry.counters.is_none() {
            entry.counters = Some(BodyVariantCounters::default());
        }
        proof {
            assert forall|e: BodyVariantEntry| #[trigger]
                source_views(sources.insert(log_source_id@, e)) == whole.insert(
                    log_source_id@,
                    e@,
                ) by {
                assert(source_views(sources.insert(log_source_id@, e)) =~= whole.insert(
                    log_source_id@,
                    e@,
                ));
            }
        }
        let ghost pipeline = entry.pipeline;
        assert(entry.counters is Some);
        match &mut entry.counters {
            Some(c) => c,
            None => unreached(),
        }
    }

    /// What a source shipped so far, unless it never did.
    pub fn snapshot_for(&self, log_source_id: &str) -> (r: Option<BodyVariantSplit>)
        ensures
            r == source_in(self@, log_source_id@).split,
    {
        match self.sources.get(log_source_id) {
            Some(entry) => match &entry.counters {
                Some(c) => c.recorded,
                None => None,
            },
            None => None,
        }
    }

    fn mark(&mut self, log_source_id: &str, liveness: PipelineLiveness)
        ensures
            final(self)@ == old(self)@.insert(
                log_source_id@,
                SourceView {
                    pipeline: Some(liveness@),
                    ..source_in(old(self)@, log_source_id@)
                },
            ),
    {
        self.ensure_entry(log_source_id);
        let ghost sources = self.sources@;
        let ghost view = SourceView {
            pipeline: Some(liveness@),
            ..source_in(old(self)@, log_source_id@)
        };
        let ghost whole = self@;
        assert(sources[log_source_id@]@ == whole[log_source_id@]);
        let entry = self.sources.get_mut(log_source_id);
        entry.pipeline = Some(liveness);
        assert(self.sources@[log_source_id@]@ == view);
        assert(self.sources@ == sources.insert(log_source_id@, self.sources@[log_source_id@]));
        assert(self@ =~= whole.insert(log_source_id@, view));
        assert(self@ =~= old(self)@.insert(log_source_id@, view));
    }

    /// Records that the pipeline of a source started.
    pub fn mark_pipeline_running(&mut self, log_source_id: &str)
        ensures
            final(self)@ == old(self)@.insert(
                log_source_id@,
                SourceView {
                    pipeline: Some(LivenessView::Running),
                    ..source_in(old(self)@, log_source_id@)
                },
            ),
    {
        self.mark(log_source_id, PipelineLiveness::Running);
    }

    /// Records why the pipeline of a source could not be started.
    pub fn mark_pipeline_failed(&mut self, log_source_id: &str, reason: &str)
        ensures
            final(self)@ == old(self)@.insert(
                log_source_id@,
                SourceView {
                    pipeline: Some(LivenessView::Failed { reason: reason@ }),
                    ..source_in(old(self)@, log_source_id@)
                },
            ),
    {
        self.mark(log_source_id, PipelineLiveness::Failed { reason: reason.to_owned() });
    }

    /// What a source shipped so far, and how its pipeline fares.
    pub fn stream_snapshot_for(&self, log_source_id: &str) -> (r: (
        Option<BodyVariantSplit>,
        Option<PipelineLiveness>,
    ))
        ensures
            r.0 == source_in(self@, log_source_id@).split,
            match r.1 {
                Some(p) => source_in(self@, log_source_id@).pipeline == Some(p@),
                None => source_in(self@, log_source_id@).pipeline is None,
            },
    {
        match self.sources.get(log_source_id) {
            Some(entry) => {
                let split = match &entry.counters {
                    Some(c) => c.recorded,
                    None => None,
                };
                let pipeline = match &entry.pipeline {
                    Some(p) => Some(p.copy()),
                    None => None,
                };
                (split, pipeline)
            },
            None => (None, None),
        }
    }

    /// Forgets every source that is not in the list.
    pub fn retain_sources(&mut self, keep: &Vec<String>)
        ensures
            final(self)@ == old(self)@.restrict(listed_keys(strings(keep@), true)),
    {
        let mut sources: StrMap<BodyVariantEntry> = StrMap::new();
        core::mem::swap(&mut self.sources, &mut sources);
        self.sources = sources.retained(keep, true);
        assert(self@ =~= old(self)@.restrict(listed_keys(strings(keep@), true)));
    }
}

impl Default for BodyVariantRegistry {
    fn default() -> (r: Self)
        ensures
            r@ == Map::<Seq<char>, SourceView>::empty(),
    {
        let r = BodyVariantRegistry { sources: StrMap::new() };
        assert(r@ =~= Map::<Seq<char>, SourceView>::empty());
        r
    }
}

/// The counts of one source never touch those of another.
pub proof fn sources_stay_apart(
    m: Map<Seq<char>, SourceView>,
    id: Seq<char>,
    other: Seq<char>,
    view: SourceView,
)
    requires
        id != other,
    ensures
        source_in(m.insert(id, view), other) == source_in(m, other),
{
}

// ---------------------------------------------------------------------------
// All counts
// ---------------------------------------------------------------------------

/// Everything that the agent counts.
pub struct AgentCounters {
    pub bytes_sent: u64,
    pub errors_total: u64,
    pub streams_active: u32,
    pub samples_pending: u32,
    pub samples_completed: u32,
    pub entries_overflowed: u64,
    pub spans_built: u64,
    pub spans_ship_failed: u64,
    pub spans_propagated: u64,
    pub spans_minted: u64,
    pub spans_parented: u64,
    pub spans_cross_linked: u64,
    pub spans_kind_from_bytes: u64,
    pub ebpf_capture_read_faults: u64,
    queue_depth: QueueDepthGauge,
    gauges: Gauges,
    error_window: ErrorWindow,
    body_variants: BodyVariantRegistry,
}

/// All the counts at one time.
#[derive(Debug, Clone, Copy)]
pub struct CountersSnapshot {
    pub bytes_sent: u64,
    pub errors_total: u64,
    pub queue_depth_bytes: u64,
    pub streams_active: u32,
    pub samples_pending: u32,
    pub samples_completed: u32,
    pub spans_built: u64,
    pub spans_ship_failed: u64,
    pub spans_propagated: u64,
    pub spans_minted: u64,
    pub spans_parented: u64,
    pub spans_cross_linked: u64,
    pub spans_kind_from_bytes: u64,
    pub ebpf_capture_read_faults: u64,
}

/// All that counters hold.
#[verifier::ext_equal]
pub struct CountersView {
    pub bytes_sent: u64,
    pub errors_total: u64,
    pub streams_active: u32,
    pub samples_pending: u32,
    pub samples_completed: u32,
    pub entries_overflowed: u64,
    pub spans_built: u64,
    pub spans_ship_failed: u64,
    pub spans_propagated: u64,
    pub spans_minted: u64,
    pub spans_parented: u64,
    pub spans_cross_linked: u64,
    pub spans_kind_from_bytes: u64,
    pub ebpf_capture_read_faults: u64,
    /// The gauge of the bytes in the buffers.
    pub queue_depth: QueueDepthGauge,
    /// What gauges show.
    pub gauges: Map<u64, u64>,
    pub error_times: Seq<u64>,
    pub sources: Map<Seq<char>, SourceView>,
}

impl View for AgentCounters {
    type V = CountersView;

    closed spec fn view(&self) -> CountersView {
        CountersView {
            bytes_sent: self.bytes_sent,
            errors_total: self.errors_total,
            streams_active: self.streams_active,
            samples_pending: self.samples_pending,
            samples_completed: self.samples_completed,
            entries_overflowed: self.entries_overflowed,
            spans_built: self.spans_built,
            spans_ship_failed: self.spans_ship_failed,
            spans_propagated: self.spans_propagated,
            spans_minted: self.spans_minted,
            spans_parented: self.spans_parented,
            spans_cross_linked: self.spans_cross_linked,
            spans_kind_from_bytes: self.spans_kind_from_bytes,
            ebpf_capture_read_faults: self.ebpf_capture_read_faults,
            queue_depth: self.queue_depth,
            gauges: self.gauges@,
            error_times: self.error_window.times(),
            sources: self.body_variants@,
        }
    }
}

/// Nothing counted yet, with that gauge of the bytes in the buffers.
pub open spec fn no_counts(gauge: QueueDepthGauge) -> CountersView {
    CountersView {
        bytes_sent: 0,
        errors_total: 0,
        streams_active: 0,
        samples_pending: 0,
        samples_completed: 0,
        entries_overflowed: 0,
        spans_built: 0,
        spans_ship_failed: 0,
        spans_propagated: 0,
        spans_minted: 0,
        spans_parented: 0,
        spans_cross_linked: 0,
        spans_kind_from_bytes: 0,
        ebpf_capture_read_faults: 0,
        queue_depth: gauge,
        gauges: map![gauge.id() => 0],
        error_times: seq![],
        sources: Map::empty(),
    }
}

impl AgentCounters {
    /// Nothing counted yet.
    pub fn new() -> (r: Self)
        ensures
            r@ == no_counts(r@.queue_depth),
    {
        let mut gauges = Gauges::new();
        let queue_depth = QueueDepthGauge::new(&mut gauges);
        assert(gauges@ =~= map![queue_depth.id() => 0]);
        AgentCounters {
            bytes_sent: 0,
            errors_total: 0,
            streams_active: 0,
            samples_pending: 0,
            samples_completed: 0,
            entries_overflowed: 0,
            spans_built: 0,
            spans_ship_failed: 0,
            spans_propagated: 0,
            spans_minted: 0,
            spans_parented: 0,
            spans_cross_linked: 0,
            spans_kind_from_bytes: 0,
            ebpf_capture_read_faults: 0,
            queue_depth,
            gauges,
            error_window: ErrorWindow::new(),
            body_variants: BodyVariantRegistry::default(),
        }
    }

    /// What is known of the sources.
    pub fn body_variants(&mut self) -> (r: &mut BodyVariantRegistry)
        ensures
            r@ == old(self)@.sources,
            final(self)@ == (CountersView { sources: final(r)@, ..old(self)@ }),
    {
        &mut self.body_variants
    }

    /// A handle to the gauge of the bytes in the buffers.
    pub fn queue_depth_gauge(&self) -> (r: QueueDepthGauge)
        ensures
            r == self@.queue_depth,
    {
        self.queue_depth
    }

    /// What the gauges show, for the buffers to keep in step.
    pub fn gauges(&mut self) -> (r: &mut Gauges)
        ensures
            r@ == old(self)@.gauges,
            final(self)@ == (CountersView { gauges: final(r)@, ..old(self)@ }),
    {
        &mut self.gauges
    }

    /// Counts an error that happens now.
    pub fn increment_errors(&mut self, now: u64)
        ensures
            final(self)@ == (CountersView {
                errors_total: wrapped(old(self)@.errors_total, 1),
                error_times: old(self)@.error_times.push(now),
                ..old(self)@
            }),
    {
        self.errors_total = wrapping(self.errors_total, 1);
        self.error_window.record(now);
    }

    /// How many errors happened in the last hour.
    pub fn errors_last_hour(&mut self, now: u64) -> (r: u32)
        ensures
            final(self)@ == (CountersView {
                error_times: last_hour(old(self)@.error_times, now),
                ..old(self)@
            }),
            r == final(self)@.error_times.len() as u32,
    {
        self.error_window.count_last_hour(now)
    }

    /// Sets how many streams are active.
    pub fn set_streams_active(&mut self, n: u32)
        ensures
            final(self)@ == (CountersView { streams_active: n, ..old(self)@ }),
    {
        self.streams_active = n;
    }

    /// Counts a sample that was completed.
    pub fn increment_samples_completed(&mut self)
        ensures
            final(self)@ == (CountersView {
                samples_completed: wrapped32(old(self)@.samples_completed, 1),
                ..old(self)@
            }),
    {
        self.samples_completed = self.samples_completed.wrapping_add(1);
    }

    /// Adds bytes that were sent.
    pub fn add_bytes_sent(&mut self, n: u64)
        ensures
            final(self)@ == (CountersView { bytes_sent: wrapped(old(self)@.bytes_sent, n), ..old(self)@ }),
    {
        self.bytes_sent = wrapping(self.bytes_sent, n);
    }

    /// Adds entries that overflowed.
    pub fn increment_entries_overflowed(&mut self, n: u64)
        ensures
            final(self)@ == (CountersView { entries_overflowed: wrapped(old(self)@.entries_overflowed, n), ..old(self)@ }),
    {
        self.entries_overflowed = wrapping(self.entries_overflowed, n);
    }

    /// Adds spans that were built.
    pub fn add_spans_built(&mut self, n: u64)
        ensures
            final(self)@ == (CountersView { spans_built: wrapped(old(self)@.spans_built, n), ..old(self)@ }),
    {
        self.spans_built = wrapping(self.spans_built, n);
    }

    /// Adds spans that found their parent.
    pub fn add_spans_parented(&mut self, n: u64)
        ensures
            final(self)@ == (CountersView { spans_parented: wrapped(old(self)@.spans_parented, n), ..old(self)@ }),
    {
        self.spans_parented = wrapping(self.spans_parented, n);
    }

    /// Adds spans that were linked across services.
    pub fn add_spans_cross_linked(&mut self, n: u64)
        ensures
            final(self)@ == (CountersView { spans_cross_linked: wrapped(old(self)@.spans_cross_linked, n), ..old(self)@ }),
    {
        self.spans_cross_linked = wrapping(self.spans_cross_linked, n);
    }

    /// Adds spans whose kind was read from the bytes.
    pub fn add_spans_kind_from_bytes(&mut self, n: u64)
        ensures
            final(self)@ == (CountersView { spans_kind_from_bytes: wrapped(old(self)@.spans_kind_from_bytes, n), ..old(self)@ }),
    {
        self.spans_kind_from_bytes = wrapping(self.spans_kind_from_bytes, n);
    }

    /// Adds captures that could not be read.
    pub fn add_ebpf_capture_read_faults(&mut self, n: u64)
        ensures
            final(self)@ == (CountersView { ebpf_capture_read_faults: wrapped(old(self)@.ebpf_capture_read_faults, n), ..old(self)@ }),
    {
        self.ebpf_capture_read_faults = wrapping(self.ebpf_capture_read_faults, n);
    }

    /// Counts a shipment of spans that failed.
    pub fn increment_spans_ship_failed(&mut self)
        ensures
            final(self)@ == (CountersView { spans_ship_failed: wrapped(old(self)@.spans_ship_failed, 1), ..old(self)@ }),
    {
        self.spans_ship_failed = wrapping(self.spans_ship_failed, 1);
    }

    /// Counts a span whose id came with the request.
    pub fn increment_spans_propagated(&mut self)
        ensures
            final(self)@ == (CountersView { spans_propagated: wrapped(old(self)@.spans_propagated, 1), ..old(self)@ }),
    {
        self.spans_propagated = wrapping(self.spans_propagated, 1);
    }

    /// Counts a span whose id was made here.
    pub fn increment_spans_minted(&mut self)
        ensures
            final(self)@ == (CountersView { spans_minted: wrapped(old(self)@.spans_minted, 1), ..old(self)@ }),
    {
        self.spans_minted = wrapping(self.spans_minted, 1);
    }

    /// All the counts as they stand.
    pub fn snapshot(&self) -> (r: CountersSnapshot)
        ensures
            r == (CountersSnapshot {
                bytes_sent: self@.bytes_sent,
                errors_total: self@.errors_total,
                queue_depth_bytes: shown(self@.gauges, self@.queue_depth),
                streams_active: self@.streams_active,
                samples_pending: self@.samples_pending,
                samples_completed: self@.samples_completed,
                spans_built: self@.spans_built,
                spans_ship_failed: self@.spans_ship_failed,
                spans_propagated: self@.spans_propagated,
                spans_minted: self@.spans_minted,
                spans_parented: self@.spans_parented,
                spans_cross_linked: self@.spans_cross_linked,
                spans_kind_from_bytes: self@.spans_kind_from_bytes,
                ebpf_capture_read_faults: self@.ebpf_capture_read_faults,
            }),
    {
        CountersSnapshot {
            bytes_sent: self.bytes_sent,
            errors_total: self.errors_total,
            queue_depth_bytes: self.queue_depth.get(&self.gauges),
            streams_active: self.streams_active,
            samples_pending: self.samples_pending,
            samples_completed: self.samples_completed,
            spans_built: self.spans_built,
            spans_ship_failed: self.spans_ship_failed,
            spans_propagated: self.spans_propagated,
            spans_minted: self.spans_minted,
            spans_parented: self.spans_parented,
            spans_cross_linked: self.spans_cross_linked,
            spans_kind_from_bytes: self.spans_kind_from_bytes,
            ebpf_capture_read_faults: self.ebpf_capture_read_faults,
        }
    }
}

} // verus!
