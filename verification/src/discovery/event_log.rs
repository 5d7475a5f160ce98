//! Windows Event Log channels.
//!
//! A host defines about a thousand channels, most of them empty. The census
//! carries the classic ones and those that were seen to hold records.
use vstd::prelude::*;
use vstd::string::*;

use crate::order::{lex_less, sort, sorted, SortKey, Sortable};
use crate::seqs::{kept, lemma_kept_step};
use crate::strmap::StrMap;
use crate::text::{
    ends_with, eq_ignore_ascii_case, ascii_lowered, lines, lines_of, parse_u64, parsed, strings,
    strip_prefix, strs, trim, trimmed,
};

verus! {

/// A discovered channel.
pub struct EventLogChannel {
    pub channel: String,
    /// Records seen at discovery.
    pub record_count: u64,
}

/// What a channel is.
pub struct ChannelView {
    pub channel: Seq<char>,
    pub record_count: u64,
}

impl View for EventLogChannel {
    type V = ChannelView;

    open spec fn view(&self) -> ChannelView {
        ChannelView { channel: self.channel@, record_count: self.record_count }
    }
}

impl EventLogChannel {
    /// What the channel is tracked by: its name.
    pub fn identifier<'a>(&'a self) -> (r: &'a str)
        ensures
            r@ == self@.channel,
    {
        self.channel.as_str()
    }

    /// A copy of the channel.
    pub fn copy(&self) -> (r: Self)
        ensures
            r == *self,
    {
        EventLogChannel { channel: self.channel.clone(), record_count: self.record_count }
    }
}

impl Sortable for EventLogChannel {
    open spec fn sort_key(&self) -> SortKey {
        SortKey { major: 0, first: self.channel@, second: seq![], third: seq![], minor: 0 }
    }

    fn precedes(&self, other: &Self) -> (r: bool) {
        proof {
            crate::order::lemma_lex_irreflexive(self.channel@);
        }
        crate::order::str_less(self.channel.as_str(), other.channel.as_str())
    }
}

/// The most candidates, classics aside, that one scan probes.
pub const MAX_PROBED_CANDIDATES: usize = 400;

/// Whether a channel is one of the high-volume trace channels.
pub open spec fn trace_channel(channel: Seq<char>) -> bool {
    "/Debug"@.is_suffix_of(channel) || "/Analytic"@.is_suffix_of(channel)
}

pub fn is_trace_channel(channel: &str) -> (r: bool)
    ensures
        r == trace_channel(channel@),
{
    ends_with(channel, "/Debug") || ends_with(channel, "/Analytic")
}

/// Whether a channel is one that an operator expects even when it is quiet,
/// whatever the case of its letters.
pub open spec fn classic(channel: Seq<char>) -> bool {
    let c = ascii_lowered(channel);
    ||| c == ascii_lowered("Application"@)
    ||| c == ascii_lowered("System"@)
    ||| c == ascii_lowered("Security"@)
    ||| c == ascii_lowered("Setup"@)
    ||| c == ascii_lowered("ForwardedEvents"@)
}

pub fn is_classic(channel: &str) -> (r: bool)
    ensures
        r == classic(channel@),
{
    eq_ignore_ascii_case("Application", channel) || eq_ignore_ascii_case("System", channel)
        || eq_ignore_ascii_case("Security", channel) || eq_ignore_ascii_case("Setup", channel)
        || eq_ignore_ascii_case("ForwardedEvents", channel)
}

/// The names in the output of `wevtutil el`, one to a line.
pub open spec fn channel_name(line: Seq<char>) -> Option<Seq<char>> {
    if trimmed(line).len() > 0 {
        Some(trimmed(line))
    } else {
        None
    }
}

pub fn parse_channel_list(output: &str) -> (r: Vec<String>)
    ensures
        strings(r@) == kept(lines(output@), |line: Seq<char>| channel_name(line)),
{
    let all = lines_of(output);
    let mut out: Vec<String> = Vec::new();
    let ghost rows = strs(all@);
    let ghost f = |line: Seq<char>| channel_name(line);
    let mut i: usize = 0;
    assert(strings(out@) =~= kept(rows.take(0), f));
    while i < all.len()
        invariant
            i <= all@.len(),
            rows == strs(all@),
            f == (|line: Seq<char>| channel_name(line)),
            strings(out@) == kept(rows.take(i as int), f),
        decreases all.len() - i,
    {
        proof {
            lemma_kept_step(rows, f, i as int);
            assert(rows[i as int] == all@[i as int]@);
        }
        let ghost before = strings(out@);
        let name = trim(all[i]);
        if !name.is_empty() {
            out.push(name.to_owned());
            assert(strings(out@) =~= before.push(name@));
        }
        i = i + 1;
    }
    assert(rows.take(i as int) =~= rows);
    out
}

/// The record count in the output of `wevtutil gli`: the first field of that
/// name whose value is a number.
pub open spec fn record_count_line(line: Seq<char>) -> Option<nat> {
    let field = "numberOfLogRecords:"@;
    let t = trimmed(line);
    if field.is_prefix_of(t) {
        parsed(trimmed(t.skip(field.len() as int)), 10, u64::MAX as nat)
    } else {
        None
    }
}

pub open spec fn first_count(rows: Seq<Seq<char>>) -> Option<nat>
    decreases rows.len(),
{
    if rows.len() == 0 {
        None
    } else if record_count_line(rows[0]) is Some {
        record_count_line(rows[0])
    } else {
        first_count(rows.skip(1))
    }
}

pub fn parse_record_count(gli_output: &str) -> (r: Option<u64>)
    ensures
        match r {
            Some(n) => first_count(lines(gli_output@)) == Some(n as nat),
            None => first_count(lines(gli_output@)) is None,
        },
{
    let all = lines_of(gli_output);
    let ghost rows = strs(all@);
    let mut i: usize = 0;
    assert(rows.skip(0) =~= rows);
    while i < all.len()
        invariant
            i <= all@.len(),
            rows == strs(all@),
            rows == lines(gli_output@),
            first_count(rows) == first_count(rows.skip(i as int)),
        decreases all.len() - i,
    {
        assert(rows.skip(i as int)[0] == all@[i as int]@);
        assert(rows.skip(i as int).skip(1) =~= rows.skip(i + 1));
        match strip_prefix(trim(all[i]), "numberOfLogRecords:") {
            Some(value) => {
                match parse_u64(trim(value)) {
                    Some(n) => {
                        return Some(n);
                    },
                    None => {},
                }
            },
            None => {},
        }
        i = i + 1;
    }
    None
}

/// The candidates of one kind, without the trace channels.
pub open spec fn candidate(channel: Seq<char>, wanted_classic: bool) -> Option<Seq<char>> {
    if !trace_channel(channel) && classic(channel) == wanted_classic {
        Some(channel)
    } else {
        None
    }
}

/// What one scan probes: the classics, then the first of the others. The count
/// is of those that had to be left out.
pub fn plan_probes(all: &Vec<String>) -> (r: (Vec<String>, usize))
    ensures
        ({
            let classics = kept(strings(all@), |c: Seq<char>| candidate(c, true));
            let others = kept(strings(all@), |c: Seq<char>| candidate(c, false));
            let room = if others.len() < MAX_PROBED_CANDIDATES {
                others.len() as int
            } else {
                MAX_PROBED_CANDIDATES as int
            };
            &&& strings(r.0@) == classics + others.take(room)
            &&& r.1 == others.len() - room
        }),
{
    let mut classics: Vec<String> = Vec::new();
    let mut others: Vec<String> = Vec::new();
    let mut skipped: usize = 0;
    let ghost rows = strings(all@);
    let ghost f = |c: Seq<char>| candidate(c, true);
    let ghost g = |c: Seq<char>| candidate(c, false);
    let mut i: usize = 0;
    assert(strings(classics@) =~= kept(rows.take(0), f));
    assert(kept(rows.take(0), g) =~= seq![]);
    while i < all.len()
        invariant
            i <= all@.len(),
            rows == strings(all@),
            f == (|c: Seq<char>| candidate(c, true)),
            g == (|c: Seq<char>| candidate(c, false)),
            strings(classics@) == kept(rows.take(i as int), f),
            others@.len() <= MAX_PROBED_CANDIDATES,
            kept(rows.take(i as int), g).len() == others@.len() + skipped,
            strings(others@) == kept(rows.take(i as int), g).take(others@.len() as int),
            skipped > 0 ==> others@.len() == MAX_PROBED_CANDIDATES,
            kept(rows.take(i as int), g).len() <= i,
        decreases all.len() - i,
    {
        proof {
            lemma_kept_step(rows, f, i as int);
            lemma_kept_step(rows, g, i as int);
            assert(rows[i as int] == all@[i as int]@);
        }
        let ghost before_classics = strings(classics@);
        let ghost before_others = strings(others@);
        let ghost seen = kept(rows.take(i as int), g);
        let ghost now = kept(rows.take(i + 1), g);
        if !is_trace_channel(all[i].as_str()) {
            if is_classic(all[i].as_str()) {
                classics.push(all[i].clone());
                assert(strings(classics@) =~= before_classics.push(all@[i as int]@));
            } else if others.len() < MAX_PROBED_CANDIDATES {
                others.push(all[i].clone());
                assert(seen.take(before_others.len() as int) =~= seen);
                assert(strings(others@) =~= before_others.push(all@[i as int]@));
                assert(now.take(others@.len() as int) =~= now);
            } else {
                skipped = skipped + 1;
                assert(now.take(others@.len() as int) =~= seen.take(others@.len() as int));
            }
        }
        i = i + 1;
    }
    assert(rows.take(i as int) =~= rows);
    let ghost cs = strings(classics@);
    let ghost os = strings(others@);
    let ghost n = others@.len();
    classics.append(&mut others);
    assert(strings(classics@) =~= cs + os);
    (classics, skipped)
}

/// The count of a channel, nothing where its probe gave none.
pub open spec fn count_of(counts: Map<Seq<char>, u64>, channel: Seq<char>) -> u64 {
    if counts.contains_key(channel) {
        counts[channel]
    } else {
        0
    }
}

/// A probed channel as it enters the census: a classic always, another only if
/// it holds records.
pub open spec fn selected(counts: Map<Seq<char>, u64>, channel: Seq<char>) -> Option<ChannelView> {
    if classic(channel) || count_of(counts, channel) > 0 {
        Some(ChannelView { channel, record_count: count_of(counts, channel) })
    } else {
        None
    }
}

pub open spec fn channel_views(v: Seq<EventLogChannel>) -> Seq<ChannelView> {
    v.map_values(|c: EventLogChannel| c@)
}

/// The probed channels that enter the census, in the order of their names.
pub fn select_channels(probed: &Vec<String>, counts: &StrMap<u64>) -> (r: Vec<EventLogChannel>)
    ensures
        sorted(r@),
        channel_views(r@).to_multiset() == kept(
            strings(probed@),
            |c: Seq<char>| selected(counts@, c),
        ).to_multiset(),
{
    let mut channels: Vec<EventLogChannel> = Vec::new();
    let ghost rows = strings(probed@);
    let ghost f = |c: Seq<char>| selected(counts@, c);
    let mut i: usize = 0;
    assert(channel_views(channels@) =~= kept(rows.take(0), f));
    while i < probed.len()
        invariant
            i <= probed@.len(),
            rows == strings(probed@),
            f == (|c: Seq<char>| selected(counts@, c)),
            channel_views(channels@) == kept(rows.take(i as int), f),
        decreases probed.len() - i,
    {
        proof {
            lemma_kept_step(rows, f, i as int);
            assert(rows[i as int] == probed@[i as int]@);
        }
        let ghost before = channel_views(channels@);
        let record_count: u64 = match counts.get(probed[i].as_str()) {
            Some(n) => *n,
            None => 0,
        };
        if is_classic(probed[i].as_str()) || record_count > 0 {
            let c = EventLogChannel { channel: probed[i].clone(), record_count };
            channels.push(c);
            assert(channel_views(channels@) =~= before.push(c@));
        }
        i = i + 1;
    }
    assert(rows.take(i as int) =~= rows);
    let ghost unsorted = channels@;
    let r = sort(channels);
    proof {
        lemma_map_multiset(unsorted, r@);
    }
    r
}

/// A rearranged list has rearranged views.
proof fn lemma_map_multiset(a: Seq<EventLogChannel>, b: Seq<EventLogChannel>)
    requires
        a.to_multiset() == b.to_multiset(),
    ensures
        channel_views(a).to_multiset() == channel_views(b).to_multiset(),
    decreases a.len(),
{
    broadcast use vstd::seq_lib::group_to_multiset_ensures;

    assert(a.to_multiset().len() == a.len());
    assert(b.to_multiset().len() == b.len());
    if a.len() == 0 {
        assert(channel_views(a) =~= channel_views(b));
    } else {
        let x = a.last();
        let a2 = a.drop_last();
        assert(a =~= a2.push(x));
        assert(b.to_multiset().count(x) > 0);
        assert(b.contains(x));
        let j = choose|j: int| 0 <= j < b.len() && b[j] == x;
        let b2 = b.remove(j);
        assert(a2.to_multiset() =~= a.to_multiset().remove(x));
        assert(b2.to_multiset() =~= b.to_multiset().remove(x));
        lemma_map_multiset(a2, b2);
        assert(channel_views(a) =~= channel_views(a2).push(x@));
        assert(channel_views(b).remove(j) =~= channel_views(b2));
        assert(channel_views(b)[j] == x@);
        assert(channel_views(b).to_multiset() =~= channel_views(b2).to_multiset().insert(x@));
        assert(channel_views(a).to_multiset() =~= channel_views(a2).to_multiset().insert(x@));
    }
}

/// Two sorted lists of the same channels name them in the same order.
pub proof fn sorted_channels_are_ordered(v: Seq<EventLogChannel>, i: int, j: int)
    requires
        sorted(v),
        0 <= i < j < v.len(),
    ensures
        v[i].channel@ == v[j].channel@ || lex_less(v[i].channel@, v[j].channel@),
{
    crate::order::lemma_lex_total(v[i].channel@, v[j].channel@);
    assert(!crate::order::key_less(v[j].sort_key(), v[i].sort_key()));
}

} // verus!
