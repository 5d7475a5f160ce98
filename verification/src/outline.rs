//! Reading records out of JSON texts.
//!
//! A record is written as an object, or as an array of its fields' values. Nobody
//! minds what members hold that the record has no field for, and none of its fields
//! may be written twice. So a text is not read into a whole document but outlined:
//! where values begin and end, and what the texts among them say.
use vstd::prelude::*;
use vstd::slice::slice_subrange;
use vstd::string::*;

use crate::strmap::{texts, StrMap};
use crate::text::{str_eq, strs};

verus! {

// ---------------------------------------------------------------------------
// Values
// ---------------------------------------------------------------------------

/// How many bytes the value takes that a text begins with, if it begins with one.
pub uninterp spec fn json_value_end(text: Seq<u8>) -> Option<nat>;

/// How many bytes the JSON value takes that a text begins with, if it begins with one.
/// Stands for the first item of the stream iterator of `serde_json::Deserializer` over
/// `serde::de::IgnoredAny`, which passes over a value without reading it, and for the
/// iterator's `byte_offset` after that. It is claimed that this depends on the text
/// alone, is not nothing and lies within the text.
#[verifier::external_body]
pub(crate) fn value_end(text: &[u8]) -> (r: Option<usize>)
    ensures
        match r {
            Some(n) => json_value_end(text@) == Some(n as nat) && 0 < n && n <= text@.len(),
            None => json_value_end(text@) is None,
        },
{
    let values = serde_json::Deserializer::from_slice(text);
    let mut values = values.into_iter::<serde::de::IgnoredAny>();
    match values.next() {
        Some(Ok(_)) => Some(values.byte_offset()),
        _ => None,
    }
}

/// The text that a JSON string writes, if it is one.
pub uninterp spec fn json_string(raw: Seq<u8>) -> Option<Seq<char>>;

/// Reads a JSON string. Stands for `serde_json::from_slice` into `String`; nothing is
/// claimed but that what is read depends on the bytes alone.
#[verifier::external_body]
pub(crate) fn read_string(raw: &[u8]) -> (r: Option<String>)
    ensures
        match r {
            Some(s) => json_string(raw@) == Some(s@),
            None => json_string(raw@) is None,
        },
{
    serde_json::from_slice::<String>(raw).ok()
}

/// How many bytes the value takes that a text begins with; none if it begins with none.
pub open spec fn value_len(s: Seq<u8>) -> nat {
    match json_value_end(s) {
        Some(n) => if 0 < n && n <= s.len() {
            n
        } else {
            0
        },
        None => 0,
    }
}

// ---------------------------------------------------------------------------
// What stands between values
// ---------------------------------------------------------------------------

/// Whether a byte may stand between values: a space, a tab or the end of a line.
pub open spec fn is_space(b: u8) -> bool {
    b == 32 || b == 9 || b == 10 || b == 13
}

/// A text without the spaces in front.
pub open spec fn unspaced(s: Seq<u8>) -> Seq<u8>
    decreases s.len(),
{
    if s.len() > 0 && is_space(s[0]) {
        unspaced(s.skip(1))
    } else {
        s
    }
}

proof fn lemma_unspaced(s: Seq<u8>)
    ensures
        unspaced(s).len() <= s.len(),
    decreases s.len(),
{
    if s.len() > 0 && is_space(s[0]) {
        lemma_unspaced(s.skip(1));
    }
}

/// What follows the comma in front of a further value. In front of the first one there
/// is none.
pub open spec fn after_comma(s: Seq<u8>, first: bool) -> Option<Seq<u8>> {
    if first {
        Some(s)
    } else if s.len() > 0 && s[0] == 44u8 {
        Some(unspaced(s.skip(1)))
    } else {
        None
    }
}

/// The values in the rest of an array, given what follows its bracket or a value.
pub open spec fn items_in(s: Seq<u8>, first: bool) -> Option<Seq<Seq<u8>>>
    decreases s.len(),
    via items_in_decreases
{
    let t = unspaced(s);
    if t.len() == 0 {
        None
    } else if t[0] == 93u8 {
        if t.len() == 1 {
            Some(seq![])
        } else {
            None
        }
    } else {
        match after_comma(t, first) {
            Some(u) => if value_len(u) == 0 {
                None
            } else {
                match items_in(u.skip(value_len(u) as int), false) {
                    Some(rest) => Some(seq![u.take(value_len(u) as int)] + rest),
                    None => None,
                }
            },
            None => None,
        }
    }
}

#[via_fn]
proof fn items_in_decreases(s: Seq<u8>, first: bool) {
    let t = unspaced(s);
    lemma_unspaced(s);
    if t.len() > 0 && !first {
        lemma_unspaced(t.skip(1));
    }
}

/// The members in the rest of an object, given what follows its brace or a member: the
/// keys, and the values as they are written.
pub open spec fn members_in(s: Seq<u8>, first: bool) -> Option<Seq<(Seq<char>, Seq<u8>)>>
    decreases s.len(),
    via members_in_decreases
{
    let t = unspaced(s);
    if t.len() == 0 {
        None
    } else if t[0] == 125u8 {
        if t.len() == 1 {
            Some(seq![])
        } else {
            None
        }
    } else {
        match after_comma(t, first) {
            Some(u) => match member_at(u) {
                Some((key, value, rest)) => match members_in(rest, false) {
                    Some(more) => Some(seq![(key, value)] + more),
                    None => None,
                },
                None => None,
            },
            None => None,
        }
    }
}

/// The member that a text begins with, and what follows it: a string, a colon and a
/// value.
pub open spec fn member_at(u: Seq<u8>) -> Option<(Seq<char>, Seq<u8>, Seq<u8>)> {
    let n = value_len(u);
    let v = unspaced(u.skip(n as int));
    let w = unspaced(v.skip(1));
    let m = value_len(w);
    if u.len() > 0 && u[0] == 34u8 && n > 0 && json_string(u.take(n as int)) is Some && v.len() > 0
        && v[0] == 58u8 && m > 0 {
        Some((json_string(u.take(n as int))->0, w.take(m as int), w.skip(m as int)))
    } else {
        None
    }
}

proof fn lemma_member_shortens(u: Seq<u8>)
    ensures
        member_at(u) is Some ==> (member_at(u)->0).2.len() < u.len(),
{
    let n = value_len(u);
    let v = unspaced(u.skip(n as int));
    if member_at(u) is Some {
        lemma_unspaced(u.skip(n as int));
        lemma_unspaced(v.skip(1));
    }
}

#[via_fn]
proof fn members_in_decreases(s: Seq<u8>, first: bool) {
    let t = unspaced(s);
    lemma_unspaced(s);
    if t.len() > 0 && !first {
        lemma_unspaced(t.skip(1));
    }
    if t.len() > 0 && after_comma(t, first) is Some {
        lemma_member_shortens(after_comma(t, first)->0);
    }
}

/// Where the next byte stands that is no space.
fn skip_space(text: &[u8], from: usize) -> (r: usize)
    requires
        from <= text@.len(),
    ensures
        from <= r <= text@.len(),
        text@.skip(r as int) == unspaced(text@.skip(from as int)),
{
    let mut i: usize = from;
    while i < text.len() && (text[i] == 32 || text[i] == 9 || text[i] == 10 || text[i] == 13)
        invariant
            from <= i <= text@.len(),
            unspaced(text@.skip(i as int)) == unspaced(text@.skip(from as int)),
        decreases text.len() - i,
    {
        assert(text@.skip(i as int).skip(1) =~= text@.skip(i + 1));
        i = i + 1;
    }
    i
}

/// Where the value ends that begins at a place, if one begins there.
fn value_end_at(text: &[u8], at: usize) -> (r: Option<usize>)
    requires
        at <= text@.len(),
    ensures
        match r {
            Some(end) => at < end <= text@.len() && value_len(text@.skip(at as int)) == end - at,
            None => value_len(text@.skip(at as int)) == 0,
        },
{
    let rest = slice_subrange(text, at, text.len());
    assert(rest@ =~= text@.skip(at as int));
    match value_end(rest) {
        Some(n) => Some(at + n),
        None => None,
    }
}

/// Where a further value begins, given where the comma in front of it has to stand.
fn past_comma(text: &[u8], at: usize, first: bool) -> (r: Option<usize>)
    requires
        at < text@.len(),
    ensures
        match r {
            Some(u) => at <= u <= text@.len() && after_comma(text@.skip(at as int), first) == Some(
                text@.skip(u as int),
            ),
            None => after_comma(text@.skip(at as int), first) is None,
        },
{
    if first {
        return Some(at);
    }
    if text[at] != 44 {
        return None;
    }
    assert(text@.skip(at as int).skip(1) =~= text@.skip(at + 1));
    Some(skip_space(text, at + 1))
}

/// The stretches of a text.
pub open spec fn stretches(text: Seq<u8>, places: Seq<(usize, usize)>) -> Seq<Seq<u8>> {
    places.map_values(|p: (usize, usize)| text.subrange(p.0 as int, p.1 as int))
}

/// Where the values of an array stand.
fn find_items(text: &[u8]) -> (r: Option<Vec<(usize, usize)>>)
    requires
        text@.len() > 0,
    ensures
        match r {
            Some(places) => items_in(text@.skip(1), true) == Some(stretches(text@, places@)) && (
            forall|i: int|
                0 <= i < places@.len() ==> (#[trigger] places@[i]).0 <= places@[i].1
                    && places@[i].1 <= text@.len()),
            None => items_in(text@.skip(1), true) is None,
        },
{
    let ghost whole = items_in(text@.skip(1), true);
    let mut places: Vec<(usize, usize)> = Vec::new();
    let mut pos: usize = 1;
    let mut first = true;
    assert(stretches(text@, places@) =~= seq![]);
    proof {
        if let Some(rest) = whole {
            assert(stretches(text@, places@) + rest =~= rest);
        }
    }
    loop
        invariant
            1 <= pos <= text@.len(),
            whole == items_in(text@.skip(1), true),
            match items_in(text@.skip(pos as int), first) {
                Some(rest) => whole == Some(stretches(text@, places@) + rest),
                None => whole is None,
            },
            forall|i: int|
                0 <= i < places@.len() ==> (#[trigger] places@[i]).0 <= places@[i].1
                    && places@[i].1 <= text@.len(),
        decreases text@.len() - pos,
    {
        let at = skip_space(text, pos);
        if at == text.len() {
            return None;
        }
        assert(text@.skip(at as int)[0] == text@[at as int]);
        if text[at] == 93 {
            if at + 1 == text.len() {
                assert(stretches(text@, places@) + Seq::<Seq<u8>>::empty() =~= stretches(
                    text@,
                    places@,
                ));
                return Some(places);
            }
            return None;
        }
        let begin = match past_comma(text, at, first) {
            Some(begin) => begin,
            None => {
                return None;
            },
        };
        let end = match value_end_at(text, begin) {
            Some(end) => end,
            None => {
                return None;
            },
        };
        proof {
            let u = text@.skip(begin as int);
            let item = text@.subrange(begin as int, end as int);
            assert(u.skip(end - begin) =~= text@.skip(end as int));
            assert(u.take(end - begin) =~= item);
            let more = places@.push((begin, end));
            assert(stretches(text@, more) =~= stretches(text@, places@).push(item));
            if let Some(rest) = items_in(text@.skip(end as int), false) {
                assert(stretches(text@, places@) + (seq![item] + rest) =~= stretches(text@, more)
                    + rest);
            }
        }
        places.push((begin, end));
        pos = end;
        first = false;
    }
}

/// A member: its key, and where its value stands.
struct Member {
    key: String,
    begin: usize,
    end: usize,
}

/// Keys, and values as they are written.
spec fn written(text: Seq<u8>, members: Seq<Member>) -> Seq<(Seq<char>, Seq<u8>)> {
    members.map_values(|m: Member| (m.key@, text.subrange(m.begin as int, m.end as int)))
}

/// The member that begins at a place, if one begins there.
fn find_member(text: &[u8], at: usize) -> (r: Option<Member>)
    requires
        at <= text@.len(),
    ensures
        match r {
            Some(m) => at < m.begin <= m.end <= text@.len() && member_at(text@.skip(at as int)) == Some(
                (
                    m.key@,
                    text@.subrange(m.begin as int, m.end as int),
                    text@.skip(m.end as int),
                ),
            ),
            None => member_at(text@.skip(at as int)) is None,
        },
{
    let ghost u = text@.skip(at as int);
    if at == text.len() || text[at] != 34 {
        return None;
    }
    let key_end = match value_end_at(text, at) {
        Some(end) => end,
        None => {
            return None;
        },
    };
    let raw = slice_subrange(text, at, key_end);
    assert(raw@ =~= u.take(key_end - at));
    assert(u.skip(key_end - at) =~= text@.skip(key_end as int));
    let key = match read_string(raw) {
        Some(key) => key,
        None => {
            return None;
        },
    };
    let colon = skip_space(text, key_end);
    if colon == text.len() || text[colon] != 58 {
        return None;
    }
    assert(text@.skip(colon as int).skip(1) =~= text@.skip(colon + 1));
    let begin = skip_space(text, colon + 1);
    match value_end_at(text, begin) {
        Some(end) => {
            let ghost w = text@.skip(begin as int);
            assert(w.take(end - begin) =~= text@.subrange(begin as int, end as int));
            assert(w.skip(end - begin) =~= text@.skip(end as int));
            Some(Member { key, begin, end })
        },
        None => None,
    }
}

/// The members of an object.
fn find_members(text: &[u8]) -> (r: Option<Vec<Member>>)
    requires
        text@.len() > 0,
    ensures
        match r {
            Some(members) => members_in(text@.skip(1), true) == Some(written(text@, members@)) && (
            forall|i: int|
                0 <= i < members@.len() ==> (#[trigger] members@[i]).begin <= members@[i].end
                    && members@[i].end <= text@.len()),
            None => members_in(text@.skip(1), true) is None,
        },
{
    let ghost whole = members_in(text@.skip(1), true);
    let mut members: Vec<Member> = Vec::new();
    let mut pos: usize = 1;
    let mut first = true;
    assert(written(text@, members@) =~= seq![]);
    proof {
        if let Some(rest) = whole {
            assert(written(text@, members@) + rest =~= rest);
        }
    }
    loop
        invariant
            1 <= pos <= text@.len(),
            whole == members_in(text@.skip(1), true),
            match members_in(text@.skip(pos as int), first) {
                Some(rest) => whole == Some(written(text@, members@) + rest),
                None => whole is None,
            },
            forall|i: int|
                0 <= i < members@.len() ==> (#[trigger] members@[i]).begin <= members@[i].end
                    && members@[i].end <= text@.len(),
        decreases text@.len() - pos,
    {
        let at = skip_space(text, pos);
        if at == text.len() {
            return None;
        }
        assert(text@.skip(at as int)[0] == text@[at as int]);
        if text[at] == 125 {
            if at + 1 == text.len() {
                assert(written(text@, members@) + Seq::<(Seq<char>, Seq<u8>)>::empty() =~= written(
                    text@,
                    members@,
                ));
                return Some(members);
            }
            return None;
        }
        let begin = match past_comma(text, at, first) {
            Some(begin) => begin,
            None => {
                return None;
            },
        };
        let member = match find_member(text, begin) {
            Some(member) => member,
            None => {
                return None;
            },
        };
        let end = member.end;
        proof {
            let one = (member.key@, text@.subrange(member.begin as int, member.end as int));
            let more = members@.push(member);
            assert(written(text@, more) =~= written(text@, members@).push(one));
            if let Some(rest) = members_in(text@.skip(end as int), false) {
                assert(written(text@, members@) + (seq![one] + rest) =~= written(text@, more)
                    + rest);
            }
        }
        members.push(member);
        pos = end;
        first = false;
    }
}

// ---------------------------------------------------------------------------
// Outlines
// ---------------------------------------------------------------------------

/// What a JSON text says, as far as a record can be read out of it.
#[derive(Debug)]
pub enum Outline {
    Null,
    Text(String),
    /// The values of an array.
    Items(Vec<Outline>),
    /// The members of an object, in order. A key may occur more than once.
    Members(Vec<(String, Outline)>),
    /// Anything else: a number, a truth value, what is nested too deep, what is faulty.
    Other,
}

/// What an outline says.
pub enum OutlineView {
    Null,
    Text(Seq<char>),
    Items(Seq<OutlineView>),
    Members(Seq<(Seq<char>, OutlineView)>),
    Other,
}

impl Outline {
    pub open spec fn view(&self) -> OutlineView
        decreases self,
    {
        match self {
            Outline::Null => OutlineView::Null,
            Outline::Text(s) => OutlineView::Text(s@),
            Outline::Items(items) => OutlineView::Items(
                Seq::new(
                    items@.len(),
                    |i: int|
                        if 0 <= i < items@.len() {
                            items@[i].view()
                        } else {
                            OutlineView::Other
                        },
                ),
            ),
            Outline::Members(members) => OutlineView::Members(
                Seq::new(
                    members@.len(),
                    |i: int|
                        if 0 <= i < members@.len() {
                            (members@[i].0@, members@[i].1.view())
                        } else {
                            (seq![], OutlineView::Other)
                        },
                ),
            ),
            Outline::Other => OutlineView::Other,
        }
    }
}

/// What outlines say.
pub open spec fn outline_views(v: Seq<Outline>) -> Seq<OutlineView> {
    v.map_values(|o: Outline| o@)
}

/// What members say.
pub open spec fn member_views(v: Seq<(String, Outline)>) -> Seq<(Seq<char>, OutlineView)> {
    v.map_values(|m: (String, Outline)| (m.0@, m.1@))
}

/// The text `null`.
pub open spec fn null_text() -> Seq<u8> {
    seq![110u8, 117u8, 108u8, 108u8]
}

/// What a text says that holds one value. Arrays and objects are looked into as deep as
/// asked for.
pub open spec fn outlined(text: Seq<u8>, depth: nat) -> OutlineView
    decreases depth,
{
    let s = unspaced(text);
    let raw = s.take(value_len(s) as int);
    if value_len(s) == 0 || unspaced(s.skip(value_len(s) as int)).len() > 0 {
        OutlineView::Other
    } else if raw == null_text() {
        OutlineView::Null
    } else if raw[0] == 34u8 {
        match json_string(raw) {
            Some(t) => OutlineView::Text(t),
            None => OutlineView::Other,
        }
    } else if raw[0] == 91u8 && depth > 0 {
        match items_in(raw.skip(1), true) {
            Some(items) => OutlineView::Items(
                Seq::new(items.len(), |i: int| outlined(items[i], (depth - 1) as nat)),
            ),
            None => OutlineView::Other,
        }
    } else if raw[0] == 123u8 && depth > 0 {
        match members_in(raw.skip(1), true) {
            Some(members) => OutlineView::Members(
                Seq::new(
                    members.len(),
                    |i: int| (members[i].0, outlined(members[i].1, (depth - 1) as nat)),
                ),
            ),
            None => OutlineView::Other,
        }
    } else {
        OutlineView::Other
    }
}

fn is_null_text(raw: &[u8]) -> (r: bool)
    ensures
        r == (raw@ == null_text()),
{
    if raw.len() == 4 && raw[0] == 110 && raw[1] == 117 && raw[2] == 108 && raw[3] == 108 {
        assert(raw@ =~= null_text());
        true
    } else {
        false
    }
}

/// What a text says that holds one value.
pub fn outline(text: &[u8], depth: usize) -> (r: Outline)
    ensures
        r@ == outlined(text@, depth as nat),
    decreases depth, 1nat,
{
    let begin = skip_space(text, 0);
    assert(text@.skip(0) =~= text@);
    let end = match value_end_at(text, begin) {
        Some(end) => end,
        None => {
            return Outline::Other;
        },
    };
    let ghost s = text@.skip(begin as int);
    assert(s.skip(end - begin) =~= text@.skip(end as int));
    if skip_space(text, end) < text.len() {
        return Outline::Other;
    }
    let raw = slice_subrange(text, begin, end);
    assert(raw@ =~= s.take(end - begin));
    if is_null_text(raw) {
        return Outline::Null;
    }
    if raw[0] == 34 {
        return match read_string(raw) {
            Some(t) => Outline::Text(t),
            None => Outline::Other,
        };
    }
    if depth == 0 {
        return Outline::Other;
    }
    if raw[0] == 91 {
        return match find_items(raw) {
            Some(places) => {
                let items = outline_items(raw, &places, depth);
                assert(outlined(text@, depth as nat) is Items);
                assert(Outline::Items(items)@->Items_0 =~= outlined(
                    text@,
                    depth as nat,
                )->Items_0);
                Outline::Items(items)
            },
            None => Outline::Other,
        };
    }
    if raw[0] == 123 {
        return match find_members(raw) {
            Some(members) => {
                let members = outline_members(raw, members, depth);
                assert(outlined(text@, depth as nat) is Members);
                assert(Outline::Members(members)@->Members_0 =~= outlined(
                    text@,
                    depth as nat,
                )->Members_0);
                Outline::Members(members)
            },
            None => Outline::Other,
        };
    }
    Outline::Other
}

fn outline_items(raw: &[u8], places: &Vec<(usize, usize)>, depth: usize) -> (r: Vec<Outline>)
    requires
        depth > 0,
        forall|i: int|
            0 <= i < places@.len() ==> (#[trigger] places@[i]).0 <= places@[i].1 && places@[i].1
                <= raw@.len(),
    ensures
        Outline::Items(r)@ == OutlineView::Items(
            Seq::new(
                places@.len(),
                |i: int| outlined(stretches(raw@, places@)[i], (depth - 1) as nat),
            ),
        ),
    decreases depth, 0nat,
{
    let mut items: Vec<Outline> = Vec::new();
    let mut i: usize = 0;
    while i < places.len()
        invariant
            i <= places@.len(),
            depth > 0,
            items@.len() == i,
            forall|i: int|
                0 <= i < places@.len() ==> (#[trigger] places@[i]).0 <= places@[i].1 && places@[i].1
                    <= raw@.len(),
            forall|j: int|
                0 <= j < i ==> (#[trigger] items@[j])@ == outlined(
                    stretches(raw@, places@)[j],
                    (depth - 1) as nat,
                ),
        decreases places.len() - i,
    {
        let (begin, end) = places[i];
        let value = slice_subrange(raw, begin, end);
        assert(value@ == stretches(raw@, places@)[i as int]);
        items.push(outline(value, depth - 1));
        i = i + 1;
    }
    assert(Outline::Items(items)@->Items_0 =~= Seq::new(
        places@.len(),
        |i: int| outlined(stretches(raw@, places@)[i], (depth - 1) as nat),
    ));
    items
}

fn outline_members(raw: &[u8], members: Vec<Member>, depth: usize) -> (r: Vec<(String, Outline)>)
    requires
        depth > 0,
        forall|i: int|
            0 <= i < members@.len() ==> (#[trigger] members@[i]).begin <= members@[i].end
                && members@[i].end <= raw@.len(),
    ensures
        Outline::Members(r)@ == OutlineView::Members(
            Seq::new(
                members@.len(),
                |i: int|
                    (
                        written(raw@, members@)[i].0,
                        outlined(written(raw@, members@)[i].1, (depth - 1) as nat),
                    ),
            ),
        ),
    decreases depth, 0nat,
{
    let mut out: Vec<(String, Outline)> = Vec::new();
    let mut i: usize = 0;
    while i < members.len()
        invariant
            i <= members@.len(),
            depth > 0,
            out@.len() == i,
            forall|i: int|
                0 <= i < members@.len() ==> (#[trigger] members@[i]).begin <= members@[i].end
                    && members@[i].end <= raw@.len(),
            forall|j: int|
                0 <= j < i ==> (#[trigger] out@[j]).0@ == members@[j].key@ && out@[j].1@
                    == outlined(written(raw@, members@)[j].1, (depth - 1) as nat),
        decreases members.len() - i,
    {
        let value = slice_subrange(raw, members[i].begin, members[i].end);
        assert(value@ == written(raw@, members@)[i as int].1);
        out.push((members[i].key.clone(), outline(value, depth - 1)));
        i = i + 1;
    }
    assert(Outline::Members(out)@->Members_0 =~= Seq::new(
        members@.len(),
        |i: int|
            (
                written(raw@, members@)[i].0,
                outlined(written(raw@, members@)[i].1, (depth - 1) as nat),
            ),
    ));
    out
}

// ---------------------------------------------------------------------------
// Records
// ---------------------------------------------------------------------------

/// Whether at most one member has the key.
pub open spec fn at_most_once(members: Seq<(Seq<char>, OutlineView)>, key: Seq<char>) -> bool {
    forall|i: int, j: int|
        0 <= i < j < members.len() ==> !((#[trigger] members[i]).0 == key && (
        #[trigger] members[j]).0 == key)
}

/// The value of the last member with the key, if one has it.
pub open spec fn last_value(members: Seq<(Seq<char>, OutlineView)>, key: Seq<char>) -> Option<
    OutlineView,
>
    decreases members.len(),
{
    if members.len() == 0 {
        None
    } else if members.last().0 == key {
        Some(members.last().1)
    } else {
        last_value(members.drop_last(), key)
    }
}

impl OutlineView {
    /// Whether it can stand for a record with these fields: an object in which none of
    /// them is written twice, or an array of just their values.
    pub open spec fn is_record(self, fields: Seq<Seq<char>>) -> bool {
        match self {
            OutlineView::Members(members) => forall|k: int|
                0 <= k < fields.len() ==> at_most_once(members, #[trigger] fields[k]),
            OutlineView::Items(items) => items.len() == fields.len(),
            _ => false,
        }
    }

    /// The value of a record's field, if it is written.
    pub open spec fn field(self, fields: Seq<Seq<char>>, k: int) -> Option<OutlineView> {
        match self {
            OutlineView::Members(members) => last_value(members, fields[k]),
            OutlineView::Items(items) => if 0 <= k < items.len() {
                Some(items[k])
            } else {
                None
            },
            _ => None,
        }
    }
}

/// What may be an outline says.
pub open spec fn opt_outline_view(o: Option<&Outline>) -> Option<OutlineView> {
    match o {
        Some(o) => Some(o@),
        None => None,
    }
}

fn occurs_once(members: &Vec<(String, Outline)>, key: &str) -> (r: bool)
    ensures
        r == at_most_once(member_views(members@), key@),
{
    let ghost ms = member_views(members@);
    let mut seen = false;
    let ghost mut at: int = 0;
    let mut i: usize = 0;
    while i < members.len()
        invariant
            i <= members@.len(),
            ms == member_views(members@),
            seen ==> 0 <= at < i && ms[at].0 == key@,
            forall|j: int|
                0 <= j < i && (#[trigger] ms[j]).0 == key@ ==> seen && j == at,
        decreases members.len() - i,
    {
        assert(ms[i as int].0 == members@[i as int].0@);
        if str_eq(members[i].0.as_str(), key) {
            if seen {
                assert(ms[at].0 == key@ && ms[i as int].0 == key@);
                return false;
            }
            seen = true;
            proof {
                at = i as int;
            }
        }
        i = i + 1;
    }
    true
}

/// The value of the last member with the key, if one has it.
pub fn find_last<'a>(members: &'a Vec<(String, Outline)>, key: &str) -> (r: Option<&'a Outline>)
    ensures
        opt_outline_view(r) == last_value(member_views(members@), key@),
{
    let ghost ms = member_views(members@);
    let mut i: usize = members.len();
    assert(ms.take(i as int) =~= ms);
    while i > 0
        invariant
            i <= members@.len(),
            ms == member_views(members@),
            last_value(ms, key@) == last_value(ms.take(i as int), key@),
        decreases i,
    {
        let ghost t = ms.take(i as int);
        assert(t.last() == (members@[i - 1].0@, members@[i - 1].1@));
        assert(t.drop_last() =~= ms.take(i - 1));
        if str_eq(members[i - 1].0.as_str(), key) {
            return Some(&members[i - 1].1);
        }
        i = i - 1;
    }
    None
}

impl Outline {
    /// Whether it can stand for a record with these fields.
    pub fn is_record(&self, fields: &Vec<&str>) -> (r: bool)
        ensures
            r == self@.is_record(strs(fields@)),
    {
        match self {
            Outline::Members(members) => {
                assert(self@->Members_0 =~= member_views(members@));
                let ghost ms = member_views(members@);
                let mut k: usize = 0;
                while k < fields.len()
                    invariant
                        k <= fields@.len(),
                        ms == member_views(members@),
                        self@ == OutlineView::Members(ms),
                        forall|j: int|
                            0 <= j < k ==> at_most_once(ms, #[trigger] strs(fields@)[j]),
                    decreases fields.len() - k,
                {
                    assert(strs(fields@)[k as int] == fields@[k as int]@);
                    if !occurs_once(members, fields[k]) {
                        assert(!at_most_once(ms, strs(fields@)[k as int]));
                        return false;
                    }
                    k = k + 1;
                }
                true
            },
            Outline::Items(items) => {
                assert(self@->Items_0.len() == items@.len());
                items.len() == fields.len()
            },
            _ => false,
        }
    }

    /// The value of a record's field, if it is written.
    pub fn field<'a>(&'a self, fields: &Vec<&str>, k: usize) -> (r: Option<&'a Outline>)
        requires
            k < fields@.len(),
        ensures
            opt_outline_view(r) == self@.field(strs(fields@), k as int),
    {
        match self {
            Outline::Members(members) => {
                assert(self@->Members_0 =~= member_views(members@));
                assert(strs(fields@)[k as int] == fields@[k as int]@);
                find_last(members, fields[k])
            },
            Outline::Items(items) => {
                assert(self@->Items_0 =~= outline_views(items@));
                if k < items.len() {
                    Some(&items[k])
                } else {
                    None
                }
            },
            _ => None,
        }
    }

    /// The values of an array.
    pub fn items<'a>(&'a self) -> (r: Option<&'a Vec<Outline>>)
        ensures
            match r {
                Some(items) => self@ == OutlineView::Items(outline_views(items@)),
                None => !(self@ is Items),
            },
    {
        match self {
            Outline::Items(items) => {
                assert(self@->Items_0 =~= outline_views(items@));
                Some(items)
            },
            _ => None,
        }
    }

    /// The members of an object.
    pub fn members<'a>(&'a self) -> (r: Option<&'a Vec<(String, Outline)>>)
        ensures
            match r {
                Some(members) => self@ == OutlineView::Members(member_views(members@)),
                None => !(self@ is Members),
            },
    {
        match self {
            Outline::Members(members) => {
                assert(self@->Members_0 =~= member_views(members@));
                Some(members)
            },
            _ => None,
        }
    }
}

/// An optional text in a field. Anything but a text or nothing makes the record one
/// that is not understood.
pub open spec fn optional_text(value: Option<OutlineView>) -> Option<Option<Seq<char>>> {
    match value {
        None => Some(None),
        Some(OutlineView::Null) => Some(None),
        Some(OutlineView::Text(s)) => Some(Some(s)),
        Some(_) => None,
    }
}

/// An optional text in a field.
pub fn read_optional_text<'a>(value: Option<&'a Outline>) -> (r: Option<Option<&'a str>>)
    ensures
        match r {
            Some(Some(s)) => optional_text(opt_outline_view(value)) == Some(Some(s@)),
            Some(None) => optional_text(opt_outline_view(value)) == Some(None::<Seq<char>>),
            None => optional_text(opt_outline_view(value)) is None,
        },
{
    match value {
        None => Some(None),
        Some(outline) => match outline {
            Outline::Null => Some(None),
            Outline::Text(s) => Some(Some(s.as_str())),
            _ => None,
        },
    }
}

/// The map that members write, if all their values are texts. Of members with one key
/// the last one counts.
pub open spec fn text_members(members: Seq<(Seq<char>, OutlineView)>) -> Option<
    Map<Seq<char>, Seq<char>>,
>
    decreases members.len(),
{
    if members.len() == 0 {
        Some(Map::empty())
    } else {
        match (text_members(members.drop_last()), members.last().1) {
            (Some(m), OutlineView::Text(s)) => Some(m.insert(members.last().0, s)),
            _ => None,
        }
    }
}

/// The map that members write, if all their values are texts.
pub fn text_map(members: &Vec<(String, Outline)>) -> (r: Option<StrMap<String>>)
    ensures
        match r {
            Some(m) => text_members(member_views(members@)) == Some(texts(m@)) && m.distinct(),
            None => text_members(member_views(members@)) is None,
        },
{
    let mut m: StrMap<String> = StrMap::new();
    let ghost ms = member_views(members@);
    let mut i: usize = 0;
    assert(texts(m@) =~= Map::<Seq<char>, Seq<char>>::empty());
    while i < members.len()
        invariant
            i <= members@.len(),
            ms == member_views(members@),
            text_members(ms.take(i as int)) == Some(texts(m@)),
            m.distinct(),
        decreases members.len() - i,
    {
        proof {
            assert(ms.take(i + 1).drop_last() =~= ms.take(i as int));
            assert(ms.take(i + 1).last() == ms[i as int]);
            assert(ms[i as int] == (members@[i as int].0@, members@[i as int].1@));
        }
        match &members[i].1 {
            Outline::Text(s) => {
                let ghost before = texts(m@);
                m.insert(members[i].0.clone(), s.clone());
                assert(texts(m@) =~= before.insert(members@[i as int].0@, s@));
            },
            _ => {
                proof {
                    assert(text_members(ms.take(i + 1)) is None);
                    lemma_text_members_fail(ms, i + 1);
                }
                return None;
            },
        }
        i = i + 1;
    }
    assert(ms.take(i as int) =~= ms);
    Some(m)
}

/// One value that is no text spoils all.
proof fn lemma_text_members_fail(ms: Seq<(Seq<char>, OutlineView)>, n: int)
    requires
        0 <= n <= ms.len(),
        text_members(ms.take(n)) is None,
    ensures
        text_members(ms) is None,
    decreases ms.len() - n,
{
    if n < ms.len() {
        assert(ms.take(n + 1).drop_last() =~= ms.take(n));
        lemma_text_members_fail(ms, n + 1);
    } else {
        assert(ms.take(n) =~= ms);
    }
}

} // verus!
