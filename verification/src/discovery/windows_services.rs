//! Windows services, as `sc queryex` lists them.
use vstd::prelude::*;
use vstd::string::*;

use crate::discovery::systemd::{service_views, ServiceView, SystemdService};
use crate::text::{
    ascii_lowered, find, join_from, joined, lines, lines_of, opt_str_view, opt_view, parse_u32,
    parsed, split_once, split_whitespace, str_eq, strip_prefix, strs, to_ascii_lowercase, trim,
    trimmed, words,
};

verus! {

/// Services can be listed this way on Windows only.
pub fn windows_service_discovery_supported_for(os: &str) -> (r: bool)
    ensures
        r == (os@ == "windows"@),
{
    str_eq(os, "windows")
}

/// The value of a line of the form `FIELD : value`.
pub open spec fn field_value_of(line: Seq<char>, field: Seq<char>) -> Option<Seq<char>> {
    let colon = find(line, ':') as int;
    if colon < line.len() && trimmed(line.take(colon)) == field {
        Some(trimmed(line.skip(colon + 1)))
    } else {
        None
    }
}

pub fn field_value<'a>(line: &'a str, field: &str) -> (r: Option<&'a str>)
    ensures
        opt_str_view(r) == field_value_of(line@, field@),
{
    match split_once(line, ':') {
        Some((key, value)) => if str_eq(trim(key), field) {
            Some(trim(value))
        } else {
            None
        },
        None => None,
    }
}

/// The name in a value of the form `<code> <name>`: all words but the first.
pub open spec fn named_value(value: Seq<char>) -> Seq<char> {
    let parts = words(value);
    if parts.len() == 0 {
        seq![]
    } else {
        joined(parts.skip(1), " "@)
    }
}

pub fn parse_sc_named_value(value: &str) -> (r: String)
    ensures
        r@ == named_value(value@),
{
    let parts = split_whitespace(value);
    assert(strs(parts@).len() == parts@.len());
    if parts.len() == 0 {
        String::new()
    } else {
        join_from(&parts, 1, " ")
    }
}

/// A service of which some lines have been read.
pub struct ServiceDraft {
    pub name: Option<String>,
    pub display_name: Option<String>,
    pub service_type: Option<String>,
    pub state: Option<String>,
    pub pid: u32,
}

/// What a draft holds.
#[verifier::ext_equal]
pub struct DraftView {
    pub name: Option<Seq<char>>,
    pub display_name: Option<Seq<char>>,
    pub service_type: Option<Seq<char>>,
    pub state: Option<Seq<char>>,
    pub pid: u32,
}

impl View for ServiceDraft {
    type V = DraftView;

    open spec fn view(&self) -> DraftView {
        DraftView {
            name: opt_view(self.name),
            display_name: opt_view(self.display_name),
            service_type: opt_view(self.service_type),
            state: opt_view(self.state),
            pid: self.pid,
        }
    }
}

/// A draft of which nothing has been read but perhaps the name.
pub open spec fn draft_named(name: Option<Seq<char>>) -> DraftView {
    DraftView { name, display_name: None, service_type: None, state: None, pid: 0 }
}

/// The text, or `other` where there is none or it is empty.
pub open spec fn or_text(s: Option<Seq<char>>, other: Seq<char>) -> Seq<char> {
    match s {
        Some(t) => if t.len() > 0 {
            t
        } else {
            other
        },
        None => other,
    }
}

/// The service that a draft describes, if it has a name.
pub open spec fn finished(d: DraftView) -> Option<ServiceView> {
    if d.name is None || trimmed(d.name->0).len() == 0 {
        None
    } else {
        let name = trimmed(d.name->0);
        Some(
            ServiceView {
                name,
                load_state: "installed"@,
                active_state: or_text(d.state, "unknown"@),
                sub_state: or_text(d.service_type, seq![]),
                description: or_text(d.display_name, name),
                service_name: name,
                main_pid: d.pid,
            },
        )
    }
}

fn text_or(s: Option<String>, other: &str) -> (r: String)
    ensures
        r@ == or_text(opt_view(s), other@),
{
    match s {
        Some(t) => if t.as_str().is_empty() {
            other.to_owned()
        } else {
            t
        },
        None => other.to_owned(),
    }
}

impl ServiceDraft {
    /// A draft of which nothing has been read but perhaps the name.
    pub fn named(name: Option<String>) -> (r: Self)
        ensures
            r@ == draft_named(opt_view(name)),
    {
        ServiceDraft { name, display_name: None, service_type: None, state: None, pid: 0 }
    }

    /// The service that the draft describes, if it has a name.
    pub fn finish(self) -> (r: Option<SystemdService>)
        ensures
            match r {
                Some(s) => finished(self@) == Some(s@),
                None => finished(self@) is None,
            },
    {
        let name = match self.name {
            Some(name) => name,
            None => {
                return None;
            },
        };
        let name = trim(name.as_str()).to_owned();
        if name.as_str().is_empty() {
            return None;
        }
        let description = text_or(self.display_name, name.as_str());
        let sub_state = text_or(self.service_type, "");
        proof {
            reveal_strlit("");
            assert(""@ =~= Seq::<char>::empty());
        }
        let s = SystemdService {
            name: name.clone(),
            load_state: "installed".to_owned(),
            active_state: text_or(self.state, "unknown"),
            sub_state,
            description,
            service_name: name,
            main_pid: self.pid,
        };
        assert(s@ =~= finished(self@)->0);
        Some(s)
    }
}

/// The services that are complete, and the one being read.
#[verifier::ext_equal]
pub struct Reading {
    pub done: Seq<ServiceView>,
    pub current: DraftView,
}

/// `done` with the service of a draft, if the draft has one.
pub open spec fn with_finished(done: Seq<ServiceView>, d: DraftView) -> Seq<ServiceView> {
    match finished(d) {
        Some(s) => done.push(s),
        None => done,
    }
}

/// What one line adds. A `SERVICE_NAME` begins the next service; the other
/// lines fill in the one being read, and a line of no known field is passed over.
pub open spec fn read_line(at: Reading, line: Seq<char>) -> Reading {
    let t = trimmed(line);
    let name = "SERVICE_NAME:"@;
    let display = "DISPLAY_NAME:"@;
    if name.is_prefix_of(t) {
        Reading {
            done: with_finished(at.done, at.current),
            current: draft_named(Some(trimmed(t.skip(name.len() as int)))),
        }
    } else if display.is_prefix_of(t) {
        Reading {
            current: DraftView {
                display_name: Some(trimmed(t.skip(display.len() as int))),
                ..at.current
            },
            ..at
        }
    } else if field_value_of(t, "TYPE"@) is Some {
        Reading {
            current: DraftView {
                service_type: Some(ascii_lowered(named_value(field_value_of(t, "TYPE"@)->0))),
                ..at.current
            },
            ..at
        }
    } else if field_value_of(t, "STATE"@) is Some {
        Reading {
            current: DraftView {
                state: Some(ascii_lowered(named_value(field_value_of(t, "STATE"@)->0))),
                ..at.current
            },
            ..at
        }
    } else if field_value_of(t, "PID"@) is Some {
        Reading {
            current: DraftView {
                pid: match parsed(field_value_of(t, "PID"@)->0, 10, u32::MAX as nat) {
                    Some(pid) => pid as u32,
                    None => 0,
                },
                ..at.current
            },
            ..at
        }
    } else {
        at
    }
}

/// What the lines of a listing add up to.
pub open spec fn read_lines(rows: Seq<Seq<char>>) -> Reading
    decreases rows.len(),
{
    if rows.len() == 0 {
        Reading { done: seq![], current: draft_named(None) }
    } else {
        read_line(read_lines(rows.drop_last()), rows.last())
    }
}

/// The services in the output of `sc queryex`.
pub open spec fn queried_services(output: Seq<char>) -> Seq<ServiceView> {
    let all = read_lines(lines(output));
    with_finished(all.done, all.current)
}

fn push_finished(services: &mut Vec<SystemdService>, draft: ServiceDraft)
    ensures
        service_views(final(services)@) == with_finished(service_views(old(services)@), draft@),
{
    match draft.finish() {
        Some(s) => {
            services.push(s);
            assert(service_views(services@) =~= service_views(old(services)@).push(s@));
        },
        None => {},
    }
}

pub fn parse_sc_queryex_output(output: &str) -> (r: Vec<SystemdService>)
    ensures
        service_views(r@) == queried_services(output@),
{
    let all = lines_of(output);
    let ghost rows = strs(all@);
    let mut services: Vec<SystemdService> = Vec::new();
    let mut current = ServiceDraft::named(None);
    let mut i: usize = 0;
    assert(service_views(services@) =~= seq![]);
    while i < all.len()
        invariant
            i <= all@.len(),
            rows == strs(all@),
            read_lines(rows.take(i as int)) == (Reading {
                done: service_views(services@),
                current: current@,
            }),
        decreases all.len() - i,
    {
        proof {
            assert(rows.take(i + 1).drop_last() =~= rows.take(i as int));
            assert(rows.take(i + 1).last() == all@[i as int]@);
        }
        let line = trim(all[i]);
        i = i + 1;
        if let Some(name) = strip_prefix(line, "SERVICE_NAME:") {
            let done = current;
            current = ServiceDraft::named(Some(trim(name).to_owned()));
            push_finished(&mut services, done);
            continue;
        }
        if let Some(display_name) = strip_prefix(line, "DISPLAY_NAME:") {
            current.display_name = Some(trim(display_name).to_owned());
            continue;
        }
        if let Some(value) = field_value(line, "TYPE") {
            current.service_type =
            Some(to_ascii_lowercase(parse_sc_named_value(value).as_str()));
            continue;
        }
        if let Some(value) = field_value(line, "STATE") {
            current.state = Some(to_ascii_lowercase(parse_sc_named_value(value).as_str()));
            continue;
        }
        if let Some(value) = field_value(line, "PID") {
            current.pid = match parse_u32(value) {
                Some(pid) => pid,
                None => 0,
            };
        }
    }
    assert(rows.take(i as int) =~= rows);
    push_finished(&mut services, current);
    services
}

} // verus!
