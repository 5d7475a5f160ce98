//! Systemd services.
use vstd::prelude::*;
use vstd::string::*;

use crate::seqs::{kept, lemma_kept_step};
use crate::text::{
    join_from, joined, lines, lines_of, split_whitespace, str_eq, strip_suffix, strs, trim, trimmed,
    words,
};

verus! {

/// A discovered service.
pub struct SystemdService {
    pub name: String,
    pub load_state: String,
    pub active_state: String,
    pub sub_state: String,
    pub description: String,
    pub service_name: String,
    pub main_pid: u32,
}

/// What a service is.
#[verifier::ext_equal]
pub struct ServiceView {
    pub name: Seq<char>,
    pub load_state: Seq<char>,
    pub active_state: Seq<char>,
    pub sub_state: Seq<char>,
    pub description: Seq<char>,
    pub service_name: Seq<char>,
    pub main_pid: u32,
}

impl View for SystemdService {
    type V = ServiceView;

    open spec fn view(&self) -> ServiceView {
        ServiceView {
            name: self.name@,
            load_state: self.load_state@,
            active_state: self.active_state@,
            sub_state: self.sub_state@,
            description: self.description@,
            service_name: self.service_name@,
            main_pid: self.main_pid,
        }
    }
}

/// What the services of a list are.
pub open spec fn service_views(v: Seq<SystemdService>) -> Seq<ServiceView> {
    v.map_values(|s: SystemdService| s@)
}

impl SystemdService {
    /// What the service is tracked by: its unit name.
    pub fn identifier<'a>(&'a self) -> (r: &'a str)
        ensures
            r@ == self@.name,
    {
        self.name.as_str()
    }

    /// A copy of the service.
    pub fn copy(&self) -> (r: Self)
        ensures
            r == *self,
    {
        SystemdService {
            name: self.name.clone(),
            load_state: self.load_state.clone(),
            active_state: self.active_state.clone(),
            sub_state: self.sub_state.clone(),
            description: self.description.clone(),
            service_name: self.service_name.clone(),
            main_pid: self.main_pid,
        }
    }
}

/// Services can be listed on a Linux host that systemd runs.
pub fn systemd_discovery_supported_for(os: &str, runtime_present: bool) -> (r: bool)
    ensures
        r == (os@ == "linux"@ && runtime_present),
{
    str_eq(os, "linux") && runtime_present
}

/// Whether a unit belongs in the census: one that is neither inactive nor dead.
/// Failed units stay, for they wrote diagnostics on the way down.
pub open spec fn reportable(service: ServiceView) -> bool {
    service.active_state != "inactive"@ && service.active_state != "dead"@
}

pub fn is_reportable(service: &SystemdService) -> (r: bool)
    ensures
        r == reportable(service@),
{
    let state = service.active_state.as_str();
    !str_eq(state, "inactive") && !str_eq(state, "dead")
}

/// The column of a row, or nothing where the row is shorter.
pub open spec fn column(cols: Seq<Seq<char>>, i: int) -> Seq<char> {
    if i < cols.len() {
        cols[i]
    } else {
        seq![]
    }
}

/// The service in a line of `systemctl list-units`: unit, load state, active
/// state, sub state, and a description that takes up the rest.
pub open spec fn unit_row(line: Seq<char>) -> Option<ServiceView> {
    let cols = words(trimmed(line));
    let suffix = ".service"@;
    if cols.len() == 0 || !suffix.is_suffix_of(cols[0]) {
        None
    } else {
        Some(
            ServiceView {
                name: cols[0],
                load_state: column(cols, 1),
                active_state: column(cols, 2),
                sub_state: column(cols, 3),
                description: if cols.len() > 4 {
                    joined(cols.skip(4), " "@)
                } else {
                    seq![]
                },
                service_name: cols[0].take(cols[0].len() - suffix.len()),
                main_pid: 0,
            },
        )
    }
}

fn column_of(cols: &Vec<&str>, i: usize) -> (r: String)
    ensures
        r@ == column(strs(cols@), i as int),
{
    assert(strs(cols@).len() == cols@.len());
    if i < cols.len() {
        assert(strs(cols@)[i as int] == cols@[i as int]@);
        cols[i].to_owned()
    } else {
        String::new()
    }
}

pub fn parse_systemctl_line(line: &str) -> (r: Option<SystemdService>)
    ensures
        match r {
            Some(s) => unit_row(line@) == Some(s@),
            None => unit_row(line@) is None,
        },
{
    let cols = split_whitespace(trim(line));
    assert(strs(cols@).len() == cols@.len());
    if cols.len() == 0 {
        return None;
    }
    assert(strs(cols@)[0] == cols@[0]@);
    let service_name = match strip_suffix(cols[0], ".service") {
        Some(name) => name,
        None => {
            return None;
        },
    };
    let description = if cols.len() > 4 {
        join_from(&cols, 4, " ")
    } else {
        String::new()
    };
    let s = SystemdService {
        name: cols[0].to_owned(),
        load_state: column_of(&cols, 1),
        active_state: column_of(&cols, 2),
        sub_state: column_of(&cols, 3),
        description,
        service_name: service_name.to_owned(),
        main_pid: 0,
    };
    assert(s@ =~= unit_row(line@)->0);
    Some(s)
}

/// The reportable service in a line, if there is one.
pub open spec fn reported_row(line: Seq<char>) -> Option<ServiceView> {
    match unit_row(line) {
        Some(s) => if reportable(s) {
            Some(s)
        } else {
            None
        },
        None => None,
    }
}

/// The reportable services in the output of `systemctl list-units`.
pub fn parse_units(output: &str) -> (r: Vec<SystemdService>)
    ensures
        service_views(r@) == kept(lines(output@), |line: Seq<char>| reported_row(line)),
{
    let all = lines_of(output);
    let mut out: Vec<SystemdService> = Vec::new();
    let ghost rows = strs(all@);
    let ghost f = |line: Seq<char>| reported_row(line);
    let mut i: usize = 0;
    assert(service_views(out@) =~= kept(rows.take(0), f));
    while i < all.len()
        invariant
            i <= all@.len(),
            rows == strs(all@),
            f == (|line: Seq<char>| reported_row(line)),
            service_views(out@) == kept(rows.take(i as int), f),
        decreases all.len() - i,
    {
        proof {
            lemma_kept_step(rows, f, i as int);
            assert(rows[i as int] == all@[i as int]@);
        }
        let ghost before = service_views(out@);
        match parse_systemctl_line(all[i]) {
            Some(s) => {
                if is_reportable(&s) {
                    out.push(s);
                    assert(service_views(out@) =~= before.push(s@));
                }
            },
            None => {},
        }
        i = i + 1;
    }
    assert(rows.take(i as int) =~= rows);
    out
}

} // verus!
