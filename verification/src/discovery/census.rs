//! The outcome of a discovery scan.
use vstd::prelude::*;
use vstd::string::*;

use crate::discovery::container::Container;
use crate::discovery::event_log::EventLogChannel;
use crate::discovery::files::LogFile;
use crate::discovery::packages::Package;
use crate::discovery::ports::ListeningPort;
use crate::discovery::processes::Process;
use crate::discovery::systemd::SystemdService;
use crate::strmap::{texts, StrMap};

verus! {

/// Everything that a scan found, by kind. A backend that failed has an entry in
/// `errors` and adds nothing.
pub struct Census {
    pub os: String,
    pub architecture: String,
    pub containers: Vec<Container>,
    pub log_files: Vec<LogFile>,
    pub systemd_services: Vec<SystemdService>,
    pub event_log_channels: Vec<EventLogChannel>,
    pub processes: Vec<Process>,
    pub listening_ports: Vec<ListeningPort>,
    pub installed_packages: Vec<Package>,
    pub errors: StrMap<String>,
    pub collected_at: String,
}

impl Default for Census {
    fn default() -> (r: Self)
        ensures
            r.os@ == Seq::<char>::empty(),
            r.architecture@ == Seq::<char>::empty(),
            r.containers@ == Seq::<Container>::empty(),
            r.log_files@ == Seq::<LogFile>::empty(),
            r.systemd_services@ == Seq::<SystemdService>::empty(),
            r.event_log_channels@ == Seq::<EventLogChannel>::empty(),
            r.processes@ == Seq::<Process>::empty(),
            r.listening_ports@ == Seq::<ListeningPort>::empty(),
            r.installed_packages@ == Seq::<Package>::empty(),
            r.errors@ == Map::<Seq<char>, String>::empty(),
            r.collected_at@ == Seq::<char>::empty(),
    {
        Census {
            os: String::new(),
            architecture: String::new(),
            containers: Vec::new(),
            log_files: Vec::new(),
            systemd_services: Vec::new(),
            event_log_channels: Vec::new(),
            processes: Vec::new(),
            listening_ports: Vec::new(),
            installed_packages: Vec::new(),
            errors: StrMap::new(),
            collected_at: String::new(),
        }
    }
}

/// What each backend of a scan came to.
pub struct BackendResults {
    pub docker: Result<Vec<Container>, String>,
    pub kubernetes: Result<Vec<Container>, String>,
    pub cri: Result<Vec<Container>, String>,
    pub files: Result<Vec<LogFile>, String>,
    pub systemd: Result<Vec<SystemdService>, String>,
    pub event_log: Result<Vec<EventLogChannel>, String>,
    pub processes: Result<Vec<Process>, String>,
    pub ports: Result<Vec<ListeningPort>, String>,
    pub packages: Result<Vec<Package>, String>,
}

/// What a backend found; nothing where it failed.
pub open spec fn found<T>(r: Result<Vec<T>, String>) -> Seq<T> {
    match r {
        Ok(v) => v@,
        Err(_) => seq![],
    }
}

/// `errors` with that of a backend, where it failed.
pub open spec fn with_error<T>(
    errors: Map<Seq<char>, Seq<char>>,
    backend: Seq<char>,
    r: Result<Vec<T>, String>,
) -> Map<Seq<char>, Seq<char>> {
    match r {
        Ok(_) => errors,
        Err(e) => errors.insert(backend, e@),
    }
}

/// The errors of all backends that failed.
pub open spec fn backend_errors(b: BackendResults) -> Map<Seq<char>, Seq<char>> {
    let m = Map::<Seq<char>, Seq<char>>::empty();
    let m = with_error(m, "docker"@, b.docker);
    let m = with_error(m, "kubernetes"@, b.kubernetes);
    let m = with_error(m, "cri"@, b.cri);
    let m = with_error(m, "files"@, b.files);
    let m = with_error(m, "systemd"@, b.systemd);
    let m = with_error(m, "event_log_channels"@, b.event_log);
    let m = with_error(m, "processes"@, b.processes);
    let m = with_error(m, "ports"@, b.ports);
    with_error(m, "packages"@, b.packages)
}

fn take_found<T>(
    r: Result<Vec<T>, String>,
    backend: &str,
    errors: &mut StrMap<String>,
) -> (v: Vec<T>)
    ensures
        v@ == found(r),
        texts(final(errors)@) == with_error(texts(old(errors)@), backend@, r),
{
    match r {
        Ok(v) => v,
        Err(e) => {
            let ghost text = e@;
            errors.insert(backend.to_owned(), e);
            assert(texts(errors@) =~= texts(old(errors)@).insert(backend@, text));
            Vec::new()
        },
    }
}

/// Puts together what the backends found. Containers come in the order Docker,
/// Kubernetes, CRI. A backend that failed is best effort: its error is kept and
/// the others count.
pub fn assemble_census(
    os: String,
    architecture: String,
    collected_at: String,
    results: BackendResults,
) -> (r: Census)
    ensures
        r.os == os,
        r.architecture == architecture,
        r.collected_at == collected_at,
        r.containers@ == found(results.docker) + found(results.kubernetes) + found(results.cri),
        r.log_files@ == found(results.files),
        r.systemd_services@ == found(results.systemd),
        r.event_log_channels@ == found(results.event_log),
        r.processes@ == found(results.processes),
        r.listening_ports@ == found(results.ports),
        r.installed_packages@ == found(results.packages),
        texts(r.errors@) == backend_errors(results),
{
    let mut errors: StrMap<String> = StrMap::new();
    assert(texts(errors@) =~= Map::<Seq<char>, Seq<char>>::empty());
    let mut containers = take_found(results.docker, "docker", &mut errors);
    let mut kubernetes = take_found(results.kubernetes, "kubernetes", &mut errors);
    let mut cri = take_found(results.cri, "cri", &mut errors);
    containers.append(&mut kubernetes);
    containers.append(&mut cri);
    let log_files = take_found(results.files, "files", &mut errors);
    let systemd_services = take_found(results.systemd, "systemd", &mut errors);
    let event_log_channels = take_found(results.event_log, "event_log_channels", &mut errors);
    let processes = take_found(results.processes, "processes", &mut errors);
    let listening_ports = take_found(results.ports, "ports", &mut errors);
    let installed_packages = take_found(results.packages, "packages", &mut errors);
    Census {
        os,
        architecture,
        containers,
        log_files,
        systemd_services,
        event_log_channels,
        processes,
        listening_ports,
        installed_packages,
        errors,
        collected_at,
    }
}

/// A failed backend hides nothing that the others found: a census with an error
/// for Docker still carries all that Kubernetes and CRI reported.
pub proof fn failures_are_best_effort(b: BackendResults)
    requires
        b.docker is Err,
    ensures
        found(b.docker) + found(b.kubernetes) + found(b.cri) == found(b.kubernetes) + found(b.cri),
        backend_errors(b).contains_key("docker"@),
{
    assert(found(b.docker) + found(b.kubernetes) + found(b.cri) =~= found(b.kubernetes) + found(
        b.cri,
    ));
    let m = with_error(Map::<Seq<char>, Seq<char>>::empty(), "docker"@, b.docker);
    assert(m.contains_key("docker"@));
}

} // verus!
