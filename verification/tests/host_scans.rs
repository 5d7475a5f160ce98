use edgepacer::discovery::event_log::{
    is_classic, is_trace_channel, parse_channel_list, parse_record_count, plan_probes,
    select_channels,
};
use edgepacer::discovery::files::{
    active_cri_log_file, count_lines, default_log_extensions, default_scan_paths,
    detect_container_log_format, detect_format, is_log_file, log_file_from_facts,
    permissions_string, walk_step, EntryKind, FileFacts, FormatProbe, Framing, LogFile, WalkStep,
};
use edgepacer::discovery::packages::{
    parse_brew_cellar, parse_dpkg_status, parse_rpm_output, CellarEntry,
};
use edgepacer::discovery::ports::{
    link_inode, listen_ports_from_proc_net_tcp, namespaces_to_sweep, native_ports,
    parse_lsof_line, parse_lsof_output, parse_netstat_ano, process_of_directory, socket_owners,
    ProcessFacts, SocketOwner, SocketRow,
};
use edgepacer::discovery::processes::{native_process, parse_ps_aux};
use edgepacer::discovery::systemd::{
    is_reportable, parse_systemctl_line, parse_units, systemd_discovery_supported_for,
    SystemdService,
};
use edgepacer::discovery::windows_services::{
    parse_sc_queryex_output, windows_service_discovery_supported_for,
};
use edgepacer::strmap::StrMap;

fn ext(list: &[&str]) -> Vec<String> {
    list.iter().map(|s| s.to_string()).collect()
}

// ---------------------------------------------------------------------------
// Windows event log
// ---------------------------------------------------------------------------

#[test]
fn parses_number_of_log_records() {
    let gli =
        "name: Application\nenabled: true\nnumberOfLogRecords: 12345\noldestRecordNumber: 1\n";
    assert_eq!(parse_record_count(gli), Some(12345));
    assert_eq!(parse_record_count("name: Empty\nenabled: true\n"), None);
}

#[test]
fn drops_debug_and_analytic_trace_channels() {
    assert!(is_trace_channel("Microsoft-Windows-WinRM/Debug"));
    assert!(is_trace_channel("Microsoft-Windows-Kernel-WHEA/Analytic"));
    assert!(!is_trace_channel("Microsoft-Windows-WinRM/Operational"));
    assert!(!is_trace_channel("Application"));
}

#[test]
fn classics_are_recognized_case_insensitively() {
    assert!(is_classic("Application"));
    assert!(is_classic("security"));
    assert!(!is_classic("Microsoft-Windows-WinRM/Operational"));
}

#[test]
fn select_keeps_classics_always_and_others_only_with_records() {
    let probed = ext(&[
        "Application",
        "Microsoft-Windows-WinRM/Operational",
        "Microsoft-Windows-Idle/Operational",
    ]);
    let mut counts = StrMap::new();
    counts.insert("Microsoft-Windows-WinRM/Operational".to_string(), 42u64);

    let selected = select_channels(&probed, &counts);
    let names: Vec<&str> = selected.iter().map(|c| c.channel.as_str()).collect();

    assert_eq!(names, vec!["Application", "Microsoft-Windows-WinRM/Operational"]);
    assert_eq!(selected[0].record_count, 0);
    assert_eq!(selected[1].record_count, 42);
}

#[test]
fn probes_are_capped() {
    let mut all = parse_channel_list(" System \n\nA/Debug\r\nB/Operational\n");
    assert_eq!(all, ext(&["System", "A/Debug", "B/Operational"]));
    let (probed, dropped) = plan_probes(&all);
    assert_eq!(probed, ext(&["System", "B/Operational"]));
    assert_eq!(dropped, 0);
    for i in 0..500 {
        all.push(format!("C-{i}/Operational"));
    }
    let (probed, dropped) = plan_probes(&all);
    assert_eq!(probed.len(), 401);
    assert_eq!(dropped, 101);
}

// ---------------------------------------------------------------------------
// Files
// ---------------------------------------------------------------------------

fn file_name(path: &str) -> &str {
    std::path::Path::new(path).file_name().unwrap().to_str().unwrap()
}

#[test]
fn detects_log_files() {
    let allowed = default_log_extensions();
    assert!(is_log_file(file_name("/var/log/syslog.log"), &allowed));
    assert!(is_log_file(file_name("/var/log/app.log.gz"), &allowed));
    assert!(!is_log_file(file_name("/var/log/syslog"), &allowed));
    assert!(!is_log_file(file_name("/var/log/data.csv"), &allowed));
}

#[test]
fn a_hidden_name_has_no_extension() {
    let allowed = default_log_extensions();
    assert!(!is_log_file(".log", &allowed));
    assert!(is_log_file("..log", &allowed));
    assert!(!is_log_file(".log.gz", &allowed));
    assert!(is_log_file(".a.log.gz", &allowed));
    assert!(!is_log_file("..", &allowed));
}

#[test]
fn default_allowlist_matches_log_only() {
    let allowed = default_log_extensions();
    assert!(is_log_file(file_name("/var/log/app.log"), &allowed));
    assert!(!is_log_file(file_name("/var/log/app.txt"), &allowed));
}

#[test]
fn txt_matches_when_opted_in() {
    let allowed = ext(&["log", "txt"]);
    assert!(is_log_file(file_name("/var/log/app.txt"), &allowed));
    assert!(is_log_file(file_name("/var/log/app.log"), &allowed));
}

#[test]
fn rotated_logs_match_under_default_allowlist() {
    let allowed = default_log_extensions();
    assert!(is_log_file(file_name("/var/log/app.log.gz"), &allowed));
    assert!(is_log_file(file_name("/var/log/app.log.1"), &allowed));
    assert!(!is_log_file(file_name("/var/log/app.csv.1"), &allowed));
}

#[test]
fn default_scan_paths_are_os_aware() {
    assert_eq!(
        default_scan_paths(true),
        &[r"C:\inetpub\logs\LogFiles", r"C:\Windows\Logs", r"C:\ProgramData"]
    );
    assert_eq!(default_scan_paths(false), &["/var/log"]);
}

#[test]
fn discovers_files_in_dir() {
    let allowed = default_log_extensions();
    assert_eq!(walk_step(EntryKind::File, file_name("/d/app.log"), &allowed), WalkStep::Report);
    assert_eq!(walk_step(EntryKind::File, file_name("/d/other.txt"), &allowed), WalkStep::Skip);
    assert_eq!(walk_step(EntryKind::Directory, file_name("/d/sub"), &allowed), WalkStep::Descend);
    assert_eq!(
        walk_step(EntryKind::File, file_name("/d/sub/nested.log"), &allowed),
        WalkStep::Report
    );
    assert_eq!(walk_step(EntryKind::Other, file_name("/d/link.log"), &allowed), WalkStep::Skip);
}

fn scanned(path: &str, content: &[u8]) -> LogFile {
    log_file_from_facts(&FileFacts {
        path,
        size: content.len() as u64,
        modified_secs: Some(0),
        readable: true,
        permissions: "100644",
        sample: content,
        line_count: count_lines(content),
    })
}

#[test]
fn detects_ndjson_format() {
    let json_file = scanned(
        "/d/json.log",
        b"{\"level\":\"info\",\"msg\":\"hello\"}\n{\"level\":\"warn\",\"msg\":\"again\"}\n",
    );
    assert_eq!(json_file.format, "ndjson");

    let plain_file = scanned("/d/plain.log", b"2026-04-05 INFO hello\n");
    assert_eq!(plain_file.format, "plain_text");
}

#[test]
fn detects_docker_json_file_inner_payload_format() {
    let content = br#"{"log":"{\"level\":\"info\",\"msg\":\"hello\"}\n","stream":"stdout","time":"2026-07-04T23:35:09Z"}
{"log":"{\"level\":\"warn\",\"msg\":\"again\"}\n","stream":"stderr","time":"2026-07-04T23:35:10Z"}
"#;
    assert_eq!(detect_format(content, Framing::DockerJson), "ndjson");
}

#[test]
fn docker_json_file_with_plain_inner_payload_is_plain_text() {
    let content = br#"{"log":"INFO hello\n","stream":"stdout","time":"2026-07-04T23:35:09Z"}
"#;
    assert_eq!(detect_format(content, Framing::DockerJson), "plain_text");
}

#[test]
fn detects_cri_inner_payload_format() {
    let names = ext(&["0.log"]);
    assert_eq!(active_cri_log_file(&names), Some(0));
    let content = br#"2026-07-04T23:35:09Z stdout F {"level":"info","msg":"hello"}
2026-07-04T23:35:10Z stderr F {"level":"warn","msg":"again"}
"#;
    assert_eq!(detect_format(content, Framing::Cri), "ndjson");
}

#[test]
fn container_format_prefers_label_hint() {
    let mut labels = StrMap::new();
    labels.insert("log.format".to_string(), "json".to_string());

    assert!(matches!(
        detect_container_log_format("docker", &labels, ""),
        FormatProbe::Known(f) if f == "json"
    ));
    assert!(matches!(
        detect_container_log_format("docker", &StrMap::new(), "/l.log"),
        FormatProbe::Sample(Framing::DockerJson)
    ));
    assert!(matches!(
        detect_container_log_format("containerd", &StrMap::new(), "/l.log"),
        FormatProbe::Sample(Framing::Cri)
    ));
    assert!(matches!(
        detect_container_log_format("docker", &StrMap::new(), ""),
        FormatProbe::Known(f) if f == "plain_text"
    ));
}

#[test]
fn malformed_brace_wrapped_line_is_plain_text() {
    assert_eq!(scanned("/d/bracey.log", b"{not json}\n").format, "plain_text");
}

#[test]
fn mixed_json_and_plain_lines_are_plain_text() {
    assert_eq!(
        scanned("/d/mixed.log", b"{\"level\":\"info\"}\nnot json\n").format,
        "plain_text"
    );
}

#[test]
fn json_array_line_is_plain_text() {
    assert_eq!(scanned("/d/array.log", b"[{\"level\":\"info\"}]\n").format, "plain_text");
}

#[test]
fn non_utf8_line_is_plain_text() {
    assert_eq!(scanned("/d/binary.log", &[0xff, 0xfe, b'{', b'}']).format, "plain_text");
}

#[test]
fn files_are_described() {
    let file = log_file_from_facts(&FileFacts {
        path: "/d/app.log",
        size: 12,
        modified_secs: Some(1_700_000_000),
        readable: true,
        permissions: &permissions_string(0o100644),
        sample: b"line1\nline2\n",
        line_count: count_lines(b"line1\nline2\n"),
    });
    assert_eq!(file.path, "/d/app.log");
    assert_eq!(file.size, 12);
    assert_eq!(file.modified, "2023-11-14T22:13:20+00:00");
    assert_eq!(file.permissions, "100644");
    assert_eq!(file.line_count, 2);
    let undated = log_file_from_facts(&FileFacts {
        path: "/d/app.log",
        size: 0,
        modified_secs: None,
        readable: false,
        permissions: "",
        sample: b"",
        line_count: 0,
    });
    assert_eq!(undated.modified, "");
    assert!(!undated.readable);
    assert_eq!(undated.format, "plain_text");
    assert_eq!(count_lines(b"one\ntwo"), 2);
}

// ---------------------------------------------------------------------------
// Packages
// ---------------------------------------------------------------------------

const SAMPLE_DPKG_STATUS: &str = r#"Package: nginx
Status: install ok installed
Priority: optional
Section: httpd
Installed-Size: 1234
Version: 1.18.0-6ubuntu2
Description: high-performance web server

Package: libssl3
Status: install ok installed
Priority: required
Section: libs
Installed-Size: 5678
Version: 3.0.2-0ubuntu1
Description: Secure Sockets Layer toolkit

Package: old-removed-pkg
Status: deinstall ok config-files
Priority: optional
Section: misc
Version: 0.1.0-1
Description: a package that was removed

Package: not-installed
Status: purge ok not-installed
Priority: optional
Section: misc
Version: 2.0.0
Description: never fully installed
"#;

#[test]
fn parse_dpkg_installed_packages() {
    let packages = parse_dpkg_status(SAMPLE_DPKG_STATUS);
    assert_eq!(packages.len(), 2);

    assert_eq!(packages[0].name, "nginx");
    assert_eq!(packages[0].version, "1.18.0-6ubuntu2");
    assert_eq!(packages[0].manager, "apt");

    assert_eq!(packages[1].name, "libssl3");
    assert_eq!(packages[1].version, "3.0.2-0ubuntu1");
}

#[test]
fn parse_dpkg_excludes_deinstalled() {
    let packages = parse_dpkg_status(SAMPLE_DPKG_STATUS);
    assert!(
        !packages.iter().any(|p| p.name == "old-removed-pkg"),
        "deinstalled packages should be excluded"
    );
}

#[test]
fn parse_dpkg_excludes_not_installed() {
    let packages = parse_dpkg_status(SAMPLE_DPKG_STATUS);
    assert!(
        !packages.iter().any(|p| p.name == "not-installed"),
        "not-installed packages should be excluded"
    );
}

#[test]
fn parse_dpkg_empty_input() {
    let packages = parse_dpkg_status("");
    assert!(packages.is_empty());
}

#[test]
fn other_managers_list_packages_too() {
    let rpms = parse_rpm_output("bash|5.1-2\nnothing\n|1\nzsh|5.8\n");
    let read: Vec<(&str, &str, &str)> = rpms
        .iter()
        .map(|p| (p.name.as_str(), p.version.as_str(), p.manager.as_str()))
        .collect();
    assert_eq!(read, vec![("bash", "5.1-2", "yum"), ("zsh", "5.8", "yum")]);
}

#[test]
fn discover_brew_if_cellar_exists() {
    let brews = parse_brew_cellar(&vec![
        CellarEntry { name: "jq".into(), versions: Some(ext(&["1.6", "1.7"])) },
        CellarEntry { name: "file".into(), versions: None },
    ]);
    assert!(!brews.is_empty(), "brew should find at least one package");
    assert!(brews.iter().all(|p| p.manager == "brew"));
    assert!(brews.iter().all(|p| !p.name.is_empty()));
    assert!(brews.iter().all(|p| !p.version.is_empty()));
    assert_eq!(brews.len(), 1);
    assert_eq!(brews[0].name, "jq");
    assert_eq!(brews[0].version, "1.7");
    assert_eq!(brews[0].manager, "brew");
}

// ---------------------------------------------------------------------------
// Ports
// ---------------------------------------------------------------------------

const SAMPLE_PROC_NET_TCP: &str = "  sl  local_address rem_address   st tx_queue rx_queue tr tm->when retrnsmt   uid  timeout inode\n   0: 0100007F:1F90 00000000:0000 0A 00000000:00000000 00:00000000 00000000     0        0 424242 1 0000000000000000 100 0 0 10 0\n   1: 0100007F:1F90 0100007F:C350 01 00000000:00000000 00:00000000 00000000     0        0 424243 1 0000000000000000 20 4 30 10 -1\n   2: 00000000:0050 00000000:0000 0A 00000000:00000000 00:00000000 00000000     0        0 424244 1 0000000000000000 100 0 0 10 0\n";

#[test]
fn listen_rows_parse_port_and_inode() {
    let rows = listen_ports_from_proc_net_tcp(SAMPLE_PROC_NET_TCP);
    assert_eq!(vec![(8080, 424242), (80, 424244)], rows);
}

#[test]
fn non_listen_states_are_skipped() {
    let rows = listen_ports_from_proc_net_tcp(SAMPLE_PROC_NET_TCP);
    assert!(!rows.iter().any(|(_, inode)| *inode == 424243));
}

#[test]
fn malformed_lines_are_skipped() {
    let rows = listen_ports_from_proc_net_tcp("header\ngarbage line\n   0: nonsense\n");
    assert!(rows.is_empty());
}

const SAMPLE_LSOF: &str = r#"COMMAND     PID   USER   FD   TYPE             DEVICE SIZE/OFF NODE NAME
sshd        843   root    3u  IPv4 0x12345      0t0  TCP *:22 (LISTEN)
sshd        843   root    4u  IPv6 0x12346      0t0  TCP [::]:22 (LISTEN)
postgres   1234   morten  5u  IPv6 0x67890      0t0  TCP [::1]:5432 (LISTEN)
node       5678   morten  18u IPv4 0xabc12      0t0  TCP 127.0.0.1:3000 (LISTEN)
dnsmasq     567   nobody  4u  IPv4 0xabcde      0t0  UDP *:53
chrome     9999   morten  42u IPv4 0xdeadb      0t0  TCP 192.168.1.5:54321->93.184.216.34:443 (ESTABLISHED)
"#;

#[test]
fn parse_lsof_listen_ports() {
    let ports = parse_lsof_output(SAMPLE_LSOF);

    assert!(ports.iter().any(|p| p.port == 22 && p.protocol == "tcp"));
    assert!(ports.iter().any(|p| p.port == 5432 && p.protocol == "tcp"));
    assert!(ports.iter().any(|p| p.port == 3000 && p.protocol == "tcp"));
    assert!(ports.iter().any(|p| p.port == 53 && p.protocol == "udp"));

    assert!(!ports.iter().any(|p| p.port == 54321));
    assert_eq!(ports.len(), 4);
}

#[test]
fn parse_lsof_line_tcp_listen() {
    let line = "sshd        843   root    3u  IPv4 0x12345      0t0  TCP *:22 (LISTEN)";
    let port = parse_lsof_line(line).unwrap();
    assert_eq!(port.port, 22);
    assert_eq!(port.protocol, "tcp");
    assert_eq!(port.process, "sshd");
    assert_eq!(port.pid, 843);
}

#[test]
fn parse_lsof_line_udp() {
    let line = "dnsmasq     567   nobody  4u  IPv4 0xabcde      0t0  UDP *:53";
    let port = parse_lsof_line(line).unwrap();
    assert_eq!(port.port, 53);
    assert_eq!(port.protocol, "udp");
    assert_eq!(port.process, "dnsmasq");
    assert_eq!(port.pid, 567);
}

#[test]
fn parse_lsof_ipv6_brackets() {
    let line = "postgres   1234   morten  5u  IPv6 0x67890      0t0  TCP [::1]:5432 (LISTEN)";
    let port = parse_lsof_line(line).unwrap();
    assert_eq!(port.port, 5432);
    assert_eq!(port.protocol, "tcp");
}

#[test]
fn parse_netstat_ano_listen_and_udp() {
    let output = "\
Active Connections

  Proto  Local Address          Foreign Address        State           PID
  TCP    0.0.0.0:135            0.0.0.0:0              LISTENING       1234
  TCP    [::]:445               [::]:0                 LISTENING       4
  TCP    127.0.0.1:51000        127.0.0.1:443          ESTABLISHED     5000
  UDP    0.0.0.0:5353           *:*                                    777
";
    let ports = parse_netstat_ano(output);

    assert!(ports.iter().any(|p| p.port == 135 && p.protocol == "tcp" && p.pid == 1234));
    assert!(ports.iter().any(|p| p.port == 445 && p.protocol == "tcp" && p.pid == 4));
    assert!(ports.iter().any(|p| p.port == 5353 && p.protocol == "udp" && p.pid == 777));
    assert!(!ports.iter().any(|p| p.port == 51000));
}

#[test]
fn native_tables_are_joined_by_inode() {
    let owner = |inode: u64, pid: u32, process: &str| SocketOwner {
        inode,
        pid,
        process: process.to_string(),
    };
    let ports = native_ports(
        &vec![
            SocketRow { port: 80, inode: 1, listening: true },
            SocketRow { port: 81, inode: 2, listening: false },
        ],
        &vec![SocketRow { port: 53, inode: 3, listening: false }],
        &vec![(8080, 4), (80, 1), (9090, 5)],
        &vec![owner(1, 10, "nginx"), owner(4, 12, "app")],
    );
    let mut read: Vec<(u16, &str, &str, u32)> = ports
        .iter()
        .map(|p| (p.port, p.protocol.as_str(), p.process.as_str(), p.pid))
        .collect();
    read.sort();
    assert_eq!(
        read,
        vec![(53, "udp", "", 0), (80, "tcp", "nginx", 10), (8080, "tcp", "app", 12)]
    );
    assert_eq!(link_inode("socket:[4242]", "socket"), Some(4242));
    assert_eq!(link_inode("net:[1]", "socket"), None);
}

fn process_facts(pid: u32, comm: &str, namespace: Option<&str>, open: &[&str]) -> ProcessFacts {
    ProcessFacts {
        pid,
        comm: comm.to_string(),
        namespace: namespace.map(|n| n.to_string()),
        open_files: open.iter().map(|f| f.to_string()).collect(),
    }
}

#[test]
fn directories_of_processes_are_numbers() {
    assert_eq!(process_of_directory("4242"), Some(4242));
    assert_eq!(process_of_directory("self"), None);
    assert_eq!(process_of_directory(""), None);
    assert_eq!(process_of_directory("4294967296"), None);
}

#[test]
fn sockets_belong_to_the_processes_that_hold_them() {
    let owners = socket_owners(&vec![
        process_facts(10, "nginx\n", None, &["socket:[7]", "/dev/null", "socket:[8]"]),
        process_facts(11, " app ", None, &["pipe:[9]", "socket:[7]"]),
    ]);
    let read: Vec<(u64, u32, &str)> =
        owners.iter().map(|o| (o.inode, o.pid, o.process.as_str())).collect();
    assert_eq!(read, vec![(7, 10, "nginx"), (8, 10, "nginx"), (7, 11, "app")]);

    let ports = native_ports(
        &vec![SocketRow { port: 80, inode: 7, listening: true }],
        &vec![],
        &vec![],
        &owners,
    );
    assert_eq!(ports[0].pid, 11);
}

#[test]
fn each_other_network_namespace_is_swept_once() {
    let processes = vec![
        process_facts(1, "init", Some("net:[100]"), &[]),
        process_facts(2, "a", Some("net:[200]"), &[]),
        process_facts(3, "b", Some("net:[200]"), &[]),
        process_facts(4, "c", None, &[]),
        process_facts(5, "d", Some("net:[300]"), &[]),
        process_facts(6, "e", Some("mnt:[400]"), &[]),
    ];
    assert_eq!(namespaces_to_sweep(&processes, Some("net:[100]")), vec![2, 5]);
    assert_eq!(namespaces_to_sweep(&processes, None), vec![1, 2, 5]);
}

// ---------------------------------------------------------------------------
// Processes
// ---------------------------------------------------------------------------

const SAMPLE_PS_AUX: &str = r#"USER               PID  %CPU %MEM      VSZ    RSS   TT  STAT STARTED      TIME COMMAND
root                 1   0.0  0.1  4853248  32768   ??  Ss   Mon09AM   3:42.07 /sbin/launchd
_windowserver      312   3.2  0.5  8147820 164352   ??  Ss   Mon09AM  98:14.51 /System/Library/PrivateFrameworks/SkyLight.framework/Resources/WindowServer -daemon
morten            1042   0.1  1.2 438762240 392400   ??  S    Mon09AM  12:05.83 /Applications/Firefox.app/Contents/MacOS/firefox -foreground
root               143   0.0  0.0  4341520   2048   ??  Ss   Mon09AM   0:03.19 /usr/sbin/syslogd
"#;

#[test]
fn parse_ps_aux_output() {
    let procs = parse_ps_aux(SAMPLE_PS_AUX);
    assert_eq!(procs.len(), 4);

    assert_eq!(procs[0].pid, 1);
    assert_eq!(procs[0].user, "root");
    assert_eq!(procs[0].cpu, "0.0");
    assert_eq!(procs[0].command, "/sbin/launchd");

    assert_eq!(procs[1].pid, 312);
    assert!(procs[1].command.contains("WindowServer"));

    assert_eq!(procs[2].pid, 1042);
    assert!(procs[2].command.contains("firefox"));
    assert!(procs[2].command.contains("-foreground"));
}

#[test]
fn parse_ps_aux_empty_lines() {
    let output = "USER PID %CPU %MEM VSZ RSS TT STAT STARTED TIME COMMAND\n\n";
    let procs = parse_ps_aux(output);
    assert!(procs.is_empty());
}

#[test]
fn kernel_processes_have_bracketed_names() {
    let p = native_process(3, 1000, &vec!["sh", "-c", "true"], "sh", "1.5".to_string());
    assert_eq!(p.command, "sh -c true");
    assert_eq!(p.user, "1000");
    assert_eq!(p.mem, "1.5");
    let k = native_process(4, 0, &vec![], "kworker", "0.0".to_string());
    assert_eq!(k.command, "[kworker]");
    assert_eq!(k.cpu, "0.0");
}

// ---------------------------------------------------------------------------
// Services
// ---------------------------------------------------------------------------

#[test]
fn parse_normal_service_line() {
    let line = "  nginx.service                loaded active running  A high performance web server";
    let svc = parse_systemctl_line(line).unwrap();
    assert_eq!(svc.name, "nginx.service");
    assert_eq!(svc.service_name, "nginx");
    assert_eq!(svc.load_state, "loaded");
    assert_eq!(svc.active_state, "active");
    assert_eq!(svc.sub_state, "running");
    assert_eq!(svc.description, "A high performance web server");
}

#[test]
fn parse_inactive_service() {
    let line = "  bluetooth.service            loaded inactive dead    Bluetooth service";
    let svc = parse_systemctl_line(line).unwrap();
    assert_eq!(svc.name, "bluetooth.service");
    assert_eq!(svc.active_state, "inactive");
    assert_eq!(svc.sub_state, "dead");
}

#[test]
fn skip_non_service_units() {
    let line = "  basic.target                 loaded active active   Basic System";
    assert!(parse_systemctl_line(line).is_none());
}

#[test]
fn skip_empty_lines() {
    assert!(parse_systemctl_line("").is_none());
    assert!(parse_systemctl_line("   ").is_none());
}

#[test]
fn reportable_filters_inactive_and_dead_keeps_active_and_failed() {
    let mk = |active: &str| SystemdService {
        name: "x.service".into(),
        load_state: "loaded".into(),
        active_state: active.into(),
        sub_state: String::new(),
        description: String::new(),
        service_name: "x".into(),
        main_pid: 0,
    };

    assert!(is_reportable(&mk("active")));
    assert!(is_reportable(&mk("activating")));
    assert!(is_reportable(&mk("reloading")));
    assert!(
        is_reportable(&mk("failed")),
        "failed units wrote diagnostics on the way down — keep them"
    );
    assert!(!is_reportable(&mk("inactive")));
    assert!(!is_reportable(&mk("dead")));
}

#[test]
fn systemd_discovery_requires_linux_systemd_runtime() {
    assert!(systemd_discovery_supported_for("linux", true));
    assert!(!systemd_discovery_supported_for("linux", false));
    assert!(!systemd_discovery_supported_for("macos", true));
    assert!(!systemd_discovery_supported_for("windows", true));
}

#[test]
fn only_reportable_units_are_listed() {
    let units = parse_units(
        "a.service loaded active running A\nb.service loaded inactive dead B\nc.target loaded active active C\n",
    );
    assert_eq!(units.len(), 1);
    assert_eq!(units[0].service_name, "a");
}

#[test]
fn parses_sc_queryex_services() {
    let output = r#"
SERVICE_NAME: EventLog
DISPLAY_NAME: Windows Event Log
        TYPE               : 30  WIN32
        STATE              : 4  RUNNING
                                (STOPPABLE, NOT_PAUSABLE, ACCEPTS_SHUTDOWN)
        WIN32_EXIT_CODE    : 0  (0x0)
        SERVICE_EXIT_CODE  : 0  (0x0)
        CHECKPOINT         : 0x0
        WAIT_HINT          : 0x0
        PID                : 2112
        FLAGS              :

SERVICE_NAME: ALG
DISPLAY_NAME: Application Layer Gateway Service
        TYPE               : 10  WIN32_OWN_PROCESS
        STATE              : 1  STOPPED
        WIN32_EXIT_CODE    : 1077  (0x435)
        SERVICE_EXIT_CODE  : 0  (0x0)
        CHECKPOINT         : 0x0
        WAIT_HINT          : 0x0
        PID                : 0
        FLAGS              :
"#;

    let services = parse_sc_queryex_output(output);

    assert_eq!(services.len(), 2);
    assert_eq!(services[0].name, "EventLog");
    assert_eq!(services[0].description, "Windows Event Log");
    assert_eq!(services[0].load_state, "installed");
    assert_eq!(services[0].active_state, "running");
    assert_eq!(services[0].sub_state, "win32");
    assert_eq!(services[0].main_pid, 2112);

    assert_eq!(services[1].name, "ALG");
    assert_eq!(services[1].active_state, "stopped");
    assert_eq!(services[1].main_pid, 0);
}

#[test]
fn display_name_falls_back_to_service_name() {
    let services = parse_sc_queryex_output(
        r#"
SERVICE_NAME: EventLog
        TYPE               : 30  WIN32
        STATE              : 4  RUNNING
        PID                : 2112
"#,
    );

    assert_eq!(services.len(), 1);
    assert_eq!(services[0].description, "EventLog");
}

#[test]
fn windows_service_discovery_requires_windows() {
    assert!(windows_service_discovery_supported_for("windows"));
    assert!(!windows_service_discovery_supported_for("linux"));
    assert!(!windows_service_discovery_supported_for("macos"));
}
