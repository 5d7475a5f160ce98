use edgepacer::checkpoint::Checkpoint;
use edgepacer::container_reader::{
    find_highest_log_file, is_kubernetes_log_path, sample_lines, ContainerReader, Rotation,
};
use edgepacer::cri::{
    parse_docker_json_line, parse_line, reassemble_partial, DockerJsonReassembler, LogStream,
};
use regex::Regex;

fn reassembled(raw: &[u8], buf: &mut Vec<u8>) -> Option<Vec<u8>> {
    reassemble_partial(raw, buf).map(|(message, _)| message)
}

#[test]
fn parses_cri_full_line() {
    let line = b"2024-01-15T10:30:45.123456789Z stdout F Hello world";
    let (msg, stream, partial, ok) = parse_line(line);
    assert!(ok);
    assert_eq!(msg, b"Hello world");
    assert_eq!(stream, LogStream::Stdout);
    assert!(!partial);
}

#[test]
fn parses_cri_partial_line() {
    let line = b"2024-01-15T10:30:45Z stderr P partial";
    let (_, _, partial, ok) = parse_line(line);
    assert!(ok);
    assert!(partial);
}

#[test]
fn reassemble_partial_joins_p_fragments_then_full() {
    let mut buf = Vec::new();
    assert_eq!(reassembled(b"2024-01-15T10:30:45Z stdout P chunk-one ", &mut buf), None);
    assert_eq!(reassembled(b"2024-01-15T10:30:45Z stdout P chunk-two ", &mut buf), None);
    let (out, stream) = reassemble_partial(b"2024-01-15T10:30:45Z stdout F chunk-three", &mut buf)
        .expect("full line flushes the reassembled message");
    assert_eq!(out, b"chunk-one chunk-two chunk-three");
    assert_eq!(stream, LogStream::Stdout);
    assert!(buf.is_empty(), "buffer drained after full line");
}

#[test]
fn reassemble_partial_passes_through_full_lines() {
    let mut buf = Vec::new();
    let (out, stream) = reassemble_partial(b"2024-01-15T10:30:45Z stderr F solo", &mut buf).unwrap();
    assert_eq!(out, b"solo");
    assert_eq!(stream, LogStream::Stderr);
    assert!(buf.is_empty());
}

#[test]
fn reassemble_partial_leaves_dangling_partial_buffered() {
    let mut buf = Vec::new();
    assert_eq!(reassembled(b"2024-01-15T10:30:45Z stdout P not-yet-complete", &mut buf), None);
    assert_eq!(buf, b"not-yet-complete");
}

#[test]
fn lines_without_a_header_pass_through() {
    for line in [
        &b"plain"[..],
        b"2024-01-15T10:30:45 stdout F no zone",
        b"2024-01-15T10:30:45Z stdout X no flag",
        b"\xff 2024-01-15T10:30:45Z stdout F no text",
    ] {
        let (msg, stream, partial, ok) = parse_line(line);
        assert!(!ok);
        assert!(!partial);
        assert_eq!(msg, line);
        assert_eq!(stream, LogStream::Unspecified);
    }
}

#[test]
fn other_streams_are_unspecified() {
    let (msg, stream, partial, ok) = parse_line(b"2024-01-15T10:30:45+02:00 journal F line");
    assert!(ok);
    assert!(!partial);
    assert_eq!(msg, b"line");
    assert_eq!(stream, LogStream::Unspecified);
}

#[test]
fn digits_of_every_script_make_a_timestamp() {
    let digit = Regex::new(r"^\d$").unwrap();
    for c in (0u32..0x20000).filter_map(char::from_u32) {
        let line = format!("2024-01-15T10:30:4{c}Z stdout F line");
        let (_, _, _, ok) = parse_line(line.as_bytes());
        assert_eq!(ok, digit.is_match(&c.to_string()), "{c:?}");
    }
}

#[test]
fn parses_docker_json_file_line() {
    let line = br#"{"log":"{\"level\":\"INFO\",\"msg\":\"hello\"}\n","stream":"stdout","time":"2026-07-04T23:35:09.566698461Z"}"#;
    let record = parse_docker_json_line(line).unwrap();
    assert_eq!(record.payload, br#"{"level":"INFO","msg":"hello"}"#);
    assert_eq!(record.stream, LogStream::Stdout);
    assert!(!record.partial, "a newline-terminated record is complete");
}

#[test]
fn docker_json_record_without_newline_is_a_fragment() {
    let line = br#"{"log":"first half of a very long ","stream":"stdout","time":"2026-07-04T23:35:09Z"}"#;
    let record = parse_docker_json_line(line).unwrap();
    assert_eq!(record.payload, b"first half of a very long ");
    assert!(record.partial);
}

#[test]
fn rejoins_a_split_line_and_spans_every_consumed_record() {
    let first = br#"{"log":"2026-08-06 ERROR first half ","stream":"stdout","time":"2026-08-06T15:03:17Z"}"#.to_vec();
    let second =
        br#"{"log":"second half\n","stream":"stdout","time":"2026-08-06T15:03:17Z"}"#.to_vec();
    let expected_len = first.len() as u64 + 1 + second.len() as u64 + 1;

    let mut reassembler = DockerJsonReassembler::new();
    assert!(reassembler.push(first).is_none(), "a fragment emits nothing");
    assert_eq!(
        reassembler.pending_bytes(),
        expected_len - (second.len() as u64 + 1),
        "the fragment's bytes are held back until the line completes"
    );

    let line = reassembler
        .push(second)
        .expect("the newline-terminated record completes the line");
    assert_eq!(line.payload, b"2026-08-06 ERROR first half second half");
    assert_eq!(line.stream, LogStream::Stdout);
    assert_eq!(
        line.source_len, expected_len,
        "byte accounting spans both consumed records"
    );
    assert_eq!(reassembler.pending_bytes(), 0);
}

#[test]
fn rejoins_fragments_per_stream_when_the_other_stream_interleaves() {
    let mut reassembler = DockerJsonReassembler::new();

    assert!(reassembler
        .push(
            br#"{"log":"stderr head ","stream":"stderr","time":"2026-08-06T15:03:17Z"}"#.to_vec()
        )
        .is_none());
    let interleaved = reassembler
        .push(
            br#"{"log":"stdout line\n","stream":"stdout","time":"2026-08-06T15:03:17Z"}"#.to_vec(),
        )
        .expect("the stdout record is complete on its own");
    assert_eq!(interleaved.payload, b"stdout line");
    assert_eq!(interleaved.stream, LogStream::Stdout);

    let joined = reassembler
        .push(
            br#"{"log":"stderr tail\n","stream":"stderr","time":"2026-08-06T15:03:17Z"}"#.to_vec(),
        )
        .expect("the stderr line completes");
    assert_eq!(joined.payload, b"stderr head stderr tail");
    assert_eq!(joined.stream, LogStream::Stderr);
}

#[test]
fn non_docker_line_passes_through_the_reassembler() {
    let mut reassembler = DockerJsonReassembler::new();
    let raw = b"plain text line".to_vec();
    let line = reassembler.push(raw.clone()).expect("passed through");

    assert_eq!(line.payload, raw);
    assert_eq!(line.stream, LogStream::Unspecified);
    assert_eq!(line.source_len, raw.len() as u64 + 1);
}

// ---------------------------------------------------------------------------
// Container log files
// ---------------------------------------------------------------------------

const MAX_LINE: usize = 1024 * 1024;

fn names(list: &[&str]) -> Vec<String> {
    list.iter().map(|s| s.to_string()).collect()
}

fn checkpoint(offset: u64) -> Checkpoint {
    Checkpoint { path: "/pods/app".into(), offset, inode: 7, updated_at: 0, streaming: None }
}

#[test]
fn kt_k8s_sample_lines_equal_wire_messages() {
    let mut wire_reader = ContainerReader::open();
    assert_eq!(wire_reader.opened("0.log".into(), 1, 0), 0);

    let content = concat_lines(&[
        "2026-07-13T10:30:45.000000000Z stdout F plain message one",
        "2026-07-13T10:30:45.100000000Z stdout P Hello, ",
        "2026-07-13T10:30:45.200000000Z stdout F world",
        "2026-07-13T10:30:45.300000000Z stdout F {\"level\":\"info\",\"msg\":\"json body\"}",
    ]);

    let wire_messages = wire_reader.read_lines(&content, 100, MAX_LINE);
    let sample_messages = sample_lines(&content, MAX_LINE);

    assert_eq!(
        wire_messages, sample_messages,
        "k8s sample must equal the wire's bare CRI-parsed messages"
    );
    assert_eq!(
        sample_messages,
        vec![
            b"plain message one".to_vec(),
            b"Hello, world".to_vec(),
            br#"{"level":"info","msg":"json body"}"#.to_vec(),
        ],
        "partials reassembled, prefixes stripped, JSON body starts with '{{'"
    );
    assert_eq!(wire_reader.position().offset, content.len() as u64);
}

#[test]
fn reads_cri_lines_from_active_log() {
    let mut reader = ContainerReader::open();
    reader.opened("0.log".into(), 1, 0);
    let content = concat_lines(&[
        "2024-01-15T10:30:45.123456789Z stdout F line one",
        "2024-01-15T10:30:46.123456789Z stdout F line two",
    ]);

    let lines = reader.read_lines(&content, 10, MAX_LINE);
    assert_eq!(lines.len(), 2);
    assert_eq!(lines[0], b"line one");
    assert_eq!(lines[1], b"line two");
}

fn concat_lines(lines: &[&str]) -> Vec<u8> {
    let mut out = Vec::new();
    for line in lines {
        out.extend_from_slice(line.as_bytes());
        out.push(b'\n');
    }
    out
}

#[test]
fn the_highest_numbered_file_is_active() {
    let listed = names(&["0.log", "10.log", "9.log", "x.log", "11.log.gz", "12.txt"]);
    assert_eq!(find_highest_log_file(&listed).as_deref(), Some("10.log"));
    assert_eq!(find_highest_log_file(&names(&["x.log"])), None);
    assert!(is_kubernetes_log_path("/var/log/pods/ns_pod_uid/app", &listed));
    assert!(!is_kubernetes_log_path("/var/log/pods/ns_pod_uid/app", &names(&[])));
}

#[test]
fn rotation_and_truncation_start_over() {
    let mut reader = ContainerReader::open_with_checkpoint(&checkpoint(100));
    assert!(matches!(reader.check_rotation(Some("0.log"), None), Rotation::Open(f) if f == "0.log"));
    assert_eq!(reader.position().offset, 0);
    assert_eq!(reader.opened("0.log".into(), 7, 40), 40);
    assert!(matches!(reader.check_rotation(Some("0.log"), Some(40)), Rotation::Keep));
    assert!(matches!(reader.check_rotation(Some("0.log"), Some(39)), Rotation::Open(_)));
    assert_eq!(reader.position().offset, 0);
    assert_eq!(reader.opened("0.log".into(), 7, 39), 39);
    assert!(matches!(reader.check_rotation(Some("1.log"), Some(39)), Rotation::Open(f) if f == "1.log"));
    assert!(matches!(reader.check_rotation(None, None), Rotation::Close));
}

#[test]
fn reads_go_on_where_the_last_one_stopped() {
    let content = concat_lines(&[
        "2024-01-15T10:30:45Z stdout P one ",
        "2024-01-15T10:30:45Z stdout F half",
        "2024-01-15T10:30:46Z stdout F two",
    ]);
    let mut reader = ContainerReader::open();
    assert!(reader.read_lines(&content, 10, MAX_LINE).is_empty(), "no file is open yet");
    reader.opened("0.log".into(), 1, 0);
    assert!(reader.read_lines(&content, 1, MAX_LINE).is_empty());
    let at = reader.position().offset as usize;
    assert_eq!(at, "2024-01-15T10:30:45Z stdout P one \n".len());
    assert_eq!(
        reader.read_lines(&content[at..], 10, MAX_LINE),
        vec![b"one half".to_vec(), b"two".to_vec()]
    );
    assert_eq!(reader.position().offset, content.len() as u64);
}

#[test]
fn long_messages_are_cut() {
    let content = b"2024-01-15T10:30:45Z stdout F 123456789\n";
    assert_eq!(sample_lines(content, 40), vec![b"123456789".to_vec()]);
    assert_eq!(sample_lines(content, 5), vec![b"12345".to_vec()]);
}

#[test]
fn docker_records_are_read_strictly_and_the_rest_is_not() {
    let twice = br#"{"log":"a\n","log":"b\n","stream":"stdout"}"#;
    assert!(parse_docker_json_line(twice).is_none());
    let escaped = br#"{"log":"a\n","lo\u0067":"b\n","stream":"stdout"}"#;
    assert!(parse_docker_json_line(escaped).is_none());
    let others = br#"{"n":1e999,"n":2,"log":"a\n","stream":"stdout","t":"\ud800"}"#;
    let record = parse_docker_json_line(others).unwrap();
    assert_eq!(record.payload, b"a");
    assert_eq!(record.stream, LogStream::Stdout);
    assert!(parse_docker_json_line(br#"{"log":"a\n"}"#).is_none());
    assert!(parse_docker_json_line(br#"{"log":"a\n","stream":null}"#).is_none());
    assert!(parse_docker_json_line(br#"{"log":"a\n","stream":"stdout"},"#).is_none());
}
