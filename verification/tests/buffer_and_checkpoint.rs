use edgepacer::buffer::{
    cache_bytes_for, cache_size_bytes, checked_data_len, decode_entry, encode_entry,
    BufferError, DiskBuffer, Durability, StoredEntry, StoredRows, MIN_CACHE_MB,
};
use edgepacer::checkpoint::{Checkpoint, CheckpointStore, StreamingCheckpoint};
use edgepacer::counters::{AgentCounters, Gauges, QueueDepthGauge};

fn buffer(max_mb: u64) -> DiskBuffer {
    DiskBuffer::open(StoredRows::empty(), max_mb, None).unwrap()
}

fn lines(texts: &[&str]) -> Vec<Vec<u8>> {
    texts.iter().map(|t| t.as_bytes().to_vec()).collect()
}

#[test]
fn cache_bytes_for_override_wins_and_is_floored() {
    assert_eq!(cache_bytes_for(Some(4), None), 4 * 1024 * 1024);
    assert_eq!(cache_bytes_for(Some(0), None), MIN_CACHE_MB as usize * 1024 * 1024);
    assert_eq!(cache_bytes_for(None, None), cache_size_bytes(None));
}

#[test]
fn the_environment_sizes_the_cache() {
    assert_eq!(cache_size_bytes(None), 8 * 1024 * 1024);
    assert_eq!(cache_size_bytes(Some("3")), 3 * 1024 * 1024);
    assert_eq!(cache_size_bytes(Some("0")), 1024 * 1024);
    assert_eq!(cache_size_bytes(Some("lots")), 8 * 1024 * 1024);
    assert_eq!(cache_bytes_for(Some(2), Some("3")), 2 * 1024 * 1024);
}

#[test]
fn huge_caches_are_as_large_as_a_size_can_be() {
    assert_eq!(cache_bytes_for(Some(u64::MAX), None), usize::MAX);
    assert_eq!(cache_bytes_for(None, Some("18446744073709551615")), usize::MAX);
    assert_eq!(cache_size_bytes(Some("18446744073709551615")), usize::MAX);
    assert_eq!(cache_bytes_for(None, Some("18446744073709551616")), 8 * 1024 * 1024);
    assert!(DiskBuffer::open(StoredRows::empty(), u64::MAX, Some("17592186044416")).is_ok());
}

#[test]
fn open_with_cache_roundtrips() {
    let mut buf =
        DiskBuffer::open_with_cache(StoredRows::empty(), 10, 2 * 1024 * 1024, Durability::Normal)
            .unwrap();
    buf.enqueue_batch(&vec![b"line".to_vec()], 1, &mut Gauges::new()).unwrap();
    assert_eq!(buf.peek(10).unwrap().len(), 1);
}

#[test]
fn enqueue_and_peek() {
    let mut buf = buffer(10);

    let lines = vec![b"hello".to_vec(), b"world".to_vec()];
    let (first, last) = buf.enqueue_batch(&lines, 1000, &mut Gauges::new()).unwrap();
    assert_eq!(first, 1);
    assert_eq!(last, 2);

    let entries = buf.peek(10).unwrap();
    assert_eq!(entries.len(), 2);
    assert_eq!(entries[0].sequence, 1);
    assert_eq!(entries[0].data, b"hello");
    assert_eq!(entries[0].timestamp_ns, 1000);
    assert_eq!(entries[1].sequence, 2);
    assert_eq!(entries[1].data, b"world");
}

#[test]
fn peek_does_not_delete() {
    let mut buf = buffer(10);

    buf.enqueue_batch(&lines(&["line1"]), 1000, &mut Gauges::new()).unwrap();

    let e1 = buf.peek(10).unwrap();
    let e2 = buf.peek(10).unwrap();
    assert_eq!(e1.len(), 1);
    assert_eq!(e2.len(), 1);
    assert_eq!(e1[0].sequence, e2[0].sequence);
}

#[test]
fn delete_after_ack() {
    let mut buf = buffer(10);

    buf.enqueue_batch(&lines(&["a", "b", "c"]), 1000, &mut Gauges::new()).unwrap();
    buf.delete_sequences(&vec![1, 2], &mut Gauges::new()).unwrap();

    let remaining = buf.peek(10).unwrap();
    assert_eq!(remaining.len(), 1);
    assert_eq!(remaining[0].data, b"c");
    assert_eq!(remaining[0].sequence, 3);
}

#[test]
fn is_empty_and_count() {
    let mut buf = buffer(10);

    assert!(buf.is_empty().unwrap());
    assert_eq!(buf.count().unwrap(), 0);

    buf.enqueue_batch(&lines(&["x"]), 1000, &mut Gauges::new()).unwrap();
    assert!(!buf.is_empty().unwrap());
    assert_eq!(buf.count().unwrap(), 1);

    buf.delete_sequences(&vec![1], &mut Gauges::new()).unwrap();
    assert!(buf.is_empty().unwrap());
}

#[test]
fn respects_max_size() {
    let mut buf = buffer(0);

    let result = buf.enqueue_batch(&lines(&["data"]), 1000, &mut Gauges::new());
    assert!(matches!(result, Err(BufferError::Full { .. })));
}

#[test]
fn a_batch_goes_in_whole_or_not_at_all() {
    let mut buf = buffer(1);
    let big = vec![0u8; 600_000];
    let result = buf.enqueue_batch(&vec![big.clone(), big.clone()], 1, &mut Gauges::new());
    assert_eq!(
        result,
        Err(BufferError::Full { current_bytes: 0, max_bytes: 1024 * 1024 })
    );
    assert!(buf.is_empty().unwrap());
    buf.enqueue_batch(&vec![big], 1, &mut Gauges::new()).unwrap();
    assert_eq!(buf.current_bytes(), 600_012);
    assert_eq!(buf.max_bytes(), 1024 * 1024);
}

#[test]
fn an_empty_batch_is_a_noop() {
    let mut buf = buffer(10);
    assert_eq!(buf.enqueue_batch(&Vec::new(), 1000, &mut Gauges::new()), Ok((0, 0)));
    assert!(buf.is_empty().unwrap());
}

#[test]
fn sequence_numbers_monotonic_across_batches() {
    let mut buf = buffer(10);

    let (_, last1) = buf.enqueue_batch(&lines(&["a"]), 1000, &mut Gauges::new()).unwrap();
    let (first2, _) = buf.enqueue_batch(&lines(&["b"]), 2000, &mut Gauges::new()).unwrap();

    assert_eq!(first2, last1 + 1);
}

#[test]
fn buffer_survives_reopen() {
    let mut buf = buffer(10);
    buf.enqueue_batch(&lines(&["survive"]), 1000, &mut Gauges::new()).unwrap();
    let stored = buf.stored();

    let reopened = DiskBuffer::open(stored, 10, None).unwrap();
    let entries = reopened.peek(10).unwrap();
    assert_eq!(entries.len(), 1);
    assert_eq!(entries[0].data, b"survive");
}

#[test]
fn sequence_continues_after_reopen() {
    let mut buf = buffer(10);
    buf.enqueue_batch(&lines(&["a"]), 1000, &mut Gauges::new()).unwrap();
    let stored = buf.stored();

    let mut reopened = DiskBuffer::open(stored, 10, None).unwrap();
    let (first, _) = reopened.enqueue_batch(&lines(&["b"]), 2000, &mut Gauges::new()).unwrap();
    assert_eq!(first, 2);
}

#[test]
fn binary_encoding_roundtrip() {
    let data = b"test log line with unicode: \xc3\xa9\xc3\xa0\xc3\xbc";
    let ts = 1_700_000_000_000_000_000i64;

    let encoded = encode_entry(ts, data).unwrap();
    assert_eq!(encoded.len(), 12 + data.len());

    let decoded = decode_entry(42, &encoded).unwrap();
    assert_eq!(decoded.sequence, 42);
    assert_eq!(decoded.timestamp_ns, ts);
    assert_eq!(decoded.data, data);
}

#[test]
fn entries_write_the_highest_byte_first() {
    let encoded = encode_entry(-2, b"ab").unwrap();
    assert_eq!(
        encoded,
        vec![255, 255, 255, 255, 255, 255, 255, 254, 0, 0, 0, 2, b'a', b'b']
    );
    assert_eq!(decode_entry(1, &encoded).unwrap().timestamp_ns, -2);
    let least = encode_entry(i64::MIN, b"").unwrap();
    assert_eq!(decode_entry(1, &least).unwrap().timestamp_ns, i64::MIN);
    let timed = encode_entry(0x0102_0304_0506_0708, b"").unwrap();
    assert_eq!(timed, vec![1, 2, 3, 4, 5, 6, 7, 8, 0, 0, 0, 0]);
}

#[test]
fn checked_data_len_rejects_oversized_length() {
    let too_large = u32::MAX as usize + 1;

    assert!(matches!(
        checked_data_len(too_large),
        Err(BufferError::EntryTooLarge { len }) if len == too_large
    ));
    assert_eq!(checked_data_len(7), Ok(7));
}

#[test]
fn decode_rejects_truncated_data() {
    assert!(decode_entry(1, &[0; 5]).is_none());
    assert!(decode_entry(1, &[0; 12]).is_some());
}

#[test]
fn entries_cut_anywhere_are_refused() {
    let encoded = encode_entry(5, b"line").unwrap();
    for n in 0..encoded.len() {
        assert!(decode_entry(1, &encoded[..n]).is_none());
    }
}

#[test]
fn peek_returns_typed_corrupt_error_for_bad_entry() {
    let stored = StoredRows {
        entries: vec![StoredEntry { sequence: 1, bytes: vec![0; 5] }],
        next_sequence: 2,
    };
    let buf = DiskBuffer::open(stored, 10, None).unwrap();
    let result = buf.peek(10);

    assert!(matches!(
        result,
        Err(BufferError::Corrupt { sequence }) if sequence == 1
    ));
    assert!(buf.peek(0).unwrap().is_empty());
}

#[test]
fn rows_out_of_order_are_not_opened() {
    let rows = |first: u64, second: u64, next: u64| StoredRows {
        entries: vec![
            StoredEntry { sequence: first, bytes: vec![] },
            StoredEntry { sequence: second, bytes: vec![] },
        ],
        next_sequence: next,
    };
    assert!(DiskBuffer::open(rows(1, 2, 3), 1, None).is_ok());
    assert!(matches!(
        DiskBuffer::open(rows(2, 2, 3), 1, None).err(),
        Some(BufferError::Corrupt { sequence: 2 })
    ));
    assert!(matches!(
        DiskBuffer::open(rows(1, 3, 3), 1, None).err(),
        Some(BufferError::Corrupt { sequence: 3 })
    ));
}

#[test]
fn queue_depth_gauge_tracks_buffer_lifecycle() {
    let mut counters = AgentCounters::new();
    let gauge = counters.queue_depth_gauge();

    let mut buf = buffer(10);
    buf.set_gauge(gauge.clone(), counters.gauges());
    assert_eq!(gauge.get(counters.gauges()), 0, "fresh buffer seeds nothing");

    let (first, _) =
        buf.enqueue_batch(&lines(&["aaaa", "bbbb"]), 100, counters.gauges()).unwrap();
    let after_enqueue = gauge.get(counters.gauges());
    assert_eq!(after_enqueue, buf.current_bytes());
    assert!(after_enqueue > 0);

    buf.delete_sequences(&vec![first], counters.gauges()).unwrap();
    assert_eq!(gauge.get(counters.gauges()), buf.current_bytes());
    assert!(gauge.get(counters.gauges()) < after_enqueue);

    // Closed (pipeline stopped): its remaining bytes leave the gauge.
    let stored = buf.close(counters.gauges());
    assert_eq!(gauge.get(counters.gauges()), 0);

    // Reopen with a gauge: the persisted backlog re-enters.
    let mut buf = DiskBuffer::open(stored, 10, None).unwrap();
    buf.set_gauge(gauge.clone(), counters.gauges());
    assert_eq!(gauge.get(counters.gauges()), buf.current_bytes());
    assert!(gauge.get(counters.gauges()) > 0, "backlog survives on disk and seeds gauge");
    assert_eq!(counters.snapshot().queue_depth_bytes, 16);
}

#[test]
fn buffers_with_one_gauge_add_up() {
    let mut gauges = Gauges::new();
    let gauge = QueueDepthGauge::new(&mut gauges);
    let mut one = buffer(10);
    let mut two = buffer(10);
    one.set_gauge(gauge, &mut gauges);
    two.set_gauge(gauge, &mut gauges);

    one.enqueue_batch(&lines(&["abc"]), 1, &mut gauges).unwrap();
    two.enqueue_batch(&lines(&["defgh", "i"]), 1, &mut gauges).unwrap();
    assert_eq!(gauge.get(&gauges), 15 + 17 + 13);

    assert!(one.enqueue_batch(&vec![vec![0; 11 * 1024 * 1024]], 1, &mut gauges).is_err());
    assert_eq!(gauge.get(&gauges), 45);
    two.delete_sequences(&vec![1, 1, 9], &mut gauges).unwrap();
    assert_eq!(gauge.get(&gauges), 28);
    one.close(&mut gauges);
    assert_eq!(gauge.get(&gauges), two.current_bytes());
    two.close(&mut gauges);
    assert_eq!(gauge.get(&gauges), 0);
}

#[test]
fn a_buffer_without_a_gauge_moves_none() {
    let mut gauges = Gauges::new();
    let gauge = QueueDepthGauge::new(&mut gauges);
    gauge.add(&mut gauges, 5);
    let mut buf = buffer(10);
    buf.enqueue_batch(&lines(&["abc"]), 1, &mut gauges).unwrap();
    buf.delete_sequences(&vec![1], &mut gauges).unwrap();
    buf.close(&mut gauges);
    assert_eq!(gauge.get(&gauges), 5);
}

#[test]
fn another_gauge_takes_a_buffer_over() {
    let mut gauges = Gauges::new();
    let first = QueueDepthGauge::new(&mut gauges);
    let second = QueueDepthGauge::new(&mut gauges);
    let mut buf = buffer(10);
    buf.enqueue_batch(&lines(&["abc"]), 1, &mut gauges).unwrap();
    buf.set_gauge(first, &mut gauges);
    assert_eq!((first.get(&gauges), second.get(&gauges)), (15, 0));
    buf.set_gauge(second, &mut gauges);
    assert_eq!((first.get(&gauges), second.get(&gauges)), (0, 15));
}

#[test]
fn a_deletion_counts_each_listed_entry_once() {
    let mut buf = buffer(10);
    buf.enqueue_batch(&lines(&["a", "b", "c", "d"]), 1, &mut Gauges::new()).unwrap();
    buf.delete_sequences(&vec![3, 1, 3, 77, 1], &mut Gauges::new()).unwrap();
    assert_eq!(buf.count().unwrap(), 2);
    let left: Vec<u64> = buf.peek(10).unwrap().iter().map(|e| e.sequence).collect();
    assert_eq!(left, vec![2, 4]);
}

#[test]
fn buffer_errors_read_as_they_should() {
    assert_eq!(
        BufferError::Full { current_bytes: 10, max_bytes: 5 }.message(),
        "buffer full (10 bytes, max 5)"
    );
    assert_eq!(
        BufferError::EntryTooLarge { len: 4294967296 }.message(),
        "buffer entry too large (4294967296 bytes, max 4294967295)"
    );
    assert_eq!(
        BufferError::Corrupt { sequence: 3 }.message(),
        "corrupt entry at sequence 3"
    );
    assert_eq!(
        BufferError::Sqlite("disk I/O error".to_string()).message(),
        "sqlite error: disk I/O error"
    );
}

// ---------------------------------------------------------------------------
// Checkpoints
// ---------------------------------------------------------------------------

fn checkpoint(path: &str, offset: u64, inode: u64) -> Checkpoint {
    Checkpoint { path: path.into(), offset, inode, updated_at: 17, streaming: None }
}

#[test]
fn save_and_load() {
    let mut store = CheckpointStore::new();
    store.save(&checkpoint("/var/log/app.log", 4096, 12345));

    let loaded = store.load("/var/log/app.log").unwrap();
    assert_eq!(loaded.offset, 4096);
    assert_eq!(loaded.inode, 12345);
    assert_eq!(loaded.updated_at, 17);
}

#[test]
fn load_missing_returns_none() {
    let store = CheckpointStore::new();
    assert!(store.load("/nonexistent").is_none());
}

#[test]
fn save_overwrites() {
    let mut store = CheckpointStore::new();
    store.save(&checkpoint("/var/log/app.log", 1000, 1));
    store.save(&checkpoint("/var/log/app.log", 5000, 1));

    let loaded = store.load("/var/log/app.log").unwrap();
    assert_eq!(loaded.offset, 5000);
    assert_eq!(store.count(), 1);
}

#[test]
fn delete_checkpoint() {
    let mut store = CheckpointStore::new();
    store.save(&checkpoint("/var/log/app.log", 100, 1));
    store.delete("/var/log/app.log");
    assert!(store.load("/var/log/app.log").is_none());
}

#[test]
fn prune_stale_checkpoints() {
    let mut store = CheckpointStore::new();
    for path in ["/var/log/a.log", "/var/log/b.log", "/var/log/c.log"] {
        store.save(&checkpoint(path, 0, 1));
    }

    let pruned = store.prune_stale(&vec!["/var/log/a.log".to_string()]);
    assert_eq!(pruned, 2);

    assert!(store.load("/var/log/a.log").is_some());
    assert!(store.load("/var/log/b.log").is_none());
    assert!(store.load("/var/log/c.log").is_none());
}

#[test]
fn prune_stale_empty_active_set_clears_all() {
    let mut store = CheckpointStore::default();
    store.save(&checkpoint("/var/log/a.log", 0, 1));

    let pruned = store.prune_stale(&Vec::new());
    assert_eq!(pruned, 1);
    assert!(store.load("/var/log/a.log").is_none());
}

#[test]
fn save_streaming_checkpoint_roundtrip() {
    let mut store = CheckpointStore::new();
    let cp = StreamingCheckpoint::journald("src-1", "s=abc123", 5);

    store.save_streaming("src-1", &cp);
    let loaded = store.load_streaming("src-1").unwrap();
    assert_eq!(loaded.journald_cursor(), Some("s=abc123"));
    let row = store.load("stream:src-1").unwrap();
    assert_eq!((row.offset, row.inode, row.updated_at), (0, 0, 5));
}

#[test]
fn a_moved_checkpoint_replaces_the_one_that_was_there() {
    let mut store = CheckpointStore::new();
    store.save_streaming("old", &StreamingCheckpoint::journald("old", "s=1", 5));
    store.save_streaming("new", &StreamingCheckpoint::journald("new", "s=2", 6));

    assert!(store.rekey_streaming("old", "new"));
    assert!(store.load_streaming("old").is_none());
    assert_eq!(store.load_streaming("new").unwrap().journald_cursor(), Some("s=1"));
    assert_eq!(store.count(), 1);
    assert!(!store.rekey_streaming("old", "newer"));
    assert!(store.rekey_streaming("new", "new"));
    assert_eq!(store.count(), 1);
}

#[test]
fn a_file_checkpoint_is_no_streaming_one() {
    let mut store = CheckpointStore::new();
    store.save(&checkpoint("stream:src-1", 9, 9));
    assert!(store.load_streaming("src-1").is_none());
}

#[test]
fn checkpoint_survives_reopen() {
    let mut store = CheckpointStore::new();
    store.save(&checkpoint("/var/log/app.log", 9999, 42));
    store.save(&checkpoint("/var/log/other.log", 1, 2));

    let store = CheckpointStore::open(store.stored());
    let cp = store.load("/var/log/app.log").unwrap();
    assert_eq!(cp.offset, 9999);
    assert_eq!(cp.inode, 42);
    assert_eq!(store.count(), 2);
}
