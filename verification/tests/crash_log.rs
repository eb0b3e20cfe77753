use openbarista::crash_log::{
    all_entries, boot_count, flush, init, log_line, mark_flushed, panic_line, periodic_flush,
    persisted_entries, persisted_head_seq, ram_entries, record, reset_reason_label, truncate,
    unflushed_entries, ResetReason, RingState, MAX_LINE, RING_SLOTS,
};

#[test]
fn ring_keeps_most_recent_entries_in_order() {
    let mut state = RingState::default();
    for i in 0..(RING_SLOTS + 10) {
        record(&mut state, &format!("line {i}"));
    }
    assert_eq!(state.entries.len(), RING_SLOTS);
    assert_eq!(state.entries.first().unwrap().line, "line 10");
    assert_eq!(state.entries.last().unwrap().line, format!("line {}", RING_SLOTS + 9));
    // Sequences stay monotonically increasing.
    for pair in state.entries.windows(2) {
        assert!(pair[0].seq < pair[1].seq);
    }
}

#[test]
fn truncate_respects_char_boundaries() {
    let multi_byte = "é".repeat(80); // 160 bytes
    let truncated = truncate(&multi_byte);
    assert!(truncated.len() <= MAX_LINE);
    assert!(truncated.chars().all(|c| c == 'é'));
    assert_eq!(truncate("short"), "short");
}

fn unflushed_seqs_of(state: &RingState) -> Vec<u64> {
    unflushed_entries(state).iter().map(|e| e.seq).collect()
}

#[test]
fn flush_watermark_is_exclusive() {
    // Regression: with the old `seq <= flushed_seq` condition and
    // flushed_seq starting at 0, the first entry (the boot record) was
    // skipped by every flush and never reached NVS.
    let mut state = RingState::default();
    record(&mut state, "boot #1");
    assert_eq!(unflushed_seqs_of(&state), vec![0]);

    // Simulate a flush: everything currently in the ring is persisted.
    state.flushed_seq = state.next_seq;
    assert_eq!(unflushed_seqs_of(&state), Vec::<u64>::new());

    // New entries after the flush become pending again.
    record(&mut state, "later event");
    assert_eq!(unflushed_seqs_of(&state), vec![1]);
}

#[test]
fn seq_continues_across_seeded_restart() {
    // Mirrors what init() does on device: seed the ring from the
    // persisted head so the new boot's entries stay visible in
    // all_entries() (they must be > the persisted max).
    let persisted_max: u64 = 40;
    let mut state = RingState {
        next_seq: persisted_max,
        flushed_seq: persisted_max,
        entries: Vec::new(),
    };
    record(&mut state, "boot #2");
    // Every new entry is above the persisted max, so nothing is hidden.
    for e in &state.entries {
        assert!(e.seq > persisted_max - 1);
    }
    assert_eq!(unflushed_seqs_of(&state), vec![40]);
}

/// The storage of a device: keys with blobs.
struct Storage {
    blobs: Vec<(String, Vec<u8>)>,
}

impl Storage {
    fn set(&mut self, key: &str, blob: &[u8]) {
        self.blobs.retain(|(k, _)| k != key);
        self.blobs.push((key.to_string(), blob.to_vec()));
    }

    fn get(&self, key: &str) -> Option<Vec<u8>> {
        self.blobs.iter().find(|(k, _)| k == key).map(|(_, b)| b.clone())
    }

    fn slots(&self) -> Vec<Option<Vec<u8>>> {
        (0..RING_SLOTS).map(|i| self.get(&format!("l{i}"))).collect()
    }

    fn flush(&mut self, ring: &mut RingState) {
        for write in flush(ring) {
            self.set(&write.key, &write.blob);
        }
        mark_flushed(ring);
    }
}

#[test]
fn entries_survive_a_restart() {
    let mut storage = Storage { blobs: Vec::new() };
    let (mut ring, boots) = init(&None, &None, ResetReason::PowerOn, "abc-dev");
    assert_eq!(boots, 1);
    assert_eq!(ring.entries[0].line, "boot #1 reset=power-on fw=abc-dev");
    record(&mut ring, "first");
    record(&mut ring, "zweite Zeile: größer ☕");
    storage.flush(&mut ring);
    assert!(flush(&ring).is_empty());
    record(&mut ring, "not stored");

    let head = storage.get("lseq");
    let (ring, boots) = init(&head, &Some(vec![1, 0, 0, 0]), ResetReason::Panic, "abc-dev");
    assert_eq!(boots, 2);
    let stored = persisted_entries(&storage.slots());
    let lines: Vec<String> = all_entries(&stored, &ring).iter().map(|e| e.line.clone()).collect();
    assert_eq!(
        lines,
        vec![
            "boot #1 reset=power-on fw=abc-dev",
            "first",
            "zweite Zeile: größer ☕",
            "boot #2 reset=panic fw=abc-dev",
        ]
    );
}

#[test]
fn the_ring_in_storage_overwrites_its_oldest_entries() {
    let mut storage = Storage { blobs: Vec::new() };
    let mut ring = RingState::default();
    for i in 0..150 {
        record(&mut ring, &format!("entry {i}"));
        if i % 7 == 0 {
            storage.flush(&mut ring);
        }
    }
    storage.flush(&mut ring);
    let stored = persisted_entries(&storage.slots());
    assert_eq!(stored.len(), RING_SLOTS);
    for (i, e) in stored.iter().enumerate() {
        assert_eq!(e.line, format!("entry {}", 150 - RING_SLOTS + i));
    }
    assert_eq!(ram_entries(&ring).len(), RING_SLOTS);
}

#[test]
fn bytes_that_are_no_text_are_repaired() {
    let mut blob = 7u64.to_le_bytes().to_vec();
    blob.extend_from_slice(b"bad \xff byte");
    let mut slots: Vec<Option<Vec<u8>>> = vec![None; RING_SLOTS];
    slots[7] = Some(blob);
    slots[9] = Some(vec![1, 2, 3]);
    let entries = persisted_entries(&slots);
    assert_eq!(entries.len(), 1);
    assert_eq!(entries[0].seq, 7);
    assert_eq!(entries[0].line, "bad \u{fffd} byte");
}

#[test]
fn flushing_is_due_every_ten_seconds() {
    assert!(!periodic_flush(19, 10));
    assert!(periodic_flush(20, 10));
    assert!(!periodic_flush(5, 10));
}

#[test]
fn stored_numbers_are_read() {
    assert_eq!(boot_count(&None), 0);
    assert_eq!(boot_count(&Some(vec![4, 1, 0, 0])), 260);
    assert_eq!(boot_count(&Some(vec![4, 1])), 0);
    assert_eq!(persisted_head_seq(&Some(vec![0, 1, 0, 0, 0, 0, 0, 0])), 256);
    assert_eq!(persisted_head_seq(&None), 0);
}

#[test]
fn lines_have_their_form() {
    assert_eq!(log_line("INFO", "wifi", "up"), "[INFO] [wifi] up");
    assert_eq!(
        panic_line(Some("main"), Some("boom"), Some("src/x.rs"), 12),
        "PANIC thread=main: boom at src/x.rs:12"
    );
    assert_eq!(panic_line(None, None, None, 0), "PANIC thread=<unnamed>: unknown panic payload");
    assert_eq!(reset_reason_label(ResetReason::Brownout), "brownout");
    assert_eq!(reset_reason_label(ResetReason::Watchdog), "wdt");
}

#[test]
fn long_lines_are_cut_when_they_are_recorded() {
    let mut ring = RingState::default();
    record(&mut ring, &"x".repeat(500));
    assert_eq!(ring.entries[0].line, "x".repeat(MAX_LINE));
}
