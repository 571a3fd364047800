use ct_scraper::batch::batch_certificates;
use ct_scraper::envelope::RawEntry;
use ct_scraper::errors::ConfigError;
use ct_scraper::leaf::{encode_leaf, EntryType, MerkleTreeLeaf, TimestampedEntry};
use ct_scraper::ranges::plan;
use ct_scraper::sched::{FetchAction, FetchEvent, RangeState, Scheduler, step};
use ct_scraper::sink::DomainSink;

fn x509_leaf(cert: &[u8]) -> Vec<u8> {
    encode_leaf(&MerkleTreeLeaf {
        version: 0,
        leaf_type: 0,
        entry: TimestampedEntry {
            timestamp: 1,
            entry_type: EntryType::X509Entry,
            issuer_key_hash: vec![],
            signed_entry: cert.to_vec(),
            extensions: vec![],
        },
    })
}

#[test]
fn plan_tiles_exactly() {
    let ranges = plan(250, 100).unwrap();
    assert_eq!(ranges.len(), 3);
    assert_eq!((ranges[0].start, ranges[0].end), (0, 100));
    assert_eq!((ranges[1].start, ranges[1].end), (100, 200));
    assert_eq!((ranges[2].start, ranges[2].end), (200, 250));
}

#[test]
fn plan_general_shape() {
    let ranges = plan(10, 3).unwrap();
    let pairs: Vec<(u64, u64)> = ranges.iter().map(|r| (r.start, r.end)).collect();
    assert_eq!(pairs, vec![(0, 3), (3, 6), (6, 9), (9, 10)]);
    // Contiguous, ascending, starting at 0, ending at tree_size, no empty range.
    assert_eq!(ranges[0].start, 0);
    assert_eq!(ranges[ranges.len() - 1].end, 10);
    for w in ranges.windows(2) {
        assert_eq!(w[0].end, w[1].start);
    }
    for r in &ranges {
        assert!(r.start < r.end);
    }
    // An exact multiple leaves no short tail.
    let even = plan(200, 100).unwrap();
    assert_eq!(even.len(), 2);
    assert_eq!((even[1].start, even[1].end), (100, 200));
}

#[test]
fn plan_empty_log() {
    assert_eq!(plan(0, 100).unwrap().len(), 0);
}

#[test]
fn plan_zero_batch_size_is_config_error() {
    assert_eq!(plan(250, 0).unwrap_err(), ConfigError::ZeroBatchSize);
    assert_eq!(plan(0, 0).unwrap_err(), ConfigError::ZeroBatchSize);
}

#[test]
fn record_is_idempotent() {
    let mut sink = DomainSink::new();
    assert!(sink.record("example.com".to_string()));
    assert!(!sink.record("example.com".to_string()));
    assert_eq!(sink.count(), 1);
    assert!(sink.contains(&"example.com".to_string()));
    assert!(sink.record("example.org".to_string()));
    assert_eq!(sink.count(), 2);
}

#[test]
fn step_transitions() {
    assert_eq!(
        step(RangeState::Pending, FetchEvent::Dispatch),
        (RangeState::Fetching, FetchAction::SendRequest)
    );
    assert_eq!(
        step(RangeState::Fetching, FetchEvent::TransportOk),
        (RangeState::Decoding, FetchAction::DecodeBatch)
    );
    assert_eq!(
        step(RangeState::Fetching, FetchEvent::TransportErr),
        (RangeState::Fetching, FetchAction::RetryAfterDelay)
    );
    assert_eq!(
        step(RangeState::Decoding, FetchEvent::BatchProcessed),
        (RangeState::Done, FetchAction::NoWork)
    );
    // Done is terminal whatever arrives.
    assert_eq!(
        step(RangeState::Done, FetchEvent::TransportErr),
        (RangeState::Done, FetchAction::NoWork)
    );
}

#[test]
fn scheduler_respects_concurrency_bound() {
    let mut sched = Scheduler::new(3, 2);
    assert!(sched.has_slot());
    assert_eq!(sched.on_event(0, FetchEvent::Dispatch), FetchAction::SendRequest);
    assert!(sched.has_slot());
    assert_eq!(sched.on_event(1, FetchEvent::Dispatch), FetchAction::SendRequest);
    assert!(!sched.has_slot());
    // Finishing a range frees its slot for the third one.
    assert_eq!(sched.on_event(0, FetchEvent::TransportOk), FetchAction::DecodeBatch);
    assert!(!sched.has_slot());
    assert_eq!(sched.on_event(0, FetchEvent::BatchProcessed), FetchAction::NoWork);
    assert!(sched.has_slot());
    assert_eq!(sched.on_event(2, FetchEvent::Dispatch), FetchAction::SendRequest);
    assert_eq!(sched.state_of(0), RangeState::Done);
    assert!(!sched.all_done());
}

#[test]
fn transient_failures_then_success_reach_done_once() {
    // A range whose fetch fails twice, then succeeds: it still reaches
    // Done, and its batch is processed exactly once.
    let mut sched = Scheduler::new(1, 1);
    let mut sink = DomainSink::new();
    let mut decodes: u32 = 0;
    sched.on_event(0, FetchEvent::Dispatch);
    for attempt in 0..3 {
        let action = if attempt < 2 {
            sched.on_event(0, FetchEvent::TransportErr)
        } else {
            sched.on_event(0, FetchEvent::TransportOk)
        };
        if action == FetchAction::DecodeBatch {
            decodes += 1;
            sink.record("from-range-100-200.example".to_string());
            sched.on_event(0, FetchEvent::BatchProcessed);
        } else {
            assert_eq!(action, FetchAction::RetryAfterDelay);
        }
    }
    assert_eq!(decodes, 1);
    assert!(sched.all_done());
    assert_eq!(sink.count(), 1);
}

#[test]
fn three_ranges_end_to_end() {
    // tree_size 250 with a probed batch size of 100: three ranges, three
    // simulated fetch tasks, and the sink ends with the deduplicated union.
    let ranges = plan(250, 100).unwrap();
    assert_eq!(ranges.len(), 3);
    let batches: Vec<Vec<RawEntry>> = vec![
        vec![
            RawEntry { leaf_input: x509_leaf(b"a"), extra_data: vec![] },
            RawEntry { leaf_input: x509_leaf(b"b"), extra_data: vec![] },
        ],
        vec![RawEntry { leaf_input: x509_leaf(b"b"), extra_data: vec![] }],
        vec![],
    ];
    // A stand-in for the external domain extractor: one name per byte value.
    let extract = |cert: &Vec<u8>| -> Vec<String> {
        cert.iter().map(|b| format!("domain-{b}.example")).collect()
    };
    let mut sched = Scheduler::new(ranges.len(), 2);
    let mut sink = DomainSink::new();
    let mut pending: Vec<usize> = (0..ranges.len()).collect();
    while let Some(i) = pending.pop() {
        if !sched.has_slot() {
            pending.insert(0, i);
            continue;
        }
        sched.on_event(i, FetchEvent::Dispatch);
        sched.on_event(i, FetchEvent::TransportOk);
        for cert in batch_certificates(&batches[i]) {
            let domains = extract(&cert);
            sink.record_all(&domains);
        }
        sched.on_event(i, FetchEvent::BatchProcessed);
    }
    assert!(sched.all_done());
    // Two distinct certificates across the log: "a" and "b".
    assert_eq!(sink.count(), 2);
    assert!(sink.contains(&format!("domain-{}.example", b'a')));
    assert!(sink.contains(&format!("domain-{}.example", b'b')));
}
