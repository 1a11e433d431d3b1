//! The transfer pipeline: chunking, the put/get round trip, progress
//! accounting, cancellation, and the cancellation table.
use zync_core::transfer::concat_chunks;
use zync_core::transfer::run_file_transfer;
use zync_core::transfer::split_chunks;
use zync_core::transfer::tree_size;
use zync_core::transfer::CancelRegistry;
use zync_core::transfer::FsTree;
use zync_core::transfer::TransferEnd;
use zync_core::transfer::TransferTracker;
use zync_core::transfer::TRANSFER_CHUNK_SIZE;

/// A deterministic pseudo-random byte string.
fn noise(len: usize) -> Vec<u8> {
    let mut state: u64 = 0x2545F4914F6CDD1D;
    let mut out = Vec::with_capacity(len);
    for _ in 0..len {
        state = state.wrapping_mul(6364136223846793005).wrapping_add(1442695040888963407);
        out.push((state >> 33) as u8);
    }
    out
}

/// Uploading a file and downloading it again yields byte-identical
/// content: split into pipeline chunks, then concatenate.
#[test]
fn put_get_round_trip_is_identity() {
    let original = noise(1 << 20);
    let chunks = split_chunks(&original, 65536);
    assert_eq!(chunks.len(), 16);
    assert!(chunks.iter().all(|c| c.len() == 65536));
    let downloaded = concat_chunks(&chunks);
    assert_eq!(downloaded, original);
}

#[test]
fn uneven_sizes_round_trip_too() {
    for len in [0usize, 1, 999, 65536, 65537] {
        let original = noise(len);
        let chunks = split_chunks(&original, 4096);
        assert_eq!(concat_chunks(&chunks), original);
    }
    let tiny = noise(10);
    let chunks = split_chunks(&tiny, TRANSFER_CHUNK_SIZE);
    assert_eq!(chunks.len(), 1);
    assert_eq!(concat_chunks(&chunks), tiny);
}

#[test]
fn tracker_only_grows() {
    let mut t = TransferTracker::new(100);
    assert_eq!(t.transferred, 0);
    t.record(30);
    t.record(0);
    t.record(70);
    assert_eq!(t.transferred, 100);
    assert_eq!(t.total, 100);
}

/// A full run reports an initial zero count, strictly intermediate
/// counts, and a final count equal to the source byte total, never
/// decreasing along the way.
#[test]
fn progress_is_monotone_and_reaches_the_total() {
    let data = noise(1 << 20);
    let total = data.len() as u64;
    let chunks = split_chunks(&data, 65536);
    let run = run_file_transfer(&chunks, total, None);
    assert!(matches!(run.end, TransferEnd::Completed));
    assert_eq!(run.written, data);
    assert_eq!(run.events.first().unwrap().transferred, 0);
    assert_eq!(run.events.first().unwrap().total, total);
    assert_eq!(run.events.last().unwrap().transferred, total);
    let mut last = 0u64;
    for e in &run.events {
        assert!(e.transferred >= last);
        assert_eq!(e.total, total);
        last = e.transferred;
    }
    let intermediate = run.events.iter().filter(|e| e.transferred > 0 && e.transferred < total);
    assert!(intermediate.count() >= 1);
}

/// Cancellation at a chunk boundary stops the run: the chunks before
/// the boundary are written, nothing after, and the outcome is
/// cancelled rather than success.
#[test]
fn cancellation_stops_at_the_boundary() {
    let data = noise(300_000);
    let chunks = split_chunks(&data, 65536);
    let run = run_file_transfer(&chunks, data.len() as u64, Some(2));
    assert!(matches!(run.end, TransferEnd::Cancelled));
    assert_eq!(run.written, data[..131072].to_vec());
    assert!(run.events.last().unwrap().transferred <= data.len() as u64);

    let immediate = run_file_transfer(&chunks, data.len() as u64, Some(0));
    assert!(matches!(immediate.end, TransferEnd::Cancelled));
    assert!(immediate.written.is_empty());
    assert_eq!(immediate.events.len(), 1);

    // A flag set only after the last boundary no longer cancels.
    let late = run_file_transfer(&chunks, data.len() as u64, Some(chunks.len()));
    assert!(matches!(late.end, TransferEnd::Completed));
    assert_eq!(late.written, data);
}

#[test]
fn cancel_registry_tracks_flags() {
    let mut reg = CancelRegistry::new();
    reg.register("t1");
    reg.register("t2");
    assert!(!reg.is_cancelled("t1"));
    assert!(!reg.is_cancelled("missing"));
    assert!(reg.cancel("t1"));
    assert!(reg.is_cancelled("t1"));
    assert!(!reg.is_cancelled("t2"));
    assert!(!reg.cancel("missing"));
    reg.remove("t1");
    assert!(!reg.is_cancelled("t1"));
    assert!(!reg.is_cancelled("t2"));
    // Registering anew clears the flag.
    assert!(reg.cancel("t2"));
    reg.register("t2");
    assert!(!reg.is_cancelled("t2"));
}

#[test]
fn tree_sizes_sum_files() {
    let tree = FsTree::Dir {
        children: vec![
            FsTree::File { size: 10 },
            FsTree::Dir {
                children: vec![FsTree::File { size: 5 }, FsTree::File { size: 7 }],
            },
            FsTree::Dir { children: vec![] },
        ],
    };
    assert_eq!(tree_size(&tree), 22);
    assert_eq!(tree_size(&FsTree::File { size: 3 }), 3);
    assert_eq!(tree_size(&FsTree::Dir { children: vec![] }), 0);
}
