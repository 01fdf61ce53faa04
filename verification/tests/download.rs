use warp::download::beat::{
    create_snapshot_sync, decode_snapshot, encode_snapshot, is_sound, load_snapshot, restore,
    snapshot_tmp_path, ChunkSnapshot, MetadataSnapshot, SnapshotError, RESUME_MARGIN,
};
use warp::download::manager::{Metadata, INITIAL_CHUNKS};
use warp::download::plan::{Profile, Step};
use warp::download::probe::{
    accepts_ranges, after_probe, candidates, conclude, parse_content_length,
    parse_content_range_total, read_get, read_head, read_range, HeadFacts, ProbeError, ProbeResult,
    ProbeStep,
};
use warp::download::rate_limit::{acquire_composed, Due, Grant, RateLimiter, RunLimits};
use warp::download::resources::{calculate_optimal_workers, classify_load, Load};
use warp::download::segment::{
    AfterWrite, Chunk, NextRequest, PacketAction, Retry, StatusAction, Transfer, FLUSH_INTERVAL,
    MAX_RETRIES, MIN_SPLIT_SIZE,
};
use warp::download::session::{
    can_cut, initial_pieces, profile, speed_message, Manager, Pace, PartFile,
};
use warp::downloader;
use warp::types::DownloadEntry;

const MB: u64 = 1024 * 1024;

fn waiting(m: &Metadata, k: usize) -> Chunk {
    m.ranges[m.chunks[k]]
}

#[test]
fn segment_test_chunk_initialization() {
    let chunk = Chunk::new(0..=99, 10);
    assert_eq!(chunk.progress, 10);
    assert_eq!(chunk.start, 0);
    assert_eq!(chunk.end, 99);
}

#[test]
fn test_chunk_single_byte_range() {
    let mut chunk = Chunk::new(42..=42, 0);
    assert_eq!(chunk.remaining_bytes(), 1);
    assert_eq!(chunk.start, 42);
    assert_eq!(chunk.end, 42);
    chunk.progress = 1;
    assert_eq!(chunk.remaining_bytes(), 0);
}

#[test]
fn segment_test_remaining_bytes() {
    let mut chunk = Chunk::new(0..=99, 0);
    assert_eq!(chunk.remaining_bytes(), 100);
    chunk.progress = 50;
    assert_eq!(chunk.remaining_bytes(), 50);
    chunk.progress = 100;
    assert_eq!(chunk.remaining_bytes(), 0);
    chunk.progress = 150;
    assert_eq!(chunk.remaining_bytes(), 0);
}

#[test]
fn test_remaining_bytes_after_atomic_shrink() {
    let mut chunk = Chunk::new(0..=99, 20);
    chunk.end = 49;
    assert_eq!(chunk.remaining_bytes(), 30);
    chunk.progress = 60;
    assert_eq!(chunk.remaining_bytes(), 0);
}

#[test]
fn segment_test_chunk_split_too_small() {
    let mut chunk = Chunk::new(0..=(1024 * 1024 - 1), 0);
    assert!(chunk.split().is_none(), "Chunk should not split if below size threshold");
    let mut cautious = Chunk::new(0..=(1024 * 1024 - 1), 0);
    assert!(downloader::split(&mut cautious).is_none());
}

#[test]
fn test_chunk_split_at_exact_boundary() {
    let size = 2 * MIN_SPLIT_SIZE;
    let mut chunk = Chunk::new(0..=(size - 1), 0);
    let new_chunk = chunk.split().expect("Chunk at exact boundary should split");
    assert_eq!(chunk.end, MIN_SPLIT_SIZE - 1);
    assert_eq!(new_chunk.start, MIN_SPLIT_SIZE);
    assert_eq!(new_chunk.end, size - 1);
}

#[test]
fn segment_test_chunk_split_success() {
    let total_size: u64 = 30 * 1024 * 1024;
    let expected_split_point: u64 = 15 * 1024 * 1024;
    let mut chunk = Chunk::new(0..=(total_size - 1), 0);
    let new_chunk = chunk.split().expect("Should split 30MB chunk");
    assert_eq!(chunk.start, 0);
    assert_eq!(chunk.end, expected_split_point - 1);
    assert_eq!(new_chunk.start, expected_split_point);
    assert_eq!(new_chunk.end, total_size - 1);
    assert_eq!(new_chunk.progress, 0);

    let mut cautious = Chunk::new(0..=(total_size - 1), 0);
    let half = downloader::split(&mut cautious).expect("Should split 30MB chunk");
    assert_eq!(cautious.start, 0);
    assert_eq!(cautious.end, expected_split_point - 1);
    assert_eq!(half.start, expected_split_point);
    assert_eq!(half.end, total_size - 1);
    assert_eq!(half.progress, 0);
}

#[test]
fn segment_test_chunk_split_with_progress() {
    let total_size: u64 = 30 * 1024 * 1024;
    let progress: u64 = 10 * 1024 * 1024;
    let expected_split_point: u64 = 20 * 1024 * 1024;
    let mut chunk = Chunk::new(0..=(total_size - 1), progress);
    let new_chunk = chunk.split().expect("Should split chunk with remaining 20MB");
    assert_eq!(chunk.end, expected_split_point - 1);
    assert_eq!(new_chunk.start, expected_split_point);

    let mut cautious = Chunk::new(0..=(total_size - 1), progress);
    let half = downloader::split(&mut cautious).expect("Should split chunk with remaining 20MB");
    assert_eq!(cautious.end, expected_split_point - 1);
    assert_eq!(half.start, expected_split_point);
}

#[test]
fn test_chunk_split_preserves_start_immutable() {
    let mut chunk = Chunk::new(500..=999, 0);
    chunk.split();
    assert_eq!(chunk.start, 500, "start must never change after split");
    chunk.split();
    assert_eq!(chunk.start, 500, "start must never change after second split");
}

#[test]
fn test_chunk_multiple_sequential_splits() {
    let size = 20 * MIN_SPLIT_SIZE;
    let mut first = Chunk::new(0..=(size - 1), 0);
    let mut splits = 0;
    let mut current = first;
    while let Some(new_chunk) = current.split() {
        splits += 1;
        assert!(current.end < new_chunk.start);
        assert_eq!(current.end + 1, new_chunk.start);
        if splits == 1 {
            first = current;
        }
        current = new_chunk;
    }
    assert!(splits >= 3, "Should get multiple splits, got {splits}");
    assert_eq!(first.start, 0);
    assert_eq!(current.end, size - 1);
}

#[test]
fn test_chunk_split_with_large_progress_resume_margin_scenario() {
    let total_size = 2u64 * 1024 * 1024 * 1024;
    let progress = 1u64 * 1024 * 1024 * 1024;
    let mut chunk = Chunk::new(0..=(total_size - 1), progress);
    let new_chunk = chunk.split().expect("Should split 2 GB chunk with 50% progress");
    let expected = 1u64 * 1024 * 1024 * 1024 + 512 * 1024 * 1024;
    assert_eq!(chunk.end, expected - 1);
    assert_eq!(new_chunk.start, expected);
    assert_eq!(new_chunk.end, total_size - 1);
}

#[test]
fn cautious_split_needs_twenty_megabytes() {
    let mut below = Chunk::new(0..=(20 * MB - 2), 0);
    assert!(downloader::split(&mut below).is_none());
    let mut at = Chunk::new(0..=(20 * MB - 1), 0);
    let half = downloader::split(&mut at).unwrap();
    assert_eq!((at.end, half.start), (10 * MB - 1, 10 * MB));
    assert_eq!(downloader::profile(), Profile { min_split: 10 * MB, steal: true });
}

#[test]
fn manager_test_metadata_new() {
    let metadata = Metadata::new("http://example.com".to_string(), 1000, None, 1);
    assert_eq!(metadata.url, "http://example.com");
    assert_eq!(metadata.size, 1000);
    assert_eq!(metadata.chunks.len(), 1);
}

#[test]
fn test_metadata_new_with_initial_chunks() {
    let metadata = Metadata::new("http://test.com".to_string(), 10000, None, 4);
    assert_eq!(metadata.url, "http://test.com");
    assert_eq!(metadata.size, 10000);
    assert_eq!(metadata.chunks.len(), 4);
    assert_eq!(waiting(&metadata, 0).start, 0);
    assert_eq!(waiting(&metadata, 0).end, 2499);
    assert_eq!(waiting(&metadata, 1).start, 2500);
    assert_eq!(waiting(&metadata, 1).end, 4999);
    assert_eq!(waiting(&metadata, 2).start, 5000);
    assert_eq!(waiting(&metadata, 2).end, 7499);
    assert_eq!(waiting(&metadata, 3).start, 7500);
    assert_eq!(waiting(&metadata, 3).end, 9999);
    for i in 0..4 {
        assert_eq!(waiting(&metadata, i).progress, 0);
    }
}

#[test]
fn test_metadata_new_single_chunk_for_small_file() {
    let metadata = Metadata::new("http://test.com".to_string(), 1, None, 1);
    assert_eq!(metadata.chunks.len(), 1);
    assert_eq!(waiting(&metadata, 0).start, 0);
    assert_eq!(waiting(&metadata, 0).end, 0);
    assert_eq!(waiting(&metadata, 0).remaining_bytes(), 1);
}

#[test]
fn last_piece_takes_the_rest() {
    let m = Metadata::new("u".to_string(), 103, None, 10);
    let ends: Vec<(u64, u64)> = m.ranges.iter().map(|c| (c.start, c.end)).collect();
    assert_eq!(ends[0], (0, 9));
    assert_eq!(ends[8], (80, 89));
    assert_eq!(ends[9], (90, 102));
    let none = Metadata::new("u".to_string(), 5, None, 0);
    assert_eq!(none.ranges.len(), 1);
}

#[test]
fn beat_test_create_snapshot_sync() {
    let metadata = Metadata::new("url".to_string(), 1000, None, 1);
    let snapshot = create_snapshot_sync(&metadata);
    assert_eq!(snapshot.url, "url");
    assert_eq!(snapshot.chunks.len(), 1);
    assert_eq!(snapshot.chunks[0].start, 0);
    assert_eq!(snapshot.chunks[0].end, 999);
}

#[test]
fn beat_test_snapshot_serialization_deserialization() {
    let mut metadata = Metadata::new("http://test.com".to_string(), 1000, None, 1);
    metadata.ranges[0].progress = 500;
    let bytes = encode_snapshot(&create_snapshot_sync(&metadata));

    let loaded = load_snapshot(&bytes).expect("Failed to load snapshot");
    assert_eq!(loaded.url, "http://test.com");
    assert_eq!(loaded.size, 1000);
    assert_eq!(loaded.chunks.len(), 1, "Should have loaded exactly one chunk");
    assert_eq!(waiting(&loaded, 0).progress, 0, "Progress regressed by resume margin");
    assert_eq!(waiting(&loaded, 0).start, 0);
    assert_eq!(waiting(&loaded, 0).end, 999);

    let exact = restore(decode_snapshot(&bytes).unwrap(), 0);
    assert_eq!(exact.url, "http://test.com");
    assert_eq!(exact.size, 1000);
    assert_eq!(exact.chunks.len(), 1, "Should have loaded exactly one chunk");
    assert_eq!(waiting(&exact, 0).progress, 500, "Loaded progress should match saved progress");
    assert_eq!(waiting(&exact, 0).start, 0);
    assert_eq!(waiting(&exact, 0).end, 999);
}

#[test]
fn test_resume_margin_preserves_large_progress() {
    let large_progress = 50 * 1024 * 1024;
    let mut metadata =
        Metadata::new("http://test.com".to_string(), 200 * 1024 * 1024, None, 1);
    metadata.ranges[0].progress = large_progress;
    let bytes = encode_snapshot(&create_snapshot_sync(&metadata));
    let loaded = load_snapshot(&bytes).unwrap();
    let expected = large_progress - 2 * 1024 * 1024;
    assert_eq!(waiting(&loaded, 0).progress, expected);
    assert_eq!(waiting(&loaded, 0).start, 0);
    assert_eq!(waiting(&loaded, 0).end, 200 * 1024 * 1024 - 1);
}

#[test]
fn test_resume_margin_with_multiple_chunks() {
    let mut metadata =
        Metadata::new("http://test.com".to_string(), 100 * 1024 * 1024, None, 4);
    assert_eq!(metadata.chunks.len(), 4);
    metadata.ranges[0].progress = 5 * MB;
    metadata.ranges[1].progress = 10 * MB;
    metadata.ranges[2].progress = 3 * MB;
    metadata.ranges[3].progress = 0;
    let bytes = encode_snapshot(&create_snapshot_sync(&metadata));
    let loaded = load_snapshot(&bytes).unwrap();
    assert_eq!(loaded.chunks.len(), 4);
    assert_eq!(waiting(&loaded, 0).progress, 3 * MB);
    assert_eq!(waiting(&loaded, 1).progress, 8 * MB);
    assert_eq!(waiting(&loaded, 2).progress, MB);
    assert_eq!(waiting(&loaded, 3).progress, 0);
    let quarter = (100 * 1024 * 1024) / 4;
    assert_eq!(waiting(&loaded, 0).start, 0);
    assert_eq!(waiting(&loaded, 1).start, quarter);
    assert_eq!(waiting(&loaded, 2).start, 2 * quarter);
    assert_eq!(waiting(&loaded, 3).start, 3 * quarter);
}

#[test]
fn test_snapshot_with_mixed_chunk_states() {
    let mut metadata = Metadata::new("url".to_string(), 3000, None, 3);
    assert_eq!(metadata.chunks.len(), 3);
    let c3 = metadata.chunks.pop().unwrap();
    let c2 = metadata.chunks.pop().unwrap();
    metadata.ranges[c2].progress = 500;
    metadata.active_chunks.push(c2);
    metadata.ranges[c3].progress = 1000;
    metadata.completed_chunks.push(c3);

    let bytes = encode_snapshot(&create_snapshot_sync(&metadata));
    let loaded = load_snapshot(&bytes).unwrap();
    assert_eq!(loaded.chunks.len(), 3, "All chunks must be restored to waiting queue");
    assert_eq!(waiting(&loaded, 0), Chunk { start: 0, end: 999, progress: 0 });
    assert_eq!(waiting(&loaded, 1), Chunk { start: 1000, end: 1999, progress: 0 });
    assert_eq!(waiting(&loaded, 2), Chunk { start: 2000, end: 2999, progress: 0 });
    assert_eq!(loaded.size, 3000);
    assert_eq!(loaded.url, "url");
}

#[test]
fn snapshot_bytes_have_a_fixed_form() {
    let s = MetadataSnapshot {
        url: "ab".to_string(),
        size: 258,
        chunks: vec![ChunkSnapshot { start: 0, end: 257, progress: 1 }],
    };
    let bytes = encode_snapshot(&s);
    let mut expected: Vec<u8> = vec![2, 0, 0, 0, 0, 0, 0, 0, b'a', b'b'];
    expected.extend_from_slice(&258u64.to_le_bytes());
    expected.extend_from_slice(&1u64.to_le_bytes());
    expected.extend_from_slice(&0u64.to_le_bytes());
    expected.extend_from_slice(&257u64.to_le_bytes());
    expected.extend_from_slice(&1u64.to_le_bytes());
    assert_eq!(bytes, expected);
    let mut longer = bytes.clone();
    longer.push(7);
    assert_eq!(decode_snapshot(&longer).unwrap().chunks, s.chunks);
    assert!(matches!(decode_snapshot(&bytes[..20]), Err(SnapshotError::Malformed)));
    assert!(matches!(load_snapshot(&[1, 2, 3]), Err(SnapshotError::Malformed)));
}

#[test]
fn snapshots_are_written_beside_their_file() {
    assert_eq!(snapshot_tmp_path("dir/file.warp").unwrap(), "dir/file.warp.warp.tmp");
    assert_eq!(snapshot_tmp_path("file.warp").unwrap(), "file.warp.warp.tmp");
    assert!(matches!(snapshot_tmp_path(".."), Err(SnapshotError::InvalidName)));
}

fn manager_from(bytes: &[u8], target: &str) -> Manager {
    let entry = DownloadEntry::new_http(
        "test".to_string(),
        "http://test.com".to_string(),
        target.to_string(),
    );
    Manager::resume(load_snapshot(bytes).unwrap(), &entry)
}

#[test]
fn test_manager_resume_small_progress_zeroed_by_margin() {
    let mut metadata = Metadata::new("http://test.com".to_string(), 5000, None, 1);
    metadata.ranges[0].progress = 2500;
    let bytes = encode_snapshot(&create_snapshot_sync(&metadata));
    let manager = manager_from(&bytes, "download.zip");
    assert_eq!(manager.metadata.total_progress(), 0);
    assert_eq!(manager.snapshot_path(), "download.warp");
    assert!(manager.supports_range);
}

#[test]
fn test_manager_resume_large_progress_partially_preserved() {
    let mut metadata =
        Metadata::new("http://test.com".to_string(), 200 * 1024 * 1024, None, 1);
    metadata.ranges[0].progress = 50 * 1024 * 1024;
    let bytes = encode_snapshot(&create_snapshot_sync(&metadata));
    let manager = manager_from(&bytes, "large.bin");
    assert_eq!(manager.metadata.total_progress(), 50 * 1024 * 1024 - 2 * 1024 * 1024);
}

#[test]
fn manager_test_manager_resume_logic() {
    let mut metadata = Metadata::new("http://test.com".to_string(), 5000, None, 1);
    metadata.ranges[0].progress = 2500;
    let bytes = encode_snapshot(&create_snapshot_sync(&metadata));
    let manager = Manager::new(
        restore(decode_snapshot(&bytes).unwrap(), 0),
        "download.zip".to_string(),
    );
    assert_eq!(manager.metadata.total_progress(), 2500);
}

#[test]
fn test_total_progress_after_multi_chunk_resume() {
    let size = 100 * 1024 * 1024;
    let mut metadata = Metadata::new("http://test.com".to_string(), size, None, 4);
    metadata.ranges[0].progress = 5 * MB;
    metadata.ranges[1].progress = 25 * MB;
    metadata.ranges[2].progress = 8 * MB;
    metadata.ranges[3].progress = MB;
    let bytes = encode_snapshot(&create_snapshot_sync(&metadata));
    let manager = manager_from(&bytes, "multi.bin");
    let expected = 32u64 * 1024 * 1024;
    assert_eq!(manager.metadata.total_progress(), expected);
}

#[test]
fn manager_test_total_progress_with_completed_chunks() {
    let mut metadata = Metadata::new("url".to_string(), 1000, None, 1);
    assert_eq!(metadata.total_progress(), 0);
    metadata.ranges[0].progress = 100;
    assert_eq!(metadata.total_progress(), 100);
    let chunk = metadata.chunks.remove(0);
    metadata.active_chunks.push(chunk);
    assert_eq!(metadata.total_progress(), 100);
    metadata.active_chunks.pop();
    metadata.completed_chunks.push(chunk);
    assert_eq!(metadata.total_progress(), 100);
}

#[test]
fn manager_test_worker_failure_requeue() {
    let metadata = Metadata::new("url".to_string(), 1000, None, 1);
    let mut manager = Manager::new(metadata, "test.bin".to_string());
    let step = manager.next_step(true, true);
    assert_eq!(step, Step::Spawn(0));
    assert_eq!(manager.metadata.active_chunks, vec![0]);
    manager.metadata.finish_worker(0, false);
    manager.metadata.drain_failed();
    assert_eq!(manager.metadata.chunks.len(), 1);
    assert_eq!(manager.metadata.chunks[0], 0);
    assert!(manager.metadata.active_chunks.is_empty());
}

#[test]
fn test_worker_failure_mpsc_channel() {
    let mut metadata = Metadata::new("url".to_string(), 400, None, 4);
    let index = 1;
    metadata.chunks.remove(index);
    metadata.active_chunks.push(index);
    metadata.finish_worker(index, false);
    assert_eq!(metadata.failed_chunks, vec![index]);
    metadata.drain_failed();
    assert!(metadata.failed_chunks.is_empty());
    let received = metadata.ranges[*metadata.chunks.last().unwrap()];
    assert_eq!(received.start, 100);
    assert_eq!(received.end, 199);
    assert_eq!(received.progress, 0);
}

#[test]
fn test_part_file_extension_naming() {
    let m = Manager::new(
        Metadata::new("u".to_string(), 10, None, 1),
        "my_video.mp4".to_string(),
    );
    assert_eq!(m.part_path(), "my_video.warpart");
    let zip = Manager::new(Metadata::new("u".to_string(), 10, None, 1), "archive.zip".to_string());
    assert_eq!(zip.part_path(), "archive.warpart");
    let ext = warp::path::extension(&zip.part_path()).unwrap();
    assert_eq!(ext, "warpart");
    assert_ne!(ext, "zip");
    assert_ne!(ext, "war");
    assert_eq!(warp::stream::concat_path("stream.ts"), "stream.hlspart");
}

#[test]
fn a_whole_download_runs_to_its_end() {
    let probe = ProbeResult {
        effective_url: "http://x/f".to_string(),
        size: 4 * MB,
        supports_range: true,
    };
    let entry = DownloadEntry::new_http(
        "1".to_string(),
        "http://x/f".to_string(),
        "f.bin".to_string(),
    );
    let mut manager = Manager::start(probe, &entry, false);
    assert_eq!(manager.metadata.chunks.len(), INITIAL_CHUNKS);
    let _ = manager.begin(4);
    let mut written = vec![0u8; 4 * MB as usize];
    let mut active: Vec<usize> = Vec::new();
    loop {
        match manager.next_step(active.len() < 4, active.is_empty()) {
            Step::Spawn(i) => active.push(i),
            Step::Finished => break,
            Step::Wait => {
                let i = active.remove(0);
                let mut transfer = Transfer::new();
                while let NextRequest::Request { from, to } =
                    Transfer::next_request(&manager.metadata.ranges[i])
                {
                    assert!(from <= to);
                    let mut chunk = manager.metadata.ranges[i];
                    match transfer.on_packet(&chunk, 70_000) {
                        PacketAction::Stop => break,
                        PacketAction::Skip => unreachable!(),
                        PacketAction::Write { skip, len } => {
                            assert_eq!(skip, 0);
                            for b in from..from + len as u64 {
                                written[b as usize] += 1;
                            }
                            let _ = transfer.on_written(&mut chunk, len, 70_000);
                        }
                    }
                    manager.metadata.ranges[i] = chunk;
                }
                manager.metadata.finish_worker(i, true);
            }
        }
    }
    assert!(written.iter().all(|n| *n == 1));
    assert_eq!(manager.metadata.total_progress(), 4 * MB);
}

#[test]
fn idle_workers_take_half_of_the_largest_rest() {
    let mut m = Metadata::new("u".to_string(), 40 * MB, None, 2);
    let p = profile();
    assert_eq!(p, Profile { min_split: MIN_SPLIT_SIZE, steal: true });
    assert_eq!(m.schedule(p, true, true), Step::Spawn(0));
    assert_eq!(m.schedule(p, true, false), Step::Spawn(1));
    m.ranges[0].progress = 10 * MB;
    let half = m.try_steal_work(MIN_SPLIT_SIZE).unwrap();
    assert_eq!(half, Chunk { start: 30 * MB, end: 40 * MB - 1, progress: 0 });
    assert_eq!(m.ranges[1], Chunk { start: 20 * MB, end: 30 * MB - 1, progress: 0 });
    assert_eq!(m.ranges.len(), 2);
    assert!(m.chunks.is_empty());
    m.queue_chunk(half);
    assert_eq!(m.ranges[2], half);
    assert_eq!(m.chunks, vec![2]);
    assert_eq!(m.schedule(p, true, false), Step::Spawn(2));
    assert_eq!(m.schedule(p, true, false), Step::Spawn(3));
    assert_eq!(m.ranges[3], Chunk { start: 15 * MB, end: 20 * MB - 1, progress: 0 });
    let mut small = Metadata::new("u".to_string(), MB, None, 1);
    small.schedule(p, true, true);
    assert_eq!(small.try_steal_work(MIN_SPLIT_SIZE), None);
}

#[test]
fn only_whole_ranges_are_filed_as_done() {
    let mut m = Metadata::new("u".to_string(), 100, None, 1);
    assert_eq!(m.schedule(profile(), true, true), Step::Spawn(0));
    m.ranges[0].progress = 40;
    m.finish_worker(0, true);
    assert!(m.completed_chunks.is_empty());
    assert_eq!(m.failed_chunks, vec![0]);
    assert_eq!(m.schedule(profile(), true, true), Step::Spawn(0));
    m.ranges[0].progress = 100;
    m.finish_worker(0, true);
    assert_eq!(m.completed_chunks, vec![0]);
    assert_eq!(m.schedule(profile(), true, true), Step::Finished);
}

#[test]
fn snapshots_keep_the_ranges_of_failed_workers() {
    let mut m = Metadata::new("u".to_string(), 100, None, 2);
    m.schedule(profile(), true, true);
    m.ranges[0].progress = 7;
    m.finish_worker(0, false);
    let s = create_snapshot_sync(&m);
    assert_eq!(s.chunks.len(), 2);
    assert_eq!(s.chunks[1], ChunkSnapshot { start: 0, end: 49, progress: 7 });
}

#[test]
fn snapshots_that_cannot_be_run_are_told_apart() {
    let snapshot = |start: u64, end: u64, progress: u64| {
        let s = MetadataSnapshot {
            url: "u".to_string(),
            size: 100,
            chunks: vec![ChunkSnapshot { start, end, progress }],
        };
        load_snapshot(&encode_snapshot(&s)).unwrap()
    };
    assert!(is_sound(&snapshot(0, 99, 10)));
    assert!(!is_sound(&snapshot(9, 3, 0)));
    assert!(!is_sound(&snapshot(4 * MB, 5 * MB, u64::MAX)));
}

#[test]
fn queue_is_cut_until_all_workers_have_a_piece() {
    let mut m = Metadata::new("u".to_string(), 64 * MB, None, 1);
    m.reconcile_chunks(4, MIN_SPLIT_SIZE);
    assert_eq!(m.chunks, vec![0, 1, 2, 3]);
    let starts: Vec<u64> = m.ranges.iter().map(|c| c.start).collect();
    assert_eq!(starts, vec![0, 32 * MB, 16 * MB, 48 * MB]);
    let mut tiny = Metadata::new("u".to_string(), MB, None, 1);
    tiny.reconcile_chunks(4, MIN_SPLIT_SIZE);
    assert_eq!(tiny.chunks.len(), 1);
}

#[test]
fn finished_front_is_retired() {
    let mut m = Metadata::new("u".to_string(), 30, None, 3);
    m.ranges[0].progress = 10;
    m.ranges[2].progress = 10;
    m.retire_front();
    assert_eq!(m.chunks, vec![1, 2]);
    assert_eq!(m.completed_chunks, vec![0]);
}

#[test]
fn part_files_are_kept_only_where_they_fit() {
    let m = Manager::new(Metadata::new("u".to_string(), 10, None, 1), "f".to_string());
    assert_eq!(m.part_file(None), PartFile::Create);
    assert_eq!(m.part_file(Some(Some(10))), PartFile::Keep);
    assert_eq!(m.part_file(Some(Some(9))), PartFile::Recreate);
}

#[test]
fn limits_and_targets_follow_the_server() {
    let probe = |ranges: bool| ProbeResult {
        effective_url: "u".to_string(),
        size: 100 * MB,
        supports_range: ranges,
    };
    let mut entry =
        DownloadEntry::new_http("1".to_string(), "u".to_string(), "f".to_string());
    entry.max_speed_bytes = Some(77);
    let mut one = Manager::start(probe(false), &entry, false);
    assert_eq!(one.metadata.ranges, vec![Chunk { start: 0, end: 100 * MB - 1, progress: 0 }]);
    assert_eq!(one.worker_target(32), 1);
    one.begin(32);
    assert_eq!(one.next_step(true, true), Step::Spawn(0));
    assert_eq!(one.next_step(true, false), Step::Spawn(1));
    assert_eq!(one.metadata.ranges[0], Chunk { start: 0, end: 50 * MB - 1, progress: 0 });
    assert_eq!(one.metadata.ranges[1], Chunk { start: 50 * MB, end: 100 * MB - 1, progress: 0 });
    assert_eq!(Manager::start(probe(true), &entry, true).metadata.chunks.len(), 1);
    assert_eq!(initial_pieces(true, true), 1);
    assert_eq!(initial_pieces(false, false), 1);
    assert_eq!(one.local_limit(false), Some(77));
    assert_eq!(one.local_limit(true), None);
    let many = Manager::start(probe(true), &entry, false);
    assert_eq!(many.worker_target(8), 8);
    assert!(can_cut(16, 16));
    assert!(!can_cut(15, 16));
    assert_eq!(initial_pieces(false, true), 16);
}

#[test]
fn pace_is_looked_at_every_three_seconds() {
    assert!(!Pace::is_due(true, 2999));
    assert!(Pace::is_due(true, 3000));
    assert!(!Pace::is_due(false, 10_000));
    assert_eq!(speed_message(3072, 1024), "4.00 KB /s");
    assert_eq!(speed_message(0, 1024), "0 B /s");
}

#[test]
fn failed_requests_back_off() {
    let mut t = Transfer::new();
    assert_eq!(t.on_failure(), Retry::After(2));
    assert_eq!(t.on_failure(), Retry::After(4));
    assert_eq!(t.on_failure(), Retry::After(8));
    assert_eq!(t.on_failure(), Retry::After(16));
    assert_eq!(t.on_failure(), Retry::After(32));
    assert_eq!(t.retry_count, MAX_RETRIES);
    assert_eq!(t.on_failure(), Retry::GiveUp);
}

#[test]
fn statuses_decide_what_a_worker_does() {
    let mut t = Transfer::new();
    assert_eq!(t.on_status(206, 50), StatusAction::Stream);
    assert_eq!(t.skip, 0);
    assert_eq!(t.on_status(404, 50), StatusAction::Reject);
    assert_eq!(t.on_status(503, 50), StatusAction::RetryAfter(2));
    assert_eq!(t.on_status(200, 50), StatusAction::Stream);
    assert_eq!(t.skip, 50);
}

#[test]
fn whole_files_are_written_from_where_the_rest_begins() {
    let file: Vec<u8> = (0..100).collect();
    let mut out = vec![0u8; 100];
    for b in 0..30 {
        out[b] = file[b];
    }
    let mut chunk = Chunk::new(0..=99, 30);
    let mut t = Transfer::new();
    assert_eq!(t.on_status(200, 30), StatusAction::Stream);
    let mut sent = 0;
    for len in [20, 25, 55] {
        let packet = &file[sent..sent + len];
        sent += len;
        match t.on_packet(&chunk, len) {
            PacketAction::Stop => unreachable!(),
            PacketAction::Skip => assert_eq!(sent, 20),
            PacketAction::Write { skip, len: n } => {
                let at = (chunk.start + chunk.progress) as usize;
                out[at..at + n].copy_from_slice(&packet[skip..skip + n]);
                assert!(!t.on_written(&mut chunk, n, len - skip).finished);
            }
        }
    }
    assert_eq!(out, file);
    assert!(Transfer::on_stream_end(&chunk));
}

#[test]
fn packets_stop_at_the_end_of_a_piece() {
    let mut chunk = Chunk::new(0..=99, 90);
    let mut t = Transfer::new();
    assert_eq!(t.on_packet(&chunk, 50), PacketAction::Write { skip: 0, len: 10 });
    assert_eq!(
        t.on_written(&mut chunk, 10, 50),
        AfterWrite { flush: false, finished: true }
    );
    assert_eq!(chunk.progress, 100);
    assert_eq!(t.on_packet(&chunk, 50), PacketAction::Stop);
    assert!(Transfer::on_stream_end(&chunk));
    assert_eq!(Transfer::next_request(&chunk), NextRequest::Done);
    let mut big = Chunk::new(0..=(4 * MB - 1), 0);
    let mut u = Transfer::new();
    let n = FLUSH_INTERVAL as usize;
    assert_eq!(u.on_packet(&big, n), PacketAction::Write { skip: 0, len: n });
    assert!(u.on_written(&mut big, n, n).flush);
}

#[test]
fn mirrors_are_probed_in_turn() {
    assert_eq!(after_probe(0, 3, true), ProbeStep::Done);
    assert_eq!(after_probe(0, 3, false), ProbeStep::Next(1));
    assert_eq!(after_probe(1, 3, false), ProbeStep::Next(2));
    assert_eq!(after_probe(2, 3, false), ProbeStep::Fail);
    assert_eq!(after_probe(2, 3, true), ProbeStep::Done);
    assert_eq!(after_probe(usize::MAX, usize::MAX, false), ProbeStep::Fail);
}

#[test]
fn test_parse_content_range_total() {
    assert_eq!(parse_content_range_total(Some("bytes 0-0/12345")), Some(12345));
}

#[test]
fn test_parse_content_range_unknown_size() {
    assert_eq!(parse_content_range_total(Some("bytes 0-0/*")), None);
}

#[test]
fn test_parse_content_range_missing_header() {
    assert_eq!(parse_content_range_total(None), None);
}

#[test]
fn probes_tell_size_and_ranges() {
    assert!(accepts_ranges(Some("Bytes")));
    assert!(!accepts_ranges(Some("none")));
    assert_eq!(parse_content_length(Some("12")), Some(12));
    assert_eq!(parse_content_length(Some("x")), None);
    assert_eq!(read_head(404, None, None), Err(ProbeError::HeadStatus(404)));
    let head = read_head(200, Some("bytes"), Some("10")).unwrap();
    assert_eq!(head, HeadFacts { accept_ranges: true, size: Some(10) });
    assert_eq!(read_range(206, Some("bytes 0-0/9"), Some(10), None), Some(9));
    assert_eq!(read_range(206, None, None, Some(1)), Some(1));
    assert_eq!(read_range(200, Some("bytes 0-0/9"), Some(10), None), Some(10));
    assert_eq!(read_range(416, Some("bytes 0-0/9"), Some(10), None), None);
    let p = conclude("u", head, Some(9)).unwrap();
    assert_eq!((p.size, p.supports_range), (9, true));
    let q = conclude("u", head, None).unwrap();
    assert_eq!((q.size, q.supports_range), (10, false));
    assert!(conclude("u", HeadFacts { accept_ranges: true, size: None }, None).is_none());
    assert!(matches!(read_get("u", 500, None), Err(ProbeError::GetStatus(500))));
    assert!(matches!(read_get("u", 200, None), Err(ProbeError::UnknownSize)));
    assert_eq!(read_get("u", 200, Some("7")).unwrap().size, 7);
    assert_eq!(
        candidates("a", &vec!["a".to_string(), "b".to_string(), "b".to_string(), "a".to_string()]),
        vec!["a", "b", "a"]
    );
}

#[test]
fn test_calculate_optimal_workers() {
    for cores in [None, Some(1), Some(4), Some(8), Some(64)] {
        for usage in [0.0f32, 40.0, 40.5, 70.0, 70.5, 100.0] {
            let stats = calculate_optimal_workers(cores, usage.to_bits(), None);
            assert!(stats.suggested_workers >= 1);
            assert!(stats.suggested_workers <= 32);
            let shown = f32::from_bits(stats.cpu_usage_bits);
            assert!(shown >= 0.0 && shown <= 100.0);
        }
    }
}

#[test]
fn busy_machines_get_fewer_workers() {
    let of = |usage: f32| {
        calculate_optimal_workers(Some(4), usage.to_bits(), Some(64)).suggested_workers
    };
    assert_eq!(of(0.0), 16);
    assert_eq!(of(39.9), 16);
    assert_eq!(of(40.0), 8);
    assert_eq!(of(41.0), 8);
    assert_eq!(of(70.0), 8);
    assert_eq!(of(70.1), 4);
    assert_eq!(calculate_optimal_workers(None, 0, None).suggested_workers, 16);
    assert_eq!(calculate_optimal_workers(Some(8), 0, Some(5)).suggested_workers, 5);
    for usage in [0.0f32, 39.9, 40.0, 55.0, 70.0, 70.01, 99.0] {
        let expected = if usage > 70.0 {
            Load::Heavy
        } else if usage >= 40.0 {
            Load::Moderate
        } else {
            Load::Idle
        };
        assert_eq!(classify_load(usage.to_bits()), expected);
    }
}

fn ask(limiter: &mut RateLimiter, elapsed: u64, bytes: u64) -> Grant {
    let mut left = bytes;
    limiter.acquire_after(elapsed, &mut left)
}

#[test]
fn test_rate_limiter_high_cap_is_fast() {
    let mut limiter = RateLimiter::new(10_000_000);
    assert_eq!(ask(&mut limiter, 0, 4096), Grant::Granted);
    assert_eq!(ask(&mut limiter, 0, 4096), Grant::Granted);
}

#[test]
fn test_rate_limiter_throttles_large_transfer() {
    let mut limiter = RateLimiter::new(4096);
    assert_eq!(ask(&mut limiter, 0, 4096), Grant::Granted);
    match ask(&mut limiter, 0, 8192) {
        Grant::Sleep(nanos) => assert!(nanos >= 400_000_000),
        other => panic!("{other:?}"),
    }
    assert_eq!(ask(&mut limiter, 2_000_000_000, 8192), Grant::Granted);
}

#[test]
fn test_acquire_composed_applies_both() {
    let mut global = RateLimiter::new(2048);
    assert_eq!(ask(&mut global, 0, 2048), Grant::Granted);
    let mut limits = RunLimits::new(Some(global), Some(2048));
    let mut due = Due::new(2048);
    match acquire_composed(&mut limits, &mut due, (0, 0)) {
        Grant::Sleep(nanos) => assert!(nanos >= 200_000_000),
        other => panic!("{other:?}"),
    }
    assert_eq!(due, Due { global: 2048, local: 2048 });
    assert_eq!(acquire_composed(&mut limits, &mut due, (1_000_000_000, 0)), Grant::Granted);
    assert_eq!(due, Due { global: 0, local: 0 });
    assert_eq!(limits.local.unwrap().tokens, 0);
    assert_eq!(limits.global.unwrap().tokens, 0);
    let mut free = RunLimits::new(None, None);
    let mut all = Due::new(u64::MAX);
    assert_eq!(acquire_composed(&mut free, &mut all, (0, 0)), Grant::Granted);
}

#[test]
fn transfers_above_the_bucket_are_paid_in_pieces() {
    let mut limiter = RateLimiter::new(100);
    let mut left = 1_050;
    let mut waited = 0u128;
    let mut elapsed = 0u64;
    let mut asks = 1;
    while let Grant::Sleep(nanos) = limiter.acquire_after(elapsed, &mut left) {
        waited += nanos;
        elapsed = nanos as u64;
        asks += 1;
    }
    assert_eq!(left, 0);
    assert_eq!(waited, 9_500_000_000);
    assert_eq!(asks, 7);
}

#[test]
fn short_waits_yield_and_empty_rates_count_as_one() {
    let mut limiter = RateLimiter::new(1_000_000);
    assert_eq!(ask(&mut limiter, 0, 1_000_000), Grant::Granted);
    assert_eq!(ask(&mut limiter, 0, 5000), Grant::Yield);
    assert_eq!(ask(&mut limiter, 0, 5001), Grant::Sleep(5_001_000));
    let mut zero = RateLimiter::new(0);
    assert_eq!(zero.bytes_per_sec, 1);
    assert_eq!(ask(&mut zero, 0, 1), Grant::Sleep(1_000_000_000));
    assert_eq!(RESUME_MARGIN, 2 * MB);
}

#[test]
fn only_sound_snapshots_are_resumed() {
    let saved = |chunks: Vec<ChunkSnapshot>| {
        restore(MetadataSnapshot { url: "http://x".into(), size: 100, chunks }, 0)
    };
    let piece = |start: u64, end: u64, progress: u64| ChunkSnapshot { start, end, progress };
    assert!(is_sound(&saved(vec![])));
    assert!(is_sound(&saved(vec![piece(0, 49, 10), piece(50, 99, 0)])));
    assert!(!is_sound(&saved(vec![piece(0, 49, 10), piece(99, 50, 0)])));
    assert!(!is_sound(&saved(vec![piece(0, u64::MAX, 0)])));
    assert!(is_sound(&saved(vec![piece(0, 9, u64::MAX)])));
    assert!(!is_sound(&saved(vec![piece(0, 9, u64::MAX), piece(10, 19, 1)])));
}
