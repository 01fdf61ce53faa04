use warp::download_registry::registry::Registry;
use warp::hls::{
    base_url, direct_output, download_hls_via_registry, follow, media_of, nonempty, output_name,
    read_media_playlist, read_playlist, resolve_all, resolve_url, select_variant, HlsError, Lead, Playlist, Variant,
};
use warp::stream::{
    assemble, completed_before, concat_path, concurrency_of, load_snapshot, part_name, parts_dir,
    quality_of, snapshot_path, sort_segments, Segment, StreamAction, StreamRun,
};
use warp::types::{DownloadEntry, DownloadKind};

const MASTER: &str = "#EXTM3U\n\
#EXT-X-STREAM-INF:BANDWIDTH=1000,RESOLUTION=640x360\nlow/index.m3u8\n\
#EXT-X-STREAM-INF:BANDWIDTH=5000,RESOLUTION=1920x1080\nhttp://cdn/high.m3u8\n\
#EXT-X-STREAM-INF:BANDWIDTH=2500\n/mid.m3u8\n";

const MEDIA: &str = "#EXTM3U\n#EXT-X-TARGETDURATION:10\n\
#EXTINF:9.0,\na.ts\n#EXTINF:9.0,\nhttp://cdn/b.ts\n#EXT-X-ENDLIST\n";

fn variant(bandwidth: u64) -> Variant {
    Variant { uri: format!("{bandwidth}.m3u8"), bandwidth, resolution: None }
}

#[test]
fn urls_are_resolved_against_their_playlist() {
    assert_eq!(resolve_url("http://h/a/p.m3u8", "s.ts"), "http://h/a/s.ts");
    assert_eq!(resolve_url("http://h/a/p.m3u8", "//s.ts"), "http://h/a/s.ts");
    assert_eq!(resolve_url("http://h/a/", "s.ts"), "http://h/s.ts");
    assert_eq!(resolve_url("plain", "s.ts"), "plain/s.ts");
    assert_eq!(resolve_url("http://h/a", "https://x/y"), "https://x/y");
    assert_eq!(base_url("http://h/a/p.m3u8"), "http://h/a");
    assert_eq!(
        resolve_all("http://h/p", &vec!["a".to_string(), "http://b".to_string()]),
        vec!["http://h/a", "http://b"]
    );
}

#[test]
fn streams_are_named_after_their_url() {
    assert_eq!(output_name("http://h/show/index.m3u8"), "index.m3u8.ts");
    assert_eq!(output_name("http://h/show/"), "show.ts");
    assert_eq!(output_name("show"), "output.ts");
    assert_eq!(direct_output("http://h/show/index.m3u8", &None), "show.ts");
    assert_eq!(direct_output("http://h/index.m3u8", &None), "h.ts");
    assert_eq!(direct_output("index.m3u8", &None), "output.ts");
    assert_eq!(direct_output("http://h/show/index.m3u8", &Some("v.ts".to_string())), "v.ts");
}

#[test]
fn variants_are_selected_by_bandwidth() {
    let v = vec![variant(3), variant(9), variant(1), variant(9), variant(1)];
    assert_eq!(select_variant(&v, "low").unwrap(), 2);
    assert_eq!(select_variant(&v, "best").unwrap(), 3);
    assert_eq!(select_variant(&v, "high").unwrap(), 3);
    assert_eq!(select_variant(&v, "med").unwrap(), 0);
    assert_eq!(select_variant(&v, "medium").unwrap(), 0);
    assert_eq!(select_variant(&v, "0").unwrap(), 0);
    assert_eq!(select_variant(&v, "4").unwrap(), 4);
    assert_eq!(select_variant(&v, "5").unwrap(), 3);
    assert_eq!(select_variant(&v, "-1").unwrap(), 3);
    let three = vec![variant(100), variant(200), variant(900)];
    assert_eq!(select_variant(&three, "1").unwrap(), 1);
    assert!(matches!(select_variant(&vec![], "low"), Err(HlsError::NoVariants)));
    let huge = vec![variant(u64::MAX), variant(1)];
    assert!(matches!(select_variant(&huge, "med"), Err(HlsError::BandwidthOverflow)));
    assert_eq!(select_variant(&huge, "low").unwrap(), 1);
    let even = vec![variant(1 << 63), variant((1 << 63) - 2)];
    assert_eq!(select_variant(&even, "med").unwrap(), 0);
}

#[test]
fn playlists_lead_to_variants_and_segments() {
    match read_playlist("http://h/v/master.m3u8", MASTER, "best").unwrap() {
        Lead::Variant { url, bandwidth, resolution, count } => {
            assert_eq!(url, "http://cdn/high.m3u8");
            assert_eq!((bandwidth, resolution, count), (5000, Some((1920, 1080)), 3));
        }
        other => panic!("{other:?}"),
    }
    match read_playlist("http://h/v/master.m3u8", MASTER, "low").unwrap() {
        Lead::Variant { url, .. } => assert_eq!(url, "http://h/v/low/index.m3u8"),
        other => panic!("{other:?}"),
    }
    match read_playlist("http://h/v/p.m3u8", MEDIA, "best").unwrap() {
        Lead::Segments(urls) => assert_eq!(urls, vec!["http://h/v/a.ts", "http://cdn/b.ts"]),
        other => panic!("{other:?}"),
    }
    assert_eq!(
        read_media_playlist("http://h/w/p.m3u8", MEDIA).unwrap(),
        vec!["http://h/w/a.ts", "http://cdn/b.ts"]
    );
    assert!(matches!(
        read_media_playlist("http://h/w/p.m3u8", MASTER),
        Err(HlsError::ExpectedMedia)
    ));
    assert!(matches!(read_playlist("u", "no playlist", "best"), Err(HlsError::BadPlaylist(_))));
    assert!(matches!(nonempty(vec![]), Err(HlsError::NoSegments)));
    let one = Playlist::Media(vec!["x.ts".to_string()]);
    assert_eq!(media_of("http://h/p", &one).unwrap(), vec!["http://h/x.ts"]);
    assert!(matches!(
        follow("http://h/p", &Playlist::Master(vec![]), "low"),
        Err(HlsError::NoVariants)
    ));
}

#[test]
fn streams_are_queued_with_their_choices() {
    let mut registry = Registry::open_in_memory();
    let id = download_hls_via_registry(
        &mut registry,
        "http://h/show/index.m3u8",
        &None,
        "high".to_string(),
        (1usize << 32) + 5,
    )
    .unwrap();
    let e = registry.get(&id).unwrap();
    assert_eq!(e.kind, DownloadKind::Hls);
    assert_eq!(e.target_path, "index.m3u8.ts");
    assert_eq!(quality_of(&e), "high");
    assert_eq!(concurrency_of(&e), 5);
    let plain = DownloadEntry::new_hls("1".into(), "u".into(), "p".into(), None, None);
    assert_eq!(quality_of(&plain), "best");
    assert_eq!(concurrency_of(&plain), 8);
}

#[test]
fn segments_are_fetched_once_and_in_bounds() {
    let urls: Vec<String> = (0..5).map(|i| format!("s{i}")).collect();
    let mut run = StreamRun::new(urls, &vec![1, 1], 2);
    assert_eq!(run.completed, vec![1]);
    assert_eq!(run.next_action(), StreamAction::Fetch(0));
    assert_eq!(run.next_action(), StreamAction::Fetch(2));
    assert_eq!(run.next_action(), StreamAction::Join);
    run.finish_segment(2);
    assert_eq!(run.next_action(), StreamAction::Fetch(3));
    run.finish_segment(0);
    run.finish_segment(3);
    assert_eq!(run.progress(), 4);
    assert_eq!(run.next_action(), StreamAction::Fetch(4));
    assert_eq!(run.next_action(), StreamAction::Join);
    run.finish_segment(4);
    assert_eq!(run.next_action(), StreamAction::Concatenate);
}

#[test]
fn stream_snapshots_are_read_back() {
    let mut run = StreamRun::new(vec!["é".to_string(), "b".to_string()], &vec![], 1);
    assert_eq!(run.next_action(), StreamAction::Fetch(0));
    run.finish_segment(0);
    let bytes = run.save_snapshot();
    let mut expected: Vec<u8> = 2u64.to_le_bytes().to_vec();
    expected.extend_from_slice(&2u64.to_le_bytes());
    expected.extend_from_slice("é".as_bytes());
    expected.extend_from_slice(&1u64.to_le_bytes());
    expected.push(b'b');
    expected.extend_from_slice(&1u64.to_le_bytes());
    expected.extend_from_slice(&0u64.to_le_bytes());
    assert_eq!(bytes, expected);
    let snap = load_snapshot(&bytes).unwrap();
    assert_eq!(snap.segment_urls, vec!["é", "b"]);
    assert_eq!(snap.completed, vec![0]);
    assert_eq!(completed_before(Some(bytes.as_slice())), vec![0]);
    assert!(completed_before(Some(&[1u8, 2][..])).is_empty());
    assert!(completed_before(None).is_empty());
    assert!(load_snapshot(&[9]).is_none());
}

#[test]
fn segments_are_joined_in_order() {
    let parts = vec![
        Segment { index: 2, data: vec![5, 6] },
        Segment { index: 0, data: vec![1] },
        Segment { index: 1, data: vec![] },
    ];
    let sorted = sort_segments(parts);
    assert_eq!(sorted.iter().map(|s| s.index).collect::<Vec<_>>(), vec![0, 1, 2]);
    assert_eq!(assemble(&sorted), vec![1, 5, 6]);
    let twice = vec![
        Segment { index: 3, data: vec![1] },
        Segment { index: 2, data: vec![2] },
        Segment { index: 3, data: vec![3] },
        Segment { index: 2, data: vec![4] },
    ];
    assert_eq!(assemble(&sort_segments(twice)), vec![2, 4, 1, 3]);
}

#[test]
fn stream_files_stand_beside_the_target() {
    assert_eq!(snapshot_path("d/show.ts"), "d/show.hls.warp");
    assert_eq!(part_name(7), "000007.part");
    assert_eq!(part_name(12_345_678), "12345678.part");
    assert_eq!(parts_dir("d/show.ts"), "d/show.hls_parts");
    assert_eq!(concat_path("d/show.ts"), "d/show.hlspart");
}
