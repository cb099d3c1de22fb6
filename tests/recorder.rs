use bili_shadow_replay::cadence::{next_step, LoopAction, LoopEvent, LoopPhase, CYCLE_SECS, OFFLINE_POLL_SECS};
use bili_shadow_replay::clip::plan_clip;
use bili_shadow_replay::cookies::parse_account_cookies;
use bili_shadow_replay::db::{after_record_insert, expect_one_row, DatabaseError, InsertFollowUp, RecordRow};
use bili_shadow_replay::fetch::{
    extract_timestamp, header_step, is_not_found, last_line_of, read_playlist, segment_url,
    timestamp_from_digits, HeaderStep, PlaylistDoc,
};
use bili_shadow_replay::listing::fs_entries;
use bili_shadow_replay::playlist::archive_m3u8_of;
use bili_shadow_replay::segment::{DirFile, Fetch, RecorderError, StreamType, TsEntry};
use bili_shadow_replay::session::{work_dir, Notice, RoomStatus, BiliRecorder};
use bili_shadow_replay::text::{last_component_of, parse_u64, push_decimal};

const BASE: &str = "https://cdn.example.com/live/abc/index.m3u8?expires=1";

fn live_session() -> BiliRecorder {
    let mut s = BiliRecorder::new(42, true, Some((BASE.to_string(), StreamType::FMP4)));
    s.timestamp = 1700000000;
    s
}

fn fetched(seq: u64, size: Option<u64>) -> Fetch {
    Fetch {
        sequence: seq,
        url: format!("https://cdn.example.com/live/abc/{}.m4s", seq),
        path: format!("/cache/42/1700000000/{}.m4s", seq),
        size,
    }
}

fn seqs(s: &BiliRecorder) -> Vec<u64> {
    s.entries.iter().map(|e| e.sequence).collect()
}

fn file(name: &str, size: u64) -> DirFile {
    DirFile { name: name.to_string(), size }
}

#[test]
fn decimal_rendering() {
    let mut out = String::from("n=");
    push_decimal(&mut out, 0);
    push_decimal(&mut out, 1234567890);
    assert_eq!(out, "n=01234567890");
    let mut max = String::new();
    push_decimal(&mut max, u64::MAX);
    assert_eq!(max, "18446744073709551615");
}

#[test]
fn digit_parsing() {
    let d: Vec<char> = "1700000000".chars().collect();
    assert_eq!(parse_u64(&d), Some(1700000000));
    let big: Vec<char> = "18446744073709551616".chars().collect();
    assert_eq!(parse_u64(&big), None);
    let bad: Vec<char> = "12a".chars().collect();
    assert_eq!(parse_u64(&bad), None);
    assert_eq!(parse_u64(&[]), None);
}

#[test]
fn last_component_of_path() {
    assert_eq!(last_component_of("a/b/c.m4s"), "c.m4s");
    assert_eq!(last_component_of("plain"), "plain");
    assert_eq!(last_component_of("dir/"), "");
}

#[test]
fn segment_url_resolution() {
    let u = segment_url(BASE, "7.m4s").unwrap();
    assert_eq!(u, "https://cdn.example.com/live/abc/7.m4s");
    let twice = segment_url("a/index.m3u8/b/index.m3u8", "x").unwrap();
    assert_eq!(twice, "a/index.m3u8/b/x");
    match segment_url("https://cdn.example.com/live.m3u8", "7.m4s") {
        Err(RecorderError::InvalidM3u8Url { url }) => {
            assert_eq!(url, "https://cdn.example.com/live.m3u8")
        }
        _ => panic!("expected an invalid-url error"),
    }
}

#[test]
fn timestamp_extraction() {
    assert_eq!(extract_timestamp("h1700000000.m4s").unwrap(), 1700000000);
    assert_eq!(extract_timestamp("live/h123.m4s?x=1").unwrap(), 123);
    assert!(matches!(extract_timestamp("header.m4s"), Err(RecorderError::InvalidTimestamp)));
    assert!(matches!(extract_timestamp("h0.m4s"), Err(RecorderError::InvalidTimestamp)));
    assert!(matches!(
        extract_timestamp("h99999999999999999999.m4s"),
        Err(RecorderError::InvalidTimestamp)
    ));
    assert!(matches!(timestamp_from_digits(""), Err(RecorderError::InvalidTimestamp)));
}

#[test]
fn header_steps() {
    assert!(matches!(header_step("<html>Not Found</html>"), HeaderStep::Recheck));
    match header_step("#EXTM3U\n#EXT-X-STREAM-INF:BANDWIDTH=1\nhttps://x/a/index.m3u8\n") {
        HeaderStep::Follow { url } => assert_eq!(url, "https://x/a/index.m3u8"),
        _ => panic!("expected a variant to follow"),
    }
    let doc = "#EXTM3U\n#EXT-X-MAP:URI=\"h1700000000.m4s\"\n#EXTINF:1,\n100.m4s\n";
    match header_step(doc) {
        HeaderStep::Found { header_ref } => assert_eq!(header_ref, "h1700000000.m4s"),
        _ => panic!("expected the header reference"),
    }
    assert!(matches!(header_step("#EXTM3U\n#EXTINF:1,\n100.ts\n"), HeaderStep::Missing));
    assert!(is_not_found("404 Not Found"));
    assert!(!is_not_found("#EXTM3U"));
}

#[test]
fn last_line_handling() {
    assert_eq!(last_line_of("a\nb\n"), "b");
    assert_eq!(last_line_of("a\r\nb\r\n"), "b");
    assert_eq!(last_line_of("a\n\n"), "");
    assert_eq!(last_line_of("only"), "only");
}

#[test]
fn playlist_parsing() {
    let doc = "#EXTM3U\n#EXT-X-VERSION:6\n#EXT-X-TARGETDURATION:1\n#EXT-X-MEDIA-SEQUENCE:100\n#EXTINF:1.0,\n100.m4s\n#EXTINF:1.0,\n101.m4s\n";
    match read_playlist(doc) {
        Ok(PlaylistDoc::Media { media_sequence, uris }) => {
            assert_eq!(media_sequence, 100);
            assert_eq!(uris, vec!["100.m4s".to_string(), "101.m4s".to_string()]);
        }
        _ => panic!("expected a media playlist"),
    }
    let master = "#EXTM3U\n#EXT-X-STREAM-INF:BANDWIDTH=1280000\nhttps://x/low/index.m3u8\n";
    assert!(matches!(read_playlist(master), Ok(PlaylistDoc::Master)));
    assert!(matches!(read_playlist("garbage"), Err(RecorderError::M3u8ParseFailed)));
}

#[test]
fn plan_skips_seen_sequences() {
    let mut s = live_session();
    s.ingest(&vec![fetched(100, Some(10)), fetched(101, Some(10))]);
    let uris: Vec<String> = (100..104).map(|i| format!("{}.m4s", i)).collect();
    let plan = s.plan_segments("/cache", 100, &uris).unwrap();
    let planned: Vec<u64> = plan.iter().map(|f| f.sequence).collect();
    assert_eq!(planned, vec![102, 103]);
    assert_eq!(plan[0].url, "https://cdn.example.com/live/abc/102.m4s");
    assert_eq!(plan[0].path, "/cache/42/1700000000/102.m4s");
    assert!(plan[0].size.is_none());
    let mut bad = live_session();
    bad.m3u8_url = "https://x/live.m3u8".to_string();
    assert!(matches!(
        bad.plan_segments("/cache", 0, &uris),
        Err(RecorderError::InvalidM3u8Url { .. })
    ));
    assert_eq!(bad.plan_segments("/cache", 0, &Vec::new()).unwrap().len(), 0);
}

#[test]
fn redelivery_never_duplicates() {
    let mut s = live_session();
    s.ingest(&vec![fetched(1, Some(5)), fetched(2, Some(5)), fetched(3, Some(5))]);
    s.ingest(&vec![fetched(2, Some(5)), fetched(3, Some(5)), fetched(4, Some(5))]);
    s.ingest(&vec![fetched(4, Some(5)), fetched(3, Some(5))]);
    assert_eq!(seqs(&s), vec![1, 2, 3, 4]);
    assert_eq!(s.cache_size, 20);
    assert_eq!(s.last_sequence, 4);
}

#[test]
fn failed_download_is_not_cached() {
    let mut s = live_session();
    s.ingest(&vec![fetched(1, Some(5)), fetched(2, None), fetched(3, Some(7))]);
    assert_eq!(seqs(&s), vec![1, 3]);
    assert_eq!(s.cache_size, 12);
    assert_eq!(s.last_sequence, 3);
}

#[test]
fn byte_counter_saturates() {
    let mut s = live_session();
    s.ingest(&vec![fetched(1, Some(u64::MAX)), fetched(2, Some(9))]);
    assert_eq!(s.cache_size, u64::MAX);
}

#[test]
fn restore_then_ingest_equals_continuous() {
    let mut continuous = live_session();
    continuous.ingest(&vec![fetched(10, Some(3)), fetched(11, Some(4))]);
    continuous.ingest(&vec![fetched(11, Some(4)), fetched(12, Some(5))]);

    let mut resumed = live_session();
    resumed.restore(&vec![file("11.m4s", 4), file("h1700000000.m4s", 99), file("10.m4s", 3)]);
    assert_eq!(resumed.last_sequence, 11);
    resumed.ingest(&vec![fetched(11, Some(4)), fetched(12, Some(5))]);

    assert_eq!(seqs(&continuous), seqs(&resumed));
    assert_eq!(continuous.entries.len(), resumed.entries.len());
    assert_eq!(continuous.cache_size, resumed.cache_size);
    assert_eq!(continuous.last_sequence, resumed.last_sequence);
}

#[test]
fn restore_from_empty_directory_changes_nothing() {
    let mut s = live_session();
    s.ingest(&vec![fetched(1, Some(5))]);
    s.restore(&vec![file("h1.m4s", 3), file("notes.txt", 1)]);
    assert_eq!(seqs(&s), vec![1]);
    assert_eq!(s.cache_size, 5);
}

#[test]
fn directory_listing_is_sorted_and_deduplicated() {
    let es = fs_entries(&vec![
        file("12.m4s", 1),
        file("h1700000000.m4s", 9),
        file("3.m4s", 2),
        file("12.ts", 3),
        file("x.m4s", 4),
        file("7", 5),
    ]);
    let got: Vec<(u64, String, u64)> = es.iter().map(|e| (e.sequence, e.url.clone(), e.size)).collect();
    assert_eq!(
        got,
        vec![(3, "3.m4s".to_string(), 2), (7, "7".to_string(), 5), (12, "12.m4s".to_string(), 1)]
    );
}

#[test]
fn discontinuity_example() {
    let mut s = live_session();
    s.ingest(&vec![fetched(5, Some(1)), fetched(6, Some(1)), fetched(8, Some(1))]);
    let p = s.generate_live_m3u8();
    assert_eq!(p.matches("#EXT-X-DISCONTINUITY").count(), 1);
    assert!(p.contains("/42/1700000000/6.m4s\n#EXT-X-DISCONTINUITY\n#EXTINF:1,\n/42/1700000000/8.m4s\n"));
}

#[test]
fn live_playlist_turns_vod_when_offline() {
    let mut s = live_session();
    s.set_header("https://cdn.example.com/live/abc/h1700000000.m4s".to_string(), 100);
    s.ingest(&vec![fetched(1, Some(1)), fetched(2, Some(1))]);
    let live = s.generate_live_m3u8();
    let expected_media = "#EXT-X-MAP:URI=\"/42/1700000000/h1700000000.m4s\"\n#EXTINF:1,\n/42/1700000000/1.m4s\n#EXTINF:1,\n/42/1700000000/2.m4s\n";
    assert_eq!(
        live,
        format!("#EXTM3U\n#EXT-X-VERSION:6\n#EXT-X-TARGETDURATION:1\n#EXT-X-PLAYLIST-TYPE:EVENT\n{}", expected_media)
    );
    s.live_status = false;
    let ended = s.generate_live_m3u8();
    assert_eq!(
        ended,
        format!(
            "#EXTM3U\n#EXT-X-VERSION:6\n#EXT-X-TARGETDURATION:1\n#EXT-X-PLAYLIST-TYPE:VOD\n{}#EXT-X-ENDLIST",
            expected_media
        )
    );
}

#[test]
fn archive_playlist_from_listing() {
    let s = live_session();
    let files = vec![file("2.m4s", 1), file("h5.m4s", 1), file("1.m4s", 1), file("4.m4s", 1)];
    let p = s.generate_m3u8(5, &files);
    assert_eq!(
        p,
        "#EXTM3U\n#EXT-X-VERSION:6\n#EXT-X-TARGETDURATION:1\n#EXT-X-PLAYLIST-TYPE:VOD\n#EXT-X-MAP:URI=\"/42/5/h5.m4s\"\n#EXTINF:1,\n/42/5/1.m4s\n#EXTINF:1,\n/42/5/2.m4s\n#EXT-X-DISCONTINUITY\n#EXTINF:1,\n/42/5/4.m4s\n#EXT-X-ENDLIST"
    );
    let empty = archive_m3u8_of(42, 5, &Vec::new());
    assert!(empty.ends_with("#EXT-X-ENDLIST"));
}

fn five_entries() -> Vec<TsEntry> {
    (0..5).map(|i| TsEntry { url: format!("{}.m4s", i), sequence: i, size: 1 }).collect()
}

#[test]
fn clip_selects_inclusive_range() {
    let es = five_entries();
    let p = plan_clip("/c/42/5", Some("h5.m4s"), &es, 1, 3, "/out", 42, "5", "1019120000");
    assert_eq!(
        p.inputs,
        vec!["/c/42/5/h5.m4s", "/c/42/5/1.m4s", "/c/42/5/2.m4s", "/c/42/5/3.m4s"]
    );
    assert_eq!(
        p.args,
        "-i concat:/c/42/5/h5.m4s|/c/42/5/1.m4s|/c/42/5/2.m4s|/c/42/5/3.m4s| -c:v libx264 -c:a aac"
    );
    assert_eq!(p.output_file, "/out/[42]5_1019120000_2.0.mp4");
}

#[test]
fn clip_reversed_range_is_the_same() {
    let es = five_entries();
    let a = plan_clip("/c", None, &es, 1, 3, "/out", 1, "t", "s");
    let b = plan_clip("/c", None, &es, 3, 1, "/out", 1, "t", "s");
    assert_eq!(a.inputs, b.inputs);
    assert_eq!(a.args, b.args);
    assert_eq!(a.output_file, b.output_file);
    let beyond = plan_clip("/c", None, &es, 3, 100, "/out", 1, "t", "s");
    assert_eq!(beyond.inputs, vec!["/c/3.m4s", "/c/4.m4s"]);
    let past = plan_clip("/c", None, &es, 9, 100, "/out", 1, "t", "s");
    assert!(past.inputs.is_empty());
}

#[test]
fn live_clip_of_session() {
    let mut s = live_session();
    assert!(matches!(s.clip_live_range("/c", "title", 0, 1, "/out"), Err(RecorderError::EmptyCache)));
    s.ingest(&(0..5).map(|i| fetched(i + 1, Some(1))).collect());
    assert!(matches!(s.clip_live_range("/c", "title", 0, 1, "/out"), Err(RecorderError::EmptyHeader)));
    s.set_header("https://cdn.example.com/live/abc/h1700000000.m4s".to_string(), 1);
    let p = s.clip_live_range("/c", "A long room title", 3, 1, "/out").unwrap();
    assert_eq!(
        p.inputs,
        vec![
            "/c/42/1700000000/h1700000000.m4s",
            "/c/42/1700000000/2.m4s",
            "/c/42/1700000000/3.m4s",
            "/c/42/1700000000/4.m4s"
        ]
    );
    assert_eq!(p.output_file, format!("/out/[42]A lon_{}_2.0.mp4", p.stamp));
    let tail = s.clip("/c", "t", 1700000000, 2, "/out", &Vec::new()).unwrap();
    assert_eq!(tail.inputs.len(), 3);
    assert_eq!(tail.inputs[2], "/c/42/1700000000/5.m4s");
}

#[test]
fn archive_clip_of_empty_directory_fails() {
    let s = live_session();
    let r = s.clip_archive_range("/c", 5, &Vec::new(), 0, 3, "/out");
    assert!(matches!(r, Err(RecorderError::EmptyCache)));
    let only_header = s.clip_archive_range("/c", 5, &vec![file("h5.m4s", 1)], 0, 3, "/out");
    assert!(matches!(only_header, Err(RecorderError::EmptyCache)));
}

#[test]
fn archive_clip_of_session_directory() {
    let files = vec![file("4.m4s", 1), file("2.m4s", 1), file("3.m4s", 1), file("h5.m4s", 1)];
    let s = live_session();
    let p = s.clip_range("/c", "t", 5, 2, 0, "/out", &files).unwrap();
    assert_eq!(p.inputs, vec!["/c/42/5/h5.m4s", "/c/42/5/2.m4s", "/c/42/5/3.m4s", "/c/42/5/4.m4s"]);
    assert!(p.output_file.starts_with("/out/[42]5_"));
    assert!(p.output_file.ends_with("_2.0.mp4"));
}

#[test]
fn status_transitions() {
    let mut s = BiliRecorder::new(7, false, None);
    assert_eq!(s.m3u8_url, "");
    let (live, n) = s.on_status(RoomStatus::Reported {
        live: true,
        play: Some((BASE.to_string(), StreamType::FMP4)),
    });
    assert!(live);
    assert_eq!(n, Notice::LiveStarted);
    assert_eq!(s.m3u8_url, BASE);
    s.timestamp = 9;
    s.ingest(&vec![fetched(1, Some(3))]);
    let (live, n) = s.on_status(RoomStatus::Unreachable);
    assert!(live);
    assert_eq!(n, Notice::Quiet);
    assert_eq!(s.entries.len(), 1);
    let (live, n) = s.on_status(RoomStatus::Reported { live: false, play: None });
    assert!(!live);
    assert_eq!(n, Notice::LiveEnded);
    assert!(s.entries.is_empty());
    assert!(s.header.is_none());
    assert_eq!((s.timestamp, s.last_sequence, s.cache_size), (0, 0, 0));
    let (_, n) = s.on_status(RoomStatus::Reported { live: false, play: None });
    assert_eq!(n, Notice::Quiet);
}

#[test]
fn session_start_and_header() {
    let mut s = BiliRecorder::new(7, true, Some((BASE.to_string(), StreamType::FMP4)));
    assert!(s.needs_header());
    assert!(s.start_session("h0.m4s").is_err());
    assert_eq!(s.timestamp, 0);
    assert_eq!(s.start_session("h1700000000.m4s").unwrap(), 1700000000);
    assert_eq!(s.timestamp, 1700000000);
    s.set_header("u/h1700000000.m4s".to_string(), 10);
    s.set_header("u/other.m4s".to_string(), 20);
    assert_eq!(s.header.as_ref().unwrap().url, "u/h1700000000.m4s");
    assert_eq!(s.cache_size, 10);
    assert!(!s.needs_header());
    let ts = BiliRecorder::new(7, true, Some((BASE.to_string(), StreamType::TS)));
    assert!(!ts.needs_header());
}

#[test]
fn work_directory() {
    assert_eq!(work_dir("/cache", 42, 1700000000), "/cache/42/1700000000");
}

#[test]
fn duplicate_record_returns_existing() {
    let row = RecordRow {
        live_id: 1700000000,
        room_id: 42,
        title: "t".to_string(),
        length: 0,
        size: 0,
        created_at: "2024-01-01T00:00:00+00:00".to_string(),
    };
    match after_record_insert(row.clone(), None) {
        InsertFollowUp::Inserted { row: r } => assert_eq!(r.live_id, 1700000000),
        _ => panic!("expected the new row"),
    }
    let dup = Some("error returned from database: (code: 1555) UNIQUE constraint failed: records.live_id".to_string());
    match after_record_insert(row.clone(), dup) {
        InsertFollowUp::FetchExisting { room_id, live_id } => assert_eq!((room_id, live_id), (42, 1700000000)),
        _ => panic!("expected the stored row to be fetched"),
    }
    match after_record_insert(row, Some("disk I/O error".to_string())) {
        InsertFollowUp::Failed { err: DatabaseError::DBError { message } } => assert_eq!(message, "disk I/O error"),
        _ => panic!("expected the error"),
    }
}

#[test]
fn affected_rows() {
    assert!(expect_one_row(1).is_ok());
    assert!(matches!(expect_one_row(0), Err(DatabaseError::NotFoundError)));
    assert!(matches!(expect_one_row(2), Err(DatabaseError::NotFoundError)));
}

#[test]
fn cookies_identity() {
    let (uid, csrf) =
        parse_account_cookies("SESSDATA=x%2Cy; bili_jct=abc123; DedeUserID=456; sid=9").unwrap();
    assert_eq!((uid, csrf.as_str()), (456, "abc123"));
    let (uid, csrf) = parse_account_cookies("DedeUserID=+7;  bili_jct=z \t").unwrap();
    assert_eq!((uid, csrf.as_str()), (7, "z"));
    let (uid, csrf) = parse_account_cookies("bili_jct=;DedeUserID=12").unwrap();
    assert_eq!((uid, csrf.as_str()), (12, ""));
    assert!(matches!(
        parse_account_cookies("DedeUserID=456; other=1"),
        Err(DatabaseError::InvalidCookiesError)
    ));
    assert!(matches!(
        parse_account_cookies("bili_jct=abc; uid=4"),
        Err(DatabaseError::InvalidCookiesError)
    ));
    assert!(matches!(
        parse_account_cookies("bili_jct=abc; DedeUserID=4x"),
        Err(DatabaseError::InvalidCookiesError)
    ));
}

#[test]
fn header_reference_needs_digits() {
    match header_step("#EXTM3U\n#EXT-X-MAP:URI=\"hello.m4s\"\nh12.m4s\n") {
        HeaderStep::Found { header_ref } => assert_eq!(header_ref, "h12.m4s"),
        _ => panic!("expected the digit-named reference"),
    }
    assert!(matches!(header_step("#EXTM3U\n#EXT-X-MAP:URI=\"hello.m4s\"\n"), HeaderStep::Missing));
    assert!(matches!(header_step("#EXTM3U\nh.m4s\n"), HeaderStep::Missing));
    match header_step("x/h123.m4s.m4s") {
        HeaderStep::Found { header_ref } => assert_eq!(header_ref, "h123.m4s"),
        _ => panic!("expected the reference"),
    }
}

#[test]
fn relisted_segments_are_not_cached_twice() {
    let mut s = live_session();
    s.set_header("https://cdn.example.com/live/abc/h1700000000.m4s".to_string(), 1);
    s.ingest(&vec![fetched(3, Some(1)), fetched(4, Some(1)), fetched(5, Some(1))]);
    assert_eq!(s.last_sequence, 5);
    let uris: Vec<String> = vec!["4.m4s".into(), "5.m4s".into(), "6.m4s".into(), "7.m4s".into()];
    let mut plan = s.plan_segments("/cache", 4, &uris).unwrap();
    for f in plan.iter_mut() {
        f.size = Some(1);
    }
    s.ingest(&plan);
    assert_eq!(seqs(&s), vec![3, 4, 5, 6, 7]);
    assert_eq!(s.last_sequence, 7);
}

#[test]
fn offline_playlist_of_empty_cache_is_finished() {
    let mut s = live_session();
    s.live_status = false;
    let p = s.generate_live_m3u8();
    assert!(p.contains("#EXT-X-PLAYLIST-TYPE:VOD\n"));
    assert!(!p.contains("EVENT"));
    assert!(p.ends_with("#EXT-X-ENDLIST"));
}

fn media_lines(p: &str) -> Vec<String> {
    p.lines()
        .filter(|l| l.starts_with("#EXTINF") || l.starts_with('/') || l.starts_with("#EXT-X-DISCONTINUITY"))
        .map(|l| l.to_string())
        .collect()
}

#[test]
fn session_playlist_after_offline_lists_same_segments() {
    let mut s = live_session();
    s.ingest(&vec![fetched(1, Some(1)), fetched(2, Some(1)), fetched(4, Some(1))]);
    let live = s.generate_m3u8(1700000000, &Vec::new());
    assert!(live.contains("#EXT-X-PLAYLIST-TYPE:EVENT"));
    assert!(!live.contains("#EXT-X-ENDLIST"));
    let (_, notice) = s.on_status(RoomStatus::Reported { live: false, play: None });
    assert_eq!(notice, Notice::LiveEnded);
    let files = vec![file("h1700000000.m4s", 1), file("4.m4s", 1), file("1.m4s", 1), file("2.m4s", 1)];
    let ended = s.generate_m3u8(1700000000, &files);
    assert!(ended.contains("#EXT-X-PLAYLIST-TYPE:VOD"));
    assert!(ended.ends_with("#EXT-X-ENDLIST"));
    assert_eq!(media_lines(&live), media_lines(&ended));
}

#[test]
fn first_listed_file_wins() {
    let es = fs_entries(&vec![file("12.ts", 3), file("12.m4s", 1)]);
    assert_eq!(es.len(), 1);
    assert_eq!((es[0].url.as_str(), es[0].size), ("12.ts", 3));
}

#[test]
fn clip_range_reversed_in_both_modes() {
    let mut s = live_session();
    s.set_header("https://cdn.example.com/live/abc/h1700000000.m4s".to_string(), 1);
    s.ingest(&(0..5).map(|i| fetched(i + 1, Some(1))).collect());
    let a = s.clip_range("/c", "t", 1700000000, 3, 1, "/out", &Vec::new()).unwrap();
    let b = s.clip_range("/c", "t", 1700000000, 1, 3, "/out", &Vec::new()).unwrap();
    assert_eq!(a.inputs, b.inputs);
    assert_eq!(a.args, b.args);
    let files = vec![file("0.m4s", 1), file("1.m4s", 1), file("2.m4s", 1), file("h5.m4s", 1)];
    let c = s.clip_range("/c", "t", 5, 2, 0, "/out", &files).unwrap();
    let d = s.clip_range("/c", "t", 5, 0, 2, "/out", &files).unwrap();
    assert_eq!(c.inputs, d.inputs);
    assert!(d.output_file.ends_with("_2.0.mp4"));
}

#[test]
fn loop_steps() {
    assert_eq!(
        next_step(LoopPhase::Polling, LoopEvent::Status { live: false }),
        (LoopPhase::Polling, LoopAction::Poll { after_secs: OFFLINE_POLL_SECS })
    );
    assert_eq!(OFFLINE_POLL_SECS, 10);
    assert_eq!(CYCLE_SECS, 1);
    assert_eq!(
        next_step(LoopPhase::Polling, LoopEvent::Status { live: true }),
        (LoopPhase::Recording, LoopAction::Cycle { after_secs: 0 })
    );
    assert_eq!(
        next_step(LoopPhase::Recording, LoopEvent::CycleDone { ok: true }),
        (LoopPhase::Recording, LoopAction::Cycle { after_secs: 1 })
    );
    assert_eq!(
        next_step(LoopPhase::Recording, LoopEvent::CycleDone { ok: false }),
        (LoopPhase::Polling, LoopAction::Poll { after_secs: 0 })
    );
    assert_eq!(next_step(LoopPhase::Recording, LoopEvent::Quit), (LoopPhase::Stopped, LoopAction::Exit));
    assert_eq!(
        next_step(LoopPhase::Stopped, LoopEvent::Status { live: true }),
        (LoopPhase::Stopped, LoopAction::Exit)
    );
}
