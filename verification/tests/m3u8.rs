use anime_dl::m3u8::{
    assemble_streams, check_stream_url, entries_from_captures, get_absolute_extension, get_parent_url,
    is_partial_url, master_entry, playlist_entries, resolve_link, M3u8Error, M3u8Stream,
};

fn stream(url: &str, quality: Option<&str>) -> M3u8Stream {
    M3u8Stream {
        url: url.to_string(),
        quality: quality.map(|q| q.to_string()),
        resolution: None,
        headers: Some(vec![("Referer".to_string(), "https://site".to_string())]),
    }
}

#[test]
fn parent_url_drops_query_and_last_segment() {
    assert_eq!(get_parent_url("https://cdn.x/a/b/master.m3u8?t=1/2"), "https://cdn.x/a/b");
    assert_eq!(get_parent_url("https://cdn.x/a/b/"), "https://cdn.x/a");
    assert_eq!(get_parent_url("master.m3u8"), "");
    assert_eq!(get_parent_url(""), "");
    assert_eq!(get_parent_url("/x"), "");
}

#[test]
fn parent_and_last_segment_rebuild_the_url() {
    let url = "https://cdn.x/a/b/index.m3u8";
    assert_eq!(format!("{}/{}", get_parent_url(url), "index.m3u8"), url);
}

#[test]
fn partial_urls() {
    assert!(is_partial_url("720p/index.m3u8"));
    assert!(!is_partial_url("http://a/b"));
    assert!(!is_partial_url("https://a/b"));
    assert!(!is_partial_url("://a/b"));
    assert_eq!(resolve_link("https://h/p", "v.m3u8"), "https://h/p/v.m3u8");
    assert_eq!(resolve_link("https://h/p", "https://o/v.m3u8"), "https://o/v.m3u8");
}

#[test]
fn absolute_extension() {
    assert_eq!(get_absolute_extension("https://x.y/a/master.m3u8?token=a.b"), Some("m3u8".to_string()));
    assert_eq!(get_absolute_extension("https://x.y/a/video.MP4"), Some("MP4".to_string()));
    assert_eq!(get_absolute_extension("https://x.y/a/b"), None);
    assert_eq!(get_absolute_extension("file.tar.gz"), Some("gz".to_string()));
}

#[test]
fn stream_url_check() {
    assert!(check_stream_url("https://a/b.m3u8").is_ok());
    assert!(check_stream_url("https://a/b.M3U8?x").is_ok());
    match check_stream_url("https://a/b.mp4") {
        Err(M3u8Error::UnsupportedFiletype(e)) => assert_eq!(e, "mp4"),
        other => panic!("{:?}", other),
    }
    assert!(matches!(check_stream_url("https://a/b"), Err(M3u8Error::MissingFiletype)));
}

#[test]
fn master_entry_defaults_quality() {
    let m = stream("https://a/master.m3u8", None);
    let e = master_entry(&m, None).unwrap();
    assert_eq!(e.quality.as_deref(), Some("Auto"));
    assert_eq!(e.url, m.url);
    assert_eq!(e.headers, m.headers);
    let e = master_entry(&stream("u.m3u8", Some("720")), Some(true)).unwrap();
    assert_eq!(e.quality.as_deref(), Some("720"));
    assert!(master_entry(&m, Some(false)).is_none());
}

#[test]
fn captures_become_entries() {
    let caps = vec![
        vec![Some("all".to_string()), Some("720".to_string()), Some("720/index.m3u8".to_string()), None],
        vec![Some("all".to_string()), None, None, Some("https://o/low.ts".to_string())],
        vec![Some("all".to_string()), None, None, None],
    ];
    let headers = Some(vec![("A".to_string(), "b".to_string())]);
    let es = entries_from_captures(&caps, "https://h/p", &headers);
    assert_eq!(es.len(), 2);
    assert_eq!(es[0].stream.url, "https://h/p/720/index.m3u8");
    assert_eq!(es[0].stream.quality.as_deref(), Some("720"));
    assert!(es[0].expand);
    assert_eq!(es[0].stream.headers, headers);
    assert_eq!(es[1].stream.url, "https://o/low.ts");
    assert_eq!(es[1].stream.quality, None);
    assert!(!es[1].expand);
}

#[test]
fn master_playlist_lists_its_variants() {
    let text = "#EXTM3U\n#EXT-X-STREAM-INF:BANDWIDTH=800000,RESOLUTION=640x360\n360/index.m3u8\n#EXT-X-STREAM-INF:BANDWIDTH=1400000,RESOLUTION=1280x720\nhttps://other.cdn/720/index.m3u8\n#EXT-X-STREAM-INF:BANDWIDTH=100\naudio.aac\n";
    let master = stream("https://cdn.x/show/master.m3u8?sig=1", None);
    let es = playlist_entries(text, &master).unwrap();
    assert_eq!(es.len(), 3);
    assert_eq!(es[0].stream.url, "https://cdn.x/show/360/index.m3u8");
    assert_eq!(es[0].stream.quality.as_deref(), Some("360"));
    assert!(es[0].expand);
    assert_eq!(es[1].stream.url, "https://other.cdn/720/index.m3u8");
    assert_eq!(es[1].stream.quality.as_deref(), Some("720"));
    assert_eq!(es[2].stream.url, "audio.aac");
    assert_eq!(es[2].stream.quality, None);
    assert!(!es[2].expand);
    assert!(es.iter().all(|e| e.stream.resolution.is_none() && e.stream.headers == master.headers));
}

#[test]
fn expanded_variants_come_before_their_entry() {
    let caps = vec![
        vec![Some("all".to_string()), Some("720".to_string()), Some("720/index.m3u8".to_string()), None],
        vec![Some("all".to_string()), None, None, Some("https://o/low.ts".to_string())],
    ];
    let entries = entries_from_captures(&caps, "https://h/p", &None);
    let expansions = vec![vec![stream("https://h/p/720/a.m3u8", Some("720a"))], vec![stream("ignored", None)]];
    let own = master_entry(&stream("https://h/p/master.m3u8", None), None);
    let r = assemble_streams(own, &entries, &expansions);
    let urls: Vec<&str> = r.iter().map(|s| s.url.as_str()).collect();
    assert_eq!(
        urls,
        vec!["https://h/p/master.m3u8", "https://h/p/720/a.m3u8", "https://h/p/720/index.m3u8", "https://o/low.ts"]
    );
    assert_eq!(r[0].quality.as_deref(), Some("Auto"));
    let none = assemble_streams(None, &entries, &vec![vec![], vec![]]);
    assert_eq!(none.len(), 2);
}
