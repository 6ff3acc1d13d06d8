use anime_dl::extractors::{all_direct, plan_unpack, unpack_round, Extractor, UnpackStep};
use anime_dl::providers::{Provider, ProviderError, PROVIDERS};
use anime_dl::self_test::{
    count_label, episodes_test_passed, found_label, name_gap, name_width, spaces, streams_suffix,
    streams_test_passed,
};
use anime_dl::terminal::{effective_verbosity, is_reported_error, log_enabled, LogLevel};
use anime_dl::types::StreamLink;

fn link(url: &str, direct: bool) -> StreamLink {
    StreamLink { title: "t".to_string(), url: url.to_string(), is_direct: direct, quality: None, headers: None }
}

#[test]
fn unpack_plan_by_host() {
    let streams = vec![
        link("https://goload.pro/streaming.php?id=1", false),
        link("https://cdn/x.m3u8", true),
        link("https://other.site/e/1", false),
        link("not a url", false),
    ];
    assert_eq!(
        plan_unpack(&streams),
        vec![UnpackStep::Extract(Extractor::Goload), UnpackStep::Keep, UnpackStep::Drop, UnpackStep::Drop]
    );
    assert!(!all_direct(&streams));
    assert!(all_direct(&vec![link("a", true)]));
    assert!(all_direct(&vec![]));
}

#[test]
fn providers_by_name() {
    assert_eq!(Provider::from_name("animeonsen").unwrap(), Provider::AnimeOnsen);
    assert_eq!(Provider::from_name("yugen").unwrap(), Provider::Yugen);
    match Provider::from_name("gogo") {
        Err(ProviderError::UnknownProvider(n)) => assert_eq!(n, "gogo"),
        other => panic!("{:?}", other),
    }
    for name in PROVIDERS {
        assert_eq!(Provider::from_name(name).unwrap().name(), name);
    }
}

#[test]
fn log_levels() {
    assert!(!log_enabled(0, LogLevel::Error));
    assert!(log_enabled(1, LogLevel::Error));
    assert!(!log_enabled(3, LogLevel::Debug));
    assert!(log_enabled(4, LogLevel::Debug));
    assert_eq!(LogLevel::Success.label(), "Success");
    assert_eq!(LogLevel::Error.label(), "Error");
    assert_eq!(effective_verbosity(0, 2), 2);
    assert_eq!(effective_verbosity(3, 2), 3);
    assert!(is_reported_error("NoEpisodesFound"));
    assert!(is_reported_error("NoSearchResults"));
    assert!(!is_reported_error("Other"));
}

#[test]
fn self_test_report_pieces() {
    assert_eq!(spaces(3), "   ");
    assert_eq!(name_width(&PROVIDERS), 10);
    assert_eq!(name_gap(10, 5), "      ");
    assert_eq!(count_label(5), " 5");
    assert_eq!(count_label(25), "25");
    assert_eq!(found_label(5, 13), " 5");
    assert_eq!(found_label(13, 13), "13");
    assert_eq!(streams_suffix(1), " ");
    assert_eq!(streams_suffix(0), "s");
    assert!(episodes_test_passed(13, 13));
    assert!(!episodes_test_passed(12, 13));
    assert!(streams_test_passed(1));
    assert!(!streams_test_passed(0));
}

#[test]
fn unpacking_direct_streams_changes_nothing() {
    let streams = vec![link("https://cdn/a.m3u8", true), link("https://cdn/b.mp4", true)];
    let extracted = vec![vec![link("https://x/y", true)], vec![]];
    let r = unpack_round(&streams, &extracted);
    let urls: Vec<&str> = r.iter().map(|s| s.url.as_str()).collect();
    assert_eq!(urls, vec!["https://cdn/a.m3u8", "https://cdn/b.mp4"]);
    assert!(all_direct(&r));
    let again = unpack_round(&r, &vec![vec![], vec![]]);
    assert_eq!(again.len(), 2);
    assert_eq!(again[1].url, "https://cdn/b.mp4");
}

#[test]
fn unpack_round_replaces_embeds() {
    let streams = vec![
        link("https://goload.pro/streaming.php?id=1", false),
        link("https://cdn/x.m3u8", true),
        link("https://other.site/e/1", false),
        link("not a url", false),
    ];
    let extracted = vec![
        vec![link("https://g/1.m3u8", true), link("https://g/2", false)],
        vec![link("ignored", true)],
        vec![link("ignored", true)],
        vec![],
    ];
    let r = unpack_round(&streams, &extracted);
    let urls: Vec<&str> = r.iter().map(|s| s.url.as_str()).collect();
    assert_eq!(urls, vec!["https://g/1.m3u8", "https://g/2", "https://cdn/x.m3u8"]);
    assert!(!all_direct(&r));
}
